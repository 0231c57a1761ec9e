//! What written numbers and names read as.
use vstd::prelude::*;

#[allow(unused_imports)]
use crate::model::qwen35::{free_after_slots, slot_ceiling};
#[allow(unused_imports)]
use crate::text::{
    all_digits, decimal, digits_value, extension_of, file_name_of, is_digit, is_white,
    last_place, parsed_number, trim_end_of, trim_of, trim_start_of,
};

verus! {

proof fn lemma_decimal_reads(n: nat)
    ensures
        decimal(n).len() > 0,
        all_digits(decimal(n)),
        digits_value(decimal(n)) == n,
    decreases n,
{
    if n < 10 {
        let s = decimal(n);
        assert(s.drop_last() =~= Seq::<char>::empty());
        assert(digits_value(s.drop_last()) == 0);
    } else {
        let front = decimal(n / 10);
        let s = decimal(n);
        lemma_decimal_reads(n / 10);
        assert(s.drop_last() =~= front);
        assert forall|i: int| 0 <= i < s.len() implies is_digit(#[trigger] s[i]) by {
            if i < front.len() {
                assert(s[i] == front[i]);
            }
        }
    }
}

/// A number that is written in decimal reads back as itself, with or without a
/// plus sign, as long as it is not over the limit; one that is over reads as
/// nothing.
pub proof fn decimals_read_back(n: nat, max: nat)
    ensures
        n <= max ==> parsed_number(decimal(n), max) == Some(n),
        n > max ==> parsed_number(decimal(n), max) is None,
        n <= max ==> parsed_number(seq!['+'] + decimal(n), max) == Some(n),
        parsed_number(Seq::empty(), max) is None,
{
    lemma_decimal_reads(n);
    let d = decimal(n);
    assert(is_digit(d[0]));
    let signed = seq!['+'] + d;
    assert(signed.skip(1) =~= d);
}

proof fn lemma_trim_start(s: Seq<char>)
    ensures
        trim_start_of(s).len() <= s.len(),
        trim_start_of(s) == s.skip(s.len() - trim_start_of(s).len()),
        trim_start_of(s).len() > 0 ==> !is_white(trim_start_of(s)[0]),
        forall|k: int| 0 <= k < s.len() - trim_start_of(s).len() ==> is_white(#[trigger] s[k]),
    decreases s.len(),
{
    if s.len() > 0 && is_white(s[0]) {
        let rest = s.skip(1);
        lemma_trim_start(rest);
        let t = trim_start_of(rest);
        assert(trim_start_of(s) == t);
        assert(rest.skip(rest.len() - t.len()) =~= s.skip(s.len() - t.len()));
        assert forall|k: int| 0 <= k < s.len() - t.len() implies is_white(#[trigger] s[k]) by {
            if k > 0 {
                assert(s[k] == rest[k - 1]);
            }
        }
    } else {
        assert(s.skip(0) =~= s);
    }
}

proof fn lemma_trim_end(s: Seq<char>)
    ensures
        trim_end_of(s).len() <= s.len(),
        trim_end_of(s) == s.take(trim_end_of(s).len() as int),
        trim_end_of(s).len() > 0 ==> !is_white(trim_end_of(s).last()),
        forall|k: int| trim_end_of(s).len() <= k < s.len() ==> is_white(#[trigger] s[k]),
    decreases s.len(),
{
    if s.len() > 0 && is_white(s.last()) {
        let rest = s.drop_last();
        lemma_trim_end(rest);
        let t = trim_end_of(rest);
        assert(trim_end_of(s) == t);
        assert(rest.take(t.len() as int) =~= s.take(t.len() as int));
        assert forall|k: int| t.len() <= k < s.len() implies is_white(#[trigger] s[k]) by {
            if k < s.len() - 1 {
                assert(s[k] == rest[k]);
            }
        }
    } else {
        assert(s.take(s.len() as int) =~= s);
    }
}

/// Trimming a text takes away the white letters at its ends and nothing else:
/// what is left has none there, and stands in the text as it was.
pub proof fn trimming_takes_only_white(s: Seq<char>)
    ensures
        trim_of(s).len() > 0 ==> !is_white(trim_of(s)[0]) && !is_white(trim_of(s).last()),
        exists|a: int, b: int| #[trigger] trimmed_to(s, a, b) && trim_of(s) == s.subrange(a, b),
{
    lemma_trim_start(s);
    let f = trim_start_of(s);
    lemma_trim_end(f);
    let t = trim_of(s);
    let a = s.len() - f.len();
    let b = a + t.len();
    assert(t =~= s.subrange(a, b));
    assert forall|k: int| 0 <= k < a || b <= k < s.len() implies is_white(#[trigger] s[k]) by {
        if b <= k {
            assert(s[k] == f[k - a]);
        }
    }
    if t.len() > 0 {
        assert(t[0] == f[0]);
    }
    assert(trimmed_to(s, a, b));
}

/// Outside two places a text is white.
pub open spec fn trimmed_to(s: Seq<char>, a: int, b: int) -> bool {
    &&& 0 <= a <= b <= s.len()
    &&& forall|k: int| 0 <= k < a || b <= k < s.len() ==> is_white(#[trigger] s[k])
}

/// The last place of a letter before some place holds it, and no place behind
/// does; there is none where no place holds it.
pub proof fn last_places_are_last(s: Seq<char>, c: char, n: int)
    requires
        0 <= n <= s.len(),
    ensures
        -1 <= last_place(s, c, n) < n || n == 0,
        n == 0 ==> last_place(s, c, n) == -1,
        last_place(s, c, n) >= 0 ==> s[last_place(s, c, n)] == c,
        forall|k: int| last_place(s, c, n) < k < n ==> #[trigger] s[k] != c,
    decreases n,
{
    if n > 0 && s[n - 1] != c {
        last_places_are_last(s, c, n - 1);
    }
}

/// An extension stands behind the last dot of a file name, and something stands
/// before that dot.
pub proof fn extensions_stand_behind_the_last_dot(p: Seq<char>)
    ensures
        extension_of(p) matches Some(e) ==> {
            let name = file_name_of(p);
            let d = name.len() - e.len() - 1;
            &&& d > 0
            &&& name[d] == '.'
            &&& e == name.skip(d + 1)
            &&& !e.contains('.')
        },
        !file_name_of(p).contains('.') ==> extension_of(p) is None,
{
    let name = file_name_of(p);
    let n = name.len() as int;
    last_places_are_last(name, '.', n);
    let d = last_place(name, '.', n);
    if d > 0 {
        let e = name.skip(d + 1);
        assert forall|k: int| 0 <= k < e.len() implies e[k] != '.' by {
            assert(e[k] == name[k + d + 1]);
        }
    }
}

/// Every slot takes what it is granted: one slot more leaves as much less, until
/// nothing is left; none takes nothing.
pub proof fn slots_take_what_they_are_granted(free: nat, per_slot: nat, workspace: nat, n: nat)
    requires
        (per_slot + workspace) * (n + 1) <= free,
        free <= usize::MAX,
    ensures
        free_after_slots(free, per_slot, workspace, 0) == free,
        free_after_slots(free, per_slot, workspace, n) - free_after_slots(
            free,
            per_slot,
            workspace,
            n + 1,
        ) == per_slot + workspace,
{
    let g = per_slot + workspace;
    assert(g * (n + 1) == g * n + g) by (nonlinear_arith);
    assert(g * n >= 0 && g <= g * (n + 1) && g * 0 == 0) by (nonlinear_arith);
}

/// No more slots are planned than were asked for and can be afforded, and as
/// many as that; at least one counts as asked for.
pub proof fn slots_are_those_asked_for_and_afforded(requested: nat, affordable: Option<usize>)
    ensures
        ({
            let n = slot_ceiling(requested, affordable);
            &&& affordable matches Some(a) ==> n <= a
            &&& requested >= 1 ==> n <= requested
            &&& affordable is None && 1 <= requested <= usize::MAX ==> n == requested
            &&& affordable matches Some(a) ==> n == a || n == requested || (requested == 0 && n
                == 1)
        }),
{
}

} // verus!
