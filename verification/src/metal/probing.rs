//! What is read of the machine.
use vstd::prelude::*;

#[allow(unused_imports)]
use crate::metal::resource::{
    counter_or_zero, find_line, find_text, first_place, free_pages_of, growth_bytes, line_end,
    quantity_of, second_piece, unit_of, without_marks, word_end, PagingActivity,
};
#[allow(unused_imports)]
use crate::text::{is_digit, is_white, occurs_at};

verus! {

proof fn lemma_line_end(t: Seq<char>, i: int)
    requires
        0 <= i <= t.len(),
    ensures
        i <= line_end(t, i) <= t.len(),
        line_end(t, i) < t.len() ==> t[line_end(t, i)] == '\n',
        forall|k: int| i <= k < line_end(t, i) ==> #[trigger] t[k] != '\n',
    decreases t.len() - i,
{
    if i < t.len() && t[i] != '\n' {
        lemma_line_end(t, i + 1);
    }
}

/// A line of a report that is found for a key starts with the key and is one
/// line of the report, without its break.
pub proof fn lines_start_with_their_key(t: Seq<char>, key: Seq<char>, i: int)
    requires
        0 <= i <= t.len(),
    ensures
        find_line(t, key, i) matches Some(line) ==> {
            &&& occurs_at(line, key, 0)
            &&& !line.contains('\n')
            &&& exists|a: int|
                i <= a <= a + line.len() <= t.len() && line == #[trigger] t.subrange(
                    a,
                    a + line.len(),
                )
        },
    decreases t.len() - i,
{
    if i < t.len() {
        let e = line_end(t, i);
        lemma_line_end(t, i);
        let stop = if i < e < t.len() && t[e - 1] == '\r' {
            e - 1
        } else {
            e
        };
        let line = t.subrange(i, stop);
        if occurs_at(line, key, 0) {
            assert(t.subrange(i, i + line.len()) =~= line);
            assert forall|k: int| 0 <= k < line.len() implies #[trigger] line[k] != '\n' by {
                assert(line[k] == t[i + k]);
            }
        } else if e < t.len() {
            lines_start_with_their_key(t, key, e + 1);
        }
    }
}

/// The first place of a letter from some place on, or the end.
pub proof fn first_places_are_first(s: Seq<char>, c: char, i: int)
    requires
        0 <= i <= s.len(),
    ensures
        i <= first_place(s, c, i) <= s.len(),
        first_place(s, c, i) < s.len() ==> s[first_place(s, c, i)] == c,
        forall|k: int| i <= k < first_place(s, c, i) ==> #[trigger] s[k] != c,
    decreases s.len() - i,
{
    if i < s.len() && s[i] != c {
        first_places_are_first(s, c, i + 1);
    }
}

/// A piece stands behind a line's first colon, at `a`, and reaches to the next
/// one or to the end.
pub open spec fn stands_behind(line: Seq<char>, a: int, piece: Seq<char>) -> bool {
    &&& 0 <= a && a + 1 + piece.len() <= line.len()
    &&& line[a] == ':' && piece == line.subrange(a + 1, a + 1 + piece.len())
    &&& a + 1 + piece.len() == line.len() || line[a + 1 + piece.len()] == ':'
    &&& forall|k: int| 0 <= k < a ==> #[trigger] line[k] != ':'
}

/// What stands behind a line's first colon reaches to the second, or to the end.
pub proof fn values_stand_behind_the_first_colon(line: Seq<char>)
    ensures
        second_piece(line) is None <==> !line.contains(':'),
        second_piece(line) matches Some(piece) ==> !piece.contains(':') && exists|a: int|
            #[trigger] stands_behind(line, a, piece),
{
    first_places_are_first(line, ':', 0);
    let a = first_place(line, ':', 0);
    if a < line.len() {
        assert(line.contains(':'));
        first_places_are_first(line, ':', a + 1);
        let b = first_place(line, ':', a + 1);
        let piece = line.subrange(a + 1, b);
        assert(line.subrange(a + 1, a + 1 + piece.len()) =~= piece);
        assert(stands_behind(line, a, piece));
        assert forall|k: int| 0 <= k < piece.len() implies #[trigger] piece[k] != ':' by {
            assert(piece[k] == line[a + 1 + k]);
        }
        assert(second_piece(line) == Some(piece));
        assert(!piece.contains(':'));
    }
}

/// Taking the marks out of a number takes out commas and dots and nothing else,
/// and what comes behind does not matter to what came before.
pub proof fn only_marks_are_taken_out(a: Seq<char>, b: Seq<char>)
    ensures
        !without_marks(a).contains(',') && !without_marks(a).contains('.'),
        !a.contains(',') && !a.contains('.') ==> without_marks(a) == a,
        without_marks(a + b) == without_marks(a) + without_marks(b),
    decreases a.len() + b.len(),
{
    if b.len() > 0 {
        only_marks_are_taken_out(a, b.drop_last());
        assert((a + b).drop_last() =~= a + b.drop_last());
        assert((a + b).last() == b.last());
        assert(without_marks(a + b) =~= without_marks(a) + without_marks(b));
    } else {
        assert(a + b =~= a);
        assert(without_marks(a) + without_marks(b) =~= without_marks(a));
        if a.len() > 0 {
            let front = a.drop_last();
            only_marks_are_taken_out(front, b);
            let x = a.last();
            if x != ',' && x != '.' {
                let w = without_marks(front);
                assert forall|k: int| 0 <= k < w.push(x).len() implies w.push(x)[k] != ','
                    && w.push(x)[k] != '.' by {
                    if k < w.len() {
                        assert(w.contains(w[k]));
                    }
                }
            }
            if !a.contains(',') && !a.contains('.') {
                assert(a[a.len() - 1] == x);
                assert forall|k: int| 0 <= k < front.len() implies front[k] != ',' && front[k]
                    != '.' by {
                    assert(a.contains(a[k]));
                }
                assert(front.push(x) =~= a);
            }
        }
    }
}

/// The pages that can be had are the free, the inactive and the speculative
/// ones together; none of them counts twice.
pub proof fn pages_that_can_be_had_add_up(t: Seq<char>)
    ensures
        free_pages_of(t) - counter_or_zero(t, "Pages free"@) - counter_or_zero(
            t,
            "Pages inactive"@,
        ) == counter_or_zero(t, "Pages speculative"@),
{
}

/// The growth of a counter is known where it did not go back; it is no bytes
/// where it stood still, and two growths in a row are one.
pub proof fn growths_add_up(a: u64, b: u64, c: u64, page_size: u64)
    requires
        a <= b <= c,
        (c - a) * page_size <= u64::MAX,
    ensures
        growth_bytes(a, a, page_size) == Some(0u64),
        growth_bytes(a, b, page_size) is Some && growth_bytes(b, c, page_size) is Some,
        growth_bytes(a, b, page_size)->0 + growth_bytes(b, c, page_size)->0 == growth_bytes(
            a,
            c,
            page_size,
        )->0,
        b < u64::MAX && page_size <= u64::MAX ==> growth_bytes(b, (b + 1) as u64, page_size)
            == Some(page_size),
        a < b ==> growth_bytes(b, a, page_size) is None,
{
    assert((b - a) * page_size + (c - b) * page_size == (c - a) * page_size) by (nonlinear_arith);
    assert(0 * page_size == 0 && 1 * page_size == page_size) by (nonlinear_arith);
    assert(0 <= (b - a) * page_size) by (nonlinear_arith)
        requires
            a <= b,
    ;
    assert(0 <= (c - b) * page_size) by (nonlinear_arith)
        requires
            b <= c,
    ;
}

/// Each unit is a thousand and twenty-four of the one below, in either case.
pub proof fn units_are_powers()
    ensures
        unit_of('K') == Some(1024u64),
        unit_of('M') == Some((1024 * unit_of('K')->0) as u64),
        unit_of('G') == Some((1024 * unit_of('M')->0) as u64),
        unit_of('k') == unit_of('K') && unit_of('m') == unit_of('M') && unit_of('g') == unit_of(
            'G',
        ),
{
}

/// A quantity is a number with its unit behind it, or with none where it ends in
/// a digit; no other word is one.
pub proof fn quantities_end_in_their_unit(number: Seq<char>, c: char)
    ensures
        unit_of(c) matches Some(u) ==> quantity_of(number.push(c)) == Some((number, u)),
        unit_of(c) is None && is_digit(c) ==> quantity_of(number.push(c)) == Some(
            (number.push(c), 1u64),
        ),
        unit_of(c) is None && !is_digit(c) ==> quantity_of(number.push(c)) is None,
        quantity_of(Seq::empty()) is None,
{
    assert(number.push(c).drop_last() =~= number);
}

/// A text is found where it first stands, or nowhere.
pub proof fn texts_are_found_where_they_stand(s: Seq<char>, needle: Seq<char>, i: int)
    requires
        0 <= i <= s.len(),
    ensures
        i <= find_text(s, needle, i) <= s.len(),
        find_text(s, needle, i) < s.len() ==> occurs_at(s, needle, find_text(s, needle, i)),
        forall|k: int| i <= k < find_text(s, needle, i) ==> !#[trigger] occurs_at(s, needle, k),
    decreases s.len() - i,
{
    if i < s.len() && !occurs_at(s, needle, i) {
        texts_are_found_where_they_stand(s, needle, i + 1);
    }
}

/// A word ends before the first white letter, or at the end.
pub proof fn words_end_at_white(s: Seq<char>, i: int)
    requires
        0 <= i <= s.len(),
    ensures
        i <= word_end(s, i) <= s.len(),
        word_end(s, i) < s.len() ==> is_white(s[word_end(s, i)]),
        forall|k: int| i <= k < word_end(s, i) ==> !is_white(#[trigger] s[k]),
    decreases s.len() - i,
{
    if i < s.len() && !is_white(s[i]) {
        words_end_at_white(s, i + 1);
    }
}

/// Paging presses where enough was paged or swapped out, and more of either
/// never presses less; what is not known does not press.
pub proof fn more_paging_presses_no_less(a: PagingActivity, b: PagingActivity)
    requires
        a.pageouts_delta_bytes matches Some(x) ==> (b.pageouts_delta_bytes matches Some(y) && x
            <= y),
        a.swapouts_delta_bytes matches Some(x) ==> (b.swapouts_delta_bytes matches Some(y) && x
            <= y),
    ensures
        a.pressing() ==> b.pressing(),
        a.pageouts_delta_bytes is None && a.swapouts_delta_bytes is None ==> !a.pressing(),
        a.pageouts_delta_bytes == Some(0u64) && a.swapouts_delta_bytes == Some(0u64)
            ==> !a.pressing(),
        a.pageouts_delta_bytes == Some(u64::MAX) ==> a.pressing(),
        a.swapouts_delta_bytes == Some(u64::MAX) ==> a.pressing(),
{
}

} // verus!
