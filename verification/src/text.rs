//! Text building: decimal numbers and joined pieces.
use vstd::prelude::*;
use vstd::string::*;

verus! {

pub open spec fn digit_char(d: nat) -> char {
    if d == 0 {
        '0'
    } else if d == 1 {
        '1'
    } else if d == 2 {
        '2'
    } else if d == 3 {
        '3'
    } else if d == 4 {
        '4'
    } else if d == 5 {
        '5'
    } else if d == 6 {
        '6'
    } else if d == 7 {
        '7'
    } else if d == 8 {
        '8'
    } else {
        '9'
    }
}

/// A number in decimal, without leading zeros.
pub open spec fn decimal(n: nat) -> Seq<char>
    decreases n,
{
    if n < 10 {
        seq![digit_char(n)]
    } else {
        decimal(n / 10).push(digit_char(n % 10))
    }
}

fn digit_str(d: u64) -> (s: &'static str)
    requires
        d < 10,
    ensures
        s@ == seq![digit_char(d as nat)],
{
    proof {
        reveal_strlit("0");
        reveal_strlit("1");
        reveal_strlit("2");
        reveal_strlit("3");
        reveal_strlit("4");
        reveal_strlit("5");
        reveal_strlit("6");
        reveal_strlit("7");
        reveal_strlit("8");
        reveal_strlit("9");
    }
    let s: &'static str = if d == 0 {
        "0"
    } else if d == 1 {
        "1"
    } else if d == 2 {
        "2"
    } else if d == 3 {
        "3"
    } else if d == 4 {
        "4"
    } else if d == 5 {
        "5"
    } else if d == 6 {
        "6"
    } else if d == 7 {
        "7"
    } else if d == 8 {
        "8"
    } else {
        "9"
    };
    assert(s@ =~= seq![digit_char(d as nat)]);
    s
}

/// A number in decimal.
pub fn decimal_string(n: u64) -> (s: String)
    ensures
        s@ == decimal(n as nat),
    decreases n,
{
    if n < 10 {
        String::from_str(digit_str(n))
    } else {
        let mut s: String = decimal_string(n / 10);
        s.append(digit_str(n % 10));
        assert(s@ =~= decimal(n as nat));
        s
    }
}

proof fn lemma_digit_char_injective(a: nat, b: nat)
    requires
        a < 10,
        b < 10,
        digit_char(a) == digit_char(b),
    ensures
        a == b,
{
}

/// Different numbers have different decimals.
pub proof fn decimal_is_injective(a: nat, b: nat)
    requires
        decimal(a) == decimal(b),
    ensures
        a == b,
    decreases a,
{
    lemma_decimal_len(a);
    lemma_decimal_len(b);
    assert(decimal(a).last() == digit_char(a % 10));
    assert(decimal(b).last() == digit_char(b % 10));
    lemma_digit_char_injective(a % 10, b % 10);
    if a >= 10 && b >= 10 {
        assert(decimal(a).drop_last() =~= decimal(a / 10));
        assert(decimal(b).drop_last() =~= decimal(b / 10));
        decimal_is_injective(a / 10, b / 10);
    } else {
        if a >= 10 {
            lemma_decimal_len(a / 10);
            assert(decimal(a).len() > 1);
        }
        if b >= 10 {
            lemma_decimal_len(b / 10);
            assert(decimal(b).len() > 1);
        }
    }
}

proof fn lemma_decimal_len(n: nat)
    ensures
        decimal(n).len() >= 1,
    decreases n,
{
    if n >= 10 {
        lemma_decimal_len(n / 10);
    }
}

/// Whether two texts are the same.
pub fn same_text(a: &str, b: &str) -> (same: bool)
    ensures
        same == (a@ == b@),
{
    let x: String = String::from_str(a);
    let y: String = String::from_str(b);
    x == y
}

/// The characters of a text.
pub fn to_chars(s: &str) -> (out: Vec<char>)
    ensures
        out@ == s@,
{
    let mut out: Vec<char> = Vec::new();
    for c in it: s.chars()
        invariant
            out@ == it.seq().take(it.index() as int),
            it.seq() == s@,
    {
        out.push(c);
        assert(it.seq().take(it.index() as int + 1) =~= it.seq().take(it.index() as int).push(c));
    }
    assert(s@.take(s@.len() as int) =~= s@);
    out
}

/// Whether `needle` stands in `hay` at place `i`.
pub open spec fn occurs_at(hay: Seq<char>, needle: Seq<char>, i: int) -> bool {
    0 <= i && i + needle.len() <= hay.len() && hay.subrange(i, i + needle.len()) == needle
}

/// Whether `needle` stands anywhere in `hay`.
pub open spec fn occurs(hay: Seq<char>, needle: Seq<char>) -> bool {
    exists|i: int| #[trigger] occurs_at(hay, needle, i)
}

pub fn chars_at(hay: &[char], needle: &[char], i: usize) -> (r: bool)
    ensures
        r == occurs_at(hay@, needle@, i as int),
{
    if needle.len() > hay.len() || i > hay.len() - needle.len() {
        return false;
    }
    let mut j: usize = 0;
    let n: usize = needle.len();
    let total: usize = hay.len();
    while j < n
        invariant
            j <= n == needle@.len(),
            i + n <= total == hay@.len(),
            forall|k: int| 0 <= k < j ==> hay@[i + k] == needle@[k],
        decreases n - j,
    {
        if hay[i + j] != needle[j] {
            assert(hay@.subrange(i as int, i + n)[j as int] != needle@[j as int]);
            return false;
        }
        j = j + 1;
    }
    assert(hay@.subrange(i as int, i + n) =~= needle@);
    true
}

/// Whether `needle` stands anywhere in `hay`.
pub fn contains_text(hay: &str, needle: &str) -> (r: bool)
    ensures
        r == occurs(hay@, needle@),
{
    let h: Vec<char> = to_chars(hay);
    let n: Vec<char> = to_chars(needle);
    let mut i: usize = 0;
    while i < h.len()
        invariant
            i <= h@.len(),
            h@ == hay@,
            n@ == needle@,
            forall|k: int| 0 <= k < i ==> !#[trigger] occurs_at(h@, n@, k),
        decreases h@.len() - i,
    {
        if chars_at(h.as_slice(), n.as_slice(), i) {
            assert(occurs_at(h@, n@, i as int));
            return true;
        }
        i = i + 1;
    }
    let last: bool = chars_at(h.as_slice(), n.as_slice(), i);
    assert(forall|k: int| k > h@.len() ==> !#[trigger] occurs_at(h@, n@, k));
    last
}

/// Whether a text begins with `prefix`.
pub fn starts_with_text(s: &str, prefix: &str) -> (r: bool)
    ensures
        r == occurs_at(s@, prefix@, 0),
{
    let h: Vec<char> = to_chars(s);
    let n: Vec<char> = to_chars(prefix);
    chars_at(h.as_slice(), n.as_slice(), 0)
}

pub open spec fn is_digit(c: char) -> bool {
    '0' <= c && c <= '9'
}

/// The number that a run of digits stands for.
pub open spec fn digits_value(s: Seq<char>) -> nat
    decreases s.len(),
{
    if s.len() == 0 {
        0
    } else {
        digits_value(s.drop_last()) * 10 + (s.last() as int - '0' as int) as nat
    }
}

pub open spec fn all_digits(s: Seq<char>) -> bool {
    forall|i: int| 0 <= i < s.len() ==> is_digit(#[trigger] s[i])
}

/// An unsigned number in decimal, with an optional plus sign, up to `max`.
pub open spec fn parsed_number(s: Seq<char>, max: nat) -> Option<nat> {
    let body = if s.len() > 0 && s[0] == '+' {
        s.skip(1)
    } else {
        s
    };
    if body.len() > 0 && all_digits(body) && digits_value(body) <= max {
        Some(digits_value(body))
    } else {
        None
    }
}

proof fn lemma_digits_mono(s: Seq<char>, n: int)
    requires
        0 <= n <= s.len(),
        all_digits(s),
    ensures
        digits_value(s.take(n)) <= digits_value(s),
    decreases s.len(),
{
    if n < s.len() {
        assert(s.drop_last().take(n) =~= s.take(n));
        assert(all_digits(s.drop_last()));
        lemma_digits_mono(s.drop_last(), n);
        assert(is_digit(s[s.len() - 1]));
    } else {
        assert(s.take(n) =~= s);
    }
}

/// Reads an unsigned number up to `max`.
pub fn parse_number(s: &[char], max: u64) -> (r: Option<u64>)
    ensures
        match parsed_number(s@, max as nat) {
            Some(n) => r == Some(n as u64) && n <= max,
            None => r is None,
        },
{
    let from: usize = if s.len() > 0 && s[0] == '+' {
        1
    } else {
        0
    };
    let ghost body = if s@.len() > 0 && s@[0] == '+' {
        s@.skip(1)
    } else {
        s@
    };
    assert(body =~= s@.skip(from as int));
    if s.len() == from {
        return None;
    }
    let mut acc: u64 = 0;
    let mut i: usize = from;
    assert(body.take(0) =~= Seq::<char>::empty());
    while i < s.len()
        invariant
            from <= i <= s@.len(),
            body == s@.skip(from as int),
            body == (if s@.len() > 0 && s@[0] == '+' {
                s@.skip(1)
            } else {
                s@
            }),
            all_digits(body.take(i - from)),
            acc == digits_value(body.take(i - from)),
            acc <= max,
        decreases s@.len() - i,
    {
        let c: char = s[i];
        let ghost k = (i - from) as int;
        assert(body[k] == c);
        assert(body.take(k + 1).drop_last() =~= body.take(k));
        if !('0' <= c && c <= '9') {
            assert(!is_digit(body[k]));
            return None;
        }
        let d: u64 = (c as u32 - '0' as u32) as u64;
        let wide: u128 = acc as u128 * 10 + d as u128;
        assert(wide == digits_value(body.take(k + 1)));
        if wide > max as u128 {
            proof {
                if all_digits(body) {
                    lemma_digits_mono(body, k + 1);
                }
            }
            return None;
        }
        acc = wide as u64;
        assert(all_digits(body.take(k + 1))) by {
            assert forall|j: int| 0 <= j < k + 1 implies is_digit(
                #[trigger] body.take(k + 1)[j],
            ) by {
                if j < k {
                    assert(body.take(k)[j] == body[j]);
                }
            }
        }
        i = i + 1;
    }
    assert(body.take(i - from) =~= body);
    Some(acc)
}

/// White space, as Unicode has it.
pub open spec fn is_white(c: char) -> bool {
    ||| 0x9 <= c as int <= 0xd
    ||| c as int == 0x20
    ||| c as int == 0x85
    ||| c as int == 0xa0
    ||| c as int == 0x1680
    ||| 0x2000 <= c as int <= 0x200a
    ||| 0x2028 <= c as int <= 0x2029
    ||| c as int == 0x202f
    ||| c as int == 0x205f
    ||| c as int == 0x3000
}

/// Whether a character is white space.
pub fn is_white_space(c: char) -> (r: bool)
    ensures
        r == is_white(c),
{
    let n: u32 = c as u32;
    (0x9 <= n && n <= 0xd) || n == 0x20 || n == 0x85 || n == 0xa0 || n == 0x1680 || (0x2000 <= n
        && n <= 0x200a) || n == 0x2028 || n == 0x2029 || n == 0x202f || n == 0x205f || n == 0x3000
}

pub open spec fn trim_start_of(s: Seq<char>) -> Seq<char>
    decreases s.len(),
{
    if s.len() > 0 && is_white(s[0]) {
        trim_start_of(s.skip(1))
    } else {
        s
    }
}

pub open spec fn trim_end_of(s: Seq<char>) -> Seq<char>
    decreases s.len(),
{
    if s.len() > 0 && is_white(s.last()) {
        trim_end_of(s.drop_last())
    } else {
        s
    }
}

/// A text without the white space at its two ends.
pub open spec fn trim_of(s: Seq<char>) -> Seq<char> {
    trim_end_of(trim_start_of(s))
}

/// Takes the white space at both ends off.
pub fn trimmed(s: &str) -> (r: String)
    ensures
        r@ == trim_of(s@),
{
    let t: Vec<char> = to_chars(s);
    let mut a: usize = 0;
    assert(t@.skip(0) =~= t@);
    while a < t.len() && is_white_space(t[a])
        invariant
            a <= t@.len(),
            trim_start_of(t@) == trim_start_of(t@.skip(a as int)),
        decreases t@.len() - a,
    {
        assert(t@.skip(a as int).skip(1) =~= t@.skip(a + 1));
        a = a + 1;
    }
    let mut b: usize = t.len();
    let ghost u = t@.skip(a as int);
    assert(trim_start_of(t@) == u);
    assert(u.take(b - a) =~= u);
    while b > a && is_white_space(t[b - 1])
        invariant
            a <= b <= t@.len(),
            u == t@.skip(a as int),
            trim_end_of(u) == trim_end_of(u.take(b - a)),
        decreases b,
    {
        assert(u.take(b - a).drop_last() =~= u.take(b - 1 - a));
        b = b - 1;
    }
    let piece: &str = s.substring_char(a, b);
    assert(u.take(b - a) =~= s@.subrange(a as int, b as int));
    String::from_str(piece)
}

/// Where the last name of a path ends: slashes behind it, and dots that name
/// the directory itself, do not count.
pub open spec fn name_end(p: Seq<char>, n: int) -> int
    decreases n,
{
    if n <= 0 || n > p.len() {
        0
    } else if p[n - 1] == '/' || (p[n - 1] == '.' && (n == 1 || p[n - 2] == '/')) {
        name_end(p, n - 1)
    } else {
        n
    }
}

/// The last place of a character among the first `n`, or -1.
pub open spec fn last_place(s: Seq<char>, c: char, n: int) -> int
    decreases n,
{
    if n <= 0 || n > s.len() {
        -1
    } else if s[n - 1] == c {
        n - 1
    } else {
        last_place(s, c, n - 1)
    }
}

/// The last name of a path, which is empty where the path has none.
pub open spec fn file_name_of(p: Seq<char>) -> Seq<char> {
    let e = name_end(p, p.len() as int);
    p.subrange(last_place(p, '/', e) + 1, e)
}

/// The part behind the last dot of a path's file name. A name without a dot,
/// or with one only at its start, has none.
pub open spec fn extension_of(p: Seq<char>) -> Option<Seq<char>> {
    let name = file_name_of(p);
    let d = last_place(name, '.', name.len() as int);
    if d <= 0 || name == seq!['.', '.'] {
        None
    } else {
        Some(name.skip(d + 1))
    }
}

/// One past the last place of a character among the first `n`, or 0.
pub fn past_last(s: &[char], c: char, n: usize) -> (i: usize)
    requires
        n <= s@.len(),
    ensures
        i == last_place(s@, c, n as int) + 1,
        i <= n,
{
    let mut i: usize = n;
    while i > 0
        invariant
            i <= n <= s@.len(),
            last_place(s@, c, n as int) == last_place(s@, c, i as int),
        decreases i,
    {
        if s[i - 1] == c {
            return i;
        }
        i = i - 1;
    }
    0
}

/// The extension of a path's file name.
pub fn extension(path: &str) -> (r: Option<String>)
    ensures
        match (r, extension_of(path@)) {
            (Some(e), Some(s)) => e@ == s,
            (None, None) => true,
            _ => false,
        },
{
    let p: Vec<char> = to_chars(path);
    let mut e: usize = p.len();
    while e > 0 && (p[e - 1] == '/' || (p[e - 1] == '.' && (e == 1 || p[e - 2] == '/')))
        invariant
            e <= p@.len(),
            name_end(p@, p@.len() as int) == name_end(p@, e as int),
        decreases e,
    {
        e = e - 1;
    }
    let a: usize = past_last(p.as_slice(), '/', e);
    let name: &str = path.substring_char(a, e);
    let chars: Vec<char> = to_chars(name);
    let ghost n = file_name_of(path@);
    assert(chars@ == n);
    let total: usize = chars.len();
    let d: usize = past_last(chars.as_slice(), '.', total);
    if d <= 1 {
        return None;
    }
    if total == 2 && chars[0] == '.' && chars[1] == '.' {
        assert(n =~= seq!['.', '.']);
        return None;
    }
    assert(n != seq!['.', '.']) by {
        let dots = seq!['.', '.'];
        assert(dots[0] == '.' && dots[1] == '.');
    }
    let tail: &str = name.substring_char(d, total);
    assert(tail@ =~= n.skip(d as int));
    Some(String::from_str(tail))
}

/// Whether `a` comes before `b` where texts are ordered character by
/// character.
pub open spec fn text_before(a: Seq<char>, b: Seq<char>) -> bool
    decreases a.len(),
{
    if b.len() == 0 {
        false
    } else if a.len() == 0 {
        true
    } else if a[0] != b[0] {
        a[0] < b[0]
    } else {
        text_before(a.skip(1), b.skip(1))
    }
}

/// Compares two texts character by character.
pub fn is_before(a: &str, b: &str) -> (r: bool)
    ensures
        r == text_before(a@, b@),
{
    let x: Vec<char> = to_chars(a);
    let y: Vec<char> = to_chars(b);
    let mut i: usize = 0;
    assert(x@.skip(0) =~= x@);
    assert(y@.skip(0) =~= y@);
    while i < x.len() && i < y.len()
        invariant
            i <= x@.len(),
            i <= y@.len(),
            text_before(a@, b@) == text_before(x@.skip(i as int), y@.skip(i as int)),
        decreases x@.len() - i,
    {
        assert(x@.skip(i as int).skip(1) =~= x@.skip(i + 1));
        assert(y@.skip(i as int).skip(1) =~= y@.skip(i + 1));
        if x[i] != y[i] {
            return x[i] < y[i];
        }
        i = i + 1;
    }
    i < y.len()
}

/// The order of texts is total and never goes both ways.
pub proof fn text_order_is_total(a: Seq<char>, b: Seq<char>)
    ensures
        a == b || text_before(a, b) || text_before(b, a),
        !(text_before(a, b) && text_before(b, a)),
        !text_before(a, a),
    decreases a.len(),
{
    if a.len() > 0 && b.len() > 0 {
        text_order_is_total(a.skip(1), b.skip(1));
        if a[0] == b[0] && a.skip(1) == b.skip(1) {
            assert(a =~= seq![a[0]] + a.skip(1));
            assert(b =~= seq![b[0]] + b.skip(1));
        }
    } else if a.len() > 0 {
        text_order_is_total(a.skip(1), a.skip(1));
    } else {
        assert(b.len() == 0 ==> a =~= b);
    }
}

pub proof fn text_order_is_transitive(a: Seq<char>, b: Seq<char>, c: Seq<char>)
    requires
        text_before(a, b),
        text_before(b, c),
    ensures
        text_before(a, c),
    decreases a.len(),
{
    if a.len() > 0 && a[0] == b[0] && b[0] == c[0] {
        text_order_is_transitive(a.skip(1), b.skip(1), c.skip(1));
    }
}

/// The characters of each text.
pub open spec fn texts(v: Seq<String>) -> Seq<Seq<char>> {
    v.map_values(|s: String| s@)
}

/// Every text comes no later than those behind it.
pub open spec fn in_order(s: Seq<Seq<char>>) -> bool {
    forall|i: int, j: int| 0 <= i < j < s.len() ==> !text_before(#[trigger] s[j], #[trigger] s[i])
}

/// Every text comes before those behind it.
pub open spec fn ascending(s: Seq<Seq<char>>) -> bool {
    forall|i: int, j: int| 0 <= i < j < s.len() ==> text_before(#[trigger] s[i], #[trigger] s[j])
}

fn own(s: &str) -> (r: String)
    ensures
        r@ == s@,
{
    String::from_str(s)
}

proof fn lemma_insert_in_order(s: Seq<Seq<char>>, x: Seq<char>, i: int)
    requires
        in_order(s),
        0 <= i <= s.len(),
        forall|k: int| 0 <= k < i ==> !text_before(x, #[trigger] s[k]),
        i < s.len() ==> text_before(x, s[i]),
    ensures
        in_order(s.insert(i, x)),
{
    let t = s.insert(i, x);
    assert forall|a: int, b: int| 0 <= a < b < t.len() implies !text_before(
        #[trigger] t[b],
        #[trigger] t[a],
    ) by {
        if b == i {
            assert(t[a] == s[a]);
        } else if a == i {
            let k = b - 1;
            assert(t[b] == s[k]);
            if text_before(s[k], x) {
                text_order_is_transitive(s[k], x, s[i]);
                if k == i {
                    text_order_is_total(s[i], s[i]);
                }
            }
        } else {
            let p = if a < i { a } else { a - 1 };
            let q = if b < i { b } else { b - 1 };
            assert(t[a] == s[p] && t[b] == s[q]);
        }
    }
}

/// The texts in order.
pub fn sorted_texts(v: &Vec<String>) -> (out: Vec<String>)
    ensures
        in_order(texts(out@)),
        texts(out@).to_multiset() == texts(v@).to_multiset(),
{
    broadcast use vstd::seq_lib::group_to_multiset_ensures;

    let mut out: Vec<String> = Vec::new();
    let mut n: usize = 0;
    assert(texts(v@).take(0) =~= texts(out@));
    while n < v.len()
        invariant
            n <= v@.len(),
            in_order(texts(out@)),
            texts(out@).to_multiset() == texts(v@).take(n as int).to_multiset(),
            out@.len() == n,
        decreases v@.len() - n,
    {
        broadcast use vstd::seq_lib::group_to_multiset_ensures;

        let mut i: usize = 0;
        while i < out.len() && !is_before(v[n].as_str(), out[i].as_str())
            invariant
                i <= out@.len(),
                n < v@.len(),
                forall|k: int|
                    0 <= k < i ==> !text_before(texts(v@)[n as int], #[trigger] texts(out@)[k]),
            decreases out@.len() - i,
        {
            i = i + 1;
        }
        let x: String = own(v[n].as_str());
        let ghost before = texts(out@);
        proof {
            lemma_insert_in_order(before, x@, i as int);
            assert(texts(v@).take(n + 1) =~= texts(v@).take(n as int).push(x@));
        }
        out.insert(i, x);
        assert(texts(out@) =~= before.insert(i as int, x@));
        n = n + 1;
    }
    assert(texts(v@).take(n as int) =~= texts(v@));
    out
}

/// Texts in order, each of them once.
pub fn distinct_texts(v: &Vec<String>) -> (out: Vec<String>)
    requires
        in_order(texts(v@)),
    ensures
        ascending(texts(out@)),
        forall|t: Seq<char>| #[trigger] texts(out@).contains(t) <==> texts(v@).contains(t),
{
    let mut out: Vec<String> = Vec::new();
    let mut n: usize = 0;
    assert(texts(v@).take(0) =~= texts(out@));
    while n < v.len()
        invariant
            n <= v@.len(),
            in_order(texts(v@)),
            ascending(texts(out@)),
            n == 0 <==> out@.len() == 0,
            n > 0 ==> texts(out@).last() == texts(v@)[n - 1],
            forall|t: Seq<char>| #[trigger]
                texts(out@).contains(t) <==> texts(v@).take(n as int).contains(t),
        decreases v@.len() - n,
    {
        let ghost before = texts(out@);
        let ghost all = texts(v@);
        let x: String = own(v[n].as_str());
        assert(all.take(n + 1) =~= all.take(n as int).push(x@));
        let last: usize = out.len();
        let fresh: bool = last == 0 || !same_text(out[last - 1].as_str(), x.as_str());
        if fresh {
            proof {
                if last > 0 {
                    assert(before.last() == before[last - 1]);
                    assert(!text_before(all[n as int], all[n - 1]));
                    text_order_is_total(x@, before.last());
                    assert forall|i: int| 0 <= i < last implies text_before(
                        #[trigger] before[i],
                        x@,
                    ) by {
                        if i < last - 1 {
                            text_order_is_transitive(before[i], before[last - 1], x@);
                        }
                    }
                }
            }
            out.push(x);
            assert(texts(out@) =~= before.push(x@));
        }
        assert forall|t: Seq<char>| #[trigger] texts(out@).contains(t) <==> all.take(
            n + 1,
        ).contains(t) by {
            lemma_push_contains(before, x@, t);
            lemma_push_contains(all.take(n as int), x@, t);
            assert(before.contains(t) <==> all.take(n as int).contains(t));
            if !fresh {
                assert(before.last() == x@);
                assert(before[last - 1] == x@);
            }
        }
        n = n + 1;
    }
    assert(texts(v@).take(n as int) =~= texts(v@));
    out
}

proof fn lemma_push_contains(s: Seq<Seq<char>>, x: Seq<char>, t: Seq<char>)
    ensures
        s.push(x).contains(t) <==> (s.contains(t) || t == x),
{
    let u = s.push(x);
    if s.contains(t) {
        let i = choose|i: int| 0 <= i < s.len() && s[i] == t;
        assert(u[i] == t);
    }
    assert(u[s.len() as int] == x);
    if u.contains(t) {
        let i = choose|i: int| 0 <= i < u.len() && u[i] == t;
        if i < s.len() {
            assert(s[i] == t);
        }
    }
}

/// Texts in order are fixed by how often each occurs.
pub proof fn order_is_unique(a: Seq<Seq<char>>, b: Seq<Seq<char>>)
    requires
        in_order(a),
        in_order(b),
        a.to_multiset() == b.to_multiset(),
    ensures
        a == b,
    decreases a.len(),
{
    broadcast use vstd::seq_lib::group_to_multiset_ensures;

    assert(a.to_multiset().len() == a.len() && b.to_multiset().len() == b.len());
    if a.len() == 0 {
        assert(a =~= b);
    } else {
        let x = a.last();
        let y = b.last();
        assert(a[a.len() - 1] == x && b[b.len() - 1] == y);
        assert(b.to_multiset().count(x) > 0) by {
            assert(a.contains(x));
            assert(a.to_multiset().count(x) > 0);
        }
        assert(a.to_multiset().count(y) > 0) by {
            assert(b.contains(y));
            assert(b.to_multiset().count(y) > 0);
        }
        let i = choose|i: int| 0 <= i < b.len() && b[i] == x;
        assert(b.contains(x));
        let j = choose|j: int| 0 <= j < a.len() && a[j] == y;
        assert(a.contains(y));
        assert(!text_before(y, x)) by {
            if i < b.len() - 1 {
                assert(!text_before(b[b.len() - 1], b[i]));
            } else {
                text_order_is_total(x, x);
            }
        }
        assert(!text_before(x, y)) by {
            if j < a.len() - 1 {
                assert(!text_before(a[a.len() - 1], a[j]));
            } else {
                text_order_is_total(x, x);
            }
        }
        text_order_is_total(x, y);
        assert(x == y);
        assert(a =~= a.drop_last().push(x));
        assert(b =~= b.drop_last().push(x));
        assert(a.drop_last().to_multiset() =~= a.to_multiset().remove(x));
        assert(b.drop_last().to_multiset() =~= b.to_multiset().remove(x));
        order_is_unique(a.drop_last(), b.drop_last());
    }
}

} // verus!
