//! Text handling on Unicode scalar values: white space, trimming, searching,
//! splitting into lines and fields, and decimal integers.
use vstd::prelude::*;

verus! {

/// The characters that Unicode gives the `White_Space` property.
pub open spec fn is_ws(c: char) -> bool {
    ||| ('\u{9}' <= c && c <= '\u{d}')
    ||| c == ' '
    ||| c == '\u{85}'
    ||| c == '\u{a0}'
    ||| c == '\u{1680}'
    ||| ('\u{2000}' <= c && c <= '\u{200a}')
    ||| c == '\u{2028}'
    ||| c == '\u{2029}'
    ||| c == '\u{202f}'
    ||| c == '\u{205f}'
    ||| c == '\u{3000}'
}

/// `s` without its leading white space.
pub open spec fn trim_start_seq(s: Seq<char>) -> Seq<char>
    decreases s.len(),
{
    if s.len() > 0 && is_ws(s[0]) {
        trim_start_seq(s.drop_first())
    } else {
        s
    }
}

/// `s` without its trailing white space.
pub open spec fn trim_end_seq(s: Seq<char>) -> Seq<char>
    decreases s.len(),
{
    if s.len() > 0 && is_ws(s.last()) {
        trim_end_seq(s.drop_last())
    } else {
        s
    }
}

/// `s` without white space at either end.
pub open spec fn trim_seq(s: Seq<char>) -> Seq<char> {
    trim_end_seq(trim_start_seq(s))
}

/// Nothing but white space (or nothing at all).
pub open spec fn blank(s: Seq<char>) -> bool {
    trim_seq(s).len() == 0
}

/// `p` stands at the start of `s`.
pub open spec fn starts_with_seq(s: Seq<char>, p: Seq<char>) -> bool {
    p.len() <= s.len() && s.subrange(0, p.len() as int) == p
}

/// `p` occurs in `s` starting at index `i`.
pub open spec fn occurs_at(s: Seq<char>, p: Seq<char>, i: int) -> bool {
    0 <= i && i + p.len() <= s.len() && s.subrange(i, i + p.len()) == p
}

/// The first index at or after `i` where `p` occurs in `s`.
pub open spec fn find_from(s: Seq<char>, p: Seq<char>, i: int) -> Option<int>
    decreases s.len() + 1 - i,
{
    if i < 0 || i + p.len() > s.len() {
        None
    } else if occurs_at(s, p, i) {
        Some(i)
    } else {
        find_from(s, p, i + 1)
    }
}

/// The first index where `p` occurs in `s`.
pub open spec fn find_first(s: Seq<char>, p: Seq<char>) -> Option<int> {
    find_from(s, p, 0)
}

/// The last index at or before `i` where `p` occurs in `s`.
pub open spec fn rfind_upto(s: Seq<char>, p: Seq<char>, i: int) -> Option<int>
    decreases i + 1,
{
    if i < 0 {
        None
    } else if occurs_at(s, p, i) {
        Some(i)
    } else {
        rfind_upto(s, p, i - 1)
    }
}

/// The last index where `p` occurs in `s`.
pub open spec fn find_last(s: Seq<char>, p: Seq<char>) -> Option<int> {
    rfind_upto(s, p, s.len() - p.len())
}

/// `p` occurs somewhere in `s`.
pub open spec fn contains_seq(s: Seq<char>, p: Seq<char>) -> bool {
    find_first(s, p) is Some
}

/// The parts of `s` between the occurrences of `c`, as `str::split` gives them.
pub open spec fn split_char(s: Seq<char>, c: char) -> Seq<Seq<char>>
    decreases s.len(),
{
    if s.len() == 0 {
        seq![Seq::<char>::empty()]
    } else {
        let rest = split_char(s.drop_last(), c);
        if s.last() == c {
            rest.push(Seq::<char>::empty())
        } else {
            rest.update(rest.len() - 1, rest.last().push(s.last()))
        }
    }
}

/// A line that a line feed ended, without the carriage return before it.
pub open spec fn strip_cr(l: Seq<char>) -> Seq<char> {
    if l.len() > 0 && l.last() == '\r' {
        l.drop_last()
    } else {
        l
    }
}

/// The lines of `s`, as `str::lines` gives them: a final line feed ends the
/// last line and opens no new one, and a carriage return right before a line
/// feed belongs to the line ending.
pub open spec fn lines_seq(s: Seq<char>) -> Seq<Seq<char>> {
    let parts = split_char(s, '\n');
    if s.len() == 0 {
        Seq::empty()
    } else if s.last() == '\n' {
        Seq::new((parts.len() - 1) as nat, |i: int| strip_cr(parts[i]))
    } else {
        Seq::new(
            parts.len(),
            |i: int|
                if i < parts.len() - 1 {
                    strip_cr(parts[i])
                } else {
                    parts[i]
                },
        )
    }
}

/// The ASCII characters.
pub open spec fn is_ascii_char(c: char) -> bool {
    (c as u32) < 128
}

/// The number of bytes that UTF-8 takes for `c`.
pub open spec fn utf8_width(c: char) -> nat {
    if (c as u32) < 0x80 {
        1
    } else if (c as u32) < 0x800 {
        2
    } else if (c as u32) < 0x10000 {
        3
    } else {
        4
    }
}

/// The number of bytes that UTF-8 takes for `s`: what `str::len` returns.
pub open spec fn utf8_len(s: Seq<char>) -> nat
    decreases s.len(),
{
    if s.len() == 0 {
        0
    } else {
        utf8_len(s.drop_last()) + utf8_width(s.last())
    }
}

/// An ASCII decimal digit.
pub open spec fn is_digit(c: char) -> bool {
    '0' <= c && c <= '9'
}

/// The value of a run of decimal digits.
pub open spec fn digits_value(s: Seq<char>) -> int
    decreases s.len(),
{
    if s.len() == 0 {
        0
    } else {
        digits_value(s.drop_last()) * 10 + (s.last() as int - '0' as int)
    }
}

/// Every character of `s` is a decimal digit.
pub open spec fn all_digits(s: Seq<char>) -> bool {
    forall|i: int| 0 <= i < s.len() ==> is_digit(#[trigger] s[i])
}

/// What `str::parse::<i64>` accepts and gives: an optional sign, one or more
/// decimal digits, and a value that fits in an `i64`.
pub open spec fn parse_i64_seq(s: Seq<char>) -> Option<i64> {
    let neg = s.len() > 0 && s[0] == '-';
    let body = if s.len() > 0 && (s[0] == '-' || s[0] == '+') {
        s.drop_first()
    } else {
        s
    };
    let v = if neg {
        -digits_value(body)
    } else {
        digits_value(body)
    };
    if body.len() > 0 && all_digits(body) && i64::MIN <= v <= i64::MAX {
        Some(v as i64)
    } else {
        None
    }
}

/// The decimal digit for `d`.
pub open spec fn digit_char(d: nat) -> char {
    ((d + 48) as u32) as char
}

/// The decimal notation of `n`, without sign or leading zeros.
pub open spec fn nat_decimal(n: nat) -> Seq<char>
    decreases n,
{
    if n < 10 {
        seq![digit_char(n)]
    } else {
        nat_decimal(n / 10).push(digit_char(n % 10))
    }
}

/// The decimal notation of `n`, with a minus sign when it is negative.
pub open spec fn int_decimal(n: int) -> Seq<char> {
    if n < 0 {
        seq!['-'] + nat_decimal((-n) as nat)
    } else {
        nat_decimal(n as nat)
    }
}

/// A text without `c` splits into itself alone.
pub proof fn lemma_split_char_without(s: Seq<char>, c: char)
    requires
        !s.contains(c),
    ensures
        split_char(s, c) == seq![s],
    decreases s.len(),
{
    if s.len() > 0 {
        let init = s.drop_last();
        assert(!init.contains(c)) by {
            if init.contains(c) {
                let j = choose|j: int| 0 <= j < init.len() && init[j] == c;
                assert(s[j] == c);
            }
        }
        lemma_split_char_without(init, c);
        assert(s.last() != c) by {
            assert(s[s.len() - 1] == s.last());
        }
        assert(init.push(s.last()) =~= s);
    } else {
        assert(s =~= Seq::<char>::empty());
    }
}

/// `a`, then `c`, then `b`, where neither holds `c`, splits into `a` and `b`.
pub proof fn lemma_split_char_once(a: Seq<char>, b: Seq<char>, c: char)
    requires
        !a.contains(c),
        !b.contains(c),
    ensures
        split_char(a + seq![c] + b, c) == seq![a, b],
    decreases b.len(),
{
    let s = a + seq![c] + b;
    if b.len() == 0 {
        assert(s =~= a.push(c));
        assert(s.drop_last() =~= a);
        assert(s.last() == c);
        lemma_split_char_without(a, c);
        assert(split_char(s, c) == split_char(a, c).push(Seq::<char>::empty()));
        assert(b =~= Seq::<char>::empty());
        assert(seq![a].push(Seq::<char>::empty()) =~= seq![a, b]);
    } else {
        let b0 = b.drop_last();
        assert(!b0.contains(c)) by {
            if b0.contains(c) {
                let j = choose|j: int| 0 <= j < b0.len() && b0[j] == c;
                assert(b[j] == c);
            }
        }
        lemma_split_char_once(a, b0, c);
        assert(s.drop_last() =~= a + seq![c] + b0);
        assert(s.last() == b.last());
        assert(b.last() != c) by {
            assert(b[b.len() - 1] == b.last());
        }
        assert(b0.push(b.last()) =~= b);
        let rest = split_char(a + seq![c] + b0, c);
        assert(rest == seq![a, b0]);
        assert(split_char(s, c) == rest.update(rest.len() - 1, rest.last().push(s.last())));
        assert(rest.update(1, b0.push(b.last())) =~= seq![a, b]);
    }
}

/// A line without a line feed or a final carriage return, alone or ended by
/// a line feed, is one line.
pub proof fn lemma_lines_single(line: Seq<char>)
    requires
        line.len() > 0,
        !line.contains('\n'),
        line.last() != '\r',
    ensures
        lines_seq(line) == seq![line],
        lines_seq(line.push('\n')) == seq![line],
{
    lemma_split_char_without(line, '\n');
    assert(line[line.len() - 1] == line.last());
    assert(lines_seq(line) =~= seq![line]);
    let s = line.push('\n');
    assert(s.drop_last() =~= line);
    assert(split_char(s, '\n') == seq![line, Seq::<char>::empty()]);
    assert(lines_seq(s) =~= seq![line]);
}

/// The decimal notation of `n` is all digits, and not empty.
pub proof fn lemma_nat_decimal_digits(n: nat)
    ensures
        nat_decimal(n).len() > 0,
        all_digits(nat_decimal(n)),
        digits_value(nat_decimal(n)) == n,
    decreases n,
{
    if n >= 10 {
        lemma_nat_decimal_digits(n / 10);
        let s = nat_decimal(n / 10).push(digit_char(n % 10));
        assert(nat_decimal(n) == s);
        assert(s.drop_last() =~= nat_decimal(n / 10));
        assert(digit_char((n % 10) as nat) as int == n % 10 + 48);
        assert(digits_value(s) == digits_value(s.drop_last()) * 10 + (s.last() as int - '0' as int));
        assert(n == (n / 10) * 10 + n % 10);
        assert(all_digits(s)) by {
            assert forall|i: int| 0 <= i < s.len() implies is_digit(#[trigger] s[i]) by {
                if i < s.len() - 1 {
                    assert(s[i] == nat_decimal(n / 10)[i]);
                }
            }
        }
    } else {
        assert(digit_char(n) as int == n + 48);
        let s = nat_decimal(n);
        assert(s.drop_last() =~= Seq::<char>::empty());
        assert(digits_value(s) == digits_value(s.drop_last()) * 10 + (s.last() as int - '0' as int));
    }
}

/// `str::parse::<i64>` reads back the decimal notation of a non-negative
/// `i64`.
pub proof fn lemma_parse_nat_decimal(n: i64)
    requires
        n >= 0,
    ensures
        parse_i64_seq(nat_decimal(n as nat)) == Some(n),
{
    lemma_nat_decimal_digits(n as nat);
    let s = nat_decimal(n as nat);
    assert(is_digit(s[0]));
}

/// `find_from` lands on the first occurrence at or after `i`.
pub proof fn lemma_find_from_first(s: Seq<char>, p: Seq<char>, i: int, k: int)
    requires
        0 <= i <= k,
        occurs_at(s, p, k),
        forall|j: int| i <= j < k ==> !occurs_at(s, p, j),
    ensures
        find_from(s, p, i) == Some(k),
    decreases k - i,
{
    if i < k {
        lemma_find_from_first(s, p, i + 1, k);
    }
}

/// Whether `c` is white space, as `char::is_whitespace` decides it.
pub fn is_whitespace(c: char) -> (r: bool)
    ensures
        r == is_ws(c),
{
    ('\u{9}' <= c && c <= '\u{d}') || c == ' ' || c == '\u{85}' || c == '\u{a0}' || c == '\u{1680}'
        || ('\u{2000}' <= c && c <= '\u{200a}') || c == '\u{2028}' || c == '\u{2029}' || c
        == '\u{202f}' || c == '\u{205f}' || c == '\u{3000}'
}

/// The characters of `s`, in order.
pub fn chars_of(s: &str) -> (v: Vec<char>)
    ensures
        v@ == s@,
{
    let mut v: Vec<char> = Vec::new();
    for c in it: s.chars()
        invariant
            v@ == it.seq().take(it.index() as int),
            it.seq() == s@,
    {
        v.push(c);
    }
    v
}

/// What is left after trimming the start begins with no white space.
proof fn lemma_trim_start_result(s: Seq<char>)
    ensures
        trim_start_seq(s).len() == 0 || !is_ws(trim_start_seq(s)[0]),
    decreases s.len(),
{
    if s.len() > 0 && is_ws(s[0]) {
        lemma_trim_start_result(s.drop_first());
    }
}

/// What is left after trimming the end is a prefix of `s` that ends with no
/// white space.
proof fn lemma_trim_end_result(s: Seq<char>)
    ensures
        trim_end_seq(s).len() <= s.len(),
        trim_end_seq(s) == s.subrange(0, trim_end_seq(s).len() as int),
        trim_end_seq(s).len() == 0 || !is_ws(trim_end_seq(s).last()),
    decreases s.len(),
{
    if s.len() > 0 && is_ws(s.last()) {
        lemma_trim_end_result(s.drop_last());
        let t = trim_end_seq(s.drop_last());
        assert(t == s.subrange(0, t.len() as int)) by {
            assert(s.drop_last().subrange(0, t.len() as int) =~= s.subrange(0, t.len() as int));
        }
    } else {
        assert(s.subrange(0, s.len() as int) =~= s);
    }
}

/// A trimmed text that is not empty neither starts nor ends with white
/// space.
pub proof fn lemma_trim_ends(s: Seq<char>)
    ensures
        trim_seq(s).len() > 0 ==> !is_ws(trim_seq(s)[0]) && !is_ws(trim_seq(s).last()),
{
    let t = trim_start_seq(s);
    lemma_trim_start_result(s);
    lemma_trim_end_result(t);
    let u = trim_end_seq(t);
    if u.len() > 0 {
        assert(u[0] == t[0]);
    }
}

/// Trimming a trimmed text changes nothing.
pub proof fn lemma_trim_idempotent(s: Seq<char>)
    ensures
        trim_seq(trim_seq(s)) == trim_seq(s),
        blank(trim_seq(s)) == blank(s),
{
    let t = trim_start_seq(s);
    let u = trim_end_seq(t);
    lemma_trim_start_result(s);
    lemma_trim_end_result(t);
    if u.len() > 0 {
        assert(u[0] == t[0]);
        assert(trim_start_seq(u) == u);
        lemma_trim_end_result(u);
        assert(trim_end_seq(u) == u);
    } else {
        assert(trim_start_seq(u) == u);
        assert(trim_end_seq(u) == u);
    }
}

proof fn lemma_trim_start_step(s: Seq<char>, i: int)
    requires
        0 <= i < s.len(),
        is_ws(s[i]),
    ensures
        trim_start_seq(s.subrange(i, s.len() as int)) == trim_start_seq(
            s.subrange(i + 1, s.len() as int),
        ),
{
    assert(s.subrange(i, s.len() as int).drop_first() =~= s.subrange(i + 1, s.len() as int));
}

proof fn lemma_trim_end_step(s: Seq<char>, i: int, j: int)
    requires
        0 <= i < j <= s.len(),
        is_ws(s[j - 1]),
    ensures
        trim_end_seq(s.subrange(i, j)) == trim_end_seq(s.subrange(i, j - 1)),
{
    assert(s.subrange(i, j).drop_last() =~= s.subrange(i, j - 1));
}

/// The start and the end of `v` without white space at either end.
fn trim_bounds(v: &Vec<char>) -> (r: (usize, usize))
    ensures
        r.0 <= r.1 <= v.len(),
        v@.subrange(r.0 as int, r.1 as int) == trim_seq(v@),
{
    let n = v.len();
    let mut i: usize = 0;
    assert(v@.subrange(0, n as int) =~= v@);
    while i < n && is_whitespace(v[i])
        invariant
            i <= n,
            n == v.len(),
            trim_start_seq(v@) == trim_start_seq(v@.subrange(i as int, n as int)),
        decreases n - i,
    {
        proof {
            lemma_trim_start_step(v@, i as int);
        }
        i = i + 1;
    }
    let ghost mid = v@.subrange(i as int, n as int);
    assert(trim_start_seq(v@) == mid) by {
        if i < n {
            assert(mid[0] == v@[i as int]);
        } else {
            assert(mid.len() == 0);
        }
    }
    let mut j: usize = n;
    assert(v@.subrange(i as int, n as int) =~= mid);
    while j > i && is_whitespace(v[j - 1])
        invariant
            i <= j <= n,
            n == v.len(),
            mid == v@.subrange(i as int, n as int),
            trim_end_seq(mid) == trim_end_seq(v@.subrange(i as int, j as int)),
        decreases j,
    {
        proof {
            lemma_trim_end_step(v@, i as int, j as int);
        }
        j = j - 1;
    }
    let ghost fin = v@.subrange(i as int, j as int);
    assert(trim_end_seq(fin) == fin) by {
        if j > i {
            assert(fin.last() == v@[j - 1]);
        }
    }
    (i, j)
}

/// `s` without white space at either end, as `str::trim` gives it.
pub fn trim(s: &str) -> (r: &str)
    ensures
        r@ == trim_seq(s@),
{
    let v = chars_of(s);
    let (i, j) = trim_bounds(&v);
    s.substring_char(i, j)
}

/// `s` without white space at either end, as an owned string.
pub fn trimmed(s: &str) -> (r: String)
    ensures
        r@ == trim_seq(s@),
{
    trim(s).to_owned()
}

/// Whether `s` holds nothing but white space.
pub fn is_blank(s: &str) -> (r: bool)
    ensures
        r == blank(s@),
{
    trim(s).is_empty()
}

/// Whether `a` and `b` hold the same characters.
pub fn str_eq(a: &str, b: &str) -> (r: bool)
    ensures
        r == (a@ == b@),
{
    let x = chars_of(a);
    let y = chars_of(b);
    seq_eq(&x, &y)
}

/// Whether two character vectors are equal.
pub fn seq_eq(x: &Vec<char>, y: &Vec<char>) -> (r: bool)
    ensures
        r == (x@ == y@),
{
    if x.len() != y.len() {
        return false;
    }
    let mut i: usize = 0;
    while i < x.len()
        invariant
            x.len() == y.len(),
            i <= x.len(),
            forall|k: int| 0 <= k < i ==> x@[k] == y@[k],
        decreases x.len() - i,
    {
        if x[i] != y[i] {
            return false;
        }
        i = i + 1;
    }
    assert(x@ =~= y@);
    true
}

/// The one character of `s`, if it has exactly one.
pub fn single_char(s: &str) -> (r: Option<char>)
    ensures
        r == (if s@.len() == 1 {
            Some(s@[0])
        } else {
            None
        }),
{
    let v = chars_of(s);
    if v.len() == 1 {
        Some(v[0])
    } else {
        None
    }
}

/// Whether `p` occurs in `v` starting at `i`.
pub fn occurs_at_exec(v: &Vec<char>, p: &Vec<char>, i: usize) -> (r: bool)
    ensures
        r == occurs_at(v@, p@, i as int),
{
    if i > v.len() || p.len() > v.len() - i {
        return false;
    }
    let mut k: usize = 0;
    while k < p.len()
        invariant
            i + p.len() <= v.len(),
            k <= p.len(),
            forall|m: int| 0 <= m < k ==> v@[i + m] == p@[m],
        decreases p.len() - k,
    {
        if v[i + k] != p[k] {
            assert(v@.subrange(i as int, i + p.len())[k as int] != p@[k as int]);
            return false;
        }
        k = k + 1;
    }
    assert(v@.subrange(i as int, i + p.len()) =~= p@);
    true
}

/// The first index where `p` occurs in `v`.
pub fn find_first_exec(v: &Vec<char>, p: &Vec<char>) -> (r: Option<usize>)
    ensures
        r is Some <==> find_first(v@, p@) is Some,
        r matches Some(i) ==> find_first(v@, p@) == Some(i as int) && i + p.len() <= v.len(),
{
    if p.len() > v.len() {
        return None;
    }
    if p.len() == 0 {
        assert(v@.subrange(0, 0) =~= p@);
        return Some(0);
    }
    let last = v.len() - p.len();
    let mut i: usize = 0;
    while i <= last
        invariant
            last + p.len() == v.len(),
            p.len() > 0,
            i <= last + 1,
            find_first(v@, p@) == find_from(v@, p@, i as int),
        decreases last + 1 - i,
    {
        if occurs_at_exec(v, p, i) {
            return Some(i);
        }
        i = i + 1;
    }
    None
}

/// The last index where `p` occurs in `v`.
pub fn find_last_exec(v: &Vec<char>, p: &Vec<char>) -> (r: Option<usize>)
    ensures
        r is Some <==> find_last(v@, p@) is Some,
        r matches Some(i) ==> find_last(v@, p@) == Some(i as int) && i + p.len() <= v.len(),
{
    if p.len() > v.len() {
        return None;
    }
    if p.len() == 0 {
        assert(v@.subrange(v@.len() as int, v@.len() as int) =~= p@);
        return Some(v.len());
    }
    let mut i: usize = v.len() - p.len() + 1;
    while i > 0
        invariant
            i <= v.len() - p.len() + 1,
            find_last(v@, p@) == rfind_upto(v@, p@, i - 1),
        decreases i,
    {
        if occurs_at_exec(v, p, i - 1) {
            return Some(i - 1);
        }
        i = i - 1;
    }
    None
}

/// Whether `p` occurs somewhere in `s`, as `str::contains` decides it.
pub fn contains_str(s: &str, p: &str) -> (r: bool)
    ensures
        r == contains_seq(s@, p@),
{
    let v = chars_of(s);
    let w = chars_of(p);
    find_first_exec(&v, &w).is_some()
}

/// Whether `c` occurs in `s`.
pub fn contains_char(s: &str, c: char) -> (r: bool)
    ensures
        r == s@.contains(c),
{
    let v = chars_of(s);
    let mut i: usize = 0;
    while i < v.len()
        invariant
            v@ == s@,
            i <= v.len(),
            forall|k: int| 0 <= k < i ==> v@[k] != c,
        decreases v.len() - i,
    {
        if v[i] == c {
            return true;
        }
        i = i + 1;
    }
    false
}

/// `s` after the prefix `p`, if `s` starts with `p`, as `str::strip_prefix`
/// gives it.
pub fn strip_prefix<'a>(s: &'a str, p: &str) -> (r: Option<&'a str>)
    ensures
        r is Some <==> starts_with_seq(s@, p@),
        r matches Some(rest) ==> rest@ == s@.subrange(p@.len() as int, s@.len() as int),
{
    let v = chars_of(s);
    let w = chars_of(p);
    if occurs_at_exec(&v, &w, 0) {
        Some(s.substring_char(w.len(), v.len()))
    } else {
        None
    }
}

/// `s` split around the first occurrence of `p`, as `str::split_once` gives it.
pub fn split_once<'a>(s: &'a str, p: &str) -> (r: Option<(&'a str, &'a str)>)
    ensures
        r is Some <==> find_first(s@, p@) is Some,
        r matches Some((a, b)) ==> ({
            let i = find_first(s@, p@)->0;
            &&& a@ == s@.subrange(0, i)
            &&& b@ == s@.subrange(i + p@.len(), s@.len() as int)
        }),
{
    let v = chars_of(s);
    let w = chars_of(p);
    match find_first_exec(&v, &w) {
        Some(i) => {
            Some((s.substring_char(0, i), s.substring_char(i + w.len(), v.len())))
        },
        None => None,
    }
}

/// `s` split around the last occurrence of `p`, as `str::rsplit_once` gives it.
pub fn rsplit_once<'a>(s: &'a str, p: &str) -> (r: Option<(&'a str, &'a str)>)
    ensures
        r is Some <==> find_last(s@, p@) is Some,
        r matches Some((a, b)) ==> ({
            let i = find_last(s@, p@)->0;
            &&& a@ == s@.subrange(0, i)
            &&& b@ == s@.subrange(i + p@.len(), s@.len() as int)
        }),
{
    let v = chars_of(s);
    let w = chars_of(p);
    match find_last_exec(&v, &w) {
        Some(i) => {
            Some((s.substring_char(0, i), s.substring_char(i + w.len(), v.len())))
        },
        None => None,
    }
}

/// Where `find_from` finds `p`, `p` occurs.
pub proof fn lemma_find_from_in_range(s: Seq<char>, p: Seq<char>, i: int)
    ensures
        find_from(s, p, i) matches Some(k) ==> occurs_at(s, p, k) && i <= k,
    decreases s.len() + 1 - i,
{
    if i < 0 || i + p.len() > s.len() {
    } else if occurs_at(s, p, i) {
    } else {
        lemma_find_from_in_range(s, p, i + 1);
    }
}

/// Where `rfind_upto` finds `p`, `p` occurs.
pub proof fn lemma_rfind_upto_in_range(s: Seq<char>, p: Seq<char>, i: int)
    ensures
        rfind_upto(s, p, i) matches Some(k) ==> occurs_at(s, p, k) && k <= i,
    decreases i + 1,
{
    if i < 0 {
    } else if occurs_at(s, p, i) {
    } else {
        lemma_rfind_upto_in_range(s, p, i - 1);
    }
}

/// `split_char` always gives at least one part.
pub proof fn lemma_split_char_nonempty(s: Seq<char>, c: char)
    ensures
        split_char(s, c).len() >= 1,
    decreases s.len(),
{
    if s.len() > 0 {
        lemma_split_char_nonempty(s.drop_last(), c);
    }
}

/// The bounds of the parts of `v` between the occurrences of `c`.
fn split_bounds(v: &Vec<char>, c: char) -> (r: Vec<(usize, usize)>)
    ensures
        r.len() == split_char(v@, c).len(),
        forall|k: int|
            0 <= k < r.len() ==> {
                &&& (#[trigger] r@[k]).0 <= r@[k].1 <= v.len()
                &&& v@.subrange(r@[k].0 as int, r@[k].1 as int) == split_char(v@, c)[k]
            },
{
    let mut segs: Vec<(usize, usize)> = Vec::new();
    let mut start: usize = 0;
    let mut i: usize = 0;
    assert(v@.subrange(0, 0) =~= Seq::<char>::empty());
    while i < v.len()
        invariant
            start <= i <= v.len(),
            split_char(v@.subrange(0, i as int), c).len() == segs.len() + 1,
            forall|k: int|
                0 <= k < segs.len() ==> {
                    &&& (#[trigger] segs@[k]).0 <= segs@[k].1 <= v.len()
                    &&& v@.subrange(segs@[k].0 as int, segs@[k].1 as int) == split_char(
                        v@.subrange(0, i as int),
                        c,
                    )[k]
                },
            split_char(v@.subrange(0, i as int), c)[segs.len() as int] == v@.subrange(
                start as int,
                i as int,
            ),
        decreases v.len() - i,
    {
        let ghost pre = v@.subrange(0, i as int);
        let ghost nxt = v@.subrange(0, i + 1);
        assert(nxt.drop_last() =~= pre);
        assert(nxt.last() == v@[i as int]);
        proof {
            lemma_split_char_nonempty(pre, c);
        }
        if v[i] == c {
            segs.push((start, i));
            start = i + 1;
            assert(v@.subrange(start as int, i + 1) =~= Seq::<char>::empty());
        } else {
            assert(v@.subrange(start as int, i + 1) =~= v@.subrange(start as int, i as int).push(
                v@[i as int],
            ));
        }
        i = i + 1;
    }
    assert(v@.subrange(0, v.len() as int) =~= v@);
    segs.push((start, v.len()));
    segs
}

/// The parts of `s` between the occurrences of `c`, as `str::split` gives them.
pub fn split_on<'a>(s: &'a str, c: char) -> (r: Vec<&'a str>)
    ensures
        r.len() == split_char(s@, c).len(),
        forall|k: int| 0 <= k < r.len() ==> (#[trigger] r@[k])@ == split_char(s@, c)[k],
{
    let v = chars_of(s);
    let b = split_bounds(&v, c);
    let mut r: Vec<&'a str> = Vec::new();
    let mut k: usize = 0;
    while k < b.len()
        invariant
            v@ == s@,
            b.len() == split_char(v@, c).len(),
            forall|m: int|
                0 <= m < b.len() ==> {
                    &&& (#[trigger] b@[m]).0 <= b@[m].1 <= v.len()
                    &&& v@.subrange(b@[m].0 as int, b@[m].1 as int) == split_char(v@, c)[m]
                },
            k <= b.len(),
            r.len() == k,
            forall|m: int| 0 <= m < k ==> (#[trigger] r@[m])@ == split_char(s@, c)[m],
        decreases b.len() - k,
    {
        let (x, y) = b[k];
        assert(b@[k as int].0 <= b@[k as int].1);
        r.push(s.substring_char(x, y));
        k = k + 1;
    }
    r
}

/// The lines of `s`, as `str::lines` gives them.
pub fn lines<'a>(s: &'a str) -> (r: Vec<&'a str>)
    ensures
        r.len() == lines_seq(s@).len(),
        forall|k: int| 0 <= k < r.len() ==> (#[trigger] r@[k])@ == lines_seq(s@)[k],
{
    let v = chars_of(s);
    let mut r: Vec<&'a str> = Vec::new();
    if v.len() == 0 {
        return r;
    }
    let b = split_bounds(&v, '\n');
    proof {
        lemma_split_char_nonempty(v@, '\n');
    }
    let count = if v[v.len() - 1] == '\n' {
        b.len() - 1
    } else {
        b.len()
    };
    let ghost parts = split_char(v@, '\n');
    let mut k: usize = 0;
    while k < count
        invariant
            v@ == s@,
            v.len() > 0,
            parts == split_char(v@, '\n'),
            b.len() == parts.len(),
            b.len() >= 1,
            count == (if v@.last() == '\n' {
                b.len() - 1
            } else {
                b.len() as int
            }),
            forall|m: int|
                0 <= m < b.len() ==> {
                    &&& (#[trigger] b@[m]).0 <= b@[m].1 <= v.len()
                    &&& v@.subrange(b@[m].0 as int, b@[m].1 as int) == parts[m]
                },
            k <= count,
            r.len() == k,
            forall|m: int| 0 <= m < k ==> (#[trigger] r@[m])@ == lines_seq(s@)[m],
        decreases count - k,
    {
        let (x, y) = b[k];
        assert(b@[k as int].0 <= b@[k as int].1);
        let ghost part = parts[k as int];
        if k + 1 < b.len() && y > x && v[y - 1] == '\r' {
            assert(part.last() == v@[y - 1]);
            assert(v@.subrange(x as int, y - 1) =~= part.drop_last());
            r.push(s.substring_char(x, y - 1));
        } else {
            proof {
                if k + 1 < b.len() && y > x {
                    assert(part.last() == v@[y - 1]);
                }
            }
            r.push(s.substring_char(x, y));
        }
        k = k + 1;
    }
    r
}

proof fn lemma_digits_value_nonneg(s: Seq<char>)
    requires
        all_digits(s),
    ensures
        digits_value(s) >= 0,
    decreases s.len(),
{
    if s.len() > 0 {
        assert(is_digit(s[s.len() - 1]));
        assert(all_digits(s.drop_last())) by {
            assert forall|i: int| 0 <= i < s.drop_last().len() implies is_digit(
                #[trigger] s.drop_last()[i],
            ) by {
                assert(s.drop_last()[i] == s[i]);
            }
        }
        lemma_digits_value_nonneg(s.drop_last());
    }
}

proof fn lemma_digits_value_grows(s: Seq<char>, i: int, j: int)
    requires
        all_digits(s),
        0 <= i <= j <= s.len(),
    ensures
        digits_value(s.subrange(0, i)) <= digits_value(s.subrange(0, j)),
    decreases j - i,
{
    if i < j {
        lemma_digits_value_grows(s, i, j - 1);
        let t = s.subrange(0, j);
        assert(t.drop_last() =~= s.subrange(0, j - 1));
        assert(all_digits(s.subrange(0, j - 1))) by {
            assert forall|k: int| 0 <= k < j - 1 implies is_digit(
                #[trigger] s.subrange(0, j - 1)[k],
            ) by {
                assert(s.subrange(0, j - 1)[k] == s[k]);
            }
        }
        lemma_digits_value_nonneg(s.subrange(0, j - 1));
        assert(is_digit(s[j - 1]));
        assert(t.last() == s[j - 1]);
    }
}

/// The signed decimal integer that `s` spells, as `str::parse::<i64>` reads it.
pub fn parse_i64(s: &str) -> (r: Option<i64>)
    ensures
        r == parse_i64_seq(s@),
{
    let v = chars_of(s);
    let n = v.len();
    let neg = n > 0 && v[0] == '-';
    let start: usize = if n > 0 && (v[0] == '-' || v[0] == '+') {
        1
    } else {
        0
    };
    let ghost body = v@.subrange(start as int, n as int);
    assert(body =~= (if s@.len() > 0 && (s@[0] == '-' || s@[0] == '+') {
        s@.drop_first()
    } else {
        s@
    }));
    if start == n {
        return None;
    }
    let bound: i128 = 9223372036854775808;
    let mut acc: i128 = 0;
    let mut i: usize = start;
    assert(body.subrange(0, 0) =~= Seq::<char>::empty());
    while i < n
        invariant
            start <= i <= n,
            n == v.len(),
            v@ == s@,
            bound == 9223372036854775808,
            body == v@.subrange(start as int, n as int),
            body == (if s@.len() > 0 && (s@[0] == '-' || s@[0] == '+') {
                s@.drop_first()
            } else {
                s@
            }),
            0 <= acc <= bound,
            acc == digits_value(body.subrange(0, i - start)),
            all_digits(body.subrange(0, i - start)),
        decreases n - i,
    {
        let c = v[i];
        if c < '0' || c > '9' {
            assert(body[i - start] == c);
            assert(!is_digit(body[i - start]));
            assert(!all_digits(body));
            assert(parse_i64_seq(s@) is None);
            return None;
        }
        let d = (c as u32 - '0' as u32) as i128;
        let ghost pre = body.subrange(0, i - start);
        let ghost nxt = body.subrange(0, i + 1 - start);
        assert(nxt.drop_last() =~= pre);
        assert(nxt.last() == c);
        assert(c as u32 - '0' as u32 <= 9);
        assert(all_digits(nxt)) by {
            assert forall|k: int| 0 <= k < nxt.len() implies is_digit(#[trigger] nxt[k]) by {
                if k < pre.len() {
                    assert(nxt[k] == pre[k]);
                }
            }
        }
        assert(acc * 10 <= bound * 10) by (nonlinear_arith)
            requires
                0 <= acc <= bound,
        ;
        acc = acc * 10 + d;
        i = i + 1;
        if acc > bound {
            proof {
                if all_digits(body) {
                    lemma_digits_value_grows(body, i - start, body.len() as int);
                    assert(body.subrange(0, body.len() as int) =~= body);
                }
            }
            return None;
        }
    }
    assert(body.subrange(0, n - start) =~= body);
    if neg {
        if acc == bound {
            Some(-9223372036854775807i64 - 1)
        } else {
            Some((-acc) as i64)
        }
    } else if acc == bound {
        None
    } else {
        Some(acc as i64)
    }
}

/// The text of the decimal digit `d`.
fn digit_str(d: u64) -> (r: &'static str)
    requires
        d < 10,
    ensures
        r@ == seq![digit_char(d as nat)],
{
    proof {
        reveal_strlit("0");
        reveal_strlit("1");
        reveal_strlit("2");
        reveal_strlit("3");
        reveal_strlit("4");
        reveal_strlit("5");
        reveal_strlit("6");
        reveal_strlit("7");
        reveal_strlit("8");
        reveal_strlit("9");
    }
    match d {
        0 => "0",
        1 => "1",
        2 => "2",
        3 => "3",
        4 => "4",
        5 => "5",
        6 => "6",
        7 => "7",
        8 => "8",
        _ => "9",
    }
}

/// The decimal notation of `m`, without sign or leading zeros.
fn nat_text(m: u64) -> (r: String)
    ensures
        r@ == nat_decimal(m as nat),
    decreases m,
{
    if m < 10 {
        digit_str(m).to_owned()
    } else {
        let mut s = nat_text(m / 10);
        s.append(digit_str(m % 10));
        s
    }
}

/// The decimal notation of `n`, as its `Display` gives it.
pub(crate) fn decimal(n: i64) -> (r: String)
    ensures
        r@ == int_decimal(n as int),
{
    if n < 0 {
        let m: u64 = if n == i64::MIN {
            9223372036854775808u64
        } else {
            (-n) as u64
        };
        let mut s = "-".to_owned();
        proof {
            reveal_strlit("-");
        }
        s.append(nat_text(m).as_str());
        s
    } else {
        nat_text(n as u64)
    }
}

/// `a` comes no later than `b` in code point order (a string that is a
/// prefix of another comes first).
pub open spec fn text_le(a: Seq<char>, b: Seq<char>) -> bool
    decreases a.len(),
{
    if a.len() == 0 {
        true
    } else if b.len() == 0 {
        false
    } else if a[0] != b[0] {
        a[0] < b[0]
    } else {
        text_le(a.drop_first(), b.drop_first())
    }
}

/// Whether `a` comes no later than `b` in code point order.
pub fn text_le_exec(a: &str, b: &str) -> (r: bool)
    ensures
        r == text_le(a@, b@),
{
    let x = chars_of(a);
    let y = chars_of(b);
    let mut i: usize = 0;
    assert(x@.skip(0) =~= x@);
    assert(y@.skip(0) =~= y@);
    while i < x.len() && i < y.len() && x[i] == y[i]
        invariant
            i <= x.len(),
            i <= y.len(),
            text_le(a@, b@) == text_le(x@.skip(i as int), y@.skip(i as int)),
            x@ == a@,
            y@ == b@,
        decreases x.len() - i,
    {
        assert(x@.skip(i as int).drop_first() =~= x@.skip(i + 1));
        assert(y@.skip(i as int).drop_first() =~= y@.skip(i + 1));
        i = i + 1;
    }
    if i == x.len() {
        true
    } else if i == y.len() {
        false
    } else {
        assert(x@.skip(i as int)[0] == x@[i as int]);
        assert(y@.skip(i as int)[0] == y@[i as int]);
        x[i] < y[i]
    }
}

/// Code point order is total.
pub proof fn lemma_text_le_total(a: Seq<char>, b: Seq<char>)
    ensures
        text_le(a, b) || text_le(b, a),
    decreases a.len(),
{
    if a.len() > 0 && b.len() > 0 && a[0] == b[0] {
        lemma_text_le_total(a.drop_first(), b.drop_first());
    }
}

/// Code point order is transitive.
pub proof fn lemma_text_le_trans(a: Seq<char>, b: Seq<char>, c: Seq<char>)
    requires
        text_le(a, b),
        text_le(b, c),
    ensures
        text_le(a, c),
    decreases a.len(),
{
    if a.len() > 0 && b.len() > 0 && c.len() > 0 && a[0] == b[0] && b[0] == c[0] {
        lemma_text_le_trans(a.drop_first(), b.drop_first(), c.drop_first());
    }
}

/// Code point order is antisymmetric.
pub proof fn lemma_text_le_antisym(a: Seq<char>, b: Seq<char>)
    requires
        text_le(a, b),
        text_le(b, a),
    ensures
        a == b,
    decreases a.len(),
{
    if a.len() > 0 && b.len() > 0 && a[0] == b[0] {
        lemma_text_le_antisym(a.drop_first(), b.drop_first());
        assert(a =~= seq![a[0]] + a.drop_first());
        assert(b =~= seq![b[0]] + b.drop_first());
    }
}

} // verus!
