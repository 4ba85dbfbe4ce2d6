//! Character-level helpers shared by the path grammar and the error builders.
use vstd::prelude::*;

verus! {

/// The characters of a string slice, in order.
pub fn chars_of(s: &str) -> (res: Vec<char>)
    ensures
        res@ == s@,
{
    let mut out: Vec<char> = Vec::new();
    for c in it: s.chars()
        invariant
            out@ == it.seq().take(it.index()),
    {
        out.push(c);
    }
    out
}

/// Trusted: `String::push` appends one character at the end of the string.
#[verifier::external_body]
pub(crate) fn push_char(s: &mut String, c: char)
    ensures
        final(s)@ == old(s)@.push(c),
{
    s.push(c);
}

/// The string made of `chars[lo..hi]`.
pub fn string_from_range(chars: &Vec<char>, lo: usize, hi: usize) -> (res: String)
    requires
        lo <= hi <= chars@.len(),
    ensures
        res@ == chars@.subrange(lo as int, hi as int),
{
    let mut out = String::new();
    let mut k = lo;
    while k < hi
        invariant
            lo <= k <= hi <= chars@.len(),
            out@ == chars@.subrange(lo as int, k as int),
        decreases hi - k,
    {
        push_char(&mut out, chars[k]);
        assert(chars@.subrange(lo as int, k + 1) == chars@.subrange(lo as int, k as int).push(chars@[k as int]));
        k += 1;
    }
    out
}

/// A copy of a string slice as an owned string.
pub fn owned(s: &str) -> (res: String)
    ensures
        res@ == s@,
{
    s.to_owned()
}

/// Whether `c` is one of the ASCII digits `0`..`9`.
pub open spec fn is_digit(c: char) -> bool {
    '0' <= c && c <= '9'
}

/// The value of an ASCII digit.
pub open spec fn digit_value(c: char) -> nat {
    (c as int - '0' as int) as nat
}

/// The number written by a sequence of decimal digits, most significant first.
pub open spec fn decimal_value(d: Seq<char>) -> nat
    decreases d.len(),
{
    if d.len() == 0 {
        0
    } else {
        decimal_value(d.drop_last()) * 10 + digit_value(d.last())
    }
}

/// Whether every character of `d` is an ASCII digit.
pub open spec fn all_digits(d: Seq<char>) -> bool {
    forall|k: int| 0 <= k < d.len() ==> is_digit(#[trigger] d[k])
}

/// `s` without one leading `+`, if it has one.
pub open spec fn without_plus(s: Seq<char>) -> Seq<char> {
    if s.len() > 0 && s[0] == '+' {
        s.drop_first()
    } else {
        s
    }
}

/// What `str::parse::<usize>` gives: an optional `+` followed by at least one digit and
/// nothing else, whose value fits in a `usize`.
pub open spec fn usize_from_decimal(s: Seq<char>) -> Option<usize> {
    let d = without_plus(s);
    if d.len() > 0 && all_digits(d) && decimal_value(d) <= usize::MAX {
        Some(decimal_value(d) as usize)
    } else {
        None
    }
}

proof fn lemma_decimal_prefix_grows(d: Seq<char>, k: int)
    requires
        0 <= k <= d.len(),
        all_digits(d),
    ensures
        decimal_value(d.take(k)) <= decimal_value(d),
    decreases d.len() - k,
{
    if k < d.len() {
        lemma_decimal_prefix_grows(d, k + 1);
        assert(d.take(k + 1).drop_last() == d.take(k));
    } else {
        assert(d.take(k) == d);
    }
}

/// Reads a `usize` written in decimal, as `str::parse::<usize>` does.
pub fn parse_usize(s: &str) -> (res: Option<usize>)
    ensures
        res == usize_from_decimal(s@),
{
    let chars = chars_of(s);
    let n = chars.len();
    let mut start: usize = 0;
    if n > 0 && chars[0] == '+' {
        start = 1;
    }
    let ghost d = without_plus(s@);
    assert(d == chars@.subrange(start as int, n as int));
    if start == n {
        return None;
    }
    let mut acc: usize = 0;
    let mut k = start;
    while k < n
        invariant
            start <= k <= n,
            n == chars@.len(),
            d == chars@.subrange(start as int, n as int),
            d == without_plus(s@),
            all_digits(d.take(k - start)),
            acc as nat == decimal_value(d.take(k - start)),
        decreases n - k,
    {
        let c = chars[k];
        if !('0' <= c && c <= '9') {
            assert(!all_digits(d)) by {
                assert(d[k - start] == c);
                assert(!is_digit(d[k - start]));
            }

            return None;
        }
        let dv = (c as u32 - '0' as u32) as usize;
        assert(d.take(k + 1 - start).drop_last() == d.take(k - start));
        assert(d.take(k + 1 - start).last() == c);
        assert(dv as nat == digit_value(c));
        assert(decimal_value(d.take(k + 1 - start)) == decimal_value(d.take(k - start)) * 10 + digit_value(c));
        assert(all_digits(d.take(k + 1 - start))) by {
            assert forall|j: int| 0 <= j < d.take(k + 1 - start).len() implies is_digit(#[trigger] d.take(k + 1 - start)[j]) by {
                if j < k - start {
                    assert(d.take(k + 1 - start)[j] == d.take(k - start)[j]);
                }
            }
        }
        match acc.checked_mul(10) {
            None => {
                proof {
                    if all_digits(d) {
                        lemma_decimal_prefix_grows(d, k + 1 - start);
                    }
                }
                return None;
            },
            Some(m) => match m.checked_add(dv) {
                None => {
                    proof {
                        if all_digits(d) {
                            lemma_decimal_prefix_grows(d, k + 1 - start);
                        }
                    }
                    return None;
                },
                Some(v) => {
                    acc = v;
                },
            },
        }
        k += 1;
    }
    assert(d.take(n - start) == d);
    Some(acc)
}

} // verus!

verus! {

/// Whether `c` has the Unicode `White_Space` property, which `str::trim` removes.
pub open spec fn is_white_space(c: char) -> bool {
    ('\u{9}' <= c && c <= '\u{D}') || c == ' ' || c == '\u{85}' || c == '\u{A0}' || c == '\u{1680}'
        || ('\u{2000}' <= c && c <= '\u{200A}') || c == '\u{2028}' || c == '\u{2029}'
        || c == '\u{202F}' || c == '\u{205F}' || c == '\u{3000}'
}

/// `s` without its leading white space.
pub open spec fn trim_leading(s: Seq<char>) -> Seq<char>
    decreases s.len(),
{
    if s.len() > 0 && is_white_space(s[0]) {
        trim_leading(s.drop_first())
    } else {
        s
    }
}

/// `s` without its trailing white space.
pub open spec fn trim_trailing(s: Seq<char>) -> Seq<char>
    decreases s.len(),
{
    if s.len() > 0 && is_white_space(s.last()) {
        trim_trailing(s.drop_last())
    } else {
        s
    }
}

/// `s` without white space at either end, as `str::trim` gives it.
pub open spec fn trimmed(s: Seq<char>) -> Seq<char> {
    trim_trailing(trim_leading(s))
}

fn is_white_space_exec(c: char) -> (res: bool)
    ensures
        res == is_white_space(c),
{
    ('\u{9}' <= c && c <= '\u{D}') || c == ' ' || c == '\u{85}' || c == '\u{A0}' || c == '\u{1680}'
        || ('\u{2000}' <= c && c <= '\u{200A}') || c == '\u{2028}' || c == '\u{2029}'
        || c == '\u{202F}' || c == '\u{205F}' || c == '\u{3000}'
}

/// `s` without white space at either end.
pub fn trim(s: &str) -> (res: String)
    ensures
        res@ == trimmed(s@),
{
    let chars = chars_of(s);
    let n = chars.len();
    let mut lo: usize = 0;
    assert(chars@.subrange(0, n as int) =~= s@);
    while lo < n && is_white_space_exec(chars[lo])
        invariant
            lo <= n == chars@.len(),
            trim_leading(s@) == trim_leading(chars@.subrange(lo as int, n as int)),
        decreases n - lo,
    {
        assert(chars@.subrange(lo as int, n as int).drop_first() =~= chars@.subrange(lo + 1, n as int));
        lo += 1;
    }
    let mut hi: usize = n;
    assert(trim_leading(s@) == chars@.subrange(lo as int, n as int));
    while hi > lo && is_white_space_exec(chars[hi - 1])
        invariant
            lo <= hi <= n == chars@.len(),
            trimmed(s@) == trim_trailing(chars@.subrange(lo as int, hi as int)),
        decreases hi - lo,
    {
        assert(chars@.subrange(lo as int, hi as int).drop_last() =~= chars@.subrange(lo as int, hi - 1));
        hi -= 1;
    }
    string_from_range(&chars, lo, hi)
}

/// The characters of `s` on line `line` (counting from 0): those that are not line breaks
/// and have exactly `line` line breaks before them.
pub open spec fn line_text(s: Seq<char>, line: nat) -> Seq<char>
    decreases s.len(),
{
    if s.len() == 0 {
        Seq::empty()
    } else {
        let before = line_text(s.drop_last(), line);
        if s.last() != '\n' && newline_count(s.drop_last()) == line {
            before.push(s.last())
        } else {
            before
        }
    }
}

/// How many line breaks `s` holds.
pub open spec fn newline_count(s: Seq<char>) -> nat
    decreases s.len(),
{
    if s.len() == 0 {
        0
    } else {
        newline_count(s.drop_last()) + if s.last() == '\n' { 1nat } else { 0nat }
    }
}

/// The line (1-based) and column (1-based) reached after reading `s`.
pub open spec fn line_col_after(s: Seq<char>) -> (nat, nat)
    decreases s.len(),
{
    if s.len() == 0 {
        (1, 1)
    } else {
        let (l, c) = line_col_after(s.drop_last());
        if s.last() == '\n' {
            (l + 1, 1)
        } else {
            (l, c + 1)
        }
    }
}

pub proof fn lemma_line_col_bound(s: Seq<char>)
    ensures
        line_col_after(s).0 + line_col_after(s).1 <= s.len() + 2,
        line_col_after(s).0 >= 1,
        line_col_after(s).1 >= 1,
    decreases s.len(),
{
    if s.len() > 0 {
        lemma_line_col_bound(s.drop_last());
    }
}

/// Where the last line break of `s` stands; -1 when it has none.
pub open spec fn last_newline(s: Seq<char>) -> int
    decreases s.len(),
{
    if s.len() == 0 {
        -1
    } else if s.last() == '\n' {
        s.len() - 1
    } else {
        last_newline(s.drop_last())
    }
}

/// The line and column after reading `s` are one more than the line breaks it holds, and
/// one more than the characters after its last line break (all of `s` when it has none).
pub proof fn lemma_line_col_counts(s: Seq<char>)
    ensures
        line_col_after(s).0 == 1 + newline_count(s),
        line_col_after(s).1 == s.len() - last_newline(s),
    decreases s.len(),
{
    if s.len() > 0 {
        lemma_line_col_counts(s.drop_last());
    }
}

/// The text of line `line` (1-based) of `src`, without its line break; empty when `src`
/// has fewer lines.
pub fn line_of(src: &str, line: usize) -> (res: String)
    requires
        line >= 1,
    ensures
        res@ == line_text(src@, (line - 1) as nat),
{
    let chars = chars_of(src);
    let n = chars.len();
    let target = line - 1;
    let mut out = String::new();
    let mut seen: usize = 0;
    let mut i: usize = 0;
    while i < n
        invariant
            i <= n == chars@.len(),
            chars@ == src@,
            target == line - 1,
            seen as nat == newline_count(src@.take(i as int)),
            seen <= i,
            out@ == line_text(src@.take(i as int), target as nat),
        decreases n - i,
    {
        let c = chars[i];
        assert(src@.take(i + 1).drop_last() =~= src@.take(i as int));
        if c != '\n' && seen == target {
            push_char(&mut out, c);
        }
        if c == '\n' {
            seen += 1;
        }
        i += 1;
    }
    assert(src@.take(n as int) =~= src@);
    out
}

/// The line and column, both counted from 1, of the character at position `offset` (in
/// characters) of `src`; past the end, of the end.
pub fn line_col_at_char(src: &str, offset: usize) -> (res: (usize, usize))
    requires
        src@.len() < usize::MAX,
    ensures
        res.0 as nat == line_col_after(src@.take(if offset < src@.len() { offset as int } else { src@.len() as int })).0,
        res.1 as nat == line_col_after(src@.take(if offset < src@.len() { offset as int } else { src@.len() as int })).1,
{
    let chars = chars_of(src);
    let n = chars.len();
    let mut line: usize = 1;
    let mut col: usize = 1;
    let mut i: usize = 0;
    while i < n && i != offset
        invariant
            i <= n == chars@.len(),
            n < usize::MAX,
            chars@ == src@,
            i <= offset,
            (line as nat, col as nat) == line_col_after(src@.take(i as int)),
        decreases n - i,
    {
        proof {
            lemma_line_col_bound(src@.take(i as int));
        }
        assert(src@.take(i + 1).drop_last() =~= src@.take(i as int));
        if chars[i] == '\n' {
            line += 1;
            col = 1;
        } else {
            col += 1;
        }
        i += 1;
    }
    assert(i == (if offset < src@.len() { offset as int } else { src@.len() as int }));
    (line, col)
}

} // verus!

verus! {

/// The ASCII digit for `d < 10`.
pub open spec fn digit_char(d: nat) -> char {
    (('0' as u32) + d) as char
}

/// The decimal writing of `n`, without leading zeros.
pub open spec fn decimal_text(n: nat) -> Seq<char>
    decreases n,
{
    if n < 10 {
        seq![digit_char(n)]
    } else {
        decimal_text(n / 10).push(digit_char(n % 10))
    }
}

fn digit_to_char(d: usize) -> (c: char)
    requires
        d < 10,
    ensures
        c == digit_char(d as nat),
{
    match d {
        0 => '0',
        1 => '1',
        2 => '2',
        3 => '3',
        4 => '4',
        5 => '5',
        6 => '6',
        7 => '7',
        8 => '8',
        _ => '9',
    }
}

/// Appends the decimal writing of `n` to `out`.
pub fn push_decimal(out: &mut String, n: usize)
    ensures
        final(out)@ == old(out)@ + decimal_text(n as nat),
    decreases n,
{
    if n >= 10 {
        push_decimal(out, n / 10);
    }
    push_char(out, digit_to_char(n % 10));
    assert(old(out)@ + decimal_text(n as nat) =~= (if n >= 10 { old(out)@ + decimal_text((n / 10) as nat) } else { old(out)@ }).push(digit_char((n % 10) as nat)));
}

} // verus!
