//! Characters and strings: searching, comparing, byte widths, whitespace, decimal numerals.
use vstd::prelude::*;
use vstd::string::*;
use vstd::utf8::encode_utf8;

verus! {

/// `String::push` appends the character `c` to the end of the string.
pub assume_specification[ String::push ](s: &mut String, c: char)
    ensures
        final(s)@ == old(s)@.push(c),
;

/// The number of bytes that `s` takes in UTF-8.
pub open spec fn byte_len(s: Seq<char>) -> nat {
    encode_utf8(s).len()
}

/// `c`, `n` times.
pub open spec fn repeated(c: char, n: nat) -> Seq<char> {
    Seq::new(n, |i: int| c)
}

/// Whether `c` has the Unicode property `White_Space`.
pub open spec fn is_blank(c: char) -> bool {
    ||| '\u{9}' <= c <= '\u{d}'
    ||| c == ' '
    ||| c == '\u{85}'
    ||| c == '\u{a0}'
    ||| c == '\u{1680}'
    ||| '\u{2000}' <= c <= '\u{200a}'
    ||| c == '\u{2028}'
    ||| c == '\u{2029}'
    ||| c == '\u{202f}'
    ||| c == '\u{205f}'
    ||| c == '\u{3000}'
}

/// How many characters of whitespace `s` begins with.
pub open spec fn blank_run(s: Seq<char>) -> nat
    decreases s.len(),
{
    if s.len() == 0 || !is_blank(s[0]) {
        0
    } else {
        1 + blank_run(s.drop_first())
    }
}

/// The number of bytes of whitespace before the first other character of `s`, or zero if there
/// is no other character.
pub open spec fn indent_len(s: Seq<char>) -> nat {
    let n = blank_run(s);
    if n == s.len() {
        0
    } else {
        byte_len(s.take(n as int))
    }
}

/// How many `c` stand at the end of `s`.
pub open spec fn last_run(s: Seq<char>, c: char) -> nat
    decreases s.len(),
{
    if s.len() == 0 || s.last() != c {
        0
    } else {
        last_run(s.drop_last(), c) + 1
    }
}

/// The length of the longest run of `c` in `s`.
pub open spec fn longest_run(s: Seq<char>, c: char) -> nat
    decreases s.len(),
{
    if s.len() == 0 {
        0
    } else if longest_run(s.drop_last(), c) < last_run(s, c) {
        last_run(s, c)
    } else {
        longest_run(s.drop_last(), c)
    }
}

/// The character of a decimal digit.
pub open spec fn digit(d: int) -> char
    recommends
        0 <= d < 10,
{
    seq!['0', '1', '2', '3', '4', '5', '6', '7', '8', '9'][d]
}

/// `n` in decimal, without leading zeros.
pub open spec fn numeral(n: nat) -> Seq<char>
    decreases n,
{
    if n < 10 {
        seq![digit(n as int)]
    } else {
        numeral(n / 10).push(digit((n % 10) as int))
    }
}

/// A character occurs in two texts one behind the other if and only if it occurs in one of them.
pub proof fn lemma_contained_in_sum(a: Seq<char>, b: Seq<char>, c: char)
    ensures
        (a + b).contains(c) == (a.contains(c) || b.contains(c)),
{
    let whole = a + b;
    if a.contains(c) {
        let i = choose|i: int| 0 <= i < a.len() && a[i] == c;
        assert(whole[i] == c);
    }
    if b.contains(c) {
        let i = choose|i: int| 0 <= i < b.len() && b[i] == c;
        assert(whole[a.len() + i] == c);
    }
}

/// Computes the number of bytes of `s`.
pub(crate) fn byte_length(s: &str) -> (n: usize)
    ensures
        n == byte_len(s@),
{
    s.as_bytes().len()
}

/// Returns the characters of `s`.
pub(crate) fn chars_of(s: &str) -> (v: Vec<char>)
    ensures
        v@ == s@,
{
    let mut v: Vec<char> = Vec::new();
    for c in iter: s.chars()
        invariant
            iter.seq() == s@,
            v@ == s@.take(iter.index()),
    {
        v.push(c);
    }
    v
}

/// Tells whether `c` occurs in `s`.
pub(crate) fn contains_char(s: &str, c: char) -> (found: bool)
    ensures
        found == s@.contains(c),
{
    let chars = chars_of(s);
    let mut i: usize = 0;
    while i < chars.len()
        invariant
            chars@ == s@,
            i <= chars.len(),
            forall|j: int| 0 <= j < i ==> s@[j] != c,
        decreases chars.len() - i,
    {
        if chars[i] == c {
            assert(s@[i as int] == c);
            return true;
        }
        i += 1;
    }
    false
}

/// Tells whether `a` and `b` hold the same text.
pub(crate) fn same_text(a: &str, b: &str) -> (same: bool)
    ensures
        same == (a@ == b@),
{
    let left = chars_of(a);
    let right = chars_of(b);
    if left.len() != right.len() {
        return false;
    }
    let mut i: usize = 0;
    while i < left.len()
        invariant
            left@ == a@,
            right@ == b@,
            left.len() == right.len(),
            i <= left.len(),
            forall|j: int| 0 <= j < i ==> a@[j] == b@[j],
        decreases left.len() - i,
    {
        if left[i] != right[i] {
            return false;
        }
        i += 1;
    }
    assert(a@ =~= b@);
    true
}

/// Tells whether the last character of `s` is a newline.
pub(crate) fn ends_with_newline(s: &str) -> (r: bool)
    ensures
        r == (s@.len() > 0 && s@.last() == '\n'),
{
    let chars = chars_of(s);
    chars.len() > 0 && chars[chars.len() - 1] == '\n'
}

/// Computes the length of the longest run of `c` in `s`.
pub(crate) fn longest_run_of(s: &str, c: char) -> (n: usize)
    ensures
        n == longest_run(s@, c),
{
    let chars = chars_of(s);
    let mut last: usize = 0;
    let mut longest: usize = 0;
    let mut i: usize = 0;
    while i < chars.len()
        invariant
            chars@ == s@,
            i <= chars.len(),
            last <= i,
            last == last_run(s@.take(i as int), c),
            longest == longest_run(s@.take(i as int), c),
        decreases chars.len() - i,
    {
        assert(s@.take(i + 1).drop_last() =~= s@.take(i as int));
        last = if chars[i] == c {
            last + 1
        } else {
            0
        };
        if longest < last {
            longest = last;
        }
        i += 1;
    }
    assert(s@.take(i as int) =~= s@);
    longest
}

/// Makes a string of `n` spaces.
pub(crate) fn make_blanks(n: usize) -> (s: String)
    ensures
        s@ == repeated(' ', n as nat),
{
    let mut s = String::new();
    let mut i: usize = 0;
    while i < n
        invariant
            i <= n,
            s@ =~= repeated(' ', i as nat),
        decreases n - i,
    {
        s.push(' ');
        i += 1;
    }
    s
}

/// Tells whether `c` is whitespace.
pub(crate) fn is_whitespace(c: char) -> (r: bool)
    ensures
        r == is_blank(c),
{
    let u: u32 = c as u32;
    (0x9 <= u && u <= 0xd) || u == 0x20 || u == 0x85 || u == 0xa0 || u == 0x1680 || (0x2000 <= u
        && u <= 0x200a) || u == 0x2028 || u == 0x2029 || u == 0x202f || u == 0x205f || u == 0x3000
}

proof fn lemma_blank_run(s: Seq<char>, n: nat)
    requires
        n <= s.len(),
        forall|i: int| 0 <= i < n ==> is_blank(s[i]),
        n == s.len() || !is_blank(s[n as int]),
    ensures
        blank_run(s) == n,
    decreases n,
{
    if n > 0 {
        lemma_blank_run(s.drop_first(), (n - 1) as nat);
    }
}

/// Computes the number of bytes of whitespace before the first other character of `s`.
pub(crate) fn indent_length(s: &str) -> (n: usize)
    ensures
        n == indent_len(s@),
{
    let chars = chars_of(s);
    let mut lead = String::new();
    let mut i: usize = 0;
    while i < chars.len() && is_whitespace(chars[i])
        invariant
            chars@ == s@,
            i <= chars.len(),
            lead@ =~= s@.take(i as int),
            forall|j: int| 0 <= j < i ==> is_blank(s@[j]),
        decreases chars.len() - i,
    {
        lead.push(chars[i]);
        i += 1;
    }
    proof {
        lemma_blank_run(s@, i as nat);
    }
    if i == chars.len() {
        0
    } else {
        byte_length(lead.as_str())
    }
}

/// Returns the character of a decimal digit.
fn digit_char(d: u64) -> (c: char)
    requires
        d < 10,
    ensures
        c == digit(d as int),
{
    match d {
        0 => '0',
        1 => '1',
        2 => '2',
        3 => '3',
        4 => '4',
        5 => '5',
        6 => '6',
        7 => '7',
        8 => '8',
        _ => '9',
    }
}

/// Writes `n` in decimal.
pub(crate) fn decimal(n: u64) -> (s: String)
    ensures
        s@ == numeral(n as nat),
    decreases n,
{
    if n < 10 {
        let mut s = String::new();
        s.push(digit_char(n));
        assert(s@ =~= numeral(n as nat));
        s
    } else {
        let mut s = decimal(n / 10);
        s.push(digit_char(n % 10));
        s
    }
}

} // verus!
