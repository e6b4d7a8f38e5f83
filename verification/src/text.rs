//! Characters, character classes and decimal numbers.
//!
//! The engine works on sequences of Unicode scalar values. Source text is
//! turned into a vector of `char` once, and every position in this crate
//! counts scalar values unless it says otherwise.

use vstd::prelude::*;

verus! {

/// The classes of characters that the scanners tell apart.
#[derive(Clone, Copy, PartialEq, Eq, Debug, Structural)]
pub enum CharClass {
    /// A space or a tab.
    Blank,
    /// An ASCII decimal digit.
    Digit,
    /// A letter, a digit or an underscore (ASCII).
    Ident,
    /// Anything but a line feed.
    InLine,
    /// Anything but a line feed or a double quote.
    Quoted,
}

pub open spec fn is_blank(c: char) -> bool {
    c == ' ' || c == '\t'
}

pub open spec fn is_digit(c: char) -> bool {
    48 <= c as u32 <= 57
}

pub open spec fn is_ident_start(c: char) -> bool {
    ||| 65 <= c as u32 <= 90
    ||| 97 <= c as u32 <= 122
    ||| c == '_'
}

pub open spec fn is_ident(c: char) -> bool {
    is_ident_start(c) || is_digit(c)
}

pub open spec fn in_class(class: CharClass, c: char) -> bool {
    match class {
        CharClass::Blank => is_blank(c),
        CharClass::Digit => is_digit(c),
        CharClass::Ident => is_ident(c),
        CharClass::InLine => c != '\n',
        CharClass::Quoted => c != '\n' && c != '"',
    }
}

/// The first position at or after `pos` whose character is not in `class`,
/// or the length of `s` where there is none.
pub open spec fn scan_end(s: Seq<char>, pos: int, class: CharClass) -> int
    decreases s.len() - pos,
{
    if 0 <= pos < s.len() && in_class(class, s[pos]) {
        scan_end(s, pos + 1, class)
    } else {
        pos
    }
}

pub proof fn lemma_scan_end_bounds(s: Seq<char>, pos: int, class: CharClass)
    requires
        0 <= pos <= s.len(),
    ensures
        pos <= scan_end(s, pos, class) <= s.len(),
        forall|j: int| pos <= j < scan_end(s, pos, class) ==> in_class(class, #[trigger] s[j]),
        scan_end(s, pos, class) < s.len() ==> !in_class(class, s[scan_end(s, pos, class)]),
    decreases s.len() - pos,
{
    if pos < s.len() && in_class(class, s[pos]) {
        lemma_scan_end_bounds(s, pos + 1, class);
    }
}

pub fn char_is_blank(c: char) -> (r: bool)
    ensures
        r == is_blank(c),
{
    c == ' ' || c == '\t'
}

pub fn char_is_digit(c: char) -> (r: bool)
    ensures
        r == is_digit(c),
{
    let n: u32 = c as u32;
    48 <= n && n <= 57
}

pub fn char_is_ident_start(c: char) -> (r: bool)
    ensures
        r == is_ident_start(c),
{
    let n: u32 = c as u32;
    (65 <= n && n <= 90) || (97 <= n && n <= 122) || c == '_'
}

pub fn char_is_ident(c: char) -> (r: bool)
    ensures
        r == is_ident(c),
{
    char_is_ident_start(c) || char_is_digit(c)
}

pub fn char_in_class(class: CharClass, c: char) -> (r: bool)
    ensures
        r == in_class(class, c),
{
    match class {
        CharClass::Blank => char_is_blank(c),
        CharClass::Digit => char_is_digit(c),
        CharClass::Ident => char_is_ident(c),
        CharClass::InLine => c != '\n',
        CharClass::Quoted => c != '\n' && c != '"',
    }
}

/// Runs over the characters of `class` that start at `pos`.
pub fn scan(src: &Vec<char>, pos: usize, class: CharClass) -> (end: usize)
    requires
        pos <= src.len(),
    ensures
        end == scan_end(src@, pos as int, class),
        pos <= end <= src.len(),
{
    let mut i: usize = pos;
    while i < src.len() && char_in_class(class, src[i])
        invariant
            pos <= i <= src.len(),
            scan_end(src@, i as int, class) == scan_end(src@, pos as int, class),
        decreases src.len() - i,
    {
        i += 1;
    }
    i
}

/// The characters of a string, in order.
pub fn chars_of(s: &str) -> (v: Vec<char>)
    ensures
        v@ == s@,
{
    let mut v: Vec<char> = Vec::new();
    for c in it: s.chars()
        invariant
            it.seq() == s@,
            v.len() == it.index(),
            forall|j: int| 0 <= j < v.len() ==> v@[j] == it.seq()[j],
    {
        v.push(c);
    }
    assert(v@ =~= s@);
    v
}

/// `String::push`: the string afterwards is the string before with `c`
/// appended.
#[verifier::external_body]
fn push_char(s: &mut String, c: char)
    ensures
        final(s)@ == old(s)@.push(c),
{
    s.push(c);
}

/// Appends the characters `src[lo..hi]` to `out`.
pub fn append_range(out: &mut String, src: &Vec<char>, lo: usize, hi: usize)
    requires
        lo <= hi <= src.len(),
    ensures
        final(out)@ == old(out)@ + src@.subrange(lo as int, hi as int),
{
    let mut i: usize = lo;
    while i < hi
        invariant
            lo <= i <= hi <= src.len(),
            out@ == old(out)@ + src@.subrange(lo as int, i as int),
        decreases hi - i,
    {
        push_char(out, src[i]);
        i += 1;
        assert(src@.subrange(lo as int, i as int) =~= src@.subrange(lo as int, i - 1).push(
            src@[i - 1],
        ));
        assert(out@ =~= old(out)@ + src@.subrange(lo as int, i as int));
    }
}

/// The string made of the characters `src[lo..hi]`.
pub fn string_of_range(src: &Vec<char>, lo: usize, hi: usize) -> (s: String)
    requires
        lo <= hi <= src.len(),
    ensures
        s@ == src@.subrange(lo as int, hi as int),
{
    let mut s = String::new();
    append_range(&mut s, src, lo, hi);
    assert(s@ =~= src@.subrange(lo as int, hi as int));
    s
}

/// The string made of the characters of `src`.
pub fn string_of(src: &Vec<char>) -> (s: String)
    ensures
        s@ == src@,
{
    let s = string_of_range(src, 0, src.len());
    assert(src@.subrange(0, src.len() as int) =~= src@);
    s
}

/// The decimal digit that stands for `d`.
pub open spec fn digit_char(d: int) -> char {
    if d == 0 {
        '0'
    } else if d == 1 {
        '1'
    } else if d == 2 {
        '2'
    } else if d == 3 {
        '3'
    } else if d == 4 {
        '4'
    } else if d == 5 {
        '5'
    } else if d == 6 {
        '6'
    } else if d == 7 {
        '7'
    } else if d == 8 {
        '8'
    } else {
        '9'
    }
}

/// The decimal numeral of a natural number, without leading zeros.
pub open spec fn decimal(n: nat) -> Seq<char>
    decreases n,
{
    if n < 10 {
        seq![digit_char(n as int)]
    } else {
        decimal(n / 10).push(digit_char((n % 10) as int))
    }
}

/// The decimal numeral of an integer: a minus sign where it is negative, then
/// the numeral of its magnitude.
pub open spec fn numeral(n: int) -> Seq<char> {
    if n < 0 {
        seq!['-'] + decimal((-n) as nat)
    } else {
        decimal(n as nat)
    }
}

fn digit_of(d: u64) -> (c: char)
    requires
        d < 10,
    ensures
        c == digit_char(d as int),
{
    if d == 0 {
        '0'
    } else if d == 1 {
        '1'
    } else if d == 2 {
        '2'
    } else if d == 3 {
        '3'
    } else if d == 4 {
        '4'
    } else if d == 5 {
        '5'
    } else if d == 6 {
        '6'
    } else if d == 7 {
        '7'
    } else if d == 8 {
        '8'
    } else {
        '9'
    }
}

/// Appends the decimal numeral of `n` to `out`.
pub fn push_decimal(out: &mut String, n: u64)
    ensures
        final(out)@ == old(out)@ + decimal(n as nat),
    decreases n,
{
    if n < 10 {
        push_char(out, digit_of(n));
        assert(out@ =~= old(out)@ + decimal(n as nat));
    } else {
        push_decimal(out, n / 10);
        push_char(out, digit_of(n % 10));
        assert(out@ =~= old(out)@ + decimal(n as nat));
    }
}

/// Appends the decimal numeral of `n` to `out`.
pub fn push_numeral(out: &mut String, n: i64)
    ensures
        final(out)@ == old(out)@ + numeral(n as int),
{
    if n < 0 {
        push_char(out, '-');
        let m: u64 = if n == i64::MIN {
            9223372036854775808u64
        } else {
            (-n) as u64
        };
        push_decimal(out, m);
        assert(out@ =~= old(out)@ + numeral(n as int));
    } else {
        push_decimal(out, n as u64);
    }
}

/// The value of a run of decimal digits, read as a numeral.
pub open spec fn digits_value(s: Seq<char>) -> nat
    decreases s.len(),
{
    if s.len() == 0 {
        0
    } else {
        digits_value(s.drop_last()) * 10 + (s.last() as u32 - 48) as nat
    }
}

pub open spec fn all_digits(s: Seq<char>) -> bool {
    forall|j: int| 0 <= j < s.len() ==> is_digit(#[trigger] s[j])
}

/// Reads `src[lo..hi]`, a run of digits, as a number. `None` where the value
/// is above the largest signed 64-bit integer.
pub fn read_digits(src: &Vec<char>, lo: usize, hi: usize) -> (r: Option<i64>)
    requires
        lo <= hi <= src.len(),
        all_digits(src@.subrange(lo as int, hi as int)),
    ensures
        r is Some <==> digits_value(src@.subrange(lo as int, hi as int)) <= i64::MAX,
        r is Some ==> r.unwrap() == digits_value(src@.subrange(lo as int, hi as int)),
{
    let mut acc: i64 = 0;
    let mut i: usize = lo;
    while i < hi
        invariant
            lo <= i <= hi <= src.len(),
            all_digits(src@.subrange(lo as int, hi as int)),
            0 <= acc,
            acc == digits_value(src@.subrange(lo as int, i as int)),
        decreases hi - i,
    {
        let c = src[i];
        assert(c == src@.subrange(lo as int, hi as int)[i - lo]);
        let d: i64 = (c as u32 - 48) as i64;
        proof {
            let next = src@.subrange(lo as int, i + 1);
            assert(next.drop_last() =~= src@.subrange(lo as int, i as int));
            assert(next.last() == c);
            lemma_digits_value_grows(src@.subrange(lo as int, hi as int), i + 1 - lo);
            assert(src@.subrange(lo as int, hi as int).take(i + 1 - lo) =~= next);
            assert(src@.subrange(lo as int, hi as int).take((hi - lo) as int) =~= src@.subrange(
                lo as int,
                hi as int,
            ));
        }
        if acc > (i64::MAX - d) / 10 {
            return None;
        }
        acc = acc * 10 + d;
        i += 1;
    }
    Some(acc)
}

/// A longer run of digits has no smaller value than its prefixes.
pub proof fn lemma_digits_value_grows(s: Seq<char>, k: int)
    requires
        0 <= k <= s.len(),
    ensures
        digits_value(s.take(k)) <= digits_value(s),
    decreases s.len(),
{
    if k < s.len() {
        lemma_digits_value_grows(s.drop_last(), k);
        assert(s.drop_last().take(k) =~= s.take(k));
    } else {
        assert(s.take(k) =~= s);
    }
}

} // verus!
