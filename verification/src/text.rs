//! The text of the kernel's accounting files: fields between separators,
//! surrounding white space, and decimal numbers.

use vstd::prelude::*;
use vstd::slice::slice_subrange;
use vstd::string::StringExecFns;

verus! {

/// The horizontal tab, the first of the white space of one byte.
pub const TAB: u8 = 9;

/// The line feed, which ends a line.
pub const LINE_FEED: u8 = 10;

/// The carriage return, the last of the control characters that are white
/// space.
pub const CARRIAGE_RETURN: u8 = 13;

/// The space.
pub const SPACE: u8 = 32;

/// The plus sign.
pub const PLUS: u8 = 43;

/// The minus sign.
pub const MINUS: u8 = 45;

/// The digit zero, the first of the decimal digits.
pub const ZERO: u8 = 48;

/// The digit nine, the last of the decimal digits.
pub const NINE: u8 = 57;

/// The colon.
pub const COLON: u8 = 58;

/// An ASCII decimal digit.
pub open spec fn is_digit(b: u8) -> bool {
    ZERO <= b <= NINE
}

/// White space of one byte: a space, or one of the control characters from
/// the horizontal tab to the carriage return.
pub open spec fn is_space(b: u8) -> bool {
    b == SPACE || TAB <= b <= CARRIAGE_RETURN
}

/// Every byte is a decimal digit.
pub open spec fn all_digits(s: Seq<u8>) -> bool {
    forall|i: int| 0 <= i < s.len() ==> is_digit(#[trigger] s[i])
}

/// The number that a run of decimal digits stands for.
pub open spec fn digits_value(s: Seq<u8>) -> nat
    decreases s.len(),
{
    if s.len() == 0 {
        0
    } else {
        digits_value(s.drop_last()) * 10 + (s.last() - ZERO) as nat
    }
}

/// The number that at least one decimal digit stands for.
pub open spec fn magnitude(s: Seq<u8>) -> Option<nat> {
    if s.len() > 0 && all_digits(s) {
        Some(digits_value(s))
    } else {
        None
    }
}

/// The number that an unsigned decimal text stands for: a `+` may stand
/// before the digits, and nothing else but digits is accepted.
pub open spec fn unsigned_value(s: Seq<u8>) -> Option<nat> {
    if s.len() > 0 && s[0] == PLUS {
        magnitude(s.skip(1))
    } else {
        magnitude(s)
    }
}

/// The number that a signed decimal text stands for: a `+` or a `-` may
/// stand before the digits.
pub open spec fn signed_value(s: Seq<u8>) -> Option<int> {
    if s.len() > 0 && s[0] == MINUS {
        match magnitude(s.skip(1)) {
            Some(v) => Some(-(v as int)),
            None => None,
        }
    } else {
        match unsigned_value(s) {
            Some(v) => Some(v as int),
            None => None,
        }
    }
}

/// The text without the white space at its start.
pub open spec fn trim_start(s: Seq<u8>) -> Seq<u8>
    decreases s.len(),
{
    if s.len() > 0 && is_space(s[0]) {
        trim_start(s.skip(1))
    } else {
        s
    }
}

/// The text without the white space at its end.
pub open spec fn trim_end(s: Seq<u8>) -> Seq<u8>
    decreases s.len(),
{
    if s.len() > 0 && is_space(s.last()) {
        trim_end(s.drop_last())
    } else {
        s
    }
}

/// The text without the white space at its start and at its end.
pub open spec fn trimmed(s: Seq<u8>) -> Seq<u8> {
    trim_end(trim_start(s))
}

/// Where the first `sep` stands in the text; the length of the text if
/// there is none.
pub open spec fn first_sep(s: Seq<u8>, sep: u8) -> int
    decreases s.len(),
{
    if s.len() == 0 || s[0] == sep {
        0
    } else {
        1 + first_sep(s.skip(1), sep)
    }
}

/// The part of the text before the first `sep`; all of it if there is none.
pub open spec fn head(s: Seq<u8>, sep: u8) -> Seq<u8> {
    s.take(first_sep(s, sep))
}

/// The part of the text after the first `sep`, if there is one.
pub open spec fn tail(s: Seq<u8>, sep: u8) -> Option<Seq<u8>> {
    if first_sep(s, sep) < s.len() {
        Some(s.skip(first_sep(s, sep) + 1))
    } else {
        None
    }
}

/// The `k`th of the parts that the separators `sep` divide the text into,
/// counted from zero. A text without a separator is one part, which may be
/// empty.
pub open spec fn part(s: Seq<u8>, sep: u8, k: nat) -> Option<Seq<u8>>
    decreases k,
{
    if k == 0 {
        Some(head(s, sep))
    } else {
        match tail(s, sep) {
            Some(rest) => part(rest, sep, (k - 1) as nat),
            None => None,
        }
    }
}

/// The decimal digits of a natural number, without leading zeros.
pub open spec fn natural_text(n: nat) -> Seq<char>
    decreases n,
{
    if n < 10 {
        seq![(ZERO + n) as char]
    } else {
        natural_text(n / 10).push((ZERO + n % 10) as char)
    }
}

/// The decimal text of an integer: a `-` before the digits of a negative
/// number.
pub open spec fn integer_text(n: int) -> Seq<char> {
    if n < 0 {
        seq!['-'] + natural_text((-n) as nat)
    } else {
        natural_text(n as nat)
    }
}

/// `first_sep` is the least index of a `sep`, or the length of the text.
pub proof fn lemma_first_sep(s: Seq<u8>, sep: u8)
    ensures
        0 <= first_sep(s, sep) <= s.len(),
        first_sep(s, sep) < s.len() ==> s[first_sep(s, sep)] == sep,
        forall|i: int| 0 <= i < first_sep(s, sep) ==> s[i] != sep,
    decreases s.len(),
{
    if s.len() == 0 || s[0] == sep {
    } else {
        let rest = s.skip(1);
        lemma_first_sep(rest, sep);
        assert forall|i: int| 0 <= i < first_sep(s, sep) implies s[i] != sep by {
            if i > 0 {
                assert(rest[i - 1] == s[i]);
            }
        }
    }
}

/// An index with a `sep` at it and none before it is `first_sep`.
pub proof fn lemma_first_sep_is(s: Seq<u8>, sep: u8, at: int)
    requires
        0 <= at <= s.len(),
        at < s.len() ==> s[at] == sep,
        forall|i: int| 0 <= i < at ==> s[i] != sep,
    ensures
        first_sep(s, sep) == at,
{
    lemma_first_sep(s, sep);
    let f = first_sep(s, sep);
    if f < at {
        assert(s[f] != sep);
    }
}

/// More digits never stand for a smaller number.
pub proof fn lemma_digits_value_grows(s: Seq<u8>, k: int)
    requires
        0 <= k <= s.len(),
        all_digits(s),
    ensures
        digits_value(s.take(k)) <= digits_value(s),
    decreases s.len() - k,
{
    if k == s.len() {
        assert(s.take(k) =~= s);
    } else {
        lemma_digits_value_grows(s.drop_last(), k);
        assert(s.drop_last().take(k) =~= s.take(k));
        assert(is_digit(s[s.len() - 1]));
    }
}

/// The index of the first `sep` in the text, or the length of the text.
pub fn find(text: &[u8], sep: u8) -> (at: usize)
    ensures
        at == first_sep(text@, sep),
{
    let n = text.len();
    let mut i: usize = 0;
    while i < n && text[i] != sep
        invariant
            i <= n,
            n == text@.len(),
            forall|j: int| 0 <= j < i ==> text@[j] != sep,
        decreases n - i,
    {
        i = i + 1;
    }
    proof {
        lemma_first_sep_is(text@, sep, i as int);
    }
    i
}

/// Splits the text at its first `sep`: the part before it, and the part
/// after it if there is a `sep`.
pub fn split_first(text: &[u8], sep: u8) -> (parts: (&[u8], Option<&[u8]>))
    ensures
        parts.0@ == head(text@, sep),
        match parts.1 {
            Some(rest) => tail(text@, sep) == Some(rest@),
            None => tail(text@, sep) is None,
        },
{
    let at = find(text, sep);
    proof {
        lemma_first_sep(text@, sep);
    }
    let first = slice_subrange(text, 0, at);
    if at < text.len() {
        (first, Some(slice_subrange(text, at + 1, text.len())))
    } else {
        (first, None)
    }
}

/// The `k`th of the parts that the separators `sep` divide the text into,
/// counted from zero; `None` where the text has fewer parts.
pub fn nth_part(text: &[u8], sep: u8, k: usize) -> (found: Option<&[u8]>)
    ensures
        match found {
            Some(p) => part(text@, sep, k as nat) == Some(p@),
            None => part(text@, sep, k as nat) is None,
        },
{
    let mut rest = text;
    let mut i: usize = 0;
    while i < k
        invariant
            i <= k,
            part(text@, sep, k as nat) == part(rest@, sep, (k - i) as nat),
        decreases k - i,
    {
        let (_, after) = split_first(rest, sep);
        match after {
            Some(after) => {
                rest = after;
            },
            None => {
                return None;
            },
        }
        i = i + 1;
    }
    let (first, _) = split_first(rest, sep);
    Some(first)
}

/// The text without the white space at its start and at its end.
pub fn trim(text: &[u8]) -> (inner: &[u8])
    ensures
        inner@ == trimmed(text@),
{
    let n = text.len();
    let mut from: usize = 0;
    assert(text@.skip(0) =~= text@);
    while from < n && is_space_byte(text[from])
        invariant
            from <= n,
            n == text@.len(),
            trim_start(text@) == trim_start(text@.skip(from as int)),
        decreases n - from,
    {
        proof {
            assert(text@.skip(from as int).skip(1) =~= text@.skip(from + 1));
        }
        from = from + 1;
    }
    let ghost left = text@.skip(from as int);
    assert(trim_start(text@) == left);
    let mut to: usize = n;
    assert(left.take(n - from) =~= left);
    while to > from && is_space_byte(text[to - 1])
        invariant
            from <= to <= n,
            n == text@.len(),
            left == text@.skip(from as int),
            trim_end(left) == trim_end(left.take(to - from)),
        decreases to,
    {
        proof {
            assert(left.take(to - from).drop_last() =~= left.take(to - from - 1));
        }
        to = to - 1;
    }
    proof {
        assert(text@.subrange(from as int, to as int) =~= left.take(to - from));
    }
    slice_subrange(text, from, to)
}

/// Whether the byte is white space.
pub fn is_space_byte(b: u8) -> (space: bool)
    ensures
        space == is_space(b),
{
    b == SPACE || (TAB <= b && b <= CARRIAGE_RETURN)
}

/// The number that a run of at least one decimal digit stands for, if it
/// fits.
fn parse_digits(digits: &[u8]) -> (value: Option<usize>)
    ensures
        value == match magnitude(digits@) {
            Some(v) => if v <= usize::MAX {
                Some(v as usize)
            } else {
                None
            },
            None => None,
        },
{
    let n = digits.len();
    if n == 0 {
        return None;
    }
    let mut acc: usize = 0;
    let mut i: usize = 0;
    while i < n
        invariant
            i <= n,
            n == digits@.len(),
            n > 0,
            all_digits(digits@.take(i as int)),
            acc == digits_value(digits@.take(i as int)),
        decreases n - i,
    {
        let b = digits[i];
        if b < ZERO || b > NINE {
            return None;
        }
        proof {
            assert(digits@.take(i + 1).drop_last() =~= digits@.take(i as int));
            assert(digits@.take(i + 1).last() == b);
            if all_digits(digits@) {
                lemma_digits_value_grows(digits@, i + 1);
            }
        }
        let d = (b - ZERO) as usize;
        acc = match acc.checked_mul(10) {
            Some(tens) => match tens.checked_add(d) {
                Some(sum) => sum,
                None => {
                    return None;
                },
            },
            None => {
                return None;
            },
        };
        i = i + 1;
    }
    proof {
        assert(digits@.take(n as int) =~= digits@);
    }
    Some(acc)
}

/// The number that an unsigned decimal text stands for, if it is one and
/// the number fits.
pub fn parse_usize(text: &[u8]) -> (value: Option<usize>)
    ensures
        value == match unsigned_value(text@) {
            Some(v) => if v <= usize::MAX {
                Some(v as usize)
            } else {
                None
            },
            None => None,
        },
{
    if text.len() > 0 && text[0] == PLUS {
        parse_digits(slice_subrange(text, 1, text.len()))
    } else {
        parse_digits(text)
    }
}

/// The number that a signed decimal text stands for, if it is one and the
/// number fits.
pub fn parse_isize(text: &[u8]) -> (value: Option<isize>)
    ensures
        value == match signed_value(text@) {
            Some(v) => if isize::MIN <= v <= isize::MAX {
                Some(v as isize)
            } else {
                None
            },
            None => None,
        },
{
    if text.len() > 0 && text[0] == MINUS {
        match parse_digits(slice_subrange(text, 1, text.len())) {
            Some(m) => {
                if m <= isize::MAX as usize {
                    Some(-(m as isize))
                } else if m - 1 == isize::MAX as usize {
                    Some(isize::MIN)
                } else {
                    None
                }
            },
            None => None,
        }
    } else {
        match parse_usize(text) {
            Some(m) => if m <= isize::MAX as usize {
                Some(m as isize)
            } else {
                None
            },
            None => None,
        }
    }
}

/// The text of one decimal digit.
fn digit_text(d: u8) -> (text: &'static str)
    requires
        d < 10,
    ensures
        text@ == seq![(ZERO + d) as char],
{
    proof {
        reveal_strlit("0");
        reveal_strlit("1");
        reveal_strlit("2");
        reveal_strlit("3");
        reveal_strlit("4");
        reveal_strlit("5");
        reveal_strlit("6");
        reveal_strlit("7");
        reveal_strlit("8");
        reveal_strlit("9");
    }
    let text = match d {
        0 => "0",
        1 => "1",
        2 => "2",
        3 => "3",
        4 => "4",
        5 => "5",
        6 => "6",
        7 => "7",
        8 => "8",
        _ => "9",
    };
    assert(text@ =~= seq![(ZERO + d) as char]);
    text
}

/// Appends the decimal digits of `n` to the text.
fn append_natural(text: &mut String, n: usize)
    ensures
        final(text)@ == old(text)@ + natural_text(n as nat),
    decreases n,
{
    if n >= 10 {
        append_natural(text, n / 10);
    }
    text.append(digit_text((n % 10) as u8));
    assert(final(text)@ =~= old(text)@ + natural_text(n as nat));
}

/// Appends the decimal text of `n` to the text.
pub fn append_integer(text: &mut String, n: isize)
    ensures
        final(text)@ == old(text)@ + integer_text(n as int),
{
    if n < 0 {
        proof {
            reveal_strlit("-");
        }
        text.append("-");
        // The magnitude of the least `isize` is not an `isize`.
        let m: usize = if n == isize::MIN {
            isize::MAX as usize + 1
        } else {
            (-n) as usize
        };
        append_natural(text, m);
        assert(final(text)@ =~= old(text)@ + integer_text(n as int));
    } else {
        append_natural(text, n as usize);
    }
}

} // verus!
