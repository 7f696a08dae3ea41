//! Routines for parsing /proc/meminfo.

use crate::text::{
    head, lemma_first_sep, nth_part, parse_usize, part, split_first, tail, trim, trimmed,
    unsigned_value, COLON, LINE_FEED, SPACE,
};
use vstd::prelude::*;
use vstd::slice::slice_subrange;
use vstd::string::{StringExecFns, StringSliceAdditionalSpecFns};

verus! {

/// The path of the file.
pub fn get_path() -> (path: String)
    ensures
        path@ == "/proc/meminfo"@,
{
    String::from_str("/proc/meminfo")
}

/// Some number of Kilobytes
#[derive(Debug, Clone, Copy)]
pub struct KiloBytes(usize);

/// Why a text is not an amount of memory.
#[derive(Debug, Clone, Copy, PartialEq, Eq, Structural)]
pub enum ParseKiloBytesError {
    /// The text does not start with an unsigned number that fits.
    Value,
    /// No space and unit follow the number.
    MissingUnits,
    /// The unit is none of kB, MB, GB, TB and PB.
    Units,
    /// The amount is more kilobytes than fit.
    TooLarge,
}

/// The first of the upper-case letters.
pub const UPPER_A: u8 = 65;

/// The last of the upper-case letters.
pub const UPPER_Z: u8 = 90;

/// How far each lower-case letter stands behind its upper-case form.
pub const CASE_GAP: u8 = 32;

/// The letter b, for bytes.
pub const LOWER_B: u8 = 98;

/// The letter g, for giga.
pub const LOWER_G: u8 = 103;

/// The letter k, for kilo.
pub const LOWER_K: u8 = 107;

/// The letter m, for mega.
pub const LOWER_M: u8 = 109;

/// The letter p, for peta.
pub const LOWER_P: u8 = 112;

/// The letter t, for tera.
pub const LOWER_T: u8 = 116;

/// The lower-case form of an ASCII letter; any other byte itself.
pub open spec fn lower(b: u8) -> u8 {
    if UPPER_A <= b <= UPPER_Z {
        (b + CASE_GAP) as u8
    } else {
        b
    }
}

/// The kilobytes in one unit: 1 for kB, and 1024 times as many from each
/// unit to the next of MB, GB, TB and PB, in upper or lower case.
pub open spec fn unit_kilobytes(unit: Seq<u8>) -> Option<nat> {
    if unit.len() == 2 && lower(unit[1]) == LOWER_B {
        if lower(unit[0]) == LOWER_K {
            Some(1)
        } else if lower(unit[0]) == LOWER_M {
            Some(1024)
        } else if lower(unit[0]) == LOWER_G {
            Some(1024 * 1024)
        } else if lower(unit[0]) == LOWER_T {
            Some(1024 * 1024 * 1024)
        } else if lower(unit[0]) == LOWER_P {
            Some(1024 * 1024 * 1024 * 1024)
        } else {
            None
        }
    } else {
        None
    }
}

/// The kilobytes that a text like "93 kB" stands for: a number, one space,
/// and a unit, which ends at the next space or at the end of the text.
pub open spec fn kilobytes_of(s: Seq<u8>) -> Result<usize, ParseKiloBytesError> {
    match unsigned_value(head(s, SPACE)) {
        Some(value) if value <= usize::MAX => match tail(s, SPACE) {
            Some(rest) => match unit_kilobytes(head(rest, SPACE)) {
                Some(unit) => if unit * value <= usize::MAX {
                    Ok((unit * value) as usize)
                } else {
                    Err(ParseKiloBytesError::TooLarge)
                },
                None => Err(ParseKiloBytesError::Units),
            },
            None => Err(ParseKiloBytesError::MissingUnits),
        },
        _ => Err(ParseKiloBytesError::Value),
    }
}

/// The lower-case form of an ASCII letter; any other byte itself.
fn to_lower(b: u8) -> (l: u8)
    ensures
        l == lower(b),
{
    if UPPER_A <= b && b <= UPPER_Z {
        b + CASE_GAP
    } else {
        b
    }
}

/// The kilobytes in one unit.
pub fn unit_factor(unit: &[u8]) -> (factor: Option<u64>)
    ensures
        match factor {
            Some(f) => unit_kilobytes(unit@) == Some(f as nat),
            None => unit_kilobytes(unit@) is None,
        },
{
    if unit.len() != 2 || to_lower(unit[1]) != LOWER_B {
        return None;
    }
    let first = to_lower(unit[0]);
    if first == LOWER_K {
        Some(1)
    } else if first == LOWER_M {
        Some(1024)
    } else if first == LOWER_G {
        Some(1024 * 1024)
    } else if first == LOWER_T {
        Some(1024 * 1024 * 1024)
    } else if first == LOWER_P {
        Some(1024 * 1024 * 1024 * 1024)
    } else {
        None
    }
}

/// A line of the file that has no colon after its name.
#[derive(Debug, Clone, Copy, PartialEq, Eq, Structural)]
pub struct MalformedLine;

/// The lines of the text after its first: what follows the first line feed.
pub open spec fn after_first_line(s: Seq<u8>) -> Seq<u8> {
    match tail(s, LINE_FEED) {
        Some(rest) => rest,
        None => Seq::empty(),
    }
}

/// The value that the file gives for `name`. The file is a list of lines;
/// each has a name, a colon and a value, which ends at the next colon if
/// there is one. White space around names and values does not count, and
/// of two lines with one name the later one counts. `Ok(None)` where no line
/// has the name; `Err` where any line of the file has no colon.
pub open spec fn entry_value(s: Seq<u8>, name: Seq<u8>) -> Result<
    Option<Seq<u8>>,
    MalformedLine,
>
    decreases s.len(),
{
    if s.len() == 0 {
        Ok(None)
    } else {
        proof {
            lemma_first_sep(s, LINE_FEED);
        }
        let line = head(s, LINE_FEED);
        match (part(line, COLON, 1), entry_value(after_first_line(s), name)) {
            (None, _) => Err(MalformedLine),
            (Some(_), Err(e)) => Err(e),
            (Some(_), Ok(Some(later))) => Ok(Some(later)),
            (Some(value), Ok(None)) => if trimmed(head(line, COLON)) == name {
                Ok(Some(trimmed(value)))
            } else {
                Ok(None)
            },
        }
    }
}

/// What the lines from some point on make of what was found before them.
spec fn found_so_far(
    found: Option<Seq<u8>>,
    rest: Result<Option<Seq<u8>>, MalformedLine>,
) -> Result<Option<Seq<u8>>, MalformedLine> {
    match rest {
        Err(e) => Err(e),
        Ok(Some(later)) => Ok(Some(later)),
        Ok(None) => Ok(found),
    }
}

/// Whether two texts are the same.
fn same_text(a: &[u8], b: &[u8]) -> (same: bool)
    ensures
        same == (a@ == b@),
{
    if a.len() != b.len() {
        return false;
    }
    let mut i: usize = 0;
    while i < a.len()
        invariant
            i <= a@.len(),
            a@.len() == b@.len(),
            a@.take(i as int) == b@.take(i as int),
        decreases a@.len() - i,
    {
        if a[i] != b[i] {
            return false;
        }
        proof {
            assert(a@.take(i + 1) =~= a@.take(i as int).push(a@[i as int]));
            assert(b@.take(i + 1) =~= b@.take(i as int).push(b@[i as int]));
        }
        i = i + 1;
    }
    proof {
        assert(a@.take(a@.len() as int) =~= a@);
        assert(b@.take(b@.len() as int) =~= b@);
    }
    true
}

/// The value that the file gives for `name`.
pub fn value_for<'a>(content: &'a [u8], name: &[u8]) -> (value: Result<
    Option<&'a [u8]>,
    MalformedLine,
>)
    ensures
        match value {
            Ok(Some(v)) => entry_value(content@, name@) == Ok::<Option<Seq<u8>>, MalformedLine>(
                Some(v@),
            ),
            Ok(None) => entry_value(content@, name@) == Ok::<Option<Seq<u8>>, MalformedLine>(
                None,
            ),
            Err(e) => entry_value(content@, name@) == Err::<Option<Seq<u8>>, MalformedLine>(e),
        },
{
    let mut rest = content;
    let mut found: Option<&'a [u8]> = None;
    while rest.len() > 0
        invariant
            entry_value(content@, name@) == found_so_far(
                match found {
                    Some(v) => Some(v@),
                    None => None,
                },
                entry_value(rest@, name@),
            ),
        decreases rest@.len(),
    {
        let ghost before = rest@;
        let (line, after) = split_first(rest, LINE_FEED);
        let value = match nth_part(line, COLON, 1) {
            Some(value) => value,
            None => {
                return Err(MalformedLine);
            },
        };
        let (key, _) = split_first(line, COLON);
        if same_text(trim(key), name) {
            found = Some(trim(value));
        }
        proof {
            lemma_first_sep(before, LINE_FEED);
        }
        rest = match after {
            Some(after) => after,
            None => slice_subrange(rest, rest.len(), rest.len()),
        };
        assert(rest@ =~= after_first_line(before));
    }
    Ok(found)
}

impl KiloBytes {
    /// The number of kilobytes.
    pub closed spec fn view(&self) -> usize {
        self.0
    }

    /// The number of kilobytes.
    pub fn kilobytes(self) -> (kb: usize)
        ensures
            kb == self@,
    {
        self.0
    }

    /// Parse the bytes of a text like "93 kB".
    pub fn from_bytes(text: &[u8]) -> (parsed: Result<Self, ParseKiloBytesError>)
        ensures
            match parsed {
                Ok(kb) => kilobytes_of(text@) == Ok::<usize, ParseKiloBytesError>(kb@),
                Err(e) => kilobytes_of(text@) == Err::<usize, ParseKiloBytesError>(e),
            },
    {
        let (number, rest) = split_first(text, SPACE);
        let value = match parse_usize(number) {
            Some(value) => value,
            None => {
                return Err(ParseKiloBytesError::Value);
            },
        };
        let rest = match rest {
            Some(rest) => rest,
            None => {
                return Err(ParseKiloBytesError::MissingUnits);
            },
        };
        let (unit, _) = split_first(rest, SPACE);
        let factor = match unit_factor(unit) {
            Some(factor) => factor,
            None => {
                return Err(ParseKiloBytesError::Units);
            },
        };
        assert(factor * value <= u128::MAX) by (nonlinear_arith)
            requires
                factor <= u64::MAX,
                value <= u64::MAX,
        ;
        let as_kb = factor as u128 * value as u128;
        if as_kb <= usize::MAX as u128 {
            Ok(KiloBytes(as_kb as usize))
        } else {
            Err(ParseKiloBytesError::TooLarge)
        }
    }
}

impl std::str::FromStr for KiloBytes {
    type Err = ParseKiloBytesError;

    // Parse a string like "93 kB"
    fn from_str(s: &str) -> (parsed: Result<Self, Self::Err>)
        ensures
            match parsed {
                Ok(kb) => kilobytes_of(s.spec_bytes()) == Ok::<usize, ParseKiloBytesError>(kb@),
                Err(e) => kilobytes_of(s.spec_bytes()) == Err::<usize, ParseKiloBytesError>(e),
            },
    {
        KiloBytes::from_bytes(s.as_bytes())
    }
}

} // verus!
