use bmk_linux::linux4_4::pgrep::parse_pid;
use bmk_linux::linux4_4::procfs::meminfo;
use bmk_linux::linux4_4::procfs::meminfo::{KiloBytes, MalformedLine, ParseKiloBytesError};
use bmk_linux::procfs::pid::stat;
use bmk_linux::procfs::pid::stat::Process;
use bmk_linux::text::{
    append_integer, find, is_space_byte, nth_part, parse_isize, parse_usize, split_first, trim,
};

fn kb(text: &str) -> Result<usize, ParseKiloBytesError> {
    text.parse::<KiloBytes>().map(|kb| kb.kilobytes())
}

fn decimal(n: isize) -> String {
    let mut text = String::new();
    append_integer(&mut text, n);
    text
}

#[test]
fn meminfo_path() {
    assert_eq!(meminfo::get_path(), "/proc/meminfo");
}

#[test]
fn stat_path_of_the_current_process() {
    assert_eq!(stat::get_path(Process::Current), "/proc/self/stat");
}

#[test]
fn stat_path_of_a_process() {
    assert_eq!(stat::get_path(Process::Pid(1)), "/proc/1/stat");
    assert_eq!(stat::get_path(Process::Pid(1234)), "/proc/1234/stat");
    assert_eq!(stat::get_path(Process::Pid(0)), "/proc/0/stat");
    assert_eq!(stat::get_path(Process::Pid(-5)), "/proc/-5/stat");
    assert_eq!(
        stat::get_path(Process::Pid(isize::MAX)),
        format!("/proc/{}/stat", isize::MAX)
    );
    assert_eq!(
        stat::get_path(Process::Pid(isize::MIN)),
        format!("/proc/{}/stat", isize::MIN)
    );
}

#[test]
fn integers_are_written_as_the_standard_library_writes_them() {
    for n in [0isize, 1, 9, 10, 11, 99, 100, 101, 4096, -1, -9, -10, -4096, isize::MAX, isize::MIN]
    {
        assert_eq!(decimal(n), format!("{}", n));
    }
    let mut text = String::from("pid ");
    append_integer(&mut text, 42);
    assert_eq!(text, "pid 42");
}

#[test]
fn kilobytes_of_each_unit() {
    assert_eq!(kb("93 kB"), Ok(93));
    assert_eq!(kb("93 KB"), Ok(93));
    assert_eq!(kb("93 kb"), Ok(93));
    assert_eq!(kb("2 mB"), Ok(2 * 1024));
    assert_eq!(kb("2 MB"), Ok(2 * 1024));
    assert_eq!(kb("3 gb"), Ok(3 * 1024 * 1024));
    assert_eq!(kb("4 Tb"), Ok(4 * 1024 * 1024 * 1024));
    assert_eq!(kb("5 PB"), Ok(5 * 1024 * 1024 * 1024 * 1024));
    assert_eq!(kb("0 kB"), Ok(0));
    assert_eq!(kb("+7 kB"), Ok(7));
    assert_eq!(kb("16309264 kB"), Ok(16309264));
}

#[test]
fn kilobytes_ignore_what_follows_the_unit() {
    assert_eq!(kb("93 kB more"), Ok(93));
    assert_eq!(kb("93 kB "), Ok(93));
}

#[test]
fn kilobytes_from_bytes() {
    assert_eq!(KiloBytes::from_bytes(b"93 kB").map(|kb| kb.kilobytes()), Ok(93));
    assert_eq!(
        KiloBytes::from_bytes(b"93").map(|kb| kb.kilobytes()),
        Err(ParseKiloBytesError::MissingUnits)
    );
}

#[test]
fn kilobytes_need_a_number() {
    assert_eq!(kb(""), Err(ParseKiloBytesError::Value));
    assert_eq!(kb("kB"), Err(ParseKiloBytesError::Value));
    assert_eq!(kb(" 93 kB"), Err(ParseKiloBytesError::Value));
    assert_eq!(kb("-93 kB"), Err(ParseKiloBytesError::Value));
    assert_eq!(kb("9.3 kB"), Err(ParseKiloBytesError::Value));
    assert_eq!(kb("93kB"), Err(ParseKiloBytesError::Value));
    assert_eq!(kb("+ kB"), Err(ParseKiloBytesError::Value));
    assert_eq!(kb("99999999999999999999999 kB"), Err(ParseKiloBytesError::Value));
}

#[test]
fn kilobytes_need_units() {
    assert_eq!(kb("93"), Err(ParseKiloBytesError::MissingUnits));
    assert_eq!(kb("0"), Err(ParseKiloBytesError::MissingUnits));
}

#[test]
fn kilobytes_need_known_units() {
    assert_eq!(kb("93 "), Err(ParseKiloBytesError::Units));
    assert_eq!(kb("93  kB"), Err(ParseKiloBytesError::Units));
    assert_eq!(kb("93 B"), Err(ParseKiloBytesError::Units));
    assert_eq!(kb("93 kBs"), Err(ParseKiloBytesError::Units));
    assert_eq!(kb("93 kiB"), Err(ParseKiloBytesError::Units));
    assert_eq!(kb("93 eb"), Err(ParseKiloBytesError::Units));
    assert_eq!(kb("93 k\u{e9}"), Err(ParseKiloBytesError::Units));
}

#[test]
fn kilobytes_must_fit() {
    assert_eq!(kb(&format!("{} kB", usize::MAX)), Ok(usize::MAX));
    assert_eq!(kb(&format!("{} MB", usize::MAX)), Err(ParseKiloBytesError::TooLarge));
    assert_eq!(kb(&format!("{} MB", usize::MAX / 1024)), Ok(usize::MAX / 1024 * 1024));
    assert_eq!(
        kb(&format!("{} MB", usize::MAX / 1024 + 1)),
        Err(ParseKiloBytesError::TooLarge)
    );
    assert_eq!(kb(&format!("{} PB", usize::MAX)), Err(ParseKiloBytesError::TooLarge));
}

#[test]
fn unit_factors() {
    assert_eq!(meminfo::unit_factor(b"kb"), Some(1));
    assert_eq!(meminfo::unit_factor(b"Mb"), Some(1 << 10));
    assert_eq!(meminfo::unit_factor(b"gB"), Some(1 << 20));
    assert_eq!(meminfo::unit_factor(b"TB"), Some(1 << 30));
    assert_eq!(meminfo::unit_factor(b"pb"), Some(1 << 40));
    assert_eq!(meminfo::unit_factor(b""), None);
    assert_eq!(meminfo::unit_factor(b"k"), None);
    assert_eq!(meminfo::unit_factor(b"bk"), None);
    assert_eq!(meminfo::unit_factor(b"k["), None);
    assert_eq!(meminfo::unit_factor(b"+b"), None);
}

const MEMINFO: &[u8] = b"MemTotal:       16309264 kB\n\
MemFree:          812340 kB\n\
Active(anon):    1203100 kB\n\
HugePages_Total:       0\n\
Hugepagesize:       2048 kB\n";

#[test]
fn value_of_a_meminfo_entry() {
    assert_eq!(meminfo::value_for(MEMINFO, b"MemTotal"), Ok(Some(&b"16309264 kB"[..])));
    assert_eq!(meminfo::value_for(MEMINFO, b"MemFree"), Ok(Some(&b"812340 kB"[..])));
    assert_eq!(meminfo::value_for(MEMINFO, b"Active(anon)"), Ok(Some(&b"1203100 kB"[..])));
    assert_eq!(meminfo::value_for(MEMINFO, b"HugePages_Total"), Ok(Some(&b"0"[..])));
    assert_eq!(meminfo::value_for(MEMINFO, b"Hugepagesize"), Ok(Some(&b"2048 kB"[..])));
    let total = meminfo::value_for(MEMINFO, b"MemTotal").unwrap().unwrap();
    assert_eq!(KiloBytes::from_bytes(total).map(|kb| kb.kilobytes()), Ok(16309264));
    let pages = meminfo::value_for(MEMINFO, b"HugePages_Total").unwrap().unwrap();
    assert_eq!(parse_usize(pages), Some(0));
}

#[test]
fn value_of_a_missing_meminfo_entry() {
    assert_eq!(meminfo::value_for(MEMINFO, b"SwapTotal"), Ok(None));
    assert_eq!(meminfo::value_for(MEMINFO, b"Mem"), Ok(None));
    assert_eq!(meminfo::value_for(MEMINFO, b"memtotal"), Ok(None));
    assert_eq!(meminfo::value_for(b"", b"MemTotal"), Ok(None));
}

#[test]
fn later_meminfo_entry_counts() {
    let content = b"A: 1\nB: 2\nA: 3\n";
    assert_eq!(meminfo::value_for(content, b"A"), Ok(Some(&b"3"[..])));
    assert_eq!(meminfo::value_for(content, b"B"), Ok(Some(&b"2"[..])));
}

#[test]
fn meminfo_value_ends_at_a_second_colon() {
    assert_eq!(meminfo::value_for(b"A: 1: 2\n", b"A"), Ok(Some(&b"1"[..])));
    assert_eq!(meminfo::value_for(b"A:\n", b"A"), Ok(Some(&b""[..])));
    assert_eq!(meminfo::value_for(b" A \t:  1 kB\r\n", b"A"), Ok(Some(&b"1 kB"[..])));
    assert_eq!(meminfo::value_for(b"A: 1", b"A"), Ok(Some(&b"1"[..])));
}

#[test]
fn meminfo_line_without_colon_is_malformed() {
    assert_eq!(meminfo::value_for(b"A: 1\nB 2\n", b"A"), Err(MalformedLine));
    assert_eq!(meminfo::value_for(b"A 1\nB: 2\n", b"B"), Err(MalformedLine));
    assert_eq!(meminfo::value_for(b"A: 1\n\nB: 2\n", b"B"), Err(MalformedLine));
    assert_eq!(meminfo::value_for(b"\n", b"B"), Err(MalformedLine));
}

const STAT: &[u8] = b"4242 (bash) S 4241 4242 4242 34816 4300 4194304 1520 -7 0\n";

#[test]
fn fields_of_a_stat_file() {
    assert_eq!(stat::field(STAT, 0), Some(&b"4242"[..]));
    assert_eq!(stat::field(STAT, 1), Some(&b"(bash)"[..]));
    assert_eq!(stat::field(STAT, 2), Some(&b"S"[..]));
    assert_eq!(stat::field(STAT, 10), Some(&b"-7"[..]));
    // The line feed at the end is no part of the last field.
    assert_eq!(stat::field(STAT, 11), Some(&b"0"[..]));
    assert_eq!(stat::field(STAT, 12), None);
    assert_eq!(stat::field(STAT, 1000), None);
    assert_eq!(parse_isize(stat::field(STAT, 0).unwrap()), Some(4242));
    assert_eq!(parse_isize(stat::field(STAT, 10).unwrap()), Some(-7));
    assert_eq!(parse_usize(stat::field(STAT, 8).unwrap()), Some(4194304));
}

#[test]
fn fields_between_two_spaces_are_empty() {
    assert_eq!(stat::field(b"1  2", 0), Some(&b"1"[..]));
    assert_eq!(stat::field(b"1  2", 1), Some(&b""[..]));
    assert_eq!(stat::field(b"1  2", 2), Some(&b"2"[..]));
    assert_eq!(stat::field(b"", 0), Some(&b""[..]));
    assert_eq!(stat::field(b"", 1), None);
    assert_eq!(stat::field(b"1 ", 1), Some(&b""[..]));
}

#[test]
fn pid_in_the_output_of_pgrep() {
    assert_eq!(parse_pid(b"1234\n"), Some(1234));
    assert_eq!(parse_pid(b"1\n"), Some(1));
    assert_eq!(parse_pid(b"  77 \n"), Some(77));
    assert_eq!(parse_pid(b"4194304"), Some(4194304));
}

#[test]
fn output_of_pgrep_that_is_no_pid() {
    assert_eq!(parse_pid(b""), None);
    assert_eq!(parse_pid(b"\n"), None);
    assert_eq!(parse_pid(b"12\n34\n"), None);
    assert_eq!(parse_pid(b"bash\n"), None);
    assert_eq!(parse_pid(b"12 34"), None);
    assert_eq!(parse_pid(&[0x31, 0xff, 0x0a]), None);
}

#[test]
fn unsigned_numbers() {
    assert_eq!(parse_usize(b"0"), Some(0));
    assert_eq!(parse_usize(b"93"), Some(93));
    assert_eq!(parse_usize(b"+93"), Some(93));
    assert_eq!(parse_usize(b"007"), Some(7));
    assert_eq!(parse_usize(format!("{}", usize::MAX).as_bytes()), Some(usize::MAX));
    assert_eq!(parse_usize(b""), None);
    assert_eq!(parse_usize(b"+"), None);
    assert_eq!(parse_usize(b"-1"), None);
    assert_eq!(parse_usize(b"-0"), None);
    assert_eq!(parse_usize(b"++1"), None);
    assert_eq!(parse_usize(b"1+"), None);
    assert_eq!(parse_usize(b" 1"), None);
    assert_eq!(parse_usize(b"1 "), None);
    assert_eq!(parse_usize(b"1_000"), None);
    assert_eq!(parse_usize(b"0x10"), None);
    assert_eq!(parse_usize(b"12a"), None);
    assert_eq!(parse_usize(b"18446744073709551616"), None);
    assert_eq!(parse_usize(b"184467440737095516150"), None);
    assert_eq!(parse_usize(b"99999999999999999999999999999999999999999"), None);
    assert_eq!(parse_usize(b"99999999999999999999999999999999999999999x"), None);
}

#[test]
fn unsigned_numbers_as_the_standard_library_reads_them() {
    for text in ["0", "93", "+93", "007", "", "+", "-1", "-0", "1+", " 1", "1_0", "18446744073709551615",
        "18446744073709551616", "+18446744073709551615", "00000000000000000000000000001"]
    {
        assert_eq!(parse_usize(text.as_bytes()), text.parse::<usize>().ok());
    }
}

#[test]
fn signed_numbers() {
    assert_eq!(parse_isize(b"0"), Some(0));
    assert_eq!(parse_isize(b"-0"), Some(0));
    assert_eq!(parse_isize(b"+0"), Some(0));
    assert_eq!(parse_isize(b"93"), Some(93));
    assert_eq!(parse_isize(b"+93"), Some(93));
    assert_eq!(parse_isize(b"-93"), Some(-93));
    assert_eq!(parse_isize(format!("{}", isize::MAX).as_bytes()), Some(isize::MAX));
    assert_eq!(parse_isize(format!("{}", isize::MIN).as_bytes()), Some(isize::MIN));
    assert_eq!(parse_isize(b""), None);
    assert_eq!(parse_isize(b"-"), None);
    assert_eq!(parse_isize(b"+"), None);
    assert_eq!(parse_isize(b"--1"), None);
    assert_eq!(parse_isize(b"-+1"), None);
    assert_eq!(parse_isize(b"+-1"), None);
    assert_eq!(parse_isize(b"1-"), None);
    assert_eq!(parse_isize(b"9223372036854775808"), None);
    assert_eq!(parse_isize(b"-9223372036854775809"), None);
    assert_eq!(parse_isize(b"-18446744073709551616"), None);
    assert_eq!(parse_isize(b"18446744073709551616"), None);
}

#[test]
fn signed_numbers_as_the_standard_library_reads_them() {
    for text in ["0", "-0", "+0", "-", "+", "", "93", "-93", "+93", "--1", "9223372036854775807",
        "9223372036854775808", "-9223372036854775808", "-9223372036854775809", "1 ", "0-1"]
    {
        assert_eq!(parse_isize(text.as_bytes()), text.parse::<isize>().ok());
    }
}

#[test]
fn white_space_is_trimmed_at_both_ends() {
    assert_eq!(trim(b"  a b \n"), b"a b");
    assert_eq!(trim(b"\t\r\n\x0b\x0c a"), b"a");
    assert_eq!(trim(b"a"), b"a");
    assert_eq!(trim(b""), b"");
    assert_eq!(trim(b" \n "), b"");
    assert_eq!(trim(b"\x08a\x0e"), b"\x08a\x0e");
    assert!(is_space_byte(b' '));
    assert!(is_space_byte(b'\n'));
    assert!(is_space_byte(0x0b));
    assert!(!is_space_byte(0x08));
    assert!(!is_space_byte(0x0e));
    assert!(!is_space_byte(b'a'));
    assert!(!is_space_byte(0xa0));
}

#[test]
fn text_is_split_at_separators() {
    assert_eq!(find(b"a:b:c", b':'), 1);
    assert_eq!(find(b"abc", b':'), 3);
    assert_eq!(find(b"", b':'), 0);
    assert_eq!(find(b":", b':'), 0);
    assert_eq!(split_first(b"a:b:c", b':'), (&b"a"[..], Some(&b"b:c"[..])));
    assert_eq!(split_first(b"abc", b':'), (&b"abc"[..], None));
    assert_eq!(split_first(b"abc:", b':'), (&b"abc"[..], Some(&b""[..])));
    assert_eq!(split_first(b"", b':'), (&b""[..], None));
    assert_eq!(nth_part(b"a:b:c", b':', 0), Some(&b"a"[..]));
    assert_eq!(nth_part(b"a:b:c", b':', 1), Some(&b"b"[..]));
    assert_eq!(nth_part(b"a:b:c", b':', 2), Some(&b"c"[..]));
    assert_eq!(nth_part(b"a:b:c", b':', 3), None);
    assert_eq!(nth_part(b"a:b:", b':', 2), Some(&b""[..]));
    assert_eq!(nth_part(b"", b':', 0), Some(&b""[..]));
}

#[test]
fn parts_are_those_of_the_standard_library() {
    for text in ["", " ", "a", "a b", " a  b ", "a b c d", "  "] {
        let parts: Vec<&str> = text.split(' ').collect();
        for k in 0..parts.len() + 2 {
            assert_eq!(
                nth_part(text.as_bytes(), b' ', k),
                parts.get(k).map(|part| part.as_bytes())
            );
        }
    }
}
