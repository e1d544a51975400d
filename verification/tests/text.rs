use focus_capture::text::{chars_of, is_whitespace, push_decimal, push_hex, read_handle};
use focus_capture::window::WindowHandle;

fn hex(raw: isize) -> String {
    let mut out = String::from(">");
    push_hex(&mut out, WindowHandle(raw));
    out
}

fn decimal(raw: isize) -> String {
    let mut out = String::from(">");
    push_decimal(&mut out, WindowHandle(raw));
    out
}

fn read(text: &str) -> Option<WindowHandle> {
    let chars: Vec<char> = text.chars().collect();
    read_handle(&chars, 0, chars.len())
}

#[test]
fn handles_are_written_in_hexadecimal() {
    assert_eq!(hex(0), ">0x0");
    assert_eq!(hex(9), ">0x9");
    assert_eq!(hex(10), ">0xa");
    assert_eq!(hex(15), ">0xf");
    assert_eq!(hex(16), ">0x10");
    assert_eq!(hex(0x2002), ">0x2002");
    assert_eq!(hex(0xdead_beef), ">0xdeadbeef");
    assert_eq!(hex(-1), ">-0x1");
    assert_eq!(hex(-0x1f), ">-0x1f");
    assert_eq!(hex(isize::MAX), format!(">{:#x}", isize::MAX));
    assert_eq!(hex(isize::MIN), format!(">-{:#x}", isize::MIN.unsigned_abs()));
}

#[test]
fn handles_are_written_in_decimal() {
    assert_eq!(decimal(0), ">0");
    assert_eq!(decimal(7), ">7");
    assert_eq!(decimal(10), ">10");
    assert_eq!(decimal(8194), ">8194");
    assert_eq!(decimal(-31), ">-31");
    assert_eq!(decimal(isize::MAX), format!(">{}", isize::MAX));
    assert_eq!(decimal(isize::MIN), format!(">{}", isize::MIN));
}

#[test]
fn what_is_written_is_read_back() {
    for &raw in &[0isize, 1, -1, 9, 10, 255, 256, -4096, 0x1001, 0x7fff_ffff, isize::MAX, isize::MIN] {
        assert_eq!(read(&hex(raw)[1..]), Some(WindowHandle(raw)));
        assert_eq!(read(&decimal(raw)[1..]), Some(WindowHandle(raw)));
    }
}

#[test]
fn decimal_reading_agrees_with_the_standard_parser() {
    for text in [
        "0", "1", "-1", "+1", "00", "-0", "+0", "12345", "", "+", "-", "--1", "+-1", "1-", " 1", "1 ",
        "1a", "a", "٣", "9223372036854775807", "9223372036854775808", "-9223372036854775808",
        "-9223372036854775809", "18446744073709551616", "18446744073709551617",
        "000000000000000000000000000000000000000000001",
    ] {
        assert_eq!(read(text), text.parse::<isize>().ok().map(WindowHandle), "reading {text:?}");
    }
}

#[test]
fn hexadecimal_needs_its_prefix_and_a_digit() {
    assert_eq!(read("0x10"), Some(WindowHandle(16)));
    assert_eq!(read("0XfF"), Some(WindowHandle(255)));
    assert_eq!(read("+0x10"), Some(WindowHandle(16)));
    assert_eq!(read("-0x10"), Some(WindowHandle(-16)));
    assert_eq!(read("0x0000000000000000000000000001"), Some(WindowHandle(1)));
    assert_eq!(read("0x"), None);
    assert_eq!(read("x10"), None);
    assert_eq!(read("ff"), None);
    assert_eq!(read("0xg"), None);
    assert_eq!(read("0x-1"), None);
    assert_eq!(read("0x 1"), None);
    assert_eq!(read(&format!("{:#x}", isize::MAX)), Some(WindowHandle(isize::MAX)));
    assert_eq!(read(&format!("{:#x}", isize::MAX as u128 + 1)), None);
    assert_eq!(read(&format!("-{:#x}", isize::MAX as u128 + 1)), Some(WindowHandle(isize::MIN)));
    assert_eq!(read(&format!("-{:#x}", isize::MAX as u128 + 2)), None);
}

#[test]
fn a_part_of_a_line_is_read() {
    let chars: Vec<char> = "allow 42 x".chars().collect();
    assert_eq!(read_handle(&chars, 6, 8), Some(WindowHandle(42)));
    assert_eq!(read_handle(&chars, 6, 7), Some(WindowHandle(4)));
    assert_eq!(read_handle(&chars, 6, 6), None);
    assert_eq!(read_handle(&chars, 5, 8), None);
}

#[test]
fn white_space_is_what_the_standard_library_calls_so() {
    for code in 0..=0x11_0000u32 {
        if let Some(c) = char::from_u32(code) {
            assert_eq!(is_whitespace(c), c.is_whitespace(), "U+{code:04X}");
        }
    }
}

#[test]
fn characters_are_taken_one_by_one() {
    assert_eq!(chars_of(""), Vec::<char>::new());
    assert_eq!(chars_of("aé漢🦀"), vec!['a', 'é', '漢', '🦀']);
}
