use binwalk_ng::common::{epoch_to_string, get_cstring, push_decimal, push_padded};

#[test]
fn cstring_stops_at_nul() {
    assert_eq!(get_cstring(b"abc\0def"), "abc");
    assert_eq!(get_cstring(b"abc"), "abc");
    assert_eq!(get_cstring(b"\0abc"), "");
    assert_eq!(get_cstring(b""), "");
}

#[test]
fn cstring_reads_bytes_as_code_points() {
    assert_eq!(get_cstring(&[0x41, 0xE9, 0x00]), "A\u{e9}");
}

#[test]
fn decimal_numerals() {
    let mut s = String::from("x");
    push_decimal(&mut s, 0);
    assert_eq!(s, "x0");
    let mut s = String::new();
    push_decimal(&mut s, 1_234_567_890);
    assert_eq!(s, "1234567890");
    let mut s = String::new();
    push_decimal(&mut s, u64::MAX);
    assert_eq!(s, u64::MAX.to_string());
}

#[test]
fn padded_numerals() {
    let mut s = String::new();
    push_padded(&mut s, 0xBEEF, 16, 8);
    assert_eq!(s, "0000BEEF");
    let mut s = String::new();
    push_padded(&mut s, 7, 10, 2);
    assert_eq!(s, "07");
    let mut s = String::new();
    push_padded(&mut s, 12345, 10, 3);
    assert_eq!(s, "345");
}

#[test]
fn epoch_strings() {
    assert_eq!(epoch_to_string(0), "1970-01-01 00:00:00");
    assert_eq!(epoch_to_string(904_608_000), "1998-09-01 00:00:00");
    assert_eq!(epoch_to_string(951_782_400), "2000-02-29 00:00:00");
    assert_eq!(epoch_to_string(951_868_799), "2000-02-29 23:59:59");
    assert_eq!(epoch_to_string(1_234_567_890), "2009-02-13 23:31:30");
    assert_eq!(epoch_to_string(u32::MAX), "2106-02-07 06:28:15");
}
