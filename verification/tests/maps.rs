use rufus::child::find_executable_base;
use rufus::hex::parse_hex_range;

fn lines(texts: &[&str]) -> Vec<Vec<u8>> {
    texts.iter().map(|t| t.as_bytes().to_vec()).collect()
}

#[test]
fn parse_hex_handles_case_and_leading_zeros() {
    let v = b"0040AbCd".to_vec();
    assert_eq!(parse_hex_range(&v, 0, v.len()), Some(0x0040abcd));
}

#[test]
fn parse_hex_rejects_non_digits_and_empty_input() {
    let v = b"12g4".to_vec();
    assert_eq!(parse_hex_range(&v, 0, v.len()), None);
    assert_eq!(parse_hex_range(&v, 1, 1), None);
}

#[test]
fn parse_hex_accepts_the_largest_word_and_rejects_overflow() {
    let v = b"ffffffffffffffff".to_vec();
    assert_eq!(parse_hex_range(&v, 0, v.len()), Some(u64::MAX));
    let w = b"0ffffffffffffffff".to_vec();
    assert_eq!(parse_hex_range(&w, 0, w.len()), Some(u64::MAX));
    let x = b"10000000000000000".to_vec();
    assert_eq!(parse_hex_range(&x, 0, x.len()), None);
    let z = b"0000".to_vec();
    assert_eq!(parse_hex_range(&z, 0, z.len()), Some(0));
}

#[test]
fn finds_the_first_executable_mapping() {
    let l = lines(&[
        "00200000-00300000 rw-p 00000000 08:02 101 /usr/bin/target",
        "00400000-00452000 r-xp 00000000 08:02 101 /usr/bin/target",
        "00500000-00600000 r-xp 00000000 08:02 102 /lib/other",
    ]);
    assert_eq!(find_executable_base(&l), Some(0x400000));
}

#[test]
fn no_executable_mapping_means_no_base() {
    let l = lines(&[
        "00200000-00300000 rw-p 00000000 08:02 101 /usr/bin/target",
        "00300000-00310000 r--p 00000000 08:02 101 /usr/bin/target",
    ]);
    assert_eq!(find_executable_base(&l), None);
    assert_eq!(find_executable_base(&vec![]), None);
}

#[test]
fn unparsable_address_on_the_executable_line_is_fatal() {
    let l = lines(&["zzzz-0000 r-xp 00000000 08:02 101 /usr/bin/target"]);
    assert_eq!(find_executable_base(&l), None);
}

#[test]
fn permission_bit_is_read_from_the_second_field_only() {
    // the path contains an 'x' but the permissions do not
    let l = lines(&["00200000-00300000 rw-p 00000000 08:02 101 /usr/bin/xtool"]);
    assert_eq!(find_executable_base(&l), None);
}
