use lua_arch::unicode::{encode_codepoints, substring, unicode_len, unicode_offset};

fn sub(s: &[u8], start: i64, stop: i64) -> Vec<u8> {
    substring(&s.to_vec(), start, Some(stop))
}

#[test]
fn substring_whole_range() {
    assert_eq!(sub(b"hello", 1, 5), b"hello".to_vec());
}

#[test]
fn substring_start_zero_normalizes_to_one() {
    assert_eq!(sub(b"hello", 0, 3), b"hel".to_vec());
}

#[test]
fn substring_negative_indices_count_from_end() {
    assert_eq!(sub(b"hello", -3, -1), b"llo".to_vec());
}

#[test]
fn substring_stop_zero_is_empty() {
    assert_eq!(sub(b"hello", 2, 0), b"".to_vec());
}

#[test]
fn substring_start_past_stop_is_empty() {
    assert_eq!(sub(b"hello", 4, 2), b"".to_vec());
}

#[test]
fn substring_stop_clamps_to_length() {
    assert_eq!(sub(b"hello", 1, 100), b"hello".to_vec());
}

#[test]
fn substring_omitted_stop_defaults_to_length() {
    assert_eq!(substring(&b"hello".to_vec(), 2, None), b"ello".to_vec());
}

#[test]
fn substring_of_empty_string_short_circuits() {
    assert_eq!(substring(&Vec::new(), -5, Some(17)), b"".to_vec());
    assert_eq!(substring(&Vec::new(), 0, Some(0)), b"".to_vec());
}

#[test]
fn substring_counts_code_points_not_bytes() {
    // "héllo": the é occupies two bytes
    let s = "héllo".as_bytes().to_vec();
    assert_eq!(substring(&s, 2, Some(2)), "é".as_bytes().to_vec());
    assert_eq!(substring(&s, 3, Some(5)), "llo".as_bytes().to_vec());
}

#[test]
fn length_is_permissive_on_malformed_bytes() {
    assert_eq!(unicode_len(&b"hello".to_vec()), 5);
    assert_eq!(unicode_len(&"héllo".as_bytes().to_vec()), 5);
    // a lone continuation byte counts as one unit
    assert_eq!(unicode_len(&vec![0x80]), 1);
    // a lead byte whose continuation is missing is clamped, one unit
    assert_eq!(unicode_len(&vec![b'h', 0xC3]), 2);
    // an invalid lead byte counts as one unit
    assert_eq!(unicode_len(&vec![0xFF, b'a']), 2);
    assert_eq!(unicode_len(&Vec::new()), 0);
}

#[test]
fn offsets_follow_unit_boundaries() {
    let s = "héllo".as_bytes().to_vec();
    assert_eq!(unicode_offset(&s, 0), 0);
    assert_eq!(unicode_offset(&s, 1), 1);
    assert_eq!(unicode_offset(&s, 2), 3);
    assert_eq!(unicode_offset(&s, 5), 6);
    // past the last unit the offset clamps to the end
    assert_eq!(unicode_offset(&s, 99), 6);
}

#[test]
fn encoding_produces_utf8_forms_by_range() {
    assert_eq!(encode_codepoints(&vec![0x68, 0x69]), b"hi".to_vec());
    assert_eq!(encode_codepoints(&vec![0xE9]), vec![0xC3, 0xA9]);
    assert_eq!(encode_codepoints(&vec![0x20AC]), vec![0xE2, 0x82, 0xAC]);
    assert_eq!(
        encode_codepoints(&vec![0x1F600]),
        vec![0xF0, 0x9F, 0x98, 0x80]
    );
    assert_eq!(encode_codepoints(&Vec::new()), Vec::<u8>::new());
}

#[test]
fn encoding_round_trips_through_length() {
    let bytes = encode_codepoints(&vec![0x68, 0xE9, 0x20AC, 0x1F600]);
    assert_eq!(unicode_len(&bytes), 4);
}

#[test]
fn substring_start_far_before_the_beginning_counts_as_the_beginning() {
    assert_eq!(sub(b"hello", -10, 3), b"hel".to_vec());
}

#[test]
fn substring_stop_far_before_the_beginning_is_empty() {
    assert_eq!(sub(b"hello", 1, -10), b"".to_vec());
}
