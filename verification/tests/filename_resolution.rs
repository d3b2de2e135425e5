//! Filename resolution: percent-decoding, header and URL candidates, and
//! the numeric fallback.

use osudl::filename::{
    extract_filename, filename_text, percent_decode, percent_decode_rounds, resolve_filename,
};

fn bytes(s: &str) -> Vec<u8> {
    s.as_bytes().to_vec()
}

#[test]
fn decode_single_escape() {
    assert_eq!(percent_decode(&bytes("%41")), bytes("A"));
}

#[test]
fn decode_space_once() {
    // one encoding layer decodes to a space exactly once
    assert_eq!(percent_decode(&bytes("My%20Map.osz")), bytes("My Map.osz"));
    assert_eq!(percent_decode_rounds(bytes("My%20Map.osz")), bytes("My Map.osz"));
}

#[test]
fn decode_no_percent_is_noop() {
    assert_eq!(percent_decode(&bytes("My Map.osz")), bytes("My Map.osz"));
    assert_eq!(percent_decode_rounds(bytes("plain.txt")), bytes("plain.txt"));
}

#[test]
fn decode_double_layer_twice() {
    // %25 is an encoded percent sign: two layers, two passes
    assert_eq!(percent_decode_rounds(bytes("My%2520Map.osz")), bytes("My Map.osz"));
}

#[test]
fn decode_is_idempotent_at_fixed_point() {
    let once = percent_decode_rounds(bytes("100%20AB.osz"));
    assert_eq!(once, bytes("100 AB.osz"));
    // re-applying the decode step to the already-decoded name is a no-op
    assert_eq!(percent_decode(&once), once);
}

#[test]
fn decode_lenient_passthrough() {
    // a % not followed by two hexadecimal digits degrades to literal text
    assert_eq!(percent_decode(&bytes("%")), bytes("%"));
    assert_eq!(percent_decode(&bytes("%A")), bytes("%A"));
    assert_eq!(percent_decode(&bytes("%zz")), bytes("%zz"));
    assert_eq!(percent_decode(&bytes("50%")), bytes("50%"));
    assert_eq!(percent_decode(&bytes("a%%41b")), bytes("a%%41b"));
}

#[test]
fn decode_malformed_reaches_fixed_point() {
    // no pass changes this string, so the iteration stops at once
    assert_eq!(percent_decode_rounds(bytes("%zz%")), bytes("%zz%"));
}

#[test]
fn header_quoted_filename() {
    // the end-to-end header scenario
    let header = bytes("attachment; filename=\"My%20Map.osz\"");
    let url = bytes("https://txy1.sayobot.cn/beatmaps/download/mini/555?server=auto");
    assert_eq!(extract_filename(Some(&header), &url, 555), bytes("My Map.osz"));
}

#[test]
fn header_extended_filename() {
    let header = bytes("attachment; filename*=UTF-8''Song%20One.osz");
    let url = bytes("https://example.com/x");
    assert_eq!(extract_filename(Some(&header), &url, 1), bytes("Song One.osz"));
}

#[test]
fn header_extended_without_marker_is_skipped() {
    // filename*= without the UTF-8'' charset marker names no usable file
    let header = bytes("attachment; filename*=latin1''a.osz");
    let url = bytes("https://example.com/mini/9");
    assert_eq!(extract_filename(Some(&header), &url, 9), bytes("9.osz"));
}

#[test]
fn extended_parameter_wins_regardless_of_order() {
    // the sources are ordered by kind: filename* before plain filename,
    // wherever each stands among the header's parameters
    let url = bytes("https://example.com/x");
    let plain_first = bytes("inline; filename=a.osz; filename*=UTF-8''b.osz");
    assert_eq!(extract_filename(Some(&plain_first), &url, 2), bytes("b.osz"));
    let extended_first = bytes("inline; filename*=UTF-8''b.osz; filename=a.osz");
    assert_eq!(extract_filename(Some(&extended_first), &url, 2), bytes("b.osz"));
}

#[test]
fn separators_are_stripped_from_header_names() {
    let header = bytes("attachment; filename=\"a/b.osz\"");
    let url = bytes("https://example.com/x");
    assert_eq!(extract_filename(Some(&header), &url, 3), bytes("ab.osz"));
}

#[test]
fn encoded_separators_cannot_escape() {
    // a percent-encoded traversal decodes to separators, which are stripped
    let header = bytes("attachment; filename=..%2F..%2Fevil.osz");
    let url = bytes("https://example.com/x");
    assert_eq!(extract_filename(Some(&header), &url, 4), bytes("....evil.osz"));
}

#[test]
fn backslash_is_a_separator_too() {
    let header = bytes("attachment; filename=a%5Cb.osz");
    let url = bytes("https://example.com/x");
    assert_eq!(extract_filename(Some(&header), &url, 5), bytes("ab.osz"));
}

#[test]
fn name_of_only_separators_falls_back_to_id() {
    let header = bytes("attachment; filename=\"%2F\"");
    let url = bytes("https://example.com/x");
    assert_eq!(extract_filename(Some(&header), &url, 5), bytes("5.osz"));
}

#[test]
fn resolved_text_replaces_invalid_utf8() {
    assert_eq!(filename_text(&vec![0xFF]), "\u{FFFD}");
    assert_eq!(filename_text(&bytes("My Map.osz")), "My Map.osz");
    // a decoded %FF ends as the replacement character in the final text
    let header = bytes("attachment; filename=x%FFy.osz");
    let url = bytes("https://example.com/x");
    let name = extract_filename(Some(&header), &url, 6);
    assert_eq!(filename_text(&name), "x\u{FFFD}y.osz");
}

#[test]
fn header_unquotes_and_trims() {
    let header = bytes("attachment; filename=  \"Song.osz\"  ");
    let url = bytes("https://example.com/x");
    assert_eq!(extract_filename(Some(&header), &url, 3), bytes("Song.osz"));
}

#[test]
fn header_empty_filename_falls_through() {
    let header = bytes("attachment; filename=\"\"");
    let url = bytes("https://example.com/mini/7");
    assert_eq!(extract_filename(Some(&header), &url, 7), bytes("7.osz"));
}

#[test]
fn url_segment_with_extension() {
    // the segment scan runs backward and skips extensionless segments
    let url = bytes("https://example.com/a.zip/b");
    assert_eq!(extract_filename(None, &url, 7), bytes("a.zip"));
}

#[test]
fn url_last_segment_decoded() {
    let url = bytes("https://example.com/files/My%20Map.osz?x=1");
    assert_eq!(extract_filename(None, &url, 8), bytes("My Map.osz"));
}

#[test]
fn url_without_extension_falls_back_to_id() {
    // the end-to-end no-header scenario: no extension anywhere in the path
    let url = bytes("https://txy1.sayobot.cn/beatmaps/download/mini/555?server=auto");
    assert_eq!(extract_filename(None, &url, 555), bytes("555.osz"));
}

#[test]
fn unparsable_url_falls_back_to_id() {
    let url = bytes("not a url at all");
    assert_eq!(extract_filename(None, &url, 42), bytes("42.osz"));
}

#[test]
fn resolution_is_deterministic() {
    let header = bytes("attachment; filename=\"My%20Map.osz\"");
    let url = bytes("https://example.com/mini/5");
    let first = extract_filename(Some(&header), &url, 5);
    let second = extract_filename(Some(&header), &url, 5);
    assert_eq!(first, second);
}

#[test]
fn resolve_from_given_segments() {
    let url = bytes("https://example.com/ignored");
    let segments = vec![bytes("files"), bytes("Track%2001.osz")];
    let r = resolve_filename(None, &url, Some(&segments), 11);
    assert_eq!(r, bytes("Track 01.osz"));
}
