use hex2bin::reader::Reader;
use hex2bin::record::RecordError;

fn reader_over(text: &str) -> Reader {
    Reader::new(text.as_bytes().to_vec())
}

#[test]
fn read_char_walks_the_input() {
    let mut r = Reader::new(vec![1, 2, 3]);
    assert_eq!(r.read_char(), Some(1));
    assert_eq!(r.read_char(), Some(2));
    assert_eq!(r.read_char(), Some(3));
    assert_eq!(r.read_char(), None);
    assert_eq!(r.read_char(), None);
}

#[test]
fn read_byte_decodes_digit_pairs() {
    let mut r = reader_over("a7");
    assert_eq!(r.read_byte(), Some(0xa7));
    assert_eq!(r.read_byte(), None);

    let mut r = reader_over("x7");
    assert_eq!(r.read_byte(), None);

    let mut r = reader_over("a");
    assert_eq!(r.read_byte(), None);
}

#[test]
fn record_with_correct_checksum_decodes() {
    let mut r = reader_over(":020010000102EB");
    let rec = r.read_line().unwrap();
    assert_eq!(rec.addr, 0x0010);
    assert_eq!(rec.kind, 0x00);
    assert_eq!(rec.data, vec![0x01, 0x02]);
}

#[test]
fn flipping_a_payload_byte_fails_validation() {
    let mut r = reader_over(":020010000202EB");
    assert_eq!(r.read_line().unwrap_err(), RecordError::Malformed);

    let mut r = reader_over(":020010000101EB");
    assert_eq!(r.read_line().unwrap_err(), RecordError::Malformed);
}

#[test]
fn bytes_between_records_are_skipped() {
    let mut r = reader_over("junk\r\n:020010000102EB");
    let rec = r.read_line().unwrap();
    assert_eq!(rec.addr, 0x0010);
    assert_eq!(rec.data, vec![0x01, 0x02]);
}

#[test]
fn exhaustion_before_a_colon_is_clean_end_of_input() {
    let mut r = reader_over("");
    assert_eq!(r.read_line().unwrap_err(), RecordError::EndOfInput);

    let mut r = reader_over("no record marker here\n");
    assert_eq!(r.read_line().unwrap_err(), RecordError::EndOfInput);
}

#[test]
fn truncated_record_is_malformed() {
    let mut r = reader_over(":02");
    assert_eq!(r.read_line().unwrap_err(), RecordError::Malformed);

    let mut r = reader_over(":0200100001");
    assert_eq!(r.read_line().unwrap_err(), RecordError::Malformed);
}

#[test]
fn stray_non_hex_byte_inside_a_field_is_malformed() {
    let mut r = reader_over(":02001000z102EB");
    assert_eq!(r.read_line().unwrap_err(), RecordError::Malformed);
}

#[test]
fn successive_records_decode_in_order() {
    let mut r = reader_over(":020010000102EB\n:00000001FF\n");
    let first = r.read_line().unwrap();
    assert_eq!(first.kind, 0x00);
    assert_eq!(first.data, vec![0x01, 0x02]);
    let second = r.read_line().unwrap();
    assert_eq!(second.kind, 0x01);
    assert_eq!(second.data, Vec::<u8>::new());
    assert_eq!(r.read_line().unwrap_err(), RecordError::EndOfInput);
}
