use hex2bin::image::FLASH_SIZE;
use hex2bin::image::ImageError;
use hex2bin::reader::Reader;

fn convert(text: &str) -> Result<Vec<u8>, ImageError> {
    let mut r = Reader::new(text.as_bytes().to_vec());
    r.read()
}

#[test]
fn eof_only_file_gives_all_fill() {
    let image = convert(":00000001FF").unwrap();
    assert_eq!(image.len(), FLASH_SIZE);
    assert!(image.iter().all(|&b| b == 0xff));
}

#[test]
fn data_record_writes_payload_at_its_address() {
    let image = convert(":020010000102EB\n:00000001FF\n").unwrap();
    assert_eq!(image.len(), FLASH_SIZE);
    assert_eq!(image[0x0010], 0x01);
    assert_eq!(image[0x0011], 0x02);
    assert_eq!(image[0x000f], 0xff);
    assert_eq!(image[0x0012], 0xff);
    let untouched = image
        .iter()
        .enumerate()
        .filter(|&(i, _)| i != 0x0010 && i != 0x0011)
        .all(|(_, &b)| b == 0xff);
    assert!(untouched);
}

#[test]
fn disjoint_records_do_not_interfere() {
    let image = convert(":0100000011EE\n:020010000102EB\n:00000001FF\n").unwrap();
    assert_eq!(image[0x0000], 0x11);
    assert_eq!(image[0x0010], 0x01);
    assert_eq!(image[0x0011], 0x02);
    assert_eq!(image[0x0001], 0xff);
}

#[test]
fn overlapping_records_apply_in_file_order() {
    let image = convert(":020010000102EB\n:0100100033BC\n:00000001FF\n").unwrap();
    assert_eq!(image[0x0010], 0x33);
    assert_eq!(image[0x0011], 0x02);
}

#[test]
fn unsupported_record_type_is_fatal() {
    assert_eq!(convert(":00000002FE").unwrap_err(), ImageError::UnsupportedRecordType);
    assert_eq!(
        convert(":00000002FE\n:00000001FF\n").unwrap_err(),
        ImageError::UnsupportedRecordType
    );
}

#[test]
fn type_four_record_is_accepted_and_ignored() {
    let image = convert(":02000004AAAAA6\n:00000001FF\n").unwrap();
    assert!(image.iter().all(|&b| b == 0xff));
}

#[test]
fn missing_eof_record_is_fatal() {
    assert_eq!(convert("").unwrap_err(), ImageError::PrematureEnd);
    assert_eq!(convert(":020010000102EB\n").unwrap_err(), ImageError::PrematureEnd);
}

#[test]
fn corrupt_record_is_fatal() {
    assert_eq!(
        convert(":020010000103EB\n:00000001FF\n").unwrap_err(),
        ImageError::MalformedRecord
    );
    assert_eq!(convert(":02zz10000102EB\n:00000001FF\n").unwrap_err(), ImageError::MalformedRecord);
}

#[test]
fn payload_past_image_end_is_fatal() {
    assert_eq!(
        convert(":021FFF00AAAA8C\n:00000001FF\n").unwrap_err(),
        ImageError::AddressOutOfRange
    );
}

#[test]
fn payload_ending_exactly_at_image_end_fits() {
    let image = convert(":021FFE00AAAA8D\n:00000001FF\n").unwrap();
    assert_eq!(image[0x1ffe], 0xaa);
    assert_eq!(image[0x1fff], 0xaa);
}

#[test]
fn converting_the_same_input_twice_is_identical() {
    let text = ":0100000011EE\n:020010000102EB\n:00000001FF\n";
    let first = convert(text).unwrap();
    let second = convert(text).unwrap();
    assert_eq!(first, second);
}
