use hex2bin::hex::char_to_byte;
use hex2bin::hex::two_char_to_byte;

#[test]
fn test_char_to_byte() {
    assert_eq!(char_to_byte('0' as u8), Some(0));
    assert_eq!(char_to_byte('9' as u8), Some(9));
    assert_eq!(char_to_byte('a' as u8), Some(10));
    assert_eq!(char_to_byte('A' as u8), Some(10));
    assert_eq!(char_to_byte('f' as u8), Some(15));
    assert_eq!(char_to_byte('F' as u8), Some(15));
    assert_eq!(char_to_byte('x' as u8), None);
}

#[test]
fn test_two_char_to_byte() {
    assert_eq!(two_char_to_byte('a' as u8, '7' as u8), Some(0xa7));
    assert_eq!(two_char_to_byte('x' as u8, '7' as u8), None);
}

#[test]
fn char_to_byte_all_valid_digits() {
    let digits = "0123456789";
    for (i, c) in digits.bytes().enumerate() {
        assert_eq!(char_to_byte(c), Some(i as u8));
    }
    let upper = "ABCDEF";
    let lower = "abcdef";
    for (i, (u, l)) in upper.bytes().zip(lower.bytes()).enumerate() {
        assert_eq!(char_to_byte(u), Some(10 + i as u8));
        assert_eq!(char_to_byte(l), Some(10 + i as u8));
        assert_eq!(char_to_byte(u), char_to_byte(l));
    }
}

#[test]
fn char_to_byte_rejects_all_others() {
    for c in 0..=255u8 {
        let valid = (b'0'..=b'9').contains(&c) || (b'A'..=b'F').contains(&c)
            || (b'a'..=b'f').contains(&c);
        assert_eq!(char_to_byte(c).is_some(), valid);
    }
}

#[test]
fn two_char_to_byte_combines_nibbles() {
    assert_eq!(two_char_to_byte(b'0', b'0'), Some(0x00));
    assert_eq!(two_char_to_byte(b'F', b'F'), Some(0xff));
    assert_eq!(two_char_to_byte(b'1', b'0'), Some(0x10));
    assert_eq!(two_char_to_byte(b'C', b'3'), Some(0xc3));
    assert_eq!(two_char_to_byte(b'7', b'x'), None);
    assert_eq!(two_char_to_byte(b' ', b' '), None);
}
