use pngchunks::chunk_type::{is_letter_byte, ChunkType};
use pngchunks::wire::{copy_bytes, copy_range};
use pngchunks::error::Error;
use std::convert::TryFrom;
use std::str::FromStr;

#[test]
pub fn test_chunk_type_from_bytes() {
    let expected = [82, 117, 83, 116];
    let actual = ChunkType::try_from([82, 117, 83, 116]).unwrap();

    assert_eq!(expected, actual.bytes());
}

#[test]
pub fn test_chunk_type_from_str() {
    let expected = ChunkType::try_from([82, 117, 83, 116]).unwrap();
    let actual = ChunkType::from_str("RuSt").unwrap();
    assert_eq!(expected, actual);
}

#[test]
pub fn test_chunk_type_is_critical() {
    let chunk = ChunkType::from_str("RuSt").unwrap();
    assert!(chunk.is_critical());
}

#[test]
pub fn test_chunk_type_is_not_critical() {
    let chunk = ChunkType::from_str("ruSt").unwrap();
    assert!(!chunk.is_critical());
}

#[test]
pub fn test_chunk_type_is_public() {
    let chunk = ChunkType::from_str("RUSt").unwrap();
    assert!(chunk.is_public());
}

#[test]
pub fn test_chunk_type_is_not_public() {
    let chunk = ChunkType::from_str("RuSt").unwrap();
    assert!(!chunk.is_public());
}

#[test]
pub fn test_chunk_type_is_reserved_bit_valid() {
    let chunk = ChunkType::from_str("RuSt").unwrap();
    assert!(chunk.is_reserved_bit_valid());
}

#[test]
pub fn test_chunk_type_is_reserved_bit_invalid() {
    let chunk = ChunkType::from_str("Rust").unwrap();
    assert!(!chunk.is_reserved_bit_valid());
}

#[test]
pub fn test_chunk_type_is_safe_to_copy() {
    let chunk = ChunkType::from_str("RuSt").unwrap();
    assert!(chunk.is_safe_to_copy());
}

#[test]
pub fn test_chunk_type_is_unsafe_to_copy() {
    let chunk = ChunkType::from_str("RuST").unwrap();
    assert!(!chunk.is_safe_to_copy());
}

#[test]
pub fn test_valid_chunk_is_valid() {
    let chunk = ChunkType::from_str("RuSt").unwrap();
    assert!(chunk.is_valid());
}

#[test]
pub fn test_invalid_chunk_is_valid() {
    let chunk = ChunkType::from_str("Rust").unwrap();
    assert!(!chunk.is_valid());
    let chunk = ChunkType::from_str("Ru1t");
    assert!(chunk.is_err());
}

#[test]
pub fn test_chunk_type_string() {
    let chunk = ChunkType::from_str("RuSt").unwrap();
    assert_eq!(&chunk.to_string(), "RuSt");
}

#[test]
pub fn test_chunk_type_trait_impls() {
    let chunk_type_1: ChunkType = TryFrom::try_from([82, 117, 83, 116]).unwrap();
    let chunk_type_2: ChunkType = FromStr::from_str("RuSt").unwrap();
    let _chunk_string = chunk_type_1.to_string();
    let _are_chunks_equal = chunk_type_1 == chunk_type_2;
    assert!(_are_chunks_equal);
    assert_eq!(_chunk_string, "RuSt");
}

#[test]
fn type_validity_boundary() {
    let t = ChunkType::from_str("RuSt").unwrap();
    assert!(t.is_critical());
    assert!(!t.is_public());
    assert!(t.is_reserved_bit_valid());
    assert!(t.is_safe_to_copy());
    assert!(t.is_valid());
    assert!(!ChunkType::from_str("Rust").unwrap().is_valid());
    assert!(ChunkType::from_str("Ru1t").is_err());
}

#[test]
fn letters_are_exactly_the_ascii_letters() {
    assert!(is_letter_byte(b'A'));
    assert!(is_letter_byte(b'Z'));
    assert!(is_letter_byte(b'a'));
    assert!(is_letter_byte(b'z'));
    assert!(!is_letter_byte(b'@'));
    assert!(!is_letter_byte(b'['));
    assert!(!is_letter_byte(b'`'));
    assert!(!is_letter_byte(b'{'));
    assert!(!is_letter_byte(0));
    assert!(!is_letter_byte(200));
}

#[test]
fn non_letter_text_is_refused_with_the_text() {
    match ChunkType::from_str("Ru1t") {
        Err(Error::ChunkTypeNotAplhaBetic { string }) => assert_eq!(string, "Ru1t"),
        other => panic!("unexpected: {:?}", other),
    }
    match ChunkType::from_str("Ru t!") {
        Err(Error::ChunkTypeNotAplhaBetic { string }) => assert_eq!(string, "Ru t!"),
        other => panic!("unexpected: {:?}", other),
    }
    match ChunkType::from_str("R\u{e9}St") {
        Err(Error::ChunkTypeNotAplhaBetic { string }) => assert_eq!(string, "R\u{e9}St"),
        other => panic!("unexpected: {:?}", other),
    }
}

#[test]
fn text_of_another_length_is_refused_with_its_bytes() {
    match ChunkType::from_str("RuS") {
        Err(Error::ChunkTypeLenMismatch { bytes }) => assert_eq!(bytes, vec![82, 117, 83]),
        other => panic!("unexpected: {:?}", other),
    }
    match ChunkType::from_str("") {
        Err(Error::ChunkTypeLenMismatch { bytes }) => assert!(bytes.is_empty()),
        other => panic!("unexpected: {:?}", other),
    }
    match ChunkType::from_str("RuStY") {
        Err(Error::ChunkTypeLenMismatch { bytes }) => assert_eq!(bytes.len(), 5),
        other => panic!("unexpected: {:?}", other),
    }
}

#[test]
fn non_letter_bytes_are_refused_as_text_where_they_decode() {
    match ChunkType::try_from([82, 117, 49, 116]) {
        Err(Error::ChunkTypeNotAplhaBetic { string }) => assert_eq!(string, "Ru1t"),
        other => panic!("unexpected: {:?}", other),
    }
}

#[test]
fn bytes_that_are_no_text_are_refused_as_bytes() {
    match ChunkType::try_from([82, 255, 83, 116]) {
        Err(Error::ChunkTypeNotUtf8 { bytes, err: _ }) => assert_eq!(bytes, [82, 255, 83, 116]),
        other => panic!("unexpected: {:?}", other),
    }
}

#[test]
fn slices_are_checked_for_length_first() {
    let long: Vec<u8> = vec![1, 2, 3, 4, 5];
    match ChunkType::try_from_slice(&long) {
        Err(Error::ChunkTypeLenMismatch { bytes }) => assert_eq!(bytes, long),
        other => panic!("unexpected: {:?}", other),
    }
    let good: Vec<u8> = vec![b'b', b'L', b'O', b'B'];
    let t = ChunkType::try_from_slice(&good).unwrap();
    assert_eq!(t.to_str(), "bLOB");
    assert_eq!(t.to_array(), [b'b', b'L', b'O', b'B']);
    assert!(t.same_as(&ChunkType::from_str("bLOB").unwrap()));
    assert!(!t.same_as(&ChunkType::from_str("bLOb").unwrap()));
}

#[test]
fn case_is_kept() {
    let t = ChunkType::from_str("iDaT").unwrap();
    assert_eq!(t.bytes(), b"iDaT");
    assert_eq!(t.to_str(), "iDaT");
    assert_ne!(t, ChunkType::from_str("IDAT").unwrap());
}

#[test]
fn ranges_are_copied() {
    let src: Vec<u8> = vec![10, 20, 30, 40, 50];
    assert_eq!(copy_range(&src, 1, 4), vec![20, 30, 40]);
    assert_eq!(copy_range(&src, 2, 2), Vec::<u8>::new());
    assert_eq!(copy_bytes(&src), src);
}

#[test]
fn the_conversion_traits_give_what_the_constructors_give() {
    let by_trait: Result<ChunkType, Error> = TryFrom::try_from([82, 117, 49, 116]);
    match by_trait {
        Err(Error::ChunkTypeNotAplhaBetic { string }) => assert_eq!(string, "Ru1t"),
        other => panic!("unexpected: {:?}", other),
    }
    let raw: Result<ChunkType, Error> = TryFrom::try_from([82, 255, 83, 116]);
    assert!(matches!(raw, Err(Error::ChunkTypeNotUtf8 { .. })));
    let parsed: Result<ChunkType, Error> = "bLOB".parse();
    assert_eq!(parsed.unwrap().bytes(), b"bLOB");
    let short: Result<ChunkType, Error> = FromStr::from_str("bLO");
    assert!(matches!(short, Err(Error::ChunkTypeLenMismatch { .. })));
    let digit: Result<ChunkType, Error> = FromStr::from_str("bL0B");
    assert!(matches!(digit, Err(Error::ChunkTypeNotAplhaBetic { .. })));
}
