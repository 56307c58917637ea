use pngme::chunk::Chunk;
use pngme::chunk_type::{ChunkType, ParseChunkTypeError};
use pngme::commands::{decode, encode, print, remove, CommandError, Decoded};
use pngme::png::{Png, RemoveChunkError, TryFromSliceError, STANDARD_HEADER};
use std::str::FromStr;

fn container(chunks: &[(&str, &[u8])]) -> Vec<u8> {
    let chunks = chunks
        .iter()
        .map(|(t, d)| Chunk::new(ChunkType::from_str(t).unwrap(), d.to_vec()))
        .collect();
    Png::from_chunks(chunks).as_bytes()
}

#[test]
fn encode_adds_a_chunk_at_the_end() {
    let before = container(&[("FrSt", b"a"), ("LASt", b"b")]);
    let after = encode(&before, "teXt", "hello").unwrap();
    assert_eq!(after, container(&[("FrSt", b"a"), ("LASt", b"b"), ("teXt", b"hello")]));
    let mut expected = before.clone();
    expected.extend([0, 0, 0, 5, 116, 101, 88, 116, 104, 101, 108, 108, 111, 163, 246, 145, 52]);
    assert_eq!(after, expected);
    let after = encode(&STANDARD_HEADER, "RuSt", "").unwrap();
    assert_eq!(
        after,
        vec![137, 80, 78, 71, 13, 10, 26, 10, 0, 0, 0, 0, 82, 117, 83, 116, 212, 132, 9, 60]
    );
}

#[test]
fn encode_refuses_the_container_before_the_type() {
    let e = encode(&[1, 2, 3], "t", "hello").unwrap_err();
    assert!(matches!(e, CommandError::Png(TryFromSliceError::BadSignature)));
    let e = encode(&STANDARD_HEADER, "t", "hello").unwrap_err();
    assert!(matches!(e, CommandError::ChunkType(ParseChunkTypeError::InvalidLength)));
    let e = encode(&STANDARD_HEADER, "te-t", "hello").unwrap_err();
    assert!(matches!(e, CommandError::ChunkType(ParseChunkTypeError::NotInRange('-'))));
    let mut cut = container(&[("FrSt", b"a")]);
    cut.pop();
    let e = encode(&cut, "teXt", "hello").unwrap_err();
    assert!(matches!(e, CommandError::Png(TryFromSliceError::Chunk(_))));
}

#[test]
fn decode_finds_the_message() {
    let bytes = container(&[("FrSt", b"a"), ("teXt", b"hello"), ("teXt", b"again")]);
    match decode(&bytes, "teXt").unwrap() {
        Decoded::Found { chunk, message } => {
            assert_eq!(
                chunk,
                "Chunk {\n    len: 5,\n    chunk_type: ChunkType {\n        bytes: [\n            116,\n            101,\n            88,\n            116,\n        ],\n    },\n    data: 5,\n    crc: 2750845236,\n}"
            );
            assert_eq!(message.unwrap(), "hello");
        }
        Decoded::NotFound => panic!("not found"),
    }
    assert!(matches!(decode(&bytes, "nope").unwrap(), Decoded::NotFound));
    assert!(matches!(decode(&bytes, "").unwrap(), Decoded::NotFound));
    assert!(matches!(decode(&STANDARD_HEADER, "teXt").unwrap(), Decoded::NotFound));
}

#[test]
fn decode_of_a_payload_that_is_no_text() {
    let bytes = container(&[("abCd", &[255, 254])]);
    match decode(&bytes, "abCd").unwrap() {
        Decoded::Found { chunk, message } => {
            assert!(chunk.starts_with("Chunk {\n    len: 2,\n"));
            assert!(message.is_err());
        }
        Decoded::NotFound => panic!("not found"),
    }
}

#[test]
fn decode_refuses_what_is_no_container() {
    let e = decode(&[], "teXt").unwrap_err();
    assert!(matches!(e, TryFromSliceError::BadSignature));
    let mut bytes = container(&[("teXt", b"hello")]);
    bytes[12] = b'j';
    let e = decode(&bytes, "teXt").unwrap_err();
    assert!(matches!(e, TryFromSliceError::Chunk(_)));
}

#[test]
fn remove_takes_the_first_chunk_of_the_type() {
    let before = container(&[("FrSt", b"a"), ("teXt", b"one"), ("LASt", b"b"), ("teXt", b"two")]);
    let after = remove(&before, "teXt").unwrap();
    assert_eq!(after, container(&[("FrSt", b"a"), ("LASt", b"b"), ("teXt", b"two")]));
    let after = remove(&after, "teXt").unwrap();
    assert_eq!(after, container(&[("FrSt", b"a"), ("LASt", b"b")]));
    let e = remove(&after, "teXt").unwrap_err();
    assert!(matches!(e, CommandError::Remove(RemoveChunkError::ChunkNotFound)));
    let e = remove(&after[..7], "teXt").unwrap_err();
    assert!(matches!(e, CommandError::Png(TryFromSliceError::BadSignature)));
}

#[test]
fn encode_then_remove_gives_the_container_back() {
    let before = container(&[("FrSt", b"a"), ("LASt", b"b")]);
    let with = encode(&before, "teXt", "hello").unwrap();
    assert_ne!(with, before);
    assert_eq!(remove(&with, "teXt").unwrap(), before);
}

#[test]
fn print_describes_each_chunk_in_order() {
    let bytes = container(&[("FrSt", b"first"), ("LASt", b"")]);
    let lines = print(&bytes).unwrap();
    assert_eq!(lines.len(), 2);
    assert_eq!(
        lines[0],
        format!(
            "Chunk {{\n    len: 5,\n    chunk_type: ChunkType {{\n        bytes: [\n            70,\n            114,\n            83,\n            116,\n        ],\n    }},\n    data: 5,\n    crc: {},\n}}",
            crc32fast::hash(b"FrStfirst")
        )
    );
    assert_eq!(
        lines[1],
        format!(
            "Chunk {{\n    len: 0,\n    chunk_type: ChunkType {{\n        bytes: [\n            76,\n            65,\n            83,\n            116,\n        ],\n    }},\n    data: 0,\n    crc: {},\n}}",
            crc32fast::hash(b"LASt")
        )
    );
    assert_eq!(print(&STANDARD_HEADER).unwrap().len(), 0);
    assert!(matches!(print(&bytes[1..]).unwrap_err(), TryFromSliceError::BadSignature));
}
