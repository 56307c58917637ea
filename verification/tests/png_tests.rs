use pngme::chunk::{Chunk, TryFromBytesErrorKind};
use pngme::chunk_type::ChunkType;
use pngme::png::{Png, RemoveChunkError, TryFromSliceError, STANDARD_HEADER};
use std::str::FromStr;

const THREE_CHUNKS: [u8; 101] = [
    137, 80, 78, 71, 13, 10, 26, 10, 0, 0, 0, 20, 70, 114, 83, 116, 73, 32, 97, 109, 32, 116, 104,
    101, 32, 102, 105, 114, 115, 116, 32, 99, 104, 117, 110, 107, 54, 220, 183, 239, 0, 0, 0, 18,
    109, 105, 68, 108, 73, 32, 97, 109, 32, 97, 110, 111, 116, 104, 101, 114, 32, 99, 104, 117,
    110, 107, 199, 116, 207, 18, 0, 0, 0, 19, 76, 65, 83, 116, 73, 32, 97, 109, 32, 116, 104, 101,
    32, 108, 97, 115, 116, 32, 99, 104, 117, 110, 107, 18, 176, 96, 100,
];

fn chunk(chunk_type: &str, data: &str) -> Chunk {
    Chunk::new(ChunkType::from_str(chunk_type).unwrap(), data.as_bytes().to_vec())
}

fn types_of(png: &Png) -> Vec<String> {
    png.chunks().iter().map(|c| c.chunk_type().to_string()).collect()
}

#[test]
fn three_chunks_are_read_in_file_order() {
    let png = Png::try_from(&THREE_CHUNKS[..]).unwrap();
    let chunks = png.chunks();
    assert_eq!(chunks.len(), 3);
    assert_eq!(chunks[0].chunk_type().as_str(), "FrSt");
    assert_eq!(chunks[0].length(), 20);
    assert_eq!(chunks[0].data_as_string().unwrap(), "I am the first chunk");
    assert_eq!(chunks[0].crc(), 920434671);
    assert_eq!(chunks[1].chunk_type().as_str(), "miDl");
    assert_eq!(chunks[1].length(), 18);
    assert_eq!(chunks[1].data_as_string().unwrap(), "I am another chunk");
    assert_eq!(chunks[2].chunk_type().as_str(), "LASt");
    assert_eq!(chunks[2].length(), 19);
    assert_eq!(chunks[2].data_as_string().unwrap(), "I am the last chunk");
    assert_eq!(&png.as_bytes()[..], &THREE_CHUNKS[..]);
}

#[test]
fn append_then_find() {
    let mut png = Png::try_from(&STANDARD_HEADER[..]).unwrap();
    assert_eq!(png.chunks().len(), 0);
    png.append_chunk(chunk("teXt", "hello"));
    let found = png.chunk_by_type("teXt").unwrap();
    assert_eq!(found.chunk_type().as_str(), "teXt");
    assert_eq!(found.data(), b"hello");
    assert_eq!(found.length(), 5);
    assert_eq!(found.crc(), 2750845236);
    assert!(png.chunk_by_type("nope").is_none());
}

#[test]
fn the_signature() {
    assert_eq!(STANDARD_HEADER, [137, 80, 78, 71, 13, 10, 26, 10]);
    let png = Png::from_chunks(Vec::new());
    assert_eq!(png.header(), STANDARD_HEADER);
    assert_eq!(png.as_bytes(), STANDARD_HEADER.to_vec());
}

#[test]
fn a_wrong_or_short_signature_is_refused() {
    for n in 0..8 {
        let e = Png::try_from(&THREE_CHUNKS[..n]).unwrap_err();
        assert!(matches!(e, TryFromSliceError::BadSignature));
        assert_eq!(e.to_string(), "invalid signature");
    }
    for at in 0..8 {
        let mut bytes = THREE_CHUNKS.to_vec();
        bytes[at] ^= 0x20;
        let e = Png::try_from(&bytes[..]).unwrap_err();
        assert!(matches!(e, TryFromSliceError::BadSignature));
    }
    // the signature is looked at before the chunks
    let mut bytes = THREE_CHUNKS.to_vec();
    bytes[0] = 0;
    bytes[100] ^= 1;
    let e = Png::try_from(&bytes[..]).unwrap_err();
    assert!(matches!(e, TryFromSliceError::BadSignature));
}

#[test]
fn a_container_that_ends_within_a_chunk_is_refused() {
    let ends = [8usize, 40, 70, 101];
    for n in 8..THREE_CHUNKS.len() {
        let r = Png::try_from(&THREE_CHUNKS[..n]);
        if ends.contains(&n) {
            assert!(r.is_ok());
        } else {
            match r.unwrap_err() {
                TryFromSliceError::Chunk(e) => {
                    assert!(matches!(e.kind, TryFromBytesErrorKind::NotEnoughBytes))
                }
                _ => panic!("not a chunk error"),
            }
        }
    }
    assert_eq!(Png::try_from(&THREE_CHUNKS[..40]).unwrap().chunks().len(), 1);
    assert_eq!(Png::try_from(&THREE_CHUNKS[..70]).unwrap().chunks().len(), 2);
}

#[test]
fn the_first_bad_chunk_is_reported() {
    // a wrong checksum in the second chunk
    let mut bytes = THREE_CHUNKS.to_vec();
    bytes[69] ^= 1;
    match Png::try_from(&bytes[..]).unwrap_err() {
        TryFromSliceError::Chunk(e) => {
            assert!(matches!(
                e.kind,
                TryFromBytesErrorKind::CorruptCrc { calculated: 3346321170, expected: 3346321171 }
            ));
            assert_eq!(e.to_string(), "cannot convert to Chunk");
        }
        _ => panic!("not a chunk error"),
    }
    // a bad type in the third, and a wrong checksum in the second: the second is found
    bytes[75] = b'1';
    match Png::try_from(&bytes[..]).unwrap_err() {
        TryFromSliceError::Chunk(e) => {
            assert!(matches!(e.kind, TryFromBytesErrorKind::CorruptCrc { .. }))
        }
        _ => panic!("not a chunk error"),
    }
    // a bad type in the third alone
    bytes[69] ^= 1;
    let e = Png::try_from(&bytes[..]).unwrap_err();
    assert_eq!(e.to_string(), "cannot convert to Chunk");
    match e {
        TryFromSliceError::Chunk(e) => {
            assert_eq!(e.kind.to_string(), "invalid byte `49` at index 1")
        }
        _ => panic!("not a chunk error"),
    }
}

#[test]
fn from_chunks_keeps_the_order() {
    let png = Png::from_chunks(vec![chunk("FrSt", "a"), chunk("miDl", "b"), chunk("LASt", "c")]);
    assert_eq!(types_of(&png), ["FrSt", "miDl", "LASt"]);
    let mut expected = STANDARD_HEADER.to_vec();
    expected.extend(chunk("FrSt", "a").as_bytes());
    expected.extend(chunk("miDl", "b").as_bytes());
    expected.extend(chunk("LASt", "c").as_bytes());
    assert_eq!(png.as_bytes(), expected);
}

#[test]
fn find_takes_the_first_of_several() {
    let png = Png::from_chunks(vec![
        chunk("FrSt", "a"),
        chunk("teXt", "one"),
        chunk("teXt", "two"),
        chunk("LASt", "c"),
    ]);
    assert_eq!(png.chunk_by_type("teXt").unwrap().data(), b"one");
    assert_eq!(png.chunk_by_type("FrSt").unwrap().data(), b"a");
    assert_eq!(png.chunk_by_type("LASt").unwrap().data(), b"c");
    // the comparison is of the text, letter for letter
    assert!(png.chunk_by_type("text").is_none());
    assert!(png.chunk_by_type("TEXT").is_none());
    // what is no chunk type finds nothing
    assert!(png.chunk_by_type("").is_none());
    assert!(png.chunk_by_type("teX").is_none());
    assert!(png.chunk_by_type("teXtt").is_none());
    assert!(png.chunk_by_type("te1t").is_none());
    assert!(png.chunk_by_type("\u{e9}\u{e9}").is_none());
}

#[test]
fn remove_takes_the_first_and_keeps_the_order() {
    let mut png = Png::from_chunks(vec![
        chunk("FrSt", "a"),
        chunk("teXt", "one"),
        chunk("miDl", "b"),
        chunk("teXt", "two"),
    ]);
    let removed = png.remove_first_chunk("teXt").unwrap();
    assert_eq!(removed.data(), b"one");
    assert_eq!(removed.chunk_type().as_str(), "teXt");
    assert_eq!(types_of(&png), ["FrSt", "miDl", "teXt"]);
    assert_eq!(png.chunk_by_type("teXt").unwrap().data(), b"two");
    let removed = png.remove_first_chunk("teXt").unwrap();
    assert_eq!(removed.data(), b"two");
    assert_eq!(types_of(&png), ["FrSt", "miDl"]);
    let removed = png.remove_first_chunk("FrSt").unwrap();
    assert_eq!(removed.data(), b"a");
    assert_eq!(types_of(&png), ["miDl"]);
}

#[test]
fn remove_without_a_match_changes_nothing() {
    let mut png = Png::try_from(&THREE_CHUNKS[..]).unwrap();
    for text in ["nope", "frst", "", "FrStFrSt", "Fr5t"] {
        let e = png.remove_first_chunk(text).unwrap_err();
        assert_eq!(e, RemoveChunkError::ChunkNotFound);
        assert_eq!(e.to_string(), "chunk not found");
        assert_eq!(png.chunks().len(), 3);
        assert_eq!(&png.as_bytes()[..], &THREE_CHUNKS[..]);
    }
    let mut empty = Png::from_chunks(Vec::new());
    assert!(empty.remove_first_chunk("teXt").is_err());
    assert_eq!(empty.as_bytes(), STANDARD_HEADER.to_vec());
}

#[test]
fn reading_back_a_changed_container() {
    let mut png = Png::try_from(&THREE_CHUNKS[..]).unwrap();
    png.append_chunk(chunk("teXt", "hello"));
    png.append_chunk(chunk("RuSt", ""));
    png.remove_first_chunk("miDl").unwrap();
    png.append_chunk(chunk("teXt", "again"));
    png.remove_first_chunk("teXt").unwrap();
    let bytes = png.as_bytes();
    let read = Png::try_from(&bytes[..]).unwrap();
    assert_eq!(types_of(&read), ["FrSt", "LASt", "RuSt", "teXt"]);
    assert_eq!(read.chunks().len(), png.chunks().len());
    for (a, b) in read.chunks().iter().zip(png.chunks()) {
        assert_eq!(a.length(), b.length());
        assert_eq!(a.chunk_type(), b.chunk_type());
        assert_eq!(a.data(), b.data());
        assert_eq!(a.crc(), b.crc());
    }
    assert_eq!(read.as_bytes(), bytes);
}
