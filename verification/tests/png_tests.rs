use pngme::chunk::{Chunk, ChunkError};
use pngme::chunk_type::{ChunkType, ChunkTypeError};
use pngme::png::{Png, PngError};
use std::str::FromStr;

fn chunk(name: &str, data: &[u8]) -> Chunk {
    Chunk::new(ChunkType::from_str(name).unwrap(), data.to_vec())
}

fn minimal_png() -> Vec<u8> {
    let mut png = Png::new();
    png.append_chunk(chunk("IHDR", &[0, 0, 0, 1, 0, 0, 0, 1, 8, 2, 0, 0, 0]));
    png.append_chunk(chunk("IEND", &[]));
    png.as_bytes()
}

fn types_of(png: &Png) -> Vec<String> {
    png.chunks().iter().map(|c| c.chunk_type().to_string()).collect()
}

#[test]
fn signature_is_the_png_magic() {
    assert_eq!(Png::SIGNATURE, [0x89, 0x50, 0x4e, 0x47, 0x0d, 0x0a, 0x1a, 0x0a]);
    assert_eq!(Png::new().signature(), [137, 80, 78, 71, 13, 10, 26, 10]);
}

#[test]
fn empty_stream_is_the_signature_alone() {
    let png = Png::new();
    assert_eq!(png.as_bytes(), Png::SIGNATURE.to_vec());
    assert_eq!(png.chunks().len(), 0);
    let back = Png::parse(&Png::SIGNATURE).unwrap();
    assert_eq!(back.chunks().len(), 0);
}

#[test]
fn serialized_stream_is_signature_then_chunks_in_order() {
    let bytes = minimal_png();
    let mut expected = Png::SIGNATURE.to_vec();
    expected.extend_from_slice(&[0, 0, 0, 13]);
    expected.extend_from_slice(b"IHDR");
    expected.extend_from_slice(&[0, 0, 0, 1, 0, 0, 0, 1, 8, 2, 0, 0, 0]);
    expected.extend_from_slice(&2423739358u32.to_be_bytes());
    expected.extend_from_slice(&[0, 0, 0, 0]);
    expected.extend_from_slice(b"IEND");
    expected.extend_from_slice(&0xae42_6082u32.to_be_bytes());
    assert_eq!(bytes, expected);
}

#[test]
fn png_round_trip() {
    let mut png = Png::new();
    png.append_chunk(chunk("IHDR", &[0, 0, 0, 1, 0, 0, 0, 1, 8, 2, 0, 0, 0]));
    png.append_chunk(chunk("tEXt", b"note"));
    png.append_chunk(chunk("tEXt", b""));
    png.append_chunk(chunk("IDAT", &[1, 2, 3, 4, 5]));
    png.append_chunk(chunk("IEND", &[]));
    let bytes = png.as_bytes();
    let back = Png::parse(&bytes).unwrap();
    assert_eq!(back.signature(), png.signature());
    assert_eq!(back.chunks().len(), 5);
    for (a, b) in back.chunks().iter().zip(png.chunks().iter()) {
        assert_eq!(a.chunk_type(), b.chunk_type());
        assert_eq!(a.data(), b.data());
        assert_eq!(a.crc(), b.crc());
    }
    assert_eq!(back.as_bytes(), bytes);
    let via_trait = Png::try_from(&bytes[..]).unwrap();
    assert_eq!(via_trait.as_bytes(), bytes);
}

#[test]
fn appended_chunk_is_exposed_after_reparsing() {
    let mut png = Png::parse(&minimal_png()).unwrap();
    png.append_chunk(chunk("ruSt", b"hidden"));
    let back = Png::parse(&png.as_bytes()).unwrap();
    assert_eq!(back.chunks().len(), 3);
    assert_eq!(types_of(&back), vec!["IHDR", "IEND", "ruSt"]);
    assert_eq!(back.chunks()[2].data_as_str().unwrap(), "hidden");
    assert_eq!(back.chunks()[2].crc(), 1360261962);
}

#[test]
fn wrong_or_short_signature_is_refused() {
    assert_eq!(Png::parse(&[]).err(), Some(PngError::InvalidSignature));
    assert_eq!(Png::parse(&Png::SIGNATURE[..7]).err(), Some(PngError::InvalidSignature));
    let mut bytes = minimal_png();
    bytes[0] = 0x88;
    assert_eq!(Png::parse(&bytes).err(), Some(PngError::InvalidSignature));
    let mut bytes = minimal_png();
    bytes[7] = 0x0b;
    assert_eq!(Png::parse(&bytes).err(), Some(PngError::InvalidSignature));
}

#[test]
fn first_chunk_failure_is_passed_on() {
    let mut bytes = minimal_png();
    bytes.push(0);
    assert_eq!(
        Png::parse(&bytes).err(),
        Some(PngError::Chunk(ChunkError::NotEnoughBytes { position: 0, required: 4, actual: 1 }))
    );
    let mut bytes = minimal_png();
    bytes[16] ^= 0x01;
    assert!(matches!(
        Png::parse(&bytes),
        Err(PngError::Chunk(ChunkError::CrcMismatch { actual: 2423739358, .. }))
    ));
    let mut bytes = minimal_png();
    bytes[12] = b'1';
    assert_eq!(
        Png::parse(&bytes).err(),
        Some(PngError::Chunk(ChunkError::InvalidChunkType(ChunkTypeError::InvalidByte {
            byte: b'1',
            index: 0
        })))
    );
    let whole = minimal_png();
    assert!(matches!(
        Png::parse(&whole[..whole.len() - 1]),
        Err(PngError::Chunk(ChunkError::NotEnoughBytes { position: 8, required: 4, actual: 3 }))
    ));
}

#[test]
fn append_find_remove() {
    let mut png = Png::parse(&minimal_png()).unwrap();
    assert!(png.chunk_by_type("ruSt").is_none());
    png.append_chunk(chunk("ruSt", b"hidden"));
    let found = png.chunk_by_type("ruSt").unwrap();
    assert_eq!(found.data(), b"hidden");
    assert_eq!(found.chunk_type().to_string(), "ruSt");
    assert_eq!(png.remove_first_chunk("ruSt"), Ok(()));
    assert!(png.chunk_by_type("ruSt").is_none());
    assert_eq!(types_of(&png), vec!["IHDR", "IEND"]);
    assert_eq!(png.as_bytes(), minimal_png());
}

#[test]
fn removing_an_absent_type_is_an_error() {
    let mut png = Png::parse(&minimal_png()).unwrap();
    assert_eq!(
        png.remove_first_chunk("ruSt"),
        Err(PngError::ChunkNotFound(String::from("ruSt")))
    );
    assert_eq!(png.as_bytes(), minimal_png());
    assert_eq!(
        Png::new().remove_first_chunk("IEND"),
        Err(PngError::ChunkNotFound(String::from("IEND")))
    );
}

#[test]
fn find_and_remove_take_the_first_of_a_type() {
    let mut png = Png::new();
    png.append_chunk(chunk("tEXt", b"one"));
    png.append_chunk(chunk("ruSt", b"x"));
    png.append_chunk(chunk("tEXt", b"two"));
    assert_eq!(png.chunk_by_type("tEXt").unwrap().data(), b"one");
    png.remove_first_chunk("tEXt").unwrap();
    assert_eq!(types_of(&png), vec!["ruSt", "tEXt"]);
    assert_eq!(png.chunk_by_type("tEXt").unwrap().data(), b"two");
    png.remove_first_chunk("tEXt").unwrap();
    assert!(png.chunk_by_type("tEXt").is_none());
    assert_eq!(types_of(&png), vec!["ruSt"]);
}

#[test]
fn type_match_is_exact() {
    let mut png = Png::new();
    png.append_chunk(chunk("ruSt", b"x"));
    assert!(png.chunk_by_type("RuSt").is_none());
    assert!(png.chunk_by_type("rust").is_none());
    assert!(png.chunk_by_type("ruS").is_none());
    assert!(png.chunk_by_type("ruSt ").is_none());
    assert!(png.chunk_by_type("").is_none());
    assert!(png.chunk_by_type("ru1t").is_none());
    assert!(png.chunk_by_type("ruSt").is_some());
    assert_eq!(
        png.remove_first_chunk("RUST"),
        Err(PngError::ChunkNotFound(String::from("RUST")))
    );
}

#[test]
fn png_dump_text() {
    assert_eq!(Png::new().to_string(), "PNG signature: 89 50 4E 47 0D 0A 1A 0A");
    let mut png = Png::new();
    png.append_chunk(chunk("RuSt", b"hi"));
    png.append_chunk(chunk("IEND", &[]));
    assert_eq!(
        png.to_string(),
        "PNG signature: 89 50 4E 47 0D 0A 1A 0A\n\
         Chunk {\n  Length: 2\n  Type: RuSt\n  Data: [68 69]\n  CRC: 0xD2BC3F73\n}\n\
         Chunk {\n  Length: 0\n  Type: IEND\n  Data: []\n  CRC: 0xAE426082\n}"
    );
}
