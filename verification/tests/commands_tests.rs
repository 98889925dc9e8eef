use pngme::chunk::{Chunk, ChunkError};
use pngme::chunk_type::{ChunkType, ChunkTypeError};
use pngme::commands::{decode, default_output_name, encode, print, remove, CommandsError};
use pngme::png::{Png, PngError};
use std::str::FromStr;

fn minimal_png() -> Png {
    let mut png = Png::new();
    png.append_chunk(Chunk::new(
        ChunkType::from_str("IHDR").unwrap(),
        vec![0, 0, 0, 1, 0, 0, 0, 1, 8, 2, 0, 0, 0],
    ));
    png.append_chunk(Chunk::new(ChunkType::from_str("IEND").unwrap(), Vec::new()));
    png
}

#[test]
fn encode_appends_the_message_chunk() {
    let mut png = minimal_png();
    let before = png.as_bytes();
    assert_eq!(encode(&mut png, "ruSt", "hidden"), Ok(()));
    let mut expected = before;
    expected.extend_from_slice(&[0, 0, 0, 6]);
    expected.extend_from_slice(b"ruSt");
    expected.extend_from_slice(b"hidden");
    expected.extend_from_slice(&0x5113_f34au32.to_be_bytes());
    assert_eq!(png.as_bytes(), expected);
}

#[test]
fn secret_message_chunk_has_the_known_checksum() {
    let mut png = Png::new();
    encode(&mut png, "RuSt", "This is where your secret message will be!").unwrap();
    let chunk = png.chunk_by_type("RuSt").unwrap();
    assert_eq!(chunk.length(), 42);
    assert_eq!(chunk.crc(), 2882656334);
}

#[test]
fn hidden_message_survives_writing_and_reading() {
    let mut png = Png::parse(&minimal_png().as_bytes()).unwrap();
    encode(&mut png, "ruSt", "hidden").unwrap();
    let back = Png::parse(&png.as_bytes()).unwrap();
    assert_eq!(back.chunks().len(), 3);
    assert_eq!(back.chunks()[0].chunk_type().to_string(), "IHDR");
    assert_eq!(back.chunks()[1].chunk_type().to_string(), "IEND");
    assert_eq!(back.chunks()[2].chunk_type().to_string(), "ruSt");
    assert_eq!(back.chunks()[2].data_as_str().unwrap(), "hidden");
    assert_eq!(decode(&back, "ruSt"), Ok(String::from("hidden")));
}

#[test]
fn encode_then_decode_gives_the_message() {
    let mut png = minimal_png();
    encode(&mut png, "ruSt", "hidden").unwrap();
    assert_eq!(decode(&png, "ruSt"), Ok(String::from("hidden")));
    encode(&mut png, "teXt", "grüße").unwrap();
    encode(&mut png, "ruSt", "second").unwrap();
    assert_eq!(decode(&png, "teXt"), Ok(String::from("grüße")));
    assert_eq!(decode(&png, "ruSt"), Ok(String::from("hidden")));
    encode(&mut png, "emPt", "").unwrap();
    assert_eq!(decode(&png, "emPt"), Ok(String::new()));
}

#[test]
fn encode_refuses_a_type_that_is_no_code() {
    let mut png = minimal_png();
    let before = png.as_bytes();
    assert_eq!(
        encode(&mut png, "ru1t", "x"),
        Err(CommandsError::ChunkType(ChunkTypeError::InvalidByte { byte: b'1', index: 2 }))
    );
    assert_eq!(
        encode(&mut png, "rust!", "x"),
        Err(CommandsError::ChunkType(ChunkTypeError::InvalidLength(5)))
    );
    assert_eq!(png.as_bytes(), before);
}

#[test]
fn decode_reports_what_is_missing() {
    assert_eq!(
        decode(&minimal_png(), "ruSt"),
        Err(CommandsError::ChunkNotFound(String::from("ruSt")))
    );
    assert_eq!(
        decode(&minimal_png(), "not a type"),
        Err(CommandsError::ChunkNotFound(String::from("not a type")))
    );
}

#[test]
fn decode_refuses_a_payload_that_is_no_text() {
    let mut png = Png::new();
    png.append_chunk(Chunk::new(ChunkType::from_str("teSt").unwrap(), vec![0xff, 0xfe]));
    assert!(matches!(
        decode(&png, "teSt"),
        Err(CommandsError::Chunk(ChunkError::InvalidUtf8(_)))
    ));
}

#[test]
fn remove_undoes_encode() {
    let mut png = minimal_png();
    let before = png.as_bytes();
    encode(&mut png, "ruSt", "hidden").unwrap();
    assert_eq!(remove(&mut png, "ruSt"), Ok(()));
    assert_eq!(png.as_bytes(), before);
    assert_eq!(
        remove(&mut png, "ruSt"),
        Err(CommandsError::Png(PngError::ChunkNotFound(String::from("ruSt"))))
    );
    assert_eq!(png.as_bytes(), before);
}

#[test]
fn print_dumps_the_stream() {
    let mut png = Png::new();
    encode(&mut png, "RuSt", "hi").unwrap();
    assert_eq!(
        print(&png),
        "PNG signature: 89 50 4E 47 0D 0A 1A 0A\n\
         Chunk {\n  Length: 2\n  Type: RuSt\n  Data: [68 69]\n  CRC: 0xD2BC3F73\n}"
    );
}

#[test]
fn default_output_name_joins_stem_suffix_extension() {
    assert_eq!(default_output_name("photo", "encoded", "png"), "photo_encoded.png");
    assert_eq!(default_output_name("", "encoded", ""), "_encoded.");
}
