use pngme::chunk::Chunk;
use pngme::chunk_type::ChunkType;
use pngme::error::FormatError;
use pngme::png::{Png, SIGNATURE};

/// A complete image of one pixel.
fn pixel() -> Vec<u8> {
    vec![
        0x89, 0x50, 0x4e, 0x47, 0x0d, 0x0a, 0x1a, 0x0a, 0x00, 0x00, 0x00, 0x0d, 0x49, 0x48, 0x44,
        0x52, 0x00, 0x00, 0x00, 0x01, 0x00, 0x00, 0x00, 0x01, 0x08, 0x06, 0x00, 0x00, 0x00, 0x1f,
        0x15, 0xc4, 0x89, 0x00, 0x00, 0x00, 0x0a, 0x49, 0x44, 0x41, 0x54, 0x78, 0x9c, 0x63, 0x00,
        0x01, 0x00, 0x00, 0x05, 0x00, 0x01, 0x0d, 0x0a, 0x2d, 0xb4, 0x00, 0x00, 0x00, 0x00, 0x49,
        0x45, 0x4e, 0x44, 0xae, 0x42, 0x60, 0x82,
    ]
}

fn chunk(name: &str, data: &str) -> Chunk {
    Chunk::new(ChunkType::from_text(name).unwrap(), data.as_bytes().to_vec())
}

fn three_chunks() -> Png {
    let mut png = Png::new();
    png.append_chunk(chunk("FrSt", "I am the first chunk"));
    png.append_chunk(chunk("miDl", "I am another chunk"));
    png.append_chunk(chunk("LASt", "I am the last chunk"));
    png
}

#[test]
fn signature_is_the_png_magic() {
    assert_eq!(SIGNATURE, [137, 80, 78, 71, 13, 10, 26, 10]);
}

#[test]
fn new_holds_no_chunk_and_is_just_the_signature() {
    let png = Png::new();
    assert_eq!(png.chunks().len(), 0);
    assert_eq!(png.to_bytes(), SIGNATURE.to_vec());
    assert_eq!(Png::parse(&SIGNATURE).unwrap(), png);
}

#[test]
fn parse_reads_the_chunks_in_file_order() {
    let png = Png::parse(&pixel()).unwrap();
    assert_eq!(png.chunks().len(), 3);
    assert_eq!(png.chunks()[0].chunk_type().to_string(), "IHDR");
    assert_eq!(png.chunks()[0].length(), 13);
    assert_eq!(png.chunks()[0].data(), &[0, 0, 0, 1, 0, 0, 0, 1, 8, 6, 0, 0, 0]);
    assert_eq!(png.chunks()[1].chunk_type().to_string(), "IDAT");
    assert_eq!(png.chunks()[1].length(), 10);
    assert_eq!(png.chunks()[1].crc(), 0x0d0a_2db4);
    assert_eq!(png.chunks()[2].chunk_type().to_string(), "IEND");
    assert_eq!(png.chunks()[2].length(), 0);
}

#[test]
fn to_bytes_gives_back_the_file_that_was_parsed() {
    let png = Png::parse(&pixel()).unwrap();
    assert_eq!(png.to_bytes(), pixel());
}

#[test]
fn parse_reads_back_to_bytes() {
    let png = three_chunks();
    let bytes = png.to_bytes();
    let again = Png::parse(&bytes).unwrap();
    assert_eq!(again, png);
    assert_eq!(again.to_bytes(), bytes);

    let parsed = Png::parse(&pixel()).unwrap();
    assert_eq!(Png::parse(&parsed.to_bytes()).unwrap(), parsed);
}

#[test]
fn to_bytes_is_signature_then_each_record() {
    let png = three_chunks();
    let mut expected = SIGNATURE.to_vec();
    expected.extend(chunk("FrSt", "I am the first chunk").as_bytes());
    expected.extend(chunk("miDl", "I am another chunk").as_bytes());
    expected.extend(chunk("LASt", "I am the last chunk").as_bytes());
    assert_eq!(png.to_bytes(), expected);
    assert_eq!(expected.len(), 8 + 3 * 12 + 20 + 18 + 19);
}

#[test]
fn wrong_signature_is_rejected_whatever_follows() {
    for at in 0..8 {
        let mut bytes = pixel();
        bytes[at] ^= 0x01;
        assert_eq!(Png::parse(&bytes), Err(FormatError::BadSignature));
        assert_eq!(Png::parse(&bytes[..8]), Err(FormatError::BadSignature));
        bytes.truncate(20);
        assert_eq!(Png::parse(&bytes), Err(FormatError::BadSignature));
    }
    let garbage = [0u8; 64];
    assert_eq!(Png::parse(&garbage), Err(FormatError::BadSignature));
}

#[test]
fn less_than_a_signature_is_truncated() {
    let bytes = pixel();
    for n in 0..8 {
        assert_eq!(Png::parse(&bytes[..n]), Err(FormatError::Truncated));
    }
}

#[test]
fn bytes_after_the_last_record_must_be_a_record() {
    let mut bytes = pixel();
    bytes.push(0);
    assert_eq!(Png::parse(&bytes), Err(FormatError::Truncated));
    let bytes = pixel();
    for n in 9..bytes.len() {
        if n == 33 || n == 55 {
            assert_eq!(Png::parse(&bytes[..n]).unwrap().chunks().len(), if n == 33 { 1 } else { 2 });
        } else {
            assert_eq!(Png::parse(&bytes[..n]), Err(FormatError::Truncated));
        }
    }
}

#[test]
fn chunks_after_the_end_marker_are_kept() {
    let mut bytes = pixel();
    bytes.extend(chunk("teXt", "after the end").as_bytes());
    let png = Png::parse(&bytes).unwrap();
    assert_eq!(png.chunks().len(), 4);
    assert_eq!(png.chunks()[3].data_as_string().unwrap(), "after the end");
    assert_eq!(png.to_bytes(), bytes);
}

#[test]
fn a_bad_chunk_fails_the_whole_file() {
    let mut bytes = pixel();
    bytes[45] ^= 0x10;
    assert_eq!(Png::parse(&bytes), Err(FormatError::CrcMismatch));
    let mut bytes = pixel();
    bytes[38] = b'4';
    assert_eq!(Png::parse(&bytes), Err(FormatError::InvalidChunkType));
    let mut bytes = pixel();
    bytes[66] ^= 0x80;
    assert_eq!(Png::parse(&bytes), Err(FormatError::CrcMismatch));
}

#[test]
fn append_puts_the_chunk_last() {
    let mut png = Png::parse(&pixel()).unwrap();
    png.append_chunk(chunk("TEST", "secret!!"));
    assert_eq!(png.chunks().len(), 4);
    assert_eq!(&png.chunks()[3], &chunk("TEST", "secret!!"));
    assert_eq!(png.chunks()[2].chunk_type().to_string(), "IEND");
    let mut expected = pixel();
    expected.extend_from_slice(&[0, 0, 0, 8]);
    expected.extend_from_slice(b"TESTsecret!!");
    expected.extend_from_slice(&[0xf7, 0xff, 0xc6, 0xea]);
    assert_eq!(png.to_bytes(), expected);
}

#[test]
fn appended_message_is_found_and_removed_again() {
    let mut png = Png::parse(&pixel()).unwrap();
    png.append_chunk(chunk("TEST", "secret!!"));
    let bytes = png.to_bytes();

    let mut again = Png::parse(&bytes).unwrap();
    let found = again.find_chunk_by_type("TEST").unwrap();
    assert_eq!(found.data_as_string().unwrap(), "secret!!");

    let removed = again.remove_chunk_by_type("TEST").unwrap();
    assert_eq!(removed, chunk("TEST", "secret!!"));
    assert_eq!(again.find_chunk_by_type("TEST"), None);
    assert_eq!(again.to_bytes(), pixel());
}

#[test]
fn absent_type_is_not_found() {
    let mut png = three_chunks();
    assert_eq!(png.find_chunk_by_type("TEST"), None);
    assert_eq!(png.remove_chunk_by_type("TEST"), Err(FormatError::ChunkNotFound));
    assert_eq!(png, three_chunks());

    let mut empty = Png::new();
    assert_eq!(empty.find_chunk_by_type("IEND"), None);
    assert_eq!(empty.remove_chunk_by_type("IEND"), Err(FormatError::ChunkNotFound));
}

#[test]
fn lookup_is_case_sensitive_and_wants_four_letters() {
    let png = three_chunks();
    assert!(png.find_chunk_by_type("miDl").is_some());
    assert_eq!(png.find_chunk_by_type("midl"), None);
    assert_eq!(png.find_chunk_by_type("MIDL"), None);
    assert_eq!(png.find_chunk_by_type("miD"), None);
    assert_eq!(png.find_chunk_by_type("miDlx"), None);
    assert_eq!(png.find_chunk_by_type(""), None);
    assert_eq!(png.find_chunk_by_type("mi\u{e9}"), None);
}

#[test]
fn lookup_and_removal_take_the_first_of_several() {
    let mut png = Png::new();
    png.append_chunk(chunk("FrSt", "a"));
    png.append_chunk(chunk("teXt", "one"));
    png.append_chunk(chunk("miDl", "b"));
    png.append_chunk(chunk("teXt", "two"));
    png.append_chunk(chunk("LASt", "c"));

    assert_eq!(png.find_chunk_by_type("teXt").unwrap().data_as_string().unwrap(), "one");
    let removed = png.remove_chunk_by_type("teXt").unwrap();
    assert_eq!(removed, chunk("teXt", "one"));

    let mut expected = Png::new();
    expected.append_chunk(chunk("FrSt", "a"));
    expected.append_chunk(chunk("miDl", "b"));
    expected.append_chunk(chunk("teXt", "two"));
    expected.append_chunk(chunk("LASt", "c"));
    assert_eq!(png, expected);

    assert_eq!(png.find_chunk_by_type("teXt").unwrap().data_as_string().unwrap(), "two");
    assert_eq!(png.remove_chunk_by_type("teXt").unwrap(), chunk("teXt", "two"));
    assert_eq!(png.remove_chunk_by_type("teXt"), Err(FormatError::ChunkNotFound));
    assert_eq!(png.chunks().len(), 3);
}

#[test]
fn removal_of_first_and_last_keeps_the_order() {
    let mut png = three_chunks();
    assert_eq!(png.remove_chunk_by_type("FrSt").unwrap(), chunk("FrSt", "I am the first chunk"));
    assert_eq!(png.chunks()[0].chunk_type().to_string(), "miDl");
    assert_eq!(png.chunks()[1].chunk_type().to_string(), "LASt");
    assert_eq!(png.remove_chunk_by_type("LASt").unwrap(), chunk("LASt", "I am the last chunk"));
    assert_eq!(png.chunks().len(), 1);
    assert_eq!(&png.chunks()[0], &chunk("miDl", "I am another chunk"));
}
