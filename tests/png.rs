use pngme::chunk::Chunk;
use pngme::chunk_type::ChunkType;
use pngme::error::Error;
use pngme::png::Png;
use std::convert::TryFrom;
use std::str::FromStr;

fn chunk(tag: &str, data: &str) -> Chunk {
    Chunk::new(ChunkType::from_str(tag).unwrap(), data.as_bytes().to_vec())
}

fn sample() -> Png {
    Png::from_chunks(vec![
        chunk("FrSt", "I am the first chunk"),
        chunk("miDl", "I am another chunk"),
        chunk("LASt", "I am the last chunk"),
    ])
}

#[test]
fn encoding_starts_with_signature() {
    let bytes = sample().as_bytes();
    assert_eq!(&bytes[0..8], &[137, 80, 78, 71, 13, 10, 26, 10]);
    assert_eq!(Png::standard_header(), [137, 80, 78, 71, 13, 10, 26, 10]);
}

#[test]
fn png_round_trip() {
    let p = sample();
    let q = Png::try_from(p.as_bytes().as_slice()).unwrap();
    assert_eq!(q.chunks().len(), 3);
    for (a, b) in p.chunks().iter().zip(q.chunks().iter()) {
        assert_eq!(a.as_bytes(), b.as_bytes());
    }
    assert_eq!(q.as_bytes(), p.as_bytes());
}

#[test]
fn empty_png_round_trip() {
    let p = Png::from_chunks(Vec::new());
    assert_eq!(p.as_bytes().len(), 8);
    assert_eq!(Png::decode(&p.as_bytes()).unwrap().chunks().len(), 0);
}

#[test]
fn bad_signature_is_refused() {
    let mut bytes = sample().as_bytes();
    bytes[0] = 0;
    assert_eq!(Png::decode(&bytes).err(), Some(Error::BadSignature));
    assert_eq!(Png::decode(&[137, 80]).err(), Some(Error::BadSignature));
}

#[test]
fn corrupt_chunk_fails_whole_decode() {
    let mut bytes = sample().as_bytes();
    let last = bytes.len() - 1;
    bytes[last] ^= 1;
    assert!(matches!(Png::decode(&bytes), Err(Error::ChecksumMismatch { .. })));
    let bytes = sample().as_bytes();
    assert_eq!(Png::decode(&bytes[..bytes.len() - 2]).err(), Some(Error::Truncated));
}

#[test]
fn append_adds_at_end() {
    let mut p = sample();
    p.append_chunk(chunk("TeSt", "Message"));
    assert_eq!(p.chunks().len(), 4);
    assert_eq!(p.chunks()[3].chunk_type().to_string(), "TeSt");
}

#[test]
fn lookup_by_type() {
    let mut p = sample();
    p.append_chunk(chunk("miDl", "second"));
    let c = p.chunk_by_type("miDl").unwrap();
    assert_eq!(c.data_as_string().unwrap(), "I am another chunk");
    let all = p.chunks_by_type("miDl");
    assert_eq!(all.len(), 2);
    assert_eq!(all[1].data_as_string().unwrap(), "second");
    assert!(p.chunk_by_type("none").is_none());
    assert!(p.chunks_by_type("none").is_empty());
}

#[test]
fn remove_takes_only_the_first_match() {
    let mut p = sample();
    p.append_chunk(chunk("FrSt", "again"));
    let removed = p.remove_first_chunk("FrSt").unwrap();
    assert_eq!(removed.data_as_string().unwrap(), "I am the first chunk");
    let kinds: Vec<String> = p.chunks().iter().map(|c| c.chunk_type().to_string()).collect();
    assert_eq!(kinds, vec!["miDl", "LASt", "FrSt"]);
}

#[test]
fn remove_absent_type_is_not_found() {
    let mut p = sample();
    let before = p.as_bytes();
    assert_eq!(p.remove_first_chunk("NoNe").err(), Some(Error::NotFound));
    assert_eq!(p.as_bytes(), before);
}

#[test]
fn rendering_lists_chunks_by_line() {
    let p = sample();
    let text = p.to_string();
    let lines: Vec<&str> = text.lines().collect();
    assert_eq!(lines.len(), 3);
    assert_eq!(lines[0], p.chunks()[0].to_string());
    assert!(lines[1].contains("miDl"));
}

#[test]
fn encode_command_appends_message_chunk() {
    let file = sample().as_bytes();
    let out = pngme::commands::encode(&file, "RuSt", "hidden").unwrap();
    let p = Png::decode(&out).unwrap();
    assert_eq!(p.chunks().len(), 4);
    assert_eq!(p.chunks()[3].data_as_string().unwrap(), "hidden");
    assert!(matches!(
        pngme::commands::encode(&file, "Ru1t", "x"),
        Err(Error::InvalidFormat { .. })
    ));
    assert_eq!(pngme::commands::encode(&[1, 2], "RuSt", "x").err(), Some(Error::BadSignature));
}

#[test]
fn decode_command_finds_first_message() {
    let file = sample().as_bytes();
    assert_eq!(
        pngme::commands::decode(&file, "LASt").unwrap(),
        Some(String::from("I am the last chunk"))
    );
    assert_eq!(pngme::commands::decode(&file, "NoNe").unwrap(), None);
    let mut p = sample();
    p.append_chunk(Chunk::new(ChunkType::from_str("BiNa").unwrap(), vec![0xFF]));
    assert_eq!(pngme::commands::decode(&p.as_bytes(), "BiNa").err(), Some(Error::NotText));
}

#[test]
fn remove_command_drops_first_match() {
    let file = sample().as_bytes();
    let out = pngme::commands::remove(&file, "miDl").unwrap();
    assert_eq!(Png::decode(&out).unwrap().chunks().len(), 2);
    assert_eq!(pngme::commands::remove(&file, "NoNe").err(), Some(Error::NotFound));
}

#[test]
fn print_command_renders_container() {
    let file = sample().as_bytes();
    assert_eq!(pngme::commands::print(&file).unwrap(), sample().to_string());
}

#[test]
fn header_is_signature() {
    assert_eq!(sample().header(), [137, 80, 78, 71, 13, 10, 26, 10]);
}
