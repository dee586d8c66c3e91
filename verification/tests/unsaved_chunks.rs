use notepad_parser::errors::NotepadErrors;
use notepad_parser::reader::ByteReader;
use notepad_parser::unsaved_chunks::{UnsavedChunk, UnsavedChunks};

fn units(text: &str) -> Vec<u8> {
    let mut bytes = Vec::new();
    for unit in text.encode_utf16() {
        bytes.push((unit & 0xff) as u8);
        bytes.push((unit >> 8) as u8);
    }
    bytes
}

fn chunk(position: u8, deletion: u8, text: &str) -> Vec<u8> {
    let mut bytes = vec![position, deletion, text.encode_utf16().count() as u8];
    bytes.extend_from_slice(&units(text));
    bytes.extend_from_slice(&[0xC0, 0xFF, 0xEE, position]);
    bytes
}

fn list(bytes: Vec<u8>) -> Result<UnsavedChunks, NotepadErrors> {
    let mut reader = ByteReader::new(bytes);
    UnsavedChunks::from_reader(&mut reader)
}

fn wrapped(message: &str) -> NotepadErrors {
    NotepadErrors::Generic(
        message.to_string(),
        "UnsavedChunks::from_reader".to_string(),
        "Error during reading list of UnsavedChunk.".to_string(),
    )
}

#[test]
fn chunk_with_text() {
    let mut reader = ByteReader::new(chunk(7, 0, "héy"));
    let found = UnsavedChunk::from_reader(&mut reader).unwrap();
    assert_eq!(found.position(), 7);
    assert_eq!(found.num_of_deletion(), 0);
    assert_eq!(found.num_of_addition(), 3);
    assert_eq!(found.data().map(|s| s.as_str()), Some("héy"));
    assert_eq!(found.checksum(), "C0FFEE07");
    assert_eq!(reader.remaining(), 0);
}

#[test]
fn chunk_without_text() {
    let mut bytes = chunk(9, 4, "");
    bytes.push(0x55);
    let mut reader = ByteReader::new(bytes);
    let found = UnsavedChunk::from_reader(&mut reader).unwrap();
    assert_eq!(found.position(), 9);
    assert_eq!(found.num_of_deletion(), 4);
    assert_eq!(found.num_of_addition(), 0);
    assert!(found.data().is_none());
    assert_eq!(found.checksum(), "C0FFEE09");
    assert_eq!(reader.position(), 7);
    assert_eq!(reader.remaining(), 1);
}

#[test]
fn chunk_text_is_there_if_and_only_if_something_was_added() {
    for text in ["", "a", "ab", "line\n"] {
        let mut reader = ByteReader::new(chunk(1, 2, text));
        let found = UnsavedChunk::from_reader(&mut reader).unwrap();
        assert_eq!(found.data().is_some(), found.num_of_addition() > 0);
        assert_eq!(found.data().is_some(), !text.is_empty());
    }
}

#[test]
fn chunk_at_the_end_of_input() {
    let mut reader = ByteReader::new(vec![]);
    assert_eq!(UnsavedChunk::from_reader(&mut reader).unwrap_err(), NotepadErrors::EoF);
    let mut reader = ByteReader::new(vec![0x80, 0x80]);
    assert_eq!(UnsavedChunk::from_reader(&mut reader).unwrap_err(), NotepadErrors::EoF);
    assert_eq!(reader.position(), 0);
}

#[test]
fn chunk_fields_are_named_when_input_ends() {
    let whole = chunk(3, 1, "xy");
    let eof = "failed to fill whole buffer";
    let text_eof = "an IO error has occurred: failed to fill whole buffer";
    let expected = [
        (1, eof, "UnsavedChunk::num_of_deletion"),
        (2, eof, "UnsavedChunk::num_of_addition"),
        (3, text_eof, "UnsavedChunk::data"),
        (5, text_eof, "UnsavedChunk::data"),
        (7, eof, "checksum"),
        (10, eof, "checksum"),
    ];
    for (cut, cause, field) in expected {
        let mut reader = ByteReader::new(whole[..cut].to_vec());
        assert_eq!(
            UnsavedChunk::from_reader(&mut reader).unwrap_err(),
            NotepadErrors::ReadError(cause.to_string(), field.to_string())
        );
    }
}

#[test]
fn chunk_position_of_more_than_ten_bytes() {
    let mut bytes = vec![0xFF; 11];
    bytes.extend_from_slice(&chunk(1, 1, ""));
    let mut reader = ByteReader::new(bytes);
    assert_eq!(
        UnsavedChunk::from_reader(&mut reader).unwrap_err(),
        NotepadErrors::ReadError(
            "uleb128 value is longer than 10 bytes".to_string(),
            "UnsavedChunk::position".to_string()
        )
    );
}

#[test]
fn list_without_chunks_is_not_available() {
    assert_eq!(list(vec![]).unwrap_err(), NotepadErrors::NA);
}

#[test]
fn list_ends_at_a_chunk_boundary() {
    for count in 1..5usize {
        let mut bytes = Vec::new();
        for i in 0..count {
            bytes.extend_from_slice(&chunk(i as u8, 0, "ab"));
        }
        let len = bytes.len();
        let mut reader = ByteReader::new(bytes);
        let chunks = UnsavedChunks::from_reader(&mut reader).unwrap();
        assert_eq!(chunks.len(), count);
        assert_eq!(reader.position(), len);
        for i in 0..count {
            assert_eq!(chunks.get(i).unwrap().position(), i as u64);
        }
        assert!(chunks.get(count).is_none());
    }
}

#[test]
fn list_with_one_byte_of_a_new_chunk_is_refused() {
    let mut bytes = chunk(1, 0, "a");
    bytes.extend_from_slice(&chunk(2, 0, "b"));
    bytes.push(0x03);
    let mut reader = ByteReader::new(bytes);
    assert_eq!(
        UnsavedChunks::from_reader(&mut reader).unwrap_err(),
        wrapped(
            "Unable to read data. Error: 'failed to fill whole buffer', Field: 'UnsavedChunk::num_of_deletion'"
        )
    );
    assert_eq!(reader.position(), 0);
    assert_eq!(
        list(vec![0x03]).unwrap_err(),
        wrapped(
            "Unable to read data. Error: 'failed to fill whole buffer', Field: 'UnsavedChunk::num_of_deletion'"
        )
    );
}

#[test]
fn list_with_a_position_cut_short_is_read_to_the_end() {
    let mut bytes = chunk(1, 0, "a");
    let len = bytes.len();
    bytes.push(0x83);
    let mut reader = ByteReader::new(bytes);
    let chunks = UnsavedChunks::from_reader(&mut reader).unwrap();
    assert_eq!(chunks.len(), 1);
    assert_eq!(reader.position(), len + 1);
    assert_eq!(reader.remaining(), 0);
    let mut reader = ByteReader::new(vec![0x03, 0x01, 0x00, 0x12, 0x34, 0x56, 0x78, 0x80]);
    let chunks = UnsavedChunks::from_reader(&mut reader).unwrap();
    assert_eq!(chunks.len(), 1);
    assert_eq!(chunks.get(0).unwrap().checksum(), "12345678");
    assert_eq!(reader.remaining(), 0);
    let mut bytes = chunk(1, 0, "a");
    bytes.extend_from_slice(&[0x80; 10]);
    let len = bytes.len();
    let mut reader = ByteReader::new(bytes);
    assert_eq!(UnsavedChunks::from_reader(&mut reader).unwrap().len(), 1);
    assert_eq!(reader.position(), len);
    let mut reader = ByteReader::new(vec![0x83]);
    assert_eq!(UnsavedChunks::from_reader(&mut reader).unwrap_err(), NotepadErrors::NA);
    assert_eq!(reader.position(), 0);
}

#[test]
fn list_leaves_the_reader_at_the_end_of_input() {
    for tail in [vec![], vec![0x80], vec![0xFF, 0x80, 0x81]] {
        let mut bytes = chunk(9, 9, "first");
        let first = bytes.len();
        bytes.extend_from_slice(&chunk(1, 0, "a"));
        bytes.extend_from_slice(&chunk(2, 3, ""));
        bytes.extend_from_slice(&tail);
        let len = bytes.len();
        let mut reader = ByteReader::new(bytes);
        assert_eq!(UnsavedChunk::from_reader(&mut reader).unwrap().position(), 9);
        assert_eq!(reader.position(), first);
        let chunks = UnsavedChunks::from_reader(&mut reader).unwrap();
        assert_eq!(chunks.len(), 2);
        assert_eq!(chunks.get(0).unwrap().position(), 1);
        assert_eq!(reader.position(), len);
        assert_eq!(reader.remaining(), 0);
    }
}

#[test]
fn list_with_a_chunk_cut_short_is_refused() {
    let whole = chunk(1, 0, "a");
    for cut in 1..whole.len() {
        let mut bytes = chunk(4, 4, "");
        bytes.extend_from_slice(&whole[..cut]);
        assert!(matches!(list(bytes), Err(NotepadErrors::Generic(_, _, _))), "cut at {}", cut);
    }
}

#[test]
fn transcript_of_additions_and_a_deletion() {
    let mut bytes = chunk(0, 0, "Hi");
    bytes.extend_from_slice(&chunk(1, 0, "!"));
    bytes.extend_from_slice(&chunk(3, 1, ""));
    let chunks = list(bytes).unwrap();
    assert_eq!(chunks.transcript(), "[0]:Hi[1]:!<DEL:3>");
}

#[test]
fn transcript_joins_additions_that_follow_each_other() {
    let mut bytes = chunk(5, 0, "Hi");
    bytes.extend_from_slice(&chunk(6, 0, "!"));
    bytes.extend_from_slice(&chunk(7, 0, "?"));
    bytes.extend_from_slice(&chunk(3, 1, ""));
    assert_eq!(list(bytes).unwrap().transcript(), "[5]:Hi!?<DEL:3>");
}

#[test]
fn transcript_marks_an_addition_elsewhere() {
    let mut bytes = chunk(5, 0, "ab");
    bytes.extend_from_slice(&chunk(9, 0, "cd"));
    bytes.extend_from_slice(&chunk(10, 0, "e"));
    assert_eq!(list(bytes).unwrap().transcript(), "[5]:ab,[9]:cde");
}

#[test]
fn transcript_moves_back_after_a_deletion() {
    let mut bytes = chunk(5, 0, "a");
    bytes.extend_from_slice(&chunk(4, 1, ""));
    bytes.extend_from_slice(&chunk(5, 0, "b"));
    bytes.extend_from_slice(&chunk(7, 0, "c"));
    assert_eq!(list(bytes).unwrap().transcript(), "[5]:a<DEL:4>b,[7]:c");
}

#[test]
fn transcript_forgets_the_addition_after_enough_deletions() {
    let mut bytes = chunk(1, 0, "a");
    bytes.extend_from_slice(&chunk(0, 1, ""));
    bytes.extend_from_slice(&chunk(0, 1, ""));
    bytes.extend_from_slice(&chunk(9, 0, "b"));
    assert_eq!(list(bytes).unwrap().transcript(), "[1]:a<DEL:0><DEL:0>[9]:b");
}

#[test]
fn transcript_of_deletions_alone() {
    let mut bytes = chunk(12, 3, "");
    bytes.extend_from_slice(&chunk(100, 1, ""));
    assert_eq!(list(bytes).unwrap().transcript(), "<DEL:12><DEL:100>");
}

fn made(position: u64, deletion: u64, text: &str) -> UnsavedChunk {
    let data = if text.is_empty() { None } else { Some(text.to_string()) };
    let addition = text.encode_utf16().count() as u64;
    UnsavedChunk::new(position, deletion, addition, data, "00000000".to_string()).unwrap()
}

#[test]
fn transcript_of_chunks_given_by_value() {
    let chunks =
        UnsavedChunks::new(vec![made(0, 0, "Hi"), made(1, 0, "!"), made(3, 1, "")]).unwrap();
    assert_eq!(chunks.len(), 3);
    assert_eq!(chunks.transcript(), "[0]:Hi[1]:!<DEL:3>");
}

#[test]
fn transcript_does_not_join_across_the_largest_position() {
    let chunks = UnsavedChunks::new(vec![made(u64::MAX, 0, "a"), made(0, 0, "b")]).unwrap();
    assert_eq!(chunks.transcript(), "[18446744073709551615]:a,[0]:b");
}

#[test]
fn new_chunk_keeps_its_values() {
    let chunk = UnsavedChunk::new(4, 5, 2, Some("ab".to_string()), "0A1B2C3D".to_string()).unwrap();
    assert_eq!(chunk.position(), 4);
    assert_eq!(chunk.num_of_deletion(), 5);
    assert_eq!(chunk.num_of_addition(), 2);
    assert_eq!(chunk.data().map(|s| s.as_str()), Some("ab"));
    assert_eq!(chunk.checksum(), "0A1B2C3D");
}

#[test]
fn new_chunk_must_be_well_formed() {
    assert!(UnsavedChunk::new(1, 0, 1, None, "00000000".to_string()).is_none());
    assert!(UnsavedChunk::new(1, 0, 0, Some("a".to_string()), "00000000".to_string()).is_none());
    assert!(UnsavedChunk::new(1, 0, 0, None, "0000000".to_string()).is_none());
    assert!(UnsavedChunk::new(1, 0, 0, None, "000000000".to_string()).is_none());
    assert!(UnsavedChunk::new(1, 0, 0, None, "00000000".to_string()).is_some());
    assert!(UnsavedChunk::new(1, 0, 3, Some("abc".to_string()), "ÄÄÄÄÄÄÄÄ".to_string()).is_some());
}

#[test]
fn new_list_must_not_be_empty() {
    assert!(UnsavedChunks::new(vec![]).is_none());
    assert!(UnsavedChunks::new(vec![made(1, 1, "")]).is_some());
}
