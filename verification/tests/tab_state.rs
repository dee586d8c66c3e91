use notepad_parser::enums::{CRType, Encoding};
use notepad_parser::errors::NotepadErrors;
use notepad_parser::reader::ByteReader;
use notepad_parser::{ConfigBlock, NotepadTabStat};

const EOF_TEXT: &str = "failed to fill whole buffer";
const TEXT_EOF_TEXT: &str = "an IO error has occurred: failed to fill whole buffer";

fn utf16(text: &str) -> Vec<u8> {
    let mut bytes = Vec::new();
    for unit in text.encode_utf16() {
        bytes.push((unit & 0xff) as u8);
        bytes.push((unit >> 8) as u8);
    }
    bytes
}

fn varint(mut value: u64) -> Vec<u8> {
    let mut bytes = Vec::new();
    loop {
        let low = (value & 0x7f) as u8;
        value >>= 7;
        if value == 0 {
            bytes.push(low);
            return bytes;
        }
        bytes.push(low | 0x80);
    }
}

fn unsaved_hi() -> Vec<u8> {
    let mut bytes = vec![0x4E, 0x50, 0x01, 0x00, 0x00, 0x05, 0x05];
    bytes.extend_from_slice(&[0x00, 0x00, 0x00, 0x01, 0x00, 0x00]);
    bytes.push(0x02);
    bytes.extend_from_slice(&utf16("Hi"));
    bytes.push(0x00);
    bytes.extend_from_slice(&[0xDE, 0xAD, 0xBE, 0xEF]);
    bytes
}

fn saved_file(path: &str, content: &str) -> Vec<u8> {
    let mut bytes = vec![0x4E, 0x50];
    bytes.extend_from_slice(&varint(300));
    bytes.push(0x01);
    bytes.extend_from_slice(&varint(path.encode_utf16().count() as u64));
    bytes.extend_from_slice(&utf16(path));
    bytes.extend_from_slice(&varint(1234));
    bytes.push(0x05);
    bytes.push(0x01);
    bytes.extend_from_slice(&varint(133_000_000_000_000_000));
    for i in 0..32u8 {
        bytes.push(i.wrapping_mul(9).wrapping_add(3));
    }
    bytes.extend_from_slice(&[0x07, 0x08]);
    bytes.extend_from_slice(&varint(3));
    bytes.extend_from_slice(&varint(200));
    bytes.extend_from_slice(&[0x01, 0x00, 0x01]);
    bytes.extend_from_slice(&varint(2));
    bytes.extend_from_slice(&[0x0A, 0x0B]);
    bytes.extend_from_slice(&varint(content.encode_utf16().count() as u64));
    bytes.extend_from_slice(&utf16(content));
    bytes.push(0x01);
    bytes.extend_from_slice(&[0x01, 0x23, 0xAB, 0xFF]);
    bytes
}

fn decode(bytes: Vec<u8>) -> Result<NotepadTabStat, NotepadErrors> {
    let mut reader = ByteReader::new(bytes);
    NotepadTabStat::from_reader(&mut reader)
}

fn read_error(cause: &str, field: &str) -> NotepadErrors {
    NotepadErrors::ReadError(cause.to_string(), field.to_string())
}

#[test]
fn never_saved_buffer_with_two_characters() {
    let bytes = unsaved_hi();
    let len = bytes.len();
    let mut reader = ByteReader::new(bytes);
    let record = NotepadTabStat::from_reader(&mut reader).unwrap();
    assert_eq!(reader.position(), len);
    assert_eq!(reader.remaining(), 0);
    assert_eq!(record.tabstate_path, None);
    assert_eq!(record.signature, [0x4E, 0x50]);
    assert_eq!(record.seq_number, 1);
    assert!(!record.is_saved_file);
    assert_eq!(record.path_size, 0);
    assert_eq!(record.path, None);
    assert_eq!(record.file_size, None);
    assert_eq!(record.encoding, None);
    assert_eq!(record.cr_type, None);
    assert_eq!(record.last_write_time, None);
    assert_eq!(record.file_hash, None);
    assert_eq!(record.unknown1, None);
    assert_eq!(record.cursor_start, Some(5));
    assert_eq!(record.cursor_end, Some(5));
    assert_eq!(
        record.config_block,
        ConfigBlock {
            word_wrap: false,
            rtl: false,
            show_unicode: false,
            version: 1,
            unknown0: 0,
            unknown1: 0
        }
    );
    assert_eq!(record.file_content_size, 2);
    assert_eq!(record.file_content, "Hi");
    assert!(!record.contain_unsaved_data);
    assert_eq!(record.checksum, "DEADBEEF");
    assert!(record.unsaved_chunks.is_none());
    assert_eq!(record.unsaved_chunks_str, None);
}

#[test]
fn never_saved_buffer_keeps_path_length() {
    let mut bytes = unsaved_hi();
    bytes[4] = 0x2A;
    let record = decode(bytes).unwrap();
    assert!(!record.is_saved_file);
    assert_eq!(record.path_size, 42);
    assert_eq!(record.path, None);
    assert_eq!(record.file_hash, None);
    assert_eq!(record.file_content, "Hi");
}

#[test]
fn saved_file_has_every_field_of_the_disk_group() {
    let record = decode(saved_file("C:\\notes\\a.txt", "héllo ✓")).unwrap();
    assert!(record.is_saved_file);
    assert_eq!(record.seq_number, 300);
    assert_eq!(record.path_size, 14);
    assert_eq!(record.path.as_deref(), Some("C:\\notes\\a.txt"));
    assert_eq!(record.file_size, Some(1234));
    assert_eq!(record.encoding, Some(Encoding::UTF8));
    assert_eq!(record.cr_type, Some(CRType::CRLF));
    assert_eq!(record.last_write_time, Some(133_000_000_000_000_000));
    let mut hash = String::new();
    for i in 0..32u8 {
        hash.push_str(&format!("{:02X}", i.wrapping_mul(9).wrapping_add(3)));
    }
    assert_eq!(record.file_hash, Some(hash));
    assert_eq!(record.unknown1, Some([0x07, 0x08]));
    assert_eq!(record.cursor_start, Some(3));
    assert_eq!(record.cursor_end, Some(200));
    assert_eq!(
        record.config_block,
        ConfigBlock {
            word_wrap: true,
            rtl: false,
            show_unicode: true,
            version: 2,
            unknown0: 0x0A,
            unknown1: 0x0B
        }
    );
    assert_eq!(record.file_content_size, 7);
    assert_eq!(record.file_content, "héllo ✓");
    assert!(record.contain_unsaved_data);
    assert_eq!(record.checksum, "0123ABFF");
    assert!(record.unsaved_chunks.is_none());
    assert_eq!(record.unsaved_chunks_str, None);
}

#[test]
fn saved_file_cut_short_gives_no_record() {
    let bytes = saved_file("a.txt", "text");
    for cut in 0..bytes.len() {
        let result = decode(bytes[..cut].to_vec());
        assert!(result.is_err(), "a record came out of the first {} bytes", cut);
    }
    assert!(decode(bytes).is_ok());
}

#[test]
fn unknown_codes_are_kept() {
    let mut bytes = saved_file("a", "b");
    let at = 2 + 2 + 1 + 1 + 2 + 2;
    assert_eq!(bytes[at], 0x05);
    bytes[at] = 0x09;
    bytes[at + 1] = 0x09;
    let record = decode(bytes).unwrap();
    assert_eq!(record.encoding, Some(Encoding::UNKNOWN(9)));
    assert_eq!(record.cr_type, Some(CRType::UNKNOWN(9)));
}

#[test]
fn wrong_signature_is_refused() {
    let mut bytes = unsaved_hi();
    bytes[0] = b'X';
    bytes[1] = b'Y';
    assert_eq!(decode(bytes).unwrap_err(), NotepadErrors::Signature("XY".to_string()));
    let mut bytes = unsaved_hi();
    bytes[1] = 0xFF;
    assert_eq!(decode(bytes).unwrap_err(), NotepadErrors::Signature("N\u{FFFD}".to_string()));
}

#[test]
fn missing_signature_is_a_read_error() {
    assert_eq!(decode(vec![]).unwrap_err(), read_error(EOF_TEXT, "signature"));
    assert_eq!(decode(vec![0x4E]).unwrap_err(), read_error(EOF_TEXT, "signature"));
}

#[test]
fn each_field_of_the_head_is_named_when_input_ends() {
    assert_eq!(decode(vec![0x4E, 0x50]).unwrap_err(), read_error(EOF_TEXT, "unknown0"));
    assert_eq!(decode(vec![0x4E, 0x50, 0x80]).unwrap_err(), read_error(EOF_TEXT, "unknown0"));
    assert_eq!(decode(vec![0x4E, 0x50, 0x01]).unwrap_err(), read_error(EOF_TEXT, "is_saved_file"));
    assert_eq!(
        decode(vec![0x4E, 0x50, 0x01, 0x00]).unwrap_err(),
        read_error(EOF_TEXT, "path_size")
    );
    assert_eq!(
        decode(vec![0x4E, 0x50, 0x01, 0x00, 0x00]).unwrap_err(),
        read_error(EOF_TEXT, "cursor_start")
    );
    assert_eq!(
        decode(vec![0x4E, 0x50, 0x01, 0x00, 0x00, 0x05]).unwrap_err(),
        read_error(EOF_TEXT, "cursor_end")
    );
}

#[test]
fn saved_flag_must_be_zero_or_one() {
    let mut bytes = unsaved_hi();
    bytes[3] = 0x02;
    assert_eq!(
        decode(bytes).unwrap_err(),
        NotepadErrors::UnexpectedValue(
            "bool <0x1|0x0>".to_string(),
            "2".to_string(),
            "is_saved_file".to_string()
        )
    );
}

#[test]
fn unsaved_flag_must_be_zero_or_one() {
    let mut bytes = unsaved_hi();
    let at = bytes.len() - 5;
    bytes[at] = 0xC8;
    assert_eq!(
        decode(bytes).unwrap_err(),
        NotepadErrors::UnexpectedValue(
            "bool <0x0|0x1>".to_string(),
            "200".to_string(),
            "contain_unsaved_data".to_string()
        )
    );
}

#[test]
fn path_that_is_cut_short_reports_its_size() {
    let mut bytes = vec![0x4E, 0x50, 0x01, 0x01];
    bytes.extend_from_slice(&varint(300));
    bytes.extend_from_slice(&utf16("short"));
    assert_eq!(
        decode(bytes).unwrap_err(),
        NotepadErrors::ReadErrorWithSize(
            TEXT_EOF_TEXT.to_string(),
            "path".to_string(),
            "300".to_string()
        )
    );
}

#[test]
fn path_size_beyond_memory_is_a_read_error() {
    let mut bytes = vec![0x4E, 0x50, 0x01, 0x01];
    bytes.extend_from_slice(&varint(u64::MAX));
    bytes.extend_from_slice(&utf16("short"));
    assert_eq!(
        decode(bytes).unwrap_err(),
        NotepadErrors::ReadErrorWithSize(
            TEXT_EOF_TEXT.to_string(),
            "path".to_string(),
            "18446744073709551615".to_string()
        )
    );
}

#[test]
fn content_that_is_cut_short_is_a_read_error() {
    let mut bytes = unsaved_hi();
    bytes.truncate(bytes.len() - 6);
    assert_eq!(decode(bytes).unwrap_err(), read_error(TEXT_EOF_TEXT, "file_content"));
}

#[test]
fn content_with_a_lone_surrogate_is_a_read_error() {
    let mut bytes = vec![0x4E, 0x50, 0x01, 0x00, 0x00, 0x05, 0x05];
    bytes.extend_from_slice(&[0x00, 0x00, 0x00, 0x01, 0x00, 0x00]);
    bytes.push(0x01);
    bytes.extend_from_slice(&[0x00, 0xD8]);
    bytes.push(0x00);
    bytes.extend_from_slice(&[0xDE, 0xAD, 0xBE, 0xEF]);
    match decode(bytes).unwrap_err() {
        NotepadErrors::ReadError(cause, field) => {
            assert_eq!(field, "file_content");
            assert!(cause.starts_with("error while decoding UTF-16"), "{}", cause);
        }
        other => panic!("{:?}", other),
    }
}

#[test]
fn content_with_a_surrogate_pair() {
    let mut bytes = vec![0x4E, 0x50, 0x01, 0x00, 0x00, 0x05, 0x05];
    bytes.extend_from_slice(&[0x00, 0x00, 0x00, 0x01, 0x00, 0x00]);
    bytes.push(0x03);
    bytes.extend_from_slice(&utf16("a😀"));
    bytes.push(0x00);
    bytes.extend_from_slice(&[0x00, 0x00, 0x00, 0x0F]);
    let record = decode(bytes).unwrap();
    assert_eq!(record.file_content_size, 3);
    assert_eq!(record.file_content, "a😀");
    assert_eq!(record.checksum, "0000000F");
}

#[test]
fn checksum_that_is_cut_short_is_a_read_error() {
    let mut bytes = unsaved_hi();
    bytes.truncate(bytes.len() - 1);
    assert_eq!(decode(bytes).unwrap_err(), read_error(EOF_TEXT, "checksum"));
}

#[test]
fn config_block_failure_ends_the_decoding() {
    let mut bytes = unsaved_hi();
    bytes[8] = 0x07;
    assert_eq!(
        decode(bytes).unwrap_err(),
        NotepadErrors::UnexpectedValue(
            "bool <0x0|0x1>".to_string(),
            "7".to_string(),
            "ConfigBlock::rtl".to_string()
        )
    );
}

#[test]
fn integer_of_many_bytes() {
    let mut bytes = vec![0x4E, 0x50];
    bytes.extend_from_slice(&[0xFF, 0xFF, 0xFF, 0xFF, 0xFF, 0xFF, 0xFF, 0xFF, 0xFF, 0x01]);
    bytes.extend_from_slice(&unsaved_hi()[3..]);
    let record = decode(bytes).unwrap();
    assert_eq!(record.seq_number, u64::MAX);
    let mut bytes = vec![0x4E, 0x50];
    bytes.extend_from_slice(&[0xE5, 0x8E, 0x26]);
    bytes.extend_from_slice(&unsaved_hi()[3..]);
    assert_eq!(decode(bytes).unwrap().seq_number, 624485);
}

#[test]
fn integer_drops_bits_above_the_64th() {
    let mut bytes = vec![0x4E, 0x50];
    bytes.extend_from_slice(&[0x80, 0x80, 0x80, 0x80, 0x80, 0x80, 0x80, 0x80, 0x80, 0x7F]);
    bytes.extend_from_slice(&unsaved_hi()[3..]);
    assert_eq!(decode(bytes).unwrap().seq_number, 1 << 63);
}

#[test]
fn integer_that_is_not_written_in_the_shortest_way() {
    let mut bytes = vec![0x4E, 0x50];
    bytes.extend_from_slice(&[0x81, 0x80, 0x00]);
    bytes.extend_from_slice(&unsaved_hi()[3..]);
    assert_eq!(decode(bytes).unwrap().seq_number, 1);
}

#[test]
fn integer_of_more_than_ten_bytes_is_refused() {
    let mut bytes = vec![0x4E, 0x50];
    bytes.extend_from_slice(&[0x80; 10]);
    bytes.push(0x01);
    bytes.extend_from_slice(&unsaved_hi()[3..]);
    assert_eq!(
        decode(bytes).unwrap_err(),
        read_error("uleb128 value is longer than 10 bytes", "unknown0")
    );
}

#[test]
fn integer_of_ten_bytes_at_the_end_of_input_is_cut_short() {
    let mut bytes = vec![0x4E, 0x50];
    bytes.extend_from_slice(&[0x80; 10]);
    assert_eq!(decode(bytes).unwrap_err(), read_error(EOF_TEXT, "unknown0"));
}

#[test]
fn failed_decoding_leaves_the_reader_in_place() {
    let mut bytes = unsaved_hi();
    bytes.truncate(10);
    let mut reader = ByteReader::new(bytes);
    assert!(NotepadTabStat::from_reader(&mut reader).is_err());
    assert_eq!(reader.position(), 0);
    assert_eq!(reader.remaining(), 10);
}

#[test]
fn record_with_edits_has_their_transcript() {
    let mut bytes = unsaved_hi();
    bytes.extend_from_slice(&[0x05, 0x00, 0x02]);
    bytes.extend_from_slice(&utf16("ab"));
    bytes.extend_from_slice(&[0x11, 0x22, 0x33, 0x44]);
    bytes.extend_from_slice(&[0x06, 0x00, 0x01]);
    bytes.extend_from_slice(&utf16("c"));
    bytes.extend_from_slice(&[0x55, 0x66, 0x77, 0x88]);
    bytes.extend_from_slice(&[0x02, 0x01, 0x00]);
    bytes.extend_from_slice(&[0x99, 0xAA, 0xBB, 0xCC]);
    let record = decode(bytes).unwrap();
    let chunks = record.unsaved_chunks.unwrap();
    assert_eq!(chunks.len(), 3);
    assert_eq!(chunks.get(0).unwrap().position(), 5);
    assert_eq!(chunks.get(2).unwrap().num_of_deletion(), 1);
    assert!(chunks.get(3).is_none());
    assert_eq!(record.unsaved_chunks_str.as_deref(), Some("[5]:abc<DEL:2>"));
    assert_eq!(chunks.transcript(), "[5]:abc<DEL:2>");
}

#[test]
fn record_with_an_edit_cut_short_is_refused() {
    let mut bytes = unsaved_hi();
    bytes.extend_from_slice(&[0x05, 0x00, 0x02]);
    bytes.extend_from_slice(&utf16("ab"));
    bytes.extend_from_slice(&[0x11, 0x22, 0x33]);
    assert_eq!(
        decode(bytes).unwrap_err(),
        NotepadErrors::Generic(
            "Unable to read data. Error: 'failed to fill whole buffer', Field: 'checksum'"
                .to_string(),
            "UnsavedChunks::from_reader".to_string(),
            "Error during reading list of UnsavedChunk.".to_string()
        )
    );
}

#[test]
fn default_record() {
    let record = NotepadTabStat::default();
    assert_eq!(record.tabstate_path, None);
    assert_eq!(record.signature, [0x4E, 0x50]);
    assert_eq!(record.seq_number, 0);
    assert!(!record.is_saved_file);
    assert_eq!(record.path_size, 1);
    assert_eq!(record.path, None);
    assert_eq!(record.file_size, None);
    assert_eq!(record.encoding, None);
    assert_eq!(record.cr_type, None);
    assert_eq!(record.last_write_time, None);
    assert_eq!(record.file_hash, None);
    assert_eq!(record.unknown1, None);
    assert_eq!(record.cursor_start, None);
    assert_eq!(record.cursor_end, None);
    assert_eq!(record.config_block, ConfigBlock::default());
    assert_eq!(record.file_content_size, 0);
    assert_eq!(record.file_content, "Hello :D");
    assert!(!record.contain_unsaved_data);
    assert_eq!(record.checksum, "41414141");
    assert!(record.unsaved_chunks.is_none());
    assert_eq!(record.unsaved_chunks_str, None);
}

#[test]
fn from_path_notes_the_path() {
    let record = NotepadTabStat::from_path("C:\\tabs\\one.bin", unsaved_hi()).unwrap();
    assert_eq!(record.tabstate_path.as_deref(), Some("C:\\tabs\\one.bin"));
    assert_eq!(record.file_content, "Hi");
    assert_eq!(record.checksum, "DEADBEEF");
}

#[test]
fn from_path_wraps_the_failure() {
    let mut bytes = unsaved_hi();
    bytes[0] = b'Z';
    assert_eq!(
        NotepadTabStat::from_path("one.bin", bytes).unwrap_err(),
        NotepadErrors::Generic(
            "File signature does't match the correct TabState file format. Expected 'NP', found 'ZP'"
                .to_string(),
            "NotepadTabStat::from_path".to_string(),
            "Error during parsing".to_string()
        )
    );
}

struct Edit {
    position: u64,
    deletion: u64,
    text: &'static str,
    checksum: [u8; 4],
}

fn written_edits(edits: &[Edit]) -> Vec<u8> {
    let mut bytes = Vec::new();
    for edit in edits {
        bytes.extend_from_slice(&varint(edit.position));
        bytes.extend_from_slice(&varint(edit.deletion));
        bytes.extend_from_slice(&varint(edit.text.encode_utf16().count() as u64));
        bytes.extend_from_slice(&utf16(edit.text));
        bytes.extend_from_slice(&edit.checksum);
    }
    bytes
}

#[test]
fn written_record_is_read_back() {
    let edits = [
        Edit { position: 1000, deletion: 0, text: "héllo", checksum: [0x00, 0x01, 0x02, 0x03] },
        Edit { position: 1001, deletion: 0, text: "😀", checksum: [0xFF, 0xFE, 0xFD, 0xFC] },
        Edit { position: 70000, deletion: 300, text: "", checksum: [0x9A, 0xBC, 0xDE, 0xF0] },
        Edit { position: 5, deletion: 2, text: "x\ny", checksum: [0x10, 0x20, 0x30, 0x40] },
    ];
    let mut bytes = saved_file("D:\\work\\plan.txt", "first line\r\nsecond");
    let head_len = bytes.len();
    bytes.extend_from_slice(&written_edits(&edits));
    let len = bytes.len();
    let mut reader = ByteReader::new(bytes);
    let record = NotepadTabStat::from_reader(&mut reader).unwrap();
    assert_eq!(reader.position(), len);
    assert!(head_len < len);
    assert_eq!(record.path.as_deref(), Some("D:\\work\\plan.txt"));
    assert_eq!(record.path_size, 16);
    assert_eq!(record.file_content, "first line\r\nsecond");
    assert_eq!(record.file_content_size, 18);
    let chunks = record.unsaved_chunks.as_ref().unwrap();
    assert_eq!(chunks.len(), edits.len());
    for (i, edit) in edits.iter().enumerate() {
        let chunk = chunks.get(i).unwrap();
        assert_eq!(chunk.position(), edit.position);
        assert_eq!(chunk.num_of_deletion(), edit.deletion);
        assert_eq!(chunk.num_of_addition(), edit.text.encode_utf16().count() as u64);
        assert_eq!(chunk.data().map(|s| s.as_str()).unwrap_or(""), edit.text);
        assert_eq!(chunk.data().is_some(), !edit.text.is_empty());
        let mut hex = String::new();
        for b in edit.checksum {
            hex.push_str(&format!("{:02X}", b));
        }
        assert_eq!(chunk.checksum(), &hex);
    }
    assert_eq!(
        record.unsaved_chunks_str.as_deref(),
        Some("[1000]:héllo😀<DEL:70000>,[5]:x\ny")
    );
}

#[test]
fn record_cut_at_the_end_of_an_edit_keeps_the_edits_before() {
    let edits = [
        Edit { position: 3, deletion: 0, text: "ab", checksum: [1, 2, 3, 4] },
        Edit { position: 9, deletion: 1, text: "", checksum: [5, 6, 7, 8] },
        Edit { position: 2, deletion: 0, text: "c", checksum: [9, 10, 11, 12] },
    ];
    for kept in 0..=edits.len() {
        let mut bytes = unsaved_hi();
        bytes.extend_from_slice(&written_edits(&edits[..kept]));
        let record = decode(bytes.clone()).unwrap();
        match &record.unsaved_chunks {
            Some(chunks) => assert_eq!(chunks.len(), kept),
            None => assert_eq!(kept, 0),
        }
        bytes.push(0x04);
        assert!(matches!(decode(bytes.clone()), Err(NotepadErrors::Generic(_, _, _))));
        let last = bytes.len() - 1;
        bytes[last] = 0x84;
        let len = bytes.len();
        let mut reader = ByteReader::new(bytes);
        let again = NotepadTabStat::from_reader(&mut reader).unwrap();
        assert_eq!(reader.position(), len);
        assert_eq!(reader.remaining(), 0);
        assert_eq!(again.unsaved_chunks.map(|c| c.len()).unwrap_or(0), kept);
        assert_eq!(again.unsaved_chunks_str, record.unsaved_chunks_str);
    }
}

#[test]
fn decoded_record_leaves_the_reader_at_the_end_of_input() {
    let tails: [&[u8]; 4] = [&[], &[0x80], &[0x80, 0xFF], &[0x81; 10]];
    for tail in tails {
        for with_edit in [false, true] {
            let mut bytes = saved_file("a.txt", "text");
            if with_edit {
                bytes.extend_from_slice(&[0x03, 0x01, 0x00, 0x12, 0x34, 0x56, 0x78]);
            }
            bytes.extend_from_slice(tail);
            let len = bytes.len();
            let mut reader = ByteReader::new(bytes);
            let record = NotepadTabStat::from_reader(&mut reader).unwrap();
            assert_eq!(record.unsaved_chunks.is_some(), with_edit);
            assert_eq!(reader.position(), len);
            assert_eq!(reader.remaining(), 0);
        }
    }
}

#[test]
fn text_stops_at_a_zero_code_unit() {
    let mut bytes = vec![0x4E, 0x50, 0x01, 0x00, 0x00, 0x05, 0x05];
    bytes.extend_from_slice(&[0x00, 0x00, 0x00, 0x01, 0x00, 0x00]);
    bytes.push(0x03);
    bytes.extend_from_slice(&[b'a', 0x00, 0x00, 0x00, b'b', 0x00]);
    bytes.push(0x01);
    bytes.extend_from_slice(&[0x0A, 0x0B, 0x0C, 0x0D]);
    let record = decode(bytes).unwrap();
    assert_eq!(record.file_content_size, 3);
    assert_eq!(record.file_content, "a");
    assert!(record.contain_unsaved_data);
    assert_eq!(record.checksum, "0A0B0C0D");
}

#[test]
fn buffer_without_text() {
    let mut bytes = vec![0x4E, 0x50, 0x07, 0x00, 0x00, 0x00, 0x00];
    bytes.extend_from_slice(&[0x00, 0x00, 0x00, 0x01, 0x00, 0x00]);
    bytes.push(0x00);
    bytes.push(0x00);
    bytes.extend_from_slice(&[0xAA, 0xBB, 0xCC, 0xDD]);
    let record = decode(bytes).unwrap();
    assert_eq!(record.seq_number, 7);
    assert_eq!(record.file_content_size, 0);
    assert_eq!(record.file_content, "");
    assert_eq!(record.checksum, "AABBCCDD");
}

#[test]
fn saved_file_without_a_path() {
    let record = decode(saved_file("", "")).unwrap();
    assert_eq!(record.path_size, 0);
    assert_eq!(record.path.as_deref(), Some(""));
    assert_eq!(record.file_content, "");
    assert!(record.file_hash.is_some());
}
