use notepad_parser::errors::NotepadErrors;
use notepad_parser::reader::ByteReader;
use notepad_parser::traits::ReadBool;
use notepad_parser::ConfigBlock;

#[test]
fn config_block_default_is_all_zero() {
    assert_eq!(
        ConfigBlock::default(),
        ConfigBlock {
            word_wrap: false,
            rtl: false,
            show_unicode: false,
            version: 0,
            unknown0: 0,
            unknown1: 0
        }
    );
}

#[test]
fn config_block_fields_in_order() {
    let mut reader = ByteReader::new(vec![0x01, 0x00, 0x01, 0x80, 0x01, 0xAA, 0xBB, 0xCC]);
    let block = ConfigBlock::from_reader(&mut reader).unwrap();
    assert_eq!(
        block,
        ConfigBlock {
            word_wrap: true,
            rtl: false,
            show_unicode: true,
            version: 128,
            unknown0: 0xAA,
            unknown1: 0xBB
        }
    );
    assert_eq!(reader.position(), 7);
    assert_eq!(reader.remaining(), 1);
}

#[test]
fn config_block_flag_outside_zero_and_one() {
    let fields = ["ConfigBlock::word_wrap", "ConfigBlock::rtl", "ConfigBlock::show_unicode"];
    for (i, field) in fields.iter().enumerate() {
        let mut bytes = vec![0x00, 0x01, 0x00, 0x01, 0x00, 0x00];
        bytes[i] = 0x02;
        let mut reader = ByteReader::new(bytes);
        assert_eq!(
            ConfigBlock::from_reader(&mut reader).unwrap_err(),
            NotepadErrors::UnexpectedValue(
                "bool <0x0|0x1>".to_string(),
                "2".to_string(),
                field.to_string()
            )
        );
        assert_eq!(reader.position(), 0);
    }
}

#[test]
fn config_block_cut_short() {
    let whole = vec![0x00, 0x01, 0x00, 0x01, 0x07, 0x08];
    let flag_cause =
        "Unable to read data. Error: 'failed to fill whole buffer', Field: 'traits::ReadBool'";
    let expected = [
        (flag_cause, "ConfigBlock::word_wrap"),
        (flag_cause, "ConfigBlock::rtl"),
        (flag_cause, "ConfigBlock::show_unicode"),
        ("failed to fill whole buffer", "ConfigBlock::version"),
        ("failed to fill whole buffer", "ConfigBlock::unknown0"),
        ("failed to fill whole buffer", "ConfigBlock::unknown1"),
    ];
    for (cut, (cause, field)) in expected.iter().enumerate() {
        let mut reader = ByteReader::new(whole[..cut].to_vec());
        assert_eq!(
            ConfigBlock::from_reader(&mut reader).unwrap_err(),
            NotepadErrors::ReadError(cause.to_string(), field.to_string())
        );
    }
    let mut reader = ByteReader::new(whole);
    assert!(ConfigBlock::from_reader(&mut reader).is_ok());
}

#[test]
fn read_bool_values() {
    let mut reader = ByteReader::new(vec![0x00, 0x01, 0x02]);
    assert_eq!(reader.read_bool(), Ok(false));
    assert_eq!(reader.position(), 1);
    assert_eq!(reader.read_bool(), Ok(true));
    assert_eq!(reader.position(), 2);
    assert_eq!(
        reader.read_bool(),
        Err(NotepadErrors::UnexpectedValue(
            "bool <0x0|0x1>".to_string(),
            "2".to_string(),
            "traits::ReadBool".to_string()
        ))
    );
    assert_eq!(reader.position(), 2);
}

#[test]
fn read_bool_without_input() {
    let mut reader = ByteReader::new(vec![]);
    assert_eq!(
        reader.read_bool(),
        Err(NotepadErrors::ReadError(
            "failed to fill whole buffer".to_string(),
            "traits::ReadBool".to_string()
        ))
    );
}
