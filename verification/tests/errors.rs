use notepad_parser::errors::NotepadErrors;
use notepad_parser::text::decimal;

fn s(text: &str) -> String {
    text.to_string()
}

#[test]
fn message_of_each_failure() {
    assert_eq!(
        NotepadErrors::Generic(s("a"), s("b"), s("c")).message(),
        "Encountered an error. Error: 'a', Function: 'b', Additinal: 'c'"
    );
    assert_eq!(
        NotepadErrors::Signature(s("XY")).message(),
        "File signature does't match the correct TabState file format. Expected 'NP', found 'XY'"
    );
    assert_eq!(
        NotepadErrors::ReadError(s("cause"), s("field")).message(),
        "Unable to read data. Error: 'cause', Field: 'field'"
    );
    assert_eq!(
        NotepadErrors::ReadErrorWithSize(s("cause"), s("field"), s("12")).message(),
        "Unable to read data. Error: 'cause', Field: 'field', Size: '12'"
    );
    assert_eq!(
        NotepadErrors::UnexpectedValue(s("bool"), s("7"), s("flag")).message(),
        "Unexpected value found. Expected: 'bool', Found: '7', Field: 'flag'"
    );
    assert_eq!(NotepadErrors::EoF.message(), "EoF Reached");
    assert_eq!(NotepadErrors::NA.message(), "No data to parse");
    assert_eq!(
        NotepadErrors::FileOpen(s("denied"), s("C:\\x")).message(),
        "Error while opening a file. ERROR: 'denied', PATH: 'C:\\x'"
    );
    assert_eq!(
        NotepadErrors::CLIError(s("bad"), s("note")).message(),
        "CLI error. ERROR: 'bad', MSG: 'note'"
    );
}

#[test]
fn message_with_empty_parts() {
    assert_eq!(
        NotepadErrors::ReadError(s(""), s("")).message(),
        "Unable to read data. Error: '', Field: ''"
    );
}

#[test]
fn decimal_of_numbers() {
    assert_eq!(decimal(0), "0");
    assert_eq!(decimal(7), "7");
    assert_eq!(decimal(10), "10");
    assert_eq!(decimal(109), "109");
    assert_eq!(decimal(1_000_000), "1000000");
    assert_eq!(decimal(u64::MAX), "18446744073709551615");
    for n in [1u64, 9, 11, 99, 100, 255, 256, 65_535, 4_294_967_296] {
        assert_eq!(decimal(n), n.to_string());
    }
}
