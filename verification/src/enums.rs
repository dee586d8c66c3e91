//! The closed sets of one-byte codes in a `TabState` file.
use vstd::prelude::*;
use vstd::std_specs::convert::FromSpecImpl;

verus! {

/// The text encoding Notepad uses for the file on disk.
#[derive(Debug, Clone, Copy, PartialEq, Eq, Structural)]
pub enum Encoding {
    ANSI,
    UTF16LE,
    UTF16BE,
    UTF8BOM,
    UTF8,
    /// A code outside the known set, kept as it was read.
    UNKNOWN(u8),
}

/// The line ending Notepad uses for the file on disk.
#[derive(Debug, Clone, Copy, PartialEq, Eq, Structural)]
pub enum CRType {
    CRLF,
    CR,
    LF,
    /// A code outside the known set, kept as it was read.
    UNKNOWN(u8),
}

impl Encoding {
    /// The encoding that a byte of a file stands for.
    pub open spec fn of_code(value: u8) -> Self {
        if value == 1 {
            Encoding::ANSI
        } else if value == 2 {
            Encoding::UTF16LE
        } else if value == 3 {
            Encoding::UTF16BE
        } else if value == 4 {
            Encoding::UTF8BOM
        } else if value == 5 {
            Encoding::UTF8
        } else {
            Encoding::UNKNOWN(value)
        }
    }

    /// The byte that stands for this encoding in a file.
    pub open spec fn code(self) -> u8 {
        match self {
            Encoding::ANSI => 1,
            Encoding::UTF16LE => 2,
            Encoding::UTF16BE => 3,
            Encoding::UTF8BOM => 4,
            Encoding::UTF8 => 5,
            Encoding::UNKNOWN(b) => b,
        }
    }

    /// `UNKNOWN` holds no code that has a variant of its own.
    pub open spec fn is_canonical(self) -> bool {
        self matches Encoding::UNKNOWN(b) ==> !(1 <= b <= 5)
    }
}

impl From<u8> for Encoding {
    fn from(value: u8) -> (ret: Self)
        ensures
            ret == Encoding::of_code(value),
    {
        match value {
            0x01 => Encoding::ANSI,
            0x02 => Encoding::UTF16LE,
            0x03 => Encoding::UTF16BE,
            0x04 => Encoding::UTF8BOM,
            0x05 => Encoding::UTF8,
            x => Encoding::UNKNOWN(x),
        }
    }
}

impl FromSpecImpl<u8> for Encoding {
    open spec fn obeys_from_spec() -> bool {
        true
    }

    open spec fn from_spec(value: u8) -> Self {
        Encoding::of_code(value)
    }
}

impl CRType {
    /// The line ending that a byte of a file stands for.
    pub open spec fn of_code(value: u8) -> Self {
        if value == 1 {
            CRType::CRLF
        } else if value == 2 {
            CRType::CR
        } else if value == 3 {
            CRType::LF
        } else {
            CRType::UNKNOWN(value)
        }
    }

    /// The byte that stands for this line ending in a file.
    pub open spec fn code(self) -> u8 {
        match self {
            CRType::CRLF => 1,
            CRType::CR => 2,
            CRType::LF => 3,
            CRType::UNKNOWN(b) => b,
        }
    }

    /// `UNKNOWN` holds no code that has a variant of its own.
    pub open spec fn is_canonical(self) -> bool {
        self matches CRType::UNKNOWN(b) ==> !(1 <= b <= 3)
    }
}

impl From<u8> for CRType {
    fn from(value: u8) -> (ret: Self)
        ensures
            ret == CRType::of_code(value),
    {
        match value {
            0x01 => CRType::CRLF,
            0x02 => CRType::CR,
            0x03 => CRType::LF,
            x => CRType::UNKNOWN(x),
        }
    }
}

impl FromSpecImpl<u8> for CRType {
    open spec fn obeys_from_spec() -> bool {
        true
    }

    open spec fn from_spec(value: u8) -> Self {
        CRType::of_code(value)
    }
}

/// Every byte decodes to an encoding, and the encoding keeps the byte: a code
/// outside `1..=5` comes back as `UNKNOWN` with that code in it.
pub proof fn lemma_encoding_keeps_code(b: u8)
    ensures
        Encoding::of_code(b).code() == b,
        Encoding::of_code(b).is_canonical(),
        !(1 <= b <= 5) ==> Encoding::of_code(b) == Encoding::UNKNOWN(b),
{
}

/// Every byte decodes to a line ending, and the line ending keeps the byte: a
/// code outside `1..=3` comes back as `UNKNOWN` with that code in it.
pub proof fn lemma_cr_type_keeps_code(b: u8)
    ensures
        CRType::of_code(b).code() == b,
        CRType::of_code(b).is_canonical(),
        !(1 <= b <= 3) ==> CRType::of_code(b) == CRType::UNKNOWN(b),
{
}

/// A canonical encoding is the one its own code decodes to.
pub proof fn lemma_encoding_of_code(e: Encoding)
    requires
        e.is_canonical(),
    ensures
        Encoding::of_code(e.code()) == e,
{
}

/// A canonical line ending is the one its own code decodes to.
pub proof fn lemma_cr_type_of_code(c: CRType)
    requires
        c.is_canonical(),
    ensures
        CRType::of_code(c.code()) == c,
{
}

} // verus!
