//! The block of view settings inside a `TabState` file.
use vstd::prelude::*;
use vstd::slice::*;
use vstd::string::*;

use crate::errors::{ErrorView, NotepadErrors};
use crate::reader::ByteReader;
use crate::traits::{bool_at, bool_of};
use crate::wire::{byte_field, read_byte_field, read_varint_field, varint_field};

verus! {

/// How Notepad shows the buffer: three switches, a version, and two bytes
/// whose meaning is not known.
#[derive(Debug, Clone, Copy, PartialEq, Eq, Structural)]
pub struct ConfigBlock {
    pub word_wrap: bool,
    pub rtl: bool,
    pub show_unicode: bool,
    pub version: u64,
    pub unknown0: u8,
    pub unknown1: u8,
}

/// One switch of the block. A byte that is no `bool` is an unexpected value
/// of `field`; input that ends is a failure to read `field`, with the
/// message of the failed read as its cause.
pub open spec fn switch_field(s: Seq<u8>, field: Seq<char>) -> Result<(bool, nat), ErrorView> {
    match bool_at(s) {
        Ok(found) => Ok(found),
        Err(ErrorView::UnexpectedValue(expected, found, _)) => Err(
            ErrorView::UnexpectedValue(expected, found, field),
        ),
        Err(e) => Err(ErrorView::ReadError(e.message(), field)),
    }
}

/// The block at the start of `s`: `word_wrap`, `rtl` and `show_unicode` of
/// one byte each, `version` as a base-128 integer, then two single bytes.
#[verifier::opaque]
pub open spec fn config_block_at(s: Seq<u8>) -> Result<(ConfigBlock, nat), ErrorView> {
    match switch_field(s, "ConfigBlock::word_wrap"@) {
        Err(e) => Err(e),
        Ok((word_wrap, n1)) => match switch_field(s.skip(n1 as int), "ConfigBlock::rtl"@) {
            Err(e) => Err(e),
            Ok((rtl, n2)) => match switch_field(
                s.skip((n1 + n2) as int),
                "ConfigBlock::show_unicode"@,
            ) {
                Err(e) => Err(e),
                Ok((show_unicode, n3)) => match varint_field(
                    s.skip((n1 + n2 + n3) as int),
                    "ConfigBlock::version"@,
                ) {
                    Err(e) => Err(e),
                    Ok((version, n4)) => match byte_field(
                        s.skip((n1 + n2 + n3 + n4) as int),
                        "ConfigBlock::unknown0"@,
                    ) {
                        Err(e) => Err(e),
                        Ok((unknown0, n5)) => match byte_field(
                            s.skip((n1 + n2 + n3 + n4 + n5) as int),
                            "ConfigBlock::unknown1"@,
                        ) {
                            Err(e) => Err(e),
                            Ok((unknown1, n6)) => Ok(
                                (
                                    ConfigBlock {
                                        word_wrap,
                                        rtl,
                                        show_unicode,
                                        version,
                                        unknown0,
                                        unknown1,
                                    },
                                    n1 + n2 + n3 + n4 + n5 + n6,
                                ),
                            ),
                        },
                    },
                },
            },
        },
    }
}

/// A block takes at least six bytes and no more than there are.
pub proof fn lemma_config_block_at(s: Seq<u8>)
    ensures
        config_block_at(s) matches Ok((_, n)) ==> 6 <= n <= s.len(),
{
    reveal(config_block_at);
    if let Ok((block, n)) = config_block_at(s) {
        let (word_wrap, n1) = switch_field(s, "ConfigBlock::word_wrap"@)->Ok_0;
        let (rtl, n2) = switch_field(s.skip(n1 as int), "ConfigBlock::rtl"@)->Ok_0;
        let (show_unicode, n3) = switch_field(
            s.skip((n1 + n2) as int),
            "ConfigBlock::show_unicode"@,
        )->Ok_0;
        let s3 = s.skip((n1 + n2 + n3) as int);
        crate::wire::lemma_field_bounds(s3, "ConfigBlock::version"@);
        let (version, n4) = varint_field(s3, "ConfigBlock::version"@)->Ok_0;
        let s4 = s.skip((n1 + n2 + n3 + n4) as int);
        let (unknown0, n5) = byte_field(s4, "ConfigBlock::unknown0"@)->Ok_0;
        let s5 = s.skip((n1 + n2 + n3 + n4 + n5) as int);
        let (unknown1, n6) = byte_field(s5, "ConfigBlock::unknown1"@)->Ok_0;
        assert(n == n1 + n2 + n3 + n4 + n5 + n6);
    }
}

/// A block that was decoded is decoded the same whatever follows it.
pub proof fn lemma_config_block_at_extends(s: Seq<u8>, t: Seq<u8>)
    requires
        crate::wire::starts_with(t, s),
        config_block_at(s) is Ok,
    ensures
        config_block_at(t) == config_block_at(s),
{
    reveal(config_block_at);
    lemma_config_block_at(s);
    let (word_wrap, n1) = switch_field(s, "ConfigBlock::word_wrap"@)->Ok_0;
    crate::wire::lemma_starts_with_skip(t, s, 1);
    let (rtl, n2) = switch_field(s.skip(n1 as int), "ConfigBlock::rtl"@)->Ok_0;
    crate::wire::lemma_starts_with_skip(t, s, n1 + n2);
    let (show_unicode, n3) = switch_field(
        s.skip((n1 + n2) as int),
        "ConfigBlock::show_unicode"@,
    )->Ok_0;
    crate::wire::lemma_starts_with_skip(t, s, n1 + n2 + n3);
    crate::wire::lemma_starts_with_skip(t, s, n1);
    let s3 = s.skip((n1 + n2 + n3) as int);
    let t3 = t.skip((n1 + n2 + n3) as int);
    crate::wire::lemma_field_bounds(s3, "ConfigBlock::version"@);
    crate::wire::lemma_varint_field_extends(s3, t3, "ConfigBlock::version"@);
    let (version, n4) = varint_field(s3, "ConfigBlock::version"@)->Ok_0;
    crate::wire::lemma_starts_with_skip(t, s, n1 + n2 + n3 + n4);
    let s4 = s.skip((n1 + n2 + n3 + n4) as int);
    let (unknown0, n5) = byte_field(s4, "ConfigBlock::unknown0"@)->Ok_0;
    crate::wire::lemma_starts_with_skip(t, s, n1 + n2 + n3 + n4 + n5);
}

/// Reads one switch of the block.
fn read_switch_field(rest: &[u8], field: &str) -> (r: Result<(bool, usize), NotepadErrors>)
    ensures
        match r {
            Ok((value, n)) => switch_field(rest@, field@) == Ok::<(bool, nat), ErrorView>(
                (value, n as nat),
            ) && n <= rest@.len(),
            Err(e) => switch_field(rest@, field@) == Err::<(bool, nat), ErrorView>(e@),
        },
{
    match bool_of(rest) {
        Ok(found) => Ok(found),
        Err(NotepadErrors::UnexpectedValue(expected, found, _)) => Err(
            NotepadErrors::UnexpectedValue(expected, found, String::from_str(field)),
        ),
        Err(e) => Err(NotepadErrors::ReadError(e.message(), String::from_str(field))),
    }
}

/// Reads the block at the start of `rest`.
pub(crate) fn config_block_of(rest: &[u8]) -> (r: Result<(ConfigBlock, usize), NotepadErrors>)
    ensures
        match r {
            Ok((block, n)) => config_block_at(rest@) == Ok::<(ConfigBlock, nat), ErrorView>(
                (block, n as nat),
            ) && n <= rest@.len(),
            Err(e) => config_block_at(rest@) == Err::<(ConfigBlock, nat), ErrorView>(e@),
        },
{
    proof {
        reveal(config_block_at);
    }
    let len = rest.len();
    let (word_wrap, n1) = match read_switch_field(rest, "ConfigBlock::word_wrap") {
        Ok(found) => found,
        Err(e) => return Err(e),
    };
    let mut at: usize = n1;
    let (rtl, n2) = match read_switch_field(slice_subrange(rest, at, len), "ConfigBlock::rtl") {
        Ok(found) => found,
        Err(e) => return Err(e),
    };
    at = at + n2;
    let (show_unicode, n3) = match read_switch_field(
        slice_subrange(rest, at, len),
        "ConfigBlock::show_unicode",
    ) {
        Ok(found) => found,
        Err(e) => return Err(e),
    };
    at = at + n3;
    let (version, n4) = match read_varint_field(
        slice_subrange(rest, at, len),
        "ConfigBlock::version",
    ) {
        Ok(found) => found,
        Err(e) => return Err(e),
    };
    at = at + n4;
    let (unknown0, n5) = match read_byte_field(
        slice_subrange(rest, at, len),
        "ConfigBlock::unknown0",
    ) {
        Ok(found) => found,
        Err(e) => return Err(e),
    };
    at = at + n5;
    let (unknown1, n6) = match read_byte_field(
        slice_subrange(rest, at, len),
        "ConfigBlock::unknown1",
    ) {
        Ok(found) => found,
        Err(e) => return Err(e),
    };
    at = at + n6;
    Ok((ConfigBlock { word_wrap, rtl, show_unicode, version, unknown0, unknown1 }, at))
}

impl ConfigBlock {
    /// Decodes a block from the unread bytes of `reader`, and moves `reader`
    /// past it. Where the block cannot be decoded `reader` stays where it is.
    pub fn from_reader(reader: &mut ByteReader) -> (r: Result<Self, NotepadErrors>)
        ensures
            match config_block_at(old(reader).unread()) {
                Ok((block, n)) => r == Ok::<ConfigBlock, NotepadErrors>(block) && final(reader).moved_on(*old(reader), n),
                Err(e) => r matches Err(found) && found@ == e && final(reader).moved_on(
                    *old(reader),
                    0,
                ),
            },
    {
        match config_block_of(reader.rest()) {
            Ok((block, n)) => {
                reader.advance(n);
                Ok(block)
            },
            Err(e) => Err(e),
        }
    }
}

impl Default for ConfigBlock {
    fn default() -> (block: Self)
        ensures
            block == (ConfigBlock {
                word_wrap: false,
                rtl: false,
                show_unicode: false,
                version: 0,
                unknown0: 0,
                unknown1: 0,
            }),
    {
        Self {
            word_wrap: false,
            rtl: false,
            show_unicode: false,
            version: 0,
            unknown0: 0,
            unknown1: 0,
        }
    }
}

} // verus!
