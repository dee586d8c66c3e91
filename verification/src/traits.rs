//! Reading a `bool` that is stored as one byte.
use vstd::prelude::*;
use vstd::string::*;

use crate::errors::{ErrorView, NotepadErrors};
use crate::reader::ByteReader;
use crate::text::{decimal, decimal_text};
use crate::wire::{block_at, read_block_field};

verus! {

/// The `bool` at the start of `s`: one byte, 0 for `false` and 1 for `true`.
/// Any other byte is refused, and so is input without a byte.
pub open spec fn bool_at(s: Seq<u8>) -> Result<(bool, nat), ErrorView> {
    match block_at(s, 1) {
        Ok((block, n)) => if block[0] == 0 {
            Ok((false, n))
        } else if block[0] == 1 {
            Ok((true, n))
        } else {
            Err(
                ErrorView::UnexpectedValue(
                    "bool <0x0|0x1>"@,
                    decimal_text(block[0] as nat),
                    "traits::ReadBool"@,
                ),
            )
        },
        Err(cause) => Err(ErrorView::ReadError(cause, "traits::ReadBool"@)),
    }
}

/// Reads the `bool` at the start of `rest`.
pub(crate) fn bool_of(rest: &[u8]) -> (r: Result<(bool, usize), NotepadErrors>)
    ensures
        match r {
            Ok((value, n)) => bool_at(rest@) == Ok::<(bool, nat), ErrorView>((value, n as nat))
                && n == 1 && n <= rest@.len(),
            Err(e) => bool_at(rest@) == Err::<(bool, nat), ErrorView>(e@),
        },
{
    match read_block_field::<1>(rest, "traits::ReadBool") {
        Ok((block, n)) => {
            let byte = block[0];
            if byte == 0 {
                Ok((false, n))
            } else if byte == 1 {
                Ok((true, n))
            } else {
                Err(
                    NotepadErrors::UnexpectedValue(
                        String::from_str("bool <0x0|0x1>"),
                        decimal(byte as u64),
                        String::from_str("traits::ReadBool"),
                    ),
                )
            }
        },
        Err(e) => Err(e),
    }
}

/// A source of bytes from which a `bool` can be read.
pub trait ReadBool {
    /// The bytes not yet read.
    spec fn pending(&self) -> Seq<u8>;

    /// Reads one byte: `false` if it is `0x0`, `true` if it is `0x1`, and an
    /// error otherwise. The byte is taken only where a `bool` is returned.
    fn read_bool(&mut self) -> (r: Result<bool, NotepadErrors>)
        ensures
            match bool_at(old(self).pending()) {
                Ok((value, n)) => r == Ok::<bool, NotepadErrors>(value) && final(self).pending()
                    == old(self).pending().skip(n as int),
                Err(e) => r matches Err(found) && found@ == e && final(self).pending() == old(self).pending(),
            },
    ;
}

impl ReadBool for ByteReader {
    open spec fn pending(&self) -> Seq<u8> {
        self.unread()
    }

    fn read_bool(&mut self) -> (r: Result<bool, NotepadErrors>)
        ensures
            match r {
                Ok(_) => final(self).moved_on(*old(self), 1),
                Err(_) => final(self).moved_on(*old(self), 0),
            },
    {
        match bool_of(self.rest()) {
            Ok((value, n)) => {
                self.advance(n);
                Ok(value)
            },
            Err(e) => Err(e),
        }
    }
}

} // verus!
