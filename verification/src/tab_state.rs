//! The record that a `TabState` file holds, and its decoder.
//!
//! A file starts with the two bytes `NP`, a sequence number, a byte that says
//! whether the buffer belongs to a file on disk, and the length of that
//! file's path. For a buffer with a file on disk the path and what is known
//! of the file follow. Then, in either case: the selection, the view
//! settings, the buffer's text, a byte that says whether the text has
//! changes that were not saved, a checksum, and the edits, up to the end of
//! the input.
use vstd::prelude::*;
use vstd::slice::*;
use vstd::string::*;

use crate::config_block::{config_block_at, config_block_of, ConfigBlock};
use crate::enums::{CRType, Encoding};
use crate::errors::{ErrorView, NotepadErrors};
use crate::reader::ByteReader;
use crate::text::{decimal, decimal_text, hex_upper};
use crate::unsaved_chunks::{
    chunk_list_at, chunk_list_of, chunks_at, chunks_before, transcript_of, whole_chunks,
    ChunkView, UnsavedChunks,
};
use crate::wire::{
    block_field, byte_field, flag_field, hex_of, lossy_of, lossy_text, read_block_field,
    read_byte_field, read_flag_field, read_text_field, read_varint_field, text_at, text_field,
    text_of, varint_field,
};

verus! {

/// What a `TabState` file holds.
///
/// `path`, `file_size`, `encoding`, `cr_type`, `last_write_time`, `file_hash`
/// and `unknown1` are there together, for a buffer with a file on disk, or
/// not at all. `last_write_time` counts intervals of 100 nanoseconds since
/// the start of the year 1601, as the file holds it.
#[derive(Debug)]
pub struct NotepadTabStat {
    pub tabstate_path: Option<String>,
    pub signature: [u8; 2],
    pub seq_number: u64,
    pub is_saved_file: bool,
    pub path_size: u64,
    pub path: Option<String>,
    pub file_size: Option<u64>,
    pub encoding: Option<Encoding>,
    pub cr_type: Option<CRType>,
    pub last_write_time: Option<u64>,
    pub file_hash: Option<String>,
    pub unknown1: Option<[u8; 2]>,
    pub cursor_start: Option<u64>,
    pub cursor_end: Option<u64>,
    pub config_block: ConfigBlock,
    pub file_content_size: u64,
    pub file_content: String,
    pub contain_unsaved_data: bool,
    pub checksum: String,
    pub unsaved_chunks: Option<UnsavedChunks>,
    pub unsaved_chunks_str: Option<String>,
}

/// A [`NotepadTabStat`] with its texts as sequences of characters and its
/// blocks as sequences of bytes.
pub struct TabStateView {
    pub tabstate_path: Option<Seq<char>>,
    pub signature: Seq<u8>,
    pub seq_number: u64,
    pub is_saved_file: bool,
    pub path_size: u64,
    pub path: Option<Seq<char>>,
    pub file_size: Option<u64>,
    pub encoding: Option<Encoding>,
    pub cr_type: Option<CRType>,
    pub last_write_time: Option<u64>,
    pub file_hash: Option<Seq<char>>,
    pub unknown1: Option<Seq<u8>>,
    pub cursor_start: Option<u64>,
    pub cursor_end: Option<u64>,
    pub config_block: ConfigBlock,
    pub file_content_size: u64,
    pub file_content: Seq<char>,
    pub contain_unsaved_data: bool,
    pub checksum: Seq<char>,
    pub unsaved_chunks: Option<Seq<ChunkView>>,
    pub unsaved_chunks_str: Option<Seq<char>>,
}

/// The view of a text that may be absent.
pub open spec fn text_view(text: Option<String>) -> Option<Seq<char>> {
    match text {
        Some(t) => Some(t@),
        None => None,
    }
}

impl View for NotepadTabStat {
    type V = TabStateView;

    open spec fn view(&self) -> TabStateView {
        TabStateView {
            tabstate_path: text_view(self.tabstate_path),
            signature: self.signature@,
            seq_number: self.seq_number,
            is_saved_file: self.is_saved_file,
            path_size: self.path_size,
            path: text_view(self.path),
            file_size: self.file_size,
            encoding: self.encoding,
            cr_type: self.cr_type,
            last_write_time: self.last_write_time,
            file_hash: text_view(self.file_hash),
            unknown1: match self.unknown1 {
                Some(block) => Some(block@),
                None => None,
            },
            cursor_start: self.cursor_start,
            cursor_end: self.cursor_end,
            config_block: self.config_block,
            file_content_size: self.file_content_size,
            file_content: self.file_content@,
            contain_unsaved_data: self.contain_unsaved_data,
            checksum: self.checksum@,
            unsaved_chunks: match self.unsaved_chunks {
                Some(chunks) => Some(chunks@),
                None => None,
            },
            unsaved_chunks_str: text_view(self.unsaved_chunks_str),
        }
    }
}

impl TabStateView {
    /// The seven fields on the file on disk are all there.
    pub open spec fn has_disk_group(self) -> bool {
        &&& self.path is Some
        &&& self.file_size is Some
        &&& self.encoding is Some
        &&& self.cr_type is Some
        &&& self.last_write_time is Some
        &&& self.file_hash is Some
        &&& self.unknown1 is Some
    }

    /// None of the seven fields on the file on disk is there.
    pub open spec fn lacks_disk_group(self) -> bool {
        &&& self.path is None
        &&& self.file_size is None
        &&& self.encoding is None
        &&& self.cr_type is None
        &&& self.last_write_time is None
        &&& self.file_hash is None
        &&& self.unknown1 is None
    }

    /// What holds of every record that was decoded: the fields on the file on
    /// disk are there if and only if the buffer has one; the edits, where
    /// there are any, are well formed and come with their transcript.
    pub open spec fn well_formed(self) -> bool {
        &&& self.signature == seq![0x4Eu8, 0x50u8]
        &&& if self.is_saved_file {
            self.has_disk_group()
        } else {
            self.lacks_disk_group()
        }
        &&& self.cursor_start is Some
        &&& self.cursor_end is Some
        &&& match self.unsaved_chunks {
            Some(chunks) => {
                &&& chunks.len() > 0
                &&& forall|i: int| 0 <= i < chunks.len() ==> (#[trigger] chunks[i]).well_formed()
                &&& self.unsaved_chunks_str == Some(transcript_of(chunks))
            },
            None => self.unsaved_chunks_str is None,
        }
    }
}

/// The fields at the start of every file.
pub struct HeadView {
    pub signature: Seq<u8>,
    pub seq_number: u64,
    pub is_saved_file: bool,
    pub path_size: u64,
}

/// The fields on the file on disk.
pub struct DiskGroupView {
    pub path: Seq<char>,
    pub file_size: u64,
    pub encoding: Encoding,
    pub cr_type: CRType,
    pub last_write_time: u64,
    pub file_hash: Seq<char>,
    pub unknown1: Seq<u8>,
}

/// The fields on the buffer, which every file has.
pub struct BodyView {
    pub cursor_start: u64,
    pub cursor_end: u64,
    pub config_block: ConfigBlock,
    pub file_content_size: u64,
    pub file_content: Seq<char>,
    pub contain_unsaved_data: bool,
    pub checksum: Seq<char>,
}

/// The two bytes every file starts with, `NP`.
pub open spec fn signature_bytes() -> Seq<u8> {
    seq![0x4Eu8, 0x50u8]
}

/// The start of a file: the signature, which must be `NP`; the sequence
/// number; whether the buffer has a file on disk; the length of its path.
#[verifier::opaque]
pub open spec fn head_at(s: Seq<u8>) -> Result<(HeadView, nat), ErrorView> {
    match block_field(s, 2, "signature"@) {
        Err(e) => Err(e),
        Ok((signature, n1)) => if signature != signature_bytes() {
            Err(ErrorView::Signature(lossy_text(signature)))
        } else {
            match varint_field(s.skip(n1 as int), "unknown0"@) {
                Err(e) => Err(e),
                Ok((seq_number, n2)) => match flag_field(
                    s.skip((n1 + n2) as int),
                    "bool <0x1|0x0>"@,
                    "is_saved_file"@,
                ) {
                    Err(e) => Err(e),
                    Ok((is_saved_file, n3)) => match varint_field(
                        s.skip((n1 + n2 + n3) as int),
                        "path_size"@,
                    ) {
                        Err(e) => Err(e),
                        Ok((path_size, n4)) => Ok(
                            (
                                HeadView { signature, seq_number, is_saved_file, path_size },
                                n1 + n2 + n3 + n4,
                            ),
                        ),
                    },
                },
            }
        },
    }
}

/// The path of the file on disk, of `path_size` UTF-16 code units. A failure
/// holds the size that was asked for.
pub open spec fn path_field(s: Seq<u8>, path_size: u64) -> Result<(Seq<char>, nat), ErrorView> {
    match text_at(s, path_size) {
        Ok(found) => Ok(found),
        Err(cause) => Err(
            ErrorView::ReadErrorWithSize(cause, "path"@, decimal_text(path_size as nat)),
        ),
    }
}

/// The fields on the file on disk: its path, its size, the codes of its
/// encoding and line ending, when it was last written, the 32 bytes of its
/// hash, kept in hexadecimal, and two bytes more.
#[verifier::opaque]
pub open spec fn disk_group_at(s: Seq<u8>, path_size: u64) -> Result<
    (DiskGroupView, nat),
    ErrorView,
> {
    match path_field(s, path_size) {
        Err(e) => Err(e),
        Ok((path, n1)) => match varint_field(s.skip(n1 as int), "file_size"@) {
            Err(e) => Err(e),
            Ok((file_size, n2)) => match byte_field(s.skip((n1 + n2) as int), "encoding"@) {
                Err(e) => Err(e),
                Ok((encoding, n3)) => match byte_field(
                    s.skip((n1 + n2 + n3) as int),
                    "cr_type"@,
                ) {
                    Err(e) => Err(e),
                    Ok((cr_type, n4)) => match varint_field(
                        s.skip((n1 + n2 + n3 + n4) as int),
                        "last_write_time"@,
                    ) {
                        Err(e) => Err(e),
                        Ok((last_write_time, n5)) => match block_field(
                            s.skip((n1 + n2 + n3 + n4 + n5) as int),
                            32,
                            "file_hash"@,
                        ) {
                            Err(e) => Err(e),
                            Ok((hash, n6)) => match block_field(
                                s.skip((n1 + n2 + n3 + n4 + n5 + n6) as int),
                                2,
                                "unknown1"@,
                            ) {
                                Err(e) => Err(e),
                                Ok((unknown1, n7)) => Ok(
                                    (
                                        DiskGroupView {
                                            path,
                                            file_size,
                                            encoding: Encoding::of_code(encoding),
                                            cr_type: CRType::of_code(cr_type),
                                            last_write_time,
                                            file_hash: hex_upper(hash),
                                            unknown1,
                                        },
                                        n1 + n2 + n3 + n4 + n5 + n6 + n7,
                                    ),
                                ),
                            },
                        },
                    },
                },
            },
        },
    }
}

/// The fields on the buffer: where the selection starts and ends, the view
/// settings, the length of the text in UTF-16 code units, the text, whether
/// it has changes that were not saved, and four bytes of checksum, kept in
/// hexadecimal.
#[verifier::opaque]
pub open spec fn body_at(s: Seq<u8>) -> Result<(BodyView, nat), ErrorView> {
    match varint_field(s, "cursor_start"@) {
        Err(e) => Err(e),
        Ok((cursor_start, n1)) => match varint_field(s.skip(n1 as int), "cursor_end"@) {
            Err(e) => Err(e),
            Ok((cursor_end, n2)) => match config_block_at(s.skip((n1 + n2) as int)) {
                Err(e) => Err(e),
                Ok((config_block, n3)) => match varint_field(
                    s.skip((n1 + n2 + n3) as int),
                    "file_content_size"@,
                ) {
                    Err(e) => Err(e),
                    Ok((file_content_size, n4)) => match text_field(
                        s.skip((n1 + n2 + n3 + n4) as int),
                        file_content_size,
                        "file_content"@,
                    ) {
                        Err(e) => Err(e),
                        Ok((file_content, n5)) => match flag_field(
                            s.skip((n1 + n2 + n3 + n4 + n5) as int),
                            "bool <0x0|0x1>"@,
                            "contain_unsaved_data"@,
                        ) {
                            Err(e) => Err(e),
                            Ok((contain_unsaved_data, n6)) => match block_field(
                                s.skip((n1 + n2 + n3 + n4 + n5 + n6) as int),
                                4,
                                "checksum"@,
                            ) {
                                Err(e) => Err(e),
                                Ok((sum, n7)) => Ok(
                                    (
                                        BodyView {
                                            cursor_start,
                                            cursor_end,
                                            config_block,
                                            file_content_size,
                                            file_content,
                                            contain_unsaved_data,
                                            checksum: hex_upper(sum),
                                        },
                                        n1 + n2 + n3 + n4 + n5 + n6 + n7,
                                    ),
                                ),
                            },
                        },
                    },
                },
            },
        },
    }
}

/// The edits at the end of a file: absent where there is none. Either way
/// all of `s` is read.
pub open spec fn edits_at(s: Seq<u8>) -> Result<(Option<Seq<ChunkView>>, nat), ErrorView> {
    match chunk_list_at(s) {
        Ok((chunks, n)) => Ok((Some(chunks), n)),
        Err(ErrorView::NA) => Ok((None, s.len())),
        Err(e) => Err(e),
    }
}

/// A record put together from its parts.
pub open spec fn assemble(
    head: HeadView,
    disk: Option<DiskGroupView>,
    body: BodyView,
    edits: Option<Seq<ChunkView>>,
) -> TabStateView {
    TabStateView {
        tabstate_path: None,
        signature: head.signature,
        seq_number: head.seq_number,
        is_saved_file: head.is_saved_file,
        path_size: head.path_size,
        path: match disk {
            Some(d) => Some(d.path),
            None => None,
        },
        file_size: match disk {
            Some(d) => Some(d.file_size),
            None => None,
        },
        encoding: match disk {
            Some(d) => Some(d.encoding),
            None => None,
        },
        cr_type: match disk {
            Some(d) => Some(d.cr_type),
            None => None,
        },
        last_write_time: match disk {
            Some(d) => Some(d.last_write_time),
            None => None,
        },
        file_hash: match disk {
            Some(d) => Some(d.file_hash),
            None => None,
        },
        unknown1: match disk {
            Some(d) => Some(d.unknown1),
            None => None,
        },
        cursor_start: Some(body.cursor_start),
        cursor_end: Some(body.cursor_end),
        config_block: body.config_block,
        file_content_size: body.file_content_size,
        file_content: body.file_content,
        contain_unsaved_data: body.contain_unsaved_data,
        checksum: body.checksum,
        unsaved_chunks: edits,
        unsaved_chunks_str: match edits {
            Some(chunks) => Some(transcript_of(chunks)),
            None => None,
        },
    }
}

/// The fields on the file on disk where the buffer has one, and nothing
/// where it has none.
pub open spec fn disk_part_at(s: Seq<u8>, head: HeadView) -> Result<
    (Option<DiskGroupView>, nat),
    ErrorView,
> {
    if head.is_saved_file {
        match disk_group_at(s, head.path_size) {
            Ok((disk, n)) => Ok((Some(disk), n)),
            Err(e) => Err(e),
        }
    } else {
        Ok((None, 0))
    }
}

/// The fields of a record that come before the edits.
pub struct FieldsView {
    pub head: HeadView,
    pub disk: Option<DiskGroupView>,
    pub body: BodyView,
}

/// The fields before the edits: the start of the file, the fields on the
/// file on disk where the buffer has one, and the fields on the buffer.
pub open spec fn fields_at(s: Seq<u8>) -> Result<(FieldsView, nat), ErrorView> {
    match head_at(s) {
        Err(e) => Err(e),
        Ok((head, n1)) => match disk_part_at(s.skip(n1 as int), head) {
            Err(e) => Err(e),
            Ok((disk, n2)) => match body_at(s.skip((n1 + n2) as int)) {
                Err(e) => Err(e),
                Ok((body, n3)) => Ok((FieldsView { head, disk, body }, n1 + n2 + n3)),
            },
        },
    }
}

/// The record that `s` holds, with the number of bytes it takes, or the
/// first failure met on the way through `s`.
pub open spec fn tab_state_at(s: Seq<u8>) -> Result<(TabStateView, nat), ErrorView> {
    match fields_at(s) {
        Err(e) => Err(e),
        Ok((fields, n)) => match edits_at(s.skip(n as int)) {
            Err(e) => Err(e),
            Ok((edits, m)) => Ok((assemble(fields.head, fields.disk, fields.body, edits), n + m)),
        },
    }
}

/// What comes of decoding the bytes of the file at `path`: the record with
/// `path` in it, or a failure that holds the message of what went wrong.
pub open spec fn tab_state_of_file(path: Seq<char>, content: Seq<u8>) -> Result<
    TabStateView,
    ErrorView,
> {
    match tab_state_at(content) {
        Ok((record, _)) => Ok(TabStateView { tabstate_path: Some(path), ..record }),
        Err(e) => Err(
            ErrorView::Generic(e.message(), "NotepadTabStat::from_path"@, "Error during parsing"@),
        ),
    }
}

/// The start of a file takes no more bytes than there are, and holds the
/// signature `NP`.
pub proof fn lemma_head_at(s: Seq<u8>)
    ensures
        head_at(s) matches Ok((head, n)) ==> n <= s.len() && head.signature == signature_bytes(),
{
    reveal(head_at);
    if let Ok((head, n)) = head_at(s) {
        crate::wire::lemma_field_bounds(s, "signature"@);
        let (signature, n1) = block_field(s, 2, "signature"@)->Ok_0;
        let s1 = s.skip(n1 as int);
        crate::wire::lemma_field_bounds(s1, "unknown0"@);
        let (seq_number, n2) = varint_field(s1, "unknown0"@)->Ok_0;
        let s2 = s.skip((n1 + n2) as int);
        crate::wire::lemma_field_bounds(s2, "is_saved_file"@);
        let (is_saved_file, n3) = flag_field(s2, "bool <0x1|0x0>"@, "is_saved_file"@)->Ok_0;
        let s3 = s.skip((n1 + n2 + n3) as int);
        crate::wire::lemma_field_bounds(s3, "path_size"@);
    }
}

/// The fields on the file on disk take no more bytes than there are.
pub proof fn lemma_disk_group_at(s: Seq<u8>, path_size: u64)
    ensures
        disk_group_at(s, path_size) matches Ok((_, n)) ==> n <= s.len(),
{
    reveal(disk_group_at);
    if let Ok((disk, n)) = disk_group_at(s, path_size) {
        crate::wire::lemma_field_bounds(s, "path"@);
        let (path, n1) = path_field(s, path_size)->Ok_0;
        let s1 = s.skip(n1 as int);
        crate::wire::lemma_field_bounds(s1, "file_size"@);
        let (file_size, n2) = varint_field(s1, "file_size"@)->Ok_0;
        let s2 = s.skip((n1 + n2) as int);
        crate::wire::lemma_field_bounds(s2, "encoding"@);
        let (encoding, n3) = byte_field(s2, "encoding"@)->Ok_0;
        let s3 = s.skip((n1 + n2 + n3) as int);
        crate::wire::lemma_field_bounds(s3, "cr_type"@);
        let (cr_type, n4) = byte_field(s3, "cr_type"@)->Ok_0;
        let s4 = s.skip((n1 + n2 + n3 + n4) as int);
        crate::wire::lemma_field_bounds(s4, "last_write_time"@);
        let (last_write_time, n5) = varint_field(s4, "last_write_time"@)->Ok_0;
        let s5 = s.skip((n1 + n2 + n3 + n4 + n5) as int);
        crate::wire::lemma_field_bounds(s5, "file_hash"@);
        let (hash, n6) = block_field(s5, 32, "file_hash"@)->Ok_0;
        let s6 = s.skip((n1 + n2 + n3 + n4 + n5 + n6) as int);
        crate::wire::lemma_field_bounds(s6, "unknown1"@);
    }
}

/// The fields on the buffer take no more bytes than there are.
pub proof fn lemma_body_at(s: Seq<u8>)
    ensures
        body_at(s) matches Ok((_, n)) ==> n <= s.len(),
{
    reveal(body_at);
    if let Ok((body, n)) = body_at(s) {
        crate::wire::lemma_field_bounds(s, "cursor_start"@);
        let (cursor_start, n1) = varint_field(s, "cursor_start"@)->Ok_0;
        let s1 = s.skip(n1 as int);
        crate::wire::lemma_field_bounds(s1, "cursor_end"@);
        let (cursor_end, n2) = varint_field(s1, "cursor_end"@)->Ok_0;
        let s2 = s.skip((n1 + n2) as int);
        crate::config_block::lemma_config_block_at(s2);
        let (config_block, n3) = config_block_at(s2)->Ok_0;
        let s3 = s.skip((n1 + n2 + n3) as int);
        crate::wire::lemma_field_bounds(s3, "file_content_size"@);
        let (file_content_size, n4) = varint_field(s3, "file_content_size"@)->Ok_0;
        let s4 = s.skip((n1 + n2 + n3 + n4) as int);
        crate::wire::lemma_field_bounds(s4, "file_content"@);
        let (file_content, n5) = text_field(s4, file_content_size, "file_content"@)->Ok_0;
        let s5 = s.skip((n1 + n2 + n3 + n4 + n5) as int);
        crate::wire::lemma_field_bounds(s5, "contain_unsaved_data"@);
        let (contain_unsaved_data, n6) = flag_field(
            s5,
            "bool <0x0|0x1>"@,
            "contain_unsaved_data"@,
        )->Ok_0;
        let s6 = s.skip((n1 + n2 + n3 + n4 + n5 + n6) as int);
        crate::wire::lemma_field_bounds(s6, "checksum"@);
    }
}

/// Every record that is decoded is well formed, comes from all the bytes
/// there are, and has no path of its own file yet.
pub proof fn lemma_tab_state_at(s: Seq<u8>)
    ensures
        tab_state_at(s) matches Ok((record, n)) ==> {
            &&& record.well_formed()
            &&& record.tabstate_path is None
            &&& n == s.len()
        },
{
    if let Ok((record, n)) = tab_state_at(s) {
        lemma_fields_at(s);
        let (fields, k) = fields_at(s)->Ok_0;
        crate::unsaved_chunks::lemma_chunks_at(s.skip(k as int));
    }
}

/// The fields before the edits take no more bytes than there are, and start
/// with the signature `NP`.
pub proof fn lemma_fields_at(s: Seq<u8>)
    ensures
        fields_at(s) matches Ok((fields, n)) ==> n <= s.len() && fields.head.signature
            == signature_bytes(),
{
    if let Ok((fields, n)) = fields_at(s) {
        lemma_head_at(s);
        let (head, n1) = head_at(s)->Ok_0;
        let s1 = s.skip(n1 as int);
        lemma_disk_group_at(s1, head.path_size);
        let (disk, n2) = disk_part_at(s1, head)->Ok_0;
        let s2 = s.skip((n1 + n2) as int);
        lemma_body_at(s2);
    }
}

/// The start of a file that was decoded is decoded the same whatever
/// follows it.
pub proof fn lemma_head_at_extends(s: Seq<u8>, t: Seq<u8>)
    requires
        crate::wire::starts_with(t, s),
        head_at(s) is Ok,
    ensures
        head_at(t) == head_at(s),
{
    reveal(head_at);
    crate::wire::lemma_field_bounds(s, "signature"@);
    crate::wire::lemma_block_field_extends(s, t, 2, "signature"@);
    let (signature, n1) = block_field(s, 2, "signature"@)->Ok_0;
    let s1 = s.skip(n1 as int);
    let t1 = t.skip(n1 as int);
    crate::wire::lemma_starts_with_skip(t, s, n1);
    crate::wire::lemma_field_bounds(s1, "unknown0"@);
    crate::wire::lemma_varint_field_extends(s1, t1, "unknown0"@);
    let (seq_number, n2) = varint_field(s1, "unknown0"@)->Ok_0;
    let s2 = s.skip((n1 + n2) as int);
    let t2 = t.skip((n1 + n2) as int);
    crate::wire::lemma_starts_with_skip(t, s, n1 + n2);
    crate::wire::lemma_field_bounds(s2, "is_saved_file"@);
    let (is_saved_file, n3) = flag_field(s2, "bool <0x1|0x0>"@, "is_saved_file"@)->Ok_0;
    crate::wire::lemma_flag_field_extends(s2, t2, "bool <0x1|0x0>"@, "is_saved_file"@);
    let s3 = s.skip((n1 + n2 + n3) as int);
    let t3 = t.skip((n1 + n2 + n3) as int);
    crate::wire::lemma_starts_with_skip(t, s, n1 + n2 + n3);
    crate::wire::lemma_varint_field_extends(s3, t3, "path_size"@);
}

/// The fields on the file on disk that were decoded are decoded the same
/// whatever follows them.
pub proof fn lemma_disk_group_at_extends(s: Seq<u8>, t: Seq<u8>, path_size: u64)
    requires
        crate::wire::starts_with(t, s),
        disk_group_at(s, path_size) is Ok,
    ensures
        disk_group_at(t, path_size) == disk_group_at(s, path_size),
{
    reveal(disk_group_at);
    crate::wire::lemma_field_bounds(s, "path"@);
    crate::wire::lemma_text_at_extends(s, t, path_size);
    let (path, n1) = path_field(s, path_size)->Ok_0;
    let s1 = s.skip(n1 as int);
    let t1 = t.skip(n1 as int);
    crate::wire::lemma_starts_with_skip(t, s, n1);
    crate::wire::lemma_field_bounds(s1, "file_size"@);
    crate::wire::lemma_varint_field_extends(s1, t1, "file_size"@);
    let (file_size, n2) = varint_field(s1, "file_size"@)->Ok_0;
    let s2 = s.skip((n1 + n2) as int);
    let t2 = t.skip((n1 + n2) as int);
    crate::wire::lemma_starts_with_skip(t, s, n1 + n2);
    crate::wire::lemma_field_bounds(s2, "encoding"@);
    crate::wire::lemma_byte_field_extends(s2, t2, "encoding"@);
    let (encoding, n3) = byte_field(s2, "encoding"@)->Ok_0;
    let s3 = s.skip((n1 + n2 + n3) as int);
    let t3 = t.skip((n1 + n2 + n3) as int);
    crate::wire::lemma_starts_with_skip(t, s, n1 + n2 + n3);
    crate::wire::lemma_field_bounds(s3, "cr_type"@);
    crate::wire::lemma_byte_field_extends(s3, t3, "cr_type"@);
    let (cr_type, n4) = byte_field(s3, "cr_type"@)->Ok_0;
    let s4 = s.skip((n1 + n2 + n3 + n4) as int);
    let t4 = t.skip((n1 + n2 + n3 + n4) as int);
    crate::wire::lemma_starts_with_skip(t, s, n1 + n2 + n3 + n4);
    crate::wire::lemma_field_bounds(s4, "last_write_time"@);
    crate::wire::lemma_varint_field_extends(s4, t4, "last_write_time"@);
    let (last_write_time, n5) = varint_field(s4, "last_write_time"@)->Ok_0;
    let s5 = s.skip((n1 + n2 + n3 + n4 + n5) as int);
    let t5 = t.skip((n1 + n2 + n3 + n4 + n5) as int);
    crate::wire::lemma_starts_with_skip(t, s, n1 + n2 + n3 + n4 + n5);
    crate::wire::lemma_field_bounds(s5, "file_hash"@);
    crate::wire::lemma_block_field_extends(s5, t5, 32, "file_hash"@);
    let (hash, n6) = block_field(s5, 32, "file_hash"@)->Ok_0;
    let s6 = s.skip((n1 + n2 + n3 + n4 + n5 + n6) as int);
    let t6 = t.skip((n1 + n2 + n3 + n4 + n5 + n6) as int);
    crate::wire::lemma_starts_with_skip(t, s, n1 + n2 + n3 + n4 + n5 + n6);
    crate::wire::lemma_block_field_extends(s6, t6, 2, "unknown1"@);
}

/// The fields on the buffer that were decoded are decoded the same whatever
/// follows them.
pub proof fn lemma_body_at_extends(s: Seq<u8>, t: Seq<u8>)
    requires
        crate::wire::starts_with(t, s),
        body_at(s) is Ok,
    ensures
        body_at(t) == body_at(s),
{
    reveal(body_at);
    crate::wire::lemma_field_bounds(s, "cursor_start"@);
    crate::wire::lemma_varint_field_extends(s, t, "cursor_start"@);
    let (cursor_start, n1) = varint_field(s, "cursor_start"@)->Ok_0;
    let s1 = s.skip(n1 as int);
    let t1 = t.skip(n1 as int);
    crate::wire::lemma_starts_with_skip(t, s, n1);
    crate::wire::lemma_field_bounds(s1, "cursor_end"@);
    crate::wire::lemma_varint_field_extends(s1, t1, "cursor_end"@);
    let (cursor_end, n2) = varint_field(s1, "cursor_end"@)->Ok_0;
    let s2 = s.skip((n1 + n2) as int);
    let t2 = t.skip((n1 + n2) as int);
    crate::wire::lemma_starts_with_skip(t, s, n1 + n2);
    crate::config_block::lemma_config_block_at(s2);
    crate::config_block::lemma_config_block_at_extends(s2, t2);
    let (config_block, n3) = config_block_at(s2)->Ok_0;
    let s3 = s.skip((n1 + n2 + n3) as int);
    let t3 = t.skip((n1 + n2 + n3) as int);
    crate::wire::lemma_starts_with_skip(t, s, n1 + n2 + n3);
    crate::wire::lemma_field_bounds(s3, "file_content_size"@);
    crate::wire::lemma_varint_field_extends(s3, t3, "file_content_size"@);
    let (file_content_size, n4) = varint_field(s3, "file_content_size"@)->Ok_0;
    let s4 = s.skip((n1 + n2 + n3 + n4) as int);
    let t4 = t.skip((n1 + n2 + n3 + n4) as int);
    crate::wire::lemma_starts_with_skip(t, s, n1 + n2 + n3 + n4);
    crate::wire::lemma_field_bounds(s4, "file_content"@);
    crate::wire::lemma_text_at_extends(s4, t4, file_content_size);
    let (file_content, n5) = text_field(s4, file_content_size, "file_content"@)->Ok_0;
    let s5 = s.skip((n1 + n2 + n3 + n4 + n5) as int);
    let t5 = t.skip((n1 + n2 + n3 + n4 + n5) as int);
    crate::wire::lemma_starts_with_skip(t, s, n1 + n2 + n3 + n4 + n5);
    crate::wire::lemma_field_bounds(s5, "contain_unsaved_data"@);
    let (contain_unsaved_data, n6) = flag_field(
        s5,
        "bool <0x0|0x1>"@,
        "contain_unsaved_data"@,
    )->Ok_0;
    crate::wire::lemma_flag_field_extends(s5, t5, "bool <0x0|0x1>"@, "contain_unsaved_data"@);
    let s6 = s.skip((n1 + n2 + n3 + n4 + n5 + n6) as int);
    let t6 = t.skip((n1 + n2 + n3 + n4 + n5 + n6) as int);
    crate::wire::lemma_starts_with_skip(t, s, n1 + n2 + n3 + n4 + n5 + n6);
    crate::wire::lemma_block_field_extends(s6, t6, 4, "checksum"@);
}

/// The fields before the edits that were decoded are decoded the same
/// whatever follows them.
pub proof fn lemma_fields_at_extends(s: Seq<u8>, t: Seq<u8>)
    requires
        crate::wire::starts_with(t, s),
        fields_at(s) is Ok,
    ensures
        fields_at(t) == fields_at(s),
{
    lemma_head_at(s);
    lemma_head_at_extends(s, t);
    let (head, n1) = head_at(s)->Ok_0;
    let s1 = s.skip(n1 as int);
    let t1 = t.skip(n1 as int);
    crate::wire::lemma_starts_with_skip(t, s, n1);
    lemma_disk_group_at(s1, head.path_size);
    if head.is_saved_file {
        lemma_disk_group_at_extends(s1, t1, head.path_size);
    }
    let (disk, n2) = disk_part_at(s1, head)->Ok_0;
    let s2 = s.skip((n1 + n2) as int);
    let t2 = t.skip((n1 + n2) as int);
    crate::wire::lemma_starts_with_skip(t, s, n1 + n2);
    lemma_body_at_extends(s2, t2);
}

/// The fields before the edits can be decoded, and what follows them is
/// made of whole edits and nothing more: the input ends where an edit ends,
/// or where the edits would begin.
pub open spec fn ends_with_whole_chunks(s: Seq<u8>) -> bool {
    fields_at(s) matches Ok((_, k)) && k <= s.len() && whole_chunks(s.skip(k as int))
}

/// A file that ends with whole edits, with other input after it: the fields
/// before the edits are decoded as they were, and the edits are those of the
/// file and then whatever the other input holds, be it more edits, the end
/// of the edits, or a failure.
pub proof fn lemma_record_joined(s: Seq<u8>, t: Seq<u8>)
    requires
        ends_with_whole_chunks(s),
    ensures
        fields_at(s + t) == fields_at(s),
        fields_at(s) matches Ok((_, k)) && k <= s.len() && chunks_at(s.skip(k as int)) is Ok
            && chunks_at((s + t).skip(k as int)) == chunks_before(
            chunks_at(s.skip(k as int))->Ok_0.0,
            (s.len() - k) as nat,
            chunks_at(t),
        ),
{
    let whole = s + t;
    assert(crate::wire::starts_with(whole, s));
    lemma_fields_at_extends(s, whole);
    let (fields, k) = fields_at(s)->Ok_0;
    let area = s.skip(k as int);
    crate::unsaved_chunks::lemma_chunks_joined(area, t);
    assert(whole.skip(k as int) =~= area + t);
}

/// A file that ends with whole edits is decoded, to its last byte. With one
/// byte more, where that byte is the whole position of a new edit, it is a
/// failure and no record with fewer edits; where that byte is the start of a
/// position that goes on, it is the same record, and the byte is read with
/// it.
pub proof fn lemma_record_cut_short(s: Seq<u8>, b: u8)
    requires
        ends_with_whole_chunks(s),
    ensures
        tab_state_at(s) matches Ok((_, n)) && n == s.len(),
        b < 0x80 ==> tab_state_at(s.push(b)) matches Err(ErrorView::Generic(_, _, _)),
        b >= 0x80 ==> tab_state_at(s.push(b)) == Ok::<(TabStateView, nat), ErrorView>(
            (tab_state_at(s)->Ok_0.0, s.len() + 1),
        ),
{
    lemma_record_joined(s, seq![b]);
    lemma_record_joined(s, Seq::empty());
    assert(s + Seq::<u8>::empty() =~= s);
    assert(s + seq![b] =~= s.push(b));
    let (fields, k) = fields_at(s)->Ok_0;
    let found = chunks_at(s.skip(k as int))->Ok_0.0;
    crate::unsaved_chunks::lemma_chunks_at(s.skip(k as int));
    crate::unsaved_chunks::lemma_chunks_end(Seq::empty());
    assert(found + Seq::<ChunkView>::empty() =~= found);
    if b < 0x80 {
        crate::unsaved_chunks::lemma_chunk_cut_after_position(b);
    } else {
        crate::unsaved_chunks::lemma_chunks_end(seq![b]);
    }
}

/// A record of a buffer without a file on disk has none of the fields on
/// such a file, whatever length of a path the file states; that length is
/// kept.
pub proof fn lemma_never_saved_record(s: Seq<u8>)
    ensures
        tab_state_at(s) matches Ok((record, _)) ==> {
            &&& !record.is_saved_file ==> record.lacks_disk_group()
            &&& head_at(s) matches Ok((head, _)) && record.path_size == head.path_size
                && record.is_saved_file == head.is_saved_file
        },
{
}

/// A record of a buffer with a file on disk has all the fields on that file;
/// where one of them cannot be decoded there is no record at all.
pub proof fn lemma_saved_record(s: Seq<u8>)
    ensures
        tab_state_at(s) matches Ok((record, _)) ==> (record.is_saved_file
            ==> record.has_disk_group()),
        head_at(s) matches Ok((head, n)) ==> (head.is_saved_file && disk_group_at(
            s.skip(n as int),
            head.path_size,
        ) is Err ==> tab_state_at(s) is Err),
{
}

struct Head {
    signature: [u8; 2],
    seq_number: u64,
    is_saved_file: bool,
    path_size: u64,
}

impl View for Head {
    type V = HeadView;

    closed spec fn view(&self) -> HeadView {
        HeadView {
            signature: self.signature@,
            seq_number: self.seq_number,
            is_saved_file: self.is_saved_file,
            path_size: self.path_size,
        }
    }
}

struct DiskGroup {
    path: String,
    file_size: u64,
    encoding: Encoding,
    cr_type: CRType,
    last_write_time: u64,
    file_hash: String,
    unknown1: [u8; 2],
}

impl View for DiskGroup {
    type V = DiskGroupView;

    closed spec fn view(&self) -> DiskGroupView {
        DiskGroupView {
            path: self.path@,
            file_size: self.file_size,
            encoding: self.encoding,
            cr_type: self.cr_type,
            last_write_time: self.last_write_time,
            file_hash: self.file_hash@,
            unknown1: self.unknown1@,
        }
    }
}

struct Body {
    cursor_start: u64,
    cursor_end: u64,
    config_block: ConfigBlock,
    file_content_size: u64,
    file_content: String,
    contain_unsaved_data: bool,
    checksum: String,
}

impl View for Body {
    type V = BodyView;

    closed spec fn view(&self) -> BodyView {
        BodyView {
            cursor_start: self.cursor_start,
            cursor_end: self.cursor_end,
            config_block: self.config_block,
            file_content_size: self.file_content_size,
            file_content: self.file_content@,
            contain_unsaved_data: self.contain_unsaved_data,
            checksum: self.checksum@,
        }
    }
}

spec fn disk_view_of(disk: Option<DiskGroup>) -> Option<DiskGroupView> {
    match disk {
        Some(d) => Some(d@),
        None => None,
    }
}

spec fn edits_view_of(edits: Option<UnsavedChunks>) -> Option<Seq<ChunkView>> {
    match edits {
        Some(chunks) => Some(chunks@),
        None => None,
    }
}

/// Reads the start of a file.
fn head_of(rest: &[u8]) -> (r: Result<(Head, usize), NotepadErrors>)
    ensures
        match r {
            Ok((head, n)) => head_at(rest@) == Ok::<(HeadView, nat), ErrorView>((head@, n as nat))
                && n <= rest@.len(),
            Err(e) => head_at(rest@) == Err::<(HeadView, nat), ErrorView>(e@),
        },
{
    proof {
        reveal(head_at);
    }
    let len = rest.len();
    let (signature, n1) = match read_block_field::<2>(rest, "signature") {
        Ok(found) => found,
        Err(e) => return Err(e),
    };
    if signature[0] != 0x4E || signature[1] != 0x50 {
        assert(signature@ != signature_bytes());
        return Err(NotepadErrors::Signature(lossy_of(signature.as_slice())));
    }
    assert(signature@ =~= signature_bytes());
    let mut at: usize = n1;
    let (seq_number, n2) = match read_varint_field(slice_subrange(rest, at, len), "unknown0") {
        Ok(found) => found,
        Err(e) => return Err(e),
    };
    at = at + n2;
    let (is_saved_file, n3) = match read_flag_field(
        slice_subrange(rest, at, len),
        "bool <0x1|0x0>",
        "is_saved_file",
    ) {
        Ok(found) => found,
        Err(e) => return Err(e),
    };
    at = at + n3;
    let (path_size, n4) = match read_varint_field(slice_subrange(rest, at, len), "path_size") {
        Ok(found) => found,
        Err(e) => return Err(e),
    };
    at = at + n4;
    Ok((Head { signature, seq_number, is_saved_file, path_size }, at))
}

/// Reads the fields on the file on disk.
fn disk_group_of(rest: &[u8], path_size: u64) -> (r: Result<(DiskGroup, usize), NotepadErrors>)
    ensures
        match r {
            Ok((disk, n)) => disk_group_at(rest@, path_size) == Ok::<
                (DiskGroupView, nat),
                ErrorView,
            >((disk@, n as nat)) && n <= rest@.len(),
            Err(e) => disk_group_at(rest@, path_size) == Err::<(DiskGroupView, nat), ErrorView>(
                e@,
            ),
        },
{
    proof {
        reveal(disk_group_at);
    }
    let len = rest.len();
    let (path, n1) = match text_of(rest, path_size) {
        Ok(found) => found,
        Err(cause) => return Err(
            NotepadErrors::ReadErrorWithSize(cause, String::from_str("path"), decimal(path_size)),
        ),
    };
    let mut at: usize = n1;
    let (file_size, n2) = match read_varint_field(slice_subrange(rest, at, len), "file_size") {
        Ok(found) => found,
        Err(e) => return Err(e),
    };
    at = at + n2;
    let (encoding, n3) = match read_byte_field(slice_subrange(rest, at, len), "encoding") {
        Ok((code, n)) => (Encoding::from(code), n),
        Err(e) => return Err(e),
    };
    at = at + n3;
    let (cr_type, n4) = match read_byte_field(slice_subrange(rest, at, len), "cr_type") {
        Ok((code, n)) => (CRType::from(code), n),
        Err(e) => return Err(e),
    };
    at = at + n4;
    let (last_write_time, n5) = match read_varint_field(
        slice_subrange(rest, at, len),
        "last_write_time",
    ) {
        Ok(found) => found,
        Err(e) => return Err(e),
    };
    at = at + n5;
    let (hash, n6) = match read_block_field::<32>(slice_subrange(rest, at, len), "file_hash") {
        Ok(found) => found,
        Err(e) => return Err(e),
    };
    at = at + n6;
    let (unknown1, n7) = match read_block_field::<2>(slice_subrange(rest, at, len), "unknown1") {
        Ok(found) => found,
        Err(e) => return Err(e),
    };
    at = at + n7;
    let file_hash = hex_of(hash.as_slice());
    Ok(
        (
            DiskGroup { path, file_size, encoding, cr_type, last_write_time, file_hash, unknown1 },
            at,
        ),
    )
}

/// Reads the fields on the buffer.
fn body_of(rest: &[u8]) -> (r: Result<(Body, usize), NotepadErrors>)
    ensures
        match r {
            Ok((body, n)) => body_at(rest@) == Ok::<(BodyView, nat), ErrorView>((body@, n as nat))
                && n <= rest@.len(),
            Err(e) => body_at(rest@) == Err::<(BodyView, nat), ErrorView>(e@),
        },
{
    proof {
        reveal(body_at);
    }
    let len = rest.len();
    let (cursor_start, n1) = match read_varint_field(rest, "cursor_start") {
        Ok(found) => found,
        Err(e) => return Err(e),
    };
    let mut at: usize = n1;
    let (cursor_end, n2) = match read_varint_field(slice_subrange(rest, at, len), "cursor_end") {
        Ok(found) => found,
        Err(e) => return Err(e),
    };
    at = at + n2;
    let (config_block, n3) = match config_block_of(slice_subrange(rest, at, len)) {
        Ok(found) => found,
        Err(e) => return Err(e),
    };
    at = at + n3;
    let (file_content_size, n4) = match read_varint_field(
        slice_subrange(rest, at, len),
        "file_content_size",
    ) {
        Ok(found) => found,
        Err(e) => return Err(e),
    };
    at = at + n4;
    let (file_content, n5) = match read_text_field(
        slice_subrange(rest, at, len),
        file_content_size,
        "file_content",
    ) {
        Ok(found) => found,
        Err(e) => return Err(e),
    };
    at = at + n5;
    let (contain_unsaved_data, n6) = match read_flag_field(
        slice_subrange(rest, at, len),
        "bool <0x0|0x1>",
        "contain_unsaved_data",
    ) {
        Ok(found) => found,
        Err(e) => return Err(e),
    };
    at = at + n6;
    let (sum, n7) = match read_block_field::<4>(slice_subrange(rest, at, len), "checksum") {
        Ok(found) => found,
        Err(e) => return Err(e),
    };
    at = at + n7;
    let checksum = hex_of(sum.as_slice());
    Ok(
        (
            Body {
                cursor_start,
                cursor_end,
                config_block,
                file_content_size,
                file_content,
                contain_unsaved_data,
                checksum,
            },
            at,
        ),
    )
}

/// Reads the fields on the file on disk, where the buffer has one.
fn disk_part_of(rest: &[u8], head: &Head) -> (r: Result<(Option<DiskGroup>, usize), NotepadErrors>)
    ensures
        match r {
            Ok((disk, n)) => disk_part_at(rest@, head@) == Ok::<
                (Option<DiskGroupView>, nat),
                ErrorView,
            >((disk_view_of(disk), n as nat)) && n <= rest@.len(),
            Err(e) => disk_part_at(rest@, head@) == Err::<(Option<DiskGroupView>, nat), ErrorView>(
                e@,
            ),
        },
{
    if head.is_saved_file {
        match disk_group_of(rest, head.path_size) {
            Ok((disk, n)) => Ok((Some(disk), n)),
            Err(e) => Err(e),
        }
    } else {
        Ok((None, 0))
    }
}

/// Reads the edits at the end of a file.
fn edits_of(rest: &[u8]) -> (r: Result<(Option<UnsavedChunks>, usize), NotepadErrors>)
    ensures
        match r {
            Ok((edits, n)) => edits_at(rest@) == Ok::<(Option<Seq<ChunkView>>, nat), ErrorView>(
                (edits_view_of(edits), n as nat),
            ) && n == rest@.len(),
            Err(e) => edits_at(rest@) == Err::<(Option<Seq<ChunkView>>, nat), ErrorView>(e@),
        },
{
    match chunk_list_of(rest) {
        Ok((chunks, n)) => Ok((Some(chunks), n)),
        Err(NotepadErrors::NA) => Ok((None, rest.len())),
        Err(e) => Err(e),
    }
}

/// Puts a record together from its parts.
fn assembled(
    head: Head,
    disk: Option<DiskGroup>,
    body: Body,
    unsaved_chunks: Option<UnsavedChunks>,
) -> (record: NotepadTabStat)
    ensures
        record@ == assemble(head@, disk_view_of(disk), body@, edits_view_of(unsaved_chunks)),
{
    let unsaved_chunks_str = match &unsaved_chunks {
        Some(chunks) => Some(chunks.transcript()),
        None => None,
    };
    let (path, file_size, encoding, cr_type, last_write_time, file_hash, unknown1) = match disk {
        Some(d) => (
            Some(d.path),
            Some(d.file_size),
            Some(d.encoding),
            Some(d.cr_type),
            Some(d.last_write_time),
            Some(d.file_hash),
            Some(d.unknown1),
        ),
        None => (None, None, None, None, None, None, None),
    };
    NotepadTabStat {
        tabstate_path: None,
        signature: head.signature,
        seq_number: head.seq_number,
        is_saved_file: head.is_saved_file,
        path_size: head.path_size,
        path,
        file_size,
        encoding,
        cr_type,
        last_write_time,
        file_hash,
        unknown1,
        cursor_start: Some(body.cursor_start),
        cursor_end: Some(body.cursor_end),
        config_block: body.config_block,
        file_content_size: body.file_content_size,
        file_content: body.file_content,
        contain_unsaved_data: body.contain_unsaved_data,
        checksum: body.checksum,
        unsaved_chunks,
        unsaved_chunks_str,
    }
}

/// Reads the record that `rest` holds.
fn tab_state_of(rest: &[u8]) -> (r: Result<(NotepadTabStat, usize), NotepadErrors>)
    ensures
        match r {
            Ok((record, n)) => tab_state_at(rest@) == Ok::<(TabStateView, nat), ErrorView>(
                (record@, n as nat),
            ) && n == rest@.len(),
            Err(e) => tab_state_at(rest@) == Err::<(TabStateView, nat), ErrorView>(e@),
        },
{
    let len = rest.len();
    let (head, n1) = match head_of(rest) {
        Ok(found) => found,
        Err(e) => return Err(e),
    };
    let mut at: usize = n1;
    let (disk, n2) = match disk_part_of(slice_subrange(rest, at, len), &head) {
        Ok(found) => found,
        Err(e) => return Err(e),
    };
    at = at + n2;
    let (body, n3) = match body_of(slice_subrange(rest, at, len)) {
        Ok(found) => found,
        Err(e) => return Err(e),
    };
    at = at + n3;
    let (edits, n4) = match edits_of(slice_subrange(rest, at, len)) {
        Ok(found) => found,
        Err(e) => return Err(e),
    };
    at = at + n4;
    Ok((assembled(head, disk, body, edits), at))
}

/// The record that stands for no file: nothing on a file on disk, no
/// selection, no edits, and a greeting for its text.
pub open spec fn default_view() -> TabStateView {
    TabStateView {
        tabstate_path: None,
        signature: signature_bytes(),
        seq_number: 0,
        is_saved_file: false,
        path_size: 1,
        path: None,
        file_size: None,
        encoding: None,
        cr_type: None,
        last_write_time: None,
        file_hash: None,
        unknown1: None,
        cursor_start: None,
        cursor_end: None,
        config_block: ConfigBlock {
            word_wrap: false,
            rtl: false,
            show_unicode: false,
            version: 0,
            unknown0: 0,
            unknown1: 0,
        },
        file_content_size: 0,
        file_content: "Hello :D"@,
        contain_unsaved_data: false,
        checksum: "41414141"@,
        unsaved_chunks: None,
        unsaved_chunks_str: None,
    }
}

impl Default for NotepadTabStat {
    fn default() -> (record: Self)
        ensures
            record@ == default_view(),
    {
        let record = Self {
            tabstate_path: None,
            signature: [0x4E, 0x50],
            seq_number: 0x00,
            is_saved_file: false,
            path_size: 0x01,
            path: None,
            file_size: None,
            encoding: None,
            cr_type: None,
            last_write_time: None,
            file_hash: None,
            unknown1: None,
            cursor_start: None,
            cursor_end: None,
            config_block: ConfigBlock::default(),
            file_content_size: 0,
            file_content: String::from_str("Hello :D"),
            contain_unsaved_data: false,
            checksum: String::from_str("41414141"),
            unsaved_chunks: None,
            unsaved_chunks_str: None,
        };
        assert(record.signature@ =~= signature_bytes());
        record
    }
}

impl NotepadTabStat {
    /// Decodes a record from the unread bytes of `reader`, which it reads to
    /// the end of the edits. The first field that cannot be decoded ends the
    /// work with its failure, and `reader` then stays where it is.
    pub fn from_reader(reader: &mut ByteReader) -> (r: Result<Self, NotepadErrors>)
        ensures
            match tab_state_at(old(reader).unread()) {
                Ok((record, n)) => r matches Ok(found) && found@ == record && final(
                    reader
                ).moved_on(*old(reader), n),
                Err(e) => r matches Err(found) && found@ == e && final(reader).moved_on(
                    *old(reader),
                    0,
                ),
            },
            r matches Ok(found) ==> found@.well_formed(),
            r is Ok ==> final(reader).unread().len() == 0,
    {
        proof {
            lemma_tab_state_at(reader.unread());
        }
        match tab_state_of(reader.rest()) {
            Ok((record, n)) => {
                reader.advance(n);
                Ok(record)
            },
            Err(e) => Err(e),
        }
    }

    /// Decodes the record of the file at `path`, whose bytes are `content`,
    /// and notes in it where it came from.
    pub fn from_path(path: &str, content: Vec<u8>) -> (r: Result<Self, NotepadErrors>)
        ensures
            match tab_state_of_file(path@, content@) {
                Ok(record) => r matches Ok(found) && found@ == record,
                Err(e) => r matches Err(found) && found@ == e,
            },
            r matches Ok(found) ==> found@.well_formed() && found@.tabstate_path == Some(path@),
    {
        let mut reader = ByteReader::new(content);
        match NotepadTabStat::from_reader(&mut reader) {
            Ok(mut parsed) => {
                parsed.tabstate_path = Some(String::from_str(path));
                Ok(parsed)
            },
            Err(e) => Err(
                NotepadErrors::Generic(
                    e.message(),
                    String::from_str("NotepadTabStat::from_path"),
                    String::from_str("Error during parsing"),
                ),
            ),
        }
    }
}

} // verus!
