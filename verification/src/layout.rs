//! How the fields of a record lie in a file, written as the bytes that a
//! record stands for, and the proof that the decoders read those bytes back
//! as that record.
//!
//! Text is given here by its UTF-16 code units, low byte first, and hashes and
//! checksums by their bytes: a record holds the text those units stand for
//! and the hexadecimal form of those bytes.
use vstd::prelude::*;

use crate::config_block::{config_block_at, switch_field, ConfigBlock};
use crate::enums::{CRType, Encoding};
use crate::errors::ErrorView;
use crate::tab_state::{
    assemble, body_at, disk_group_at, disk_part_at, edits_at, ends_with_whole_chunks, fields_at,
    head_at, path_field, signature_bytes, tab_state_at, BodyView, DiskGroupView, FieldsView,
    HeadView, TabStateView,
};
use crate::text::hex_upper;
use crate::unsaved_chunks::{chunk_at, chunk_text_at, chunks_at, whole_chunks, ChunkView};
use crate::wire::{
    block_at, block_field, byte_field, flag_field, text_at, text_field, units_text, utf16_text,
    varint_at, varint_field, varint_len, varint_sum, VarintFault, VARINT_MAX_LEN,
};

verus! {

/// A number as a base-128 integer in the fewest bytes: seven bits a byte, the
/// lowest first, the high bit set on every byte but the last.
pub open spec fn varint_bytes(v: nat) -> Seq<u8>
    decreases v,
{
    if v < 128 {
        seq![v as u8]
    } else {
        seq![(v % 128 + 128) as u8] + varint_bytes(v / 128)
    }
}

/// 128 to the power of `k`.
pub open spec fn limit(k: nat) -> nat
    decreases k,
{
    if k == 0 {
        1
    } else {
        128 * limit((k - 1) as nat)
    }
}

/// A number below 128 to the power of `k` is written in at most `k` bytes.
proof fn lemma_varint_bytes_len(v: nat, k: nat)
    requires
        k >= 1,
        v < limit(k),
    ensures
        1 <= varint_bytes(v).len() <= k,
    decreases k,
{
    if v >= 128 {
        assert(limit(1) == 128) by {
            assert(limit(0) == 1);
        }
        assert(k >= 2);
        assert(limit(k) == 128 * limit((k - 1) as nat));
        assert(v / 128 < limit((k - 1) as nat));
        lemma_varint_bytes_len(v / 128, (k - 1) as nat);
    }
}

/// What is written for a number, followed by anything, is read as an integer
/// that ends with the last byte written and stands for that number.
proof fn lemma_varint_bytes_read(v: nat, then: Seq<u8>)
    ensures
        varint_len(varint_bytes(v) + then) == Some(varint_bytes(v).len()),
        varint_sum(varint_bytes(v) + then, varint_bytes(v).len()) == v,
    decreases v,
{
    let s = varint_bytes(v) + then;
    if v < 128 {
        assert(s[0] == v as u8);
        assert(varint_sum(s.drop_first(), 0) == 0);
        assert(varint_sum(s, 1) == (s[0] % 128) as nat + 128 * varint_sum(s.drop_first(), 0));
    } else {
        let tail = varint_bytes(v / 128);
        let n = tail.len();
        assert(varint_bytes(v).len() == n + 1);
        assert(s[0] == (v % 128 + 128) as u8);
        assert(s.drop_first() =~= tail + then);
        lemma_varint_bytes_read(v / 128, then);
        assert(s[0] % 128 == v % 128);
        assert(varint_sum(s, n + 1) == (s[0] % 128) as nat + 128 * varint_sum(
            s.drop_first(),
            n,
        ));
    }
}

/// A `u64` written as a base-128 integer is read back as it was, whatever
/// follows, and what follows is what is left after it.
pub proof fn lemma_varint_written(v: u64, then: Seq<u8>)
    ensures
        varint_at(varint_bytes(v as nat) + then) == Ok::<(u64, nat), VarintFault>(
            (v, varint_bytes(v as nat).len()),
        ),
        1 <= varint_bytes(v as nat).len() <= VARINT_MAX_LEN,
        (varint_bytes(v as nat) + then).skip(varint_bytes(v as nat).len() as int) == then,
{
    assert(limit(10) == 0x40_0000_0000_0000_0000) by {
        assert(limit(0) == 1);
        assert(limit(1) == 0x80);
        assert(limit(2) == 0x4000);
        assert(limit(3) == 0x20_0000);
        assert(limit(4) == 0x1000_0000);
        assert(limit(5) == 0x8_0000_0000);
        assert(limit(6) == 0x400_0000_0000);
        assert(limit(7) == 0x2_0000_0000_0000);
        assert(limit(8) == 0x100_0000_0000_0000);
        assert(limit(9) == 0x8000_0000_0000_0000);
    }
    lemma_varint_bytes_len(v as nat, 10);
    lemma_varint_bytes_read(v as nat, then);
    assert((varint_bytes(v as nat) + then).skip(varint_bytes(v as nat).len() as int) =~= then);
}

/// The byte that stands for a `bool`.
pub open spec fn flag_byte(b: bool) -> u8 {
    if b {
        1
    } else {
        0
    }
}

/// What is left of `s` after `k` bytes and then `m` more.
proof fn lemma_skip_more(s: Seq<u8>, k: nat, m: nat)
    requires
        k + m <= s.len(),
    ensures
        s.skip(k as int).skip(m as int) == s.skip((k + m) as int),
{
    assert(s.skip(k as int).skip(m as int) =~= s.skip((k + m) as int));
}

/// An integer field that was written is read back, and what follows it is
/// left.
proof fn lemma_varint_field_written(v: u64, then: Seq<u8>, field: Seq<char>)
    ensures
        varint_field(varint_bytes(v as nat) + then, field) == Ok::<(u64, nat), ErrorView>(
            (v, varint_bytes(v as nat).len()),
        ),
        (varint_bytes(v as nat) + then).skip(varint_bytes(v as nat).len() as int) == then,
        (varint_bytes(v as nat) + then).len() == varint_bytes(v as nat).len() + then.len(),
{
    lemma_varint_written(v, then);
}

/// A byte that was written is read back, and what follows it is left.
proof fn lemma_byte_field_written(b: u8, then: Seq<u8>, field: Seq<char>)
    ensures
        byte_field(seq![b] + then, field) == Ok::<(u8, nat), ErrorView>((b, 1)),
        (seq![b] + then).skip(1) == then,
        (seq![b] + then).len() == 1 + then.len(),
{
    assert((seq![b] + then).skip(1) =~= then);
    assert((seq![b] + then)[0] == b);
}

/// A flag that was written is read back, and what follows it is left.
proof fn lemma_flag_field_written(b: bool, then: Seq<u8>, expected: Seq<char>, field: Seq<char>)
    ensures
        flag_field(seq![flag_byte(b)] + then, expected, field) == Ok::<(bool, nat), ErrorView>(
            (b, 1),
        ),
        (seq![flag_byte(b)] + then).skip(1) == then,
        (seq![flag_byte(b)] + then).len() == 1 + then.len(),
{
    lemma_byte_field_written(flag_byte(b), then, field);
}

/// A switch of the view settings that was written is read back, and what
/// follows it is left.
proof fn lemma_switch_field_written(b: bool, then: Seq<u8>, field: Seq<char>)
    ensures
        switch_field(seq![flag_byte(b)] + then, field) == Ok::<(bool, nat), ErrorView>((b, 1)),
        (seq![flag_byte(b)] + then).skip(1) == then,
        (seq![flag_byte(b)] + then).len() == 1 + then.len(),
{
    let s = seq![flag_byte(b)] + then;
    assert(s.skip(1) =~= then);
    assert(s.take(1)[0] == flag_byte(b));
    assert(block_at(s, 1) == Ok::<(Seq<u8>, nat), Seq<char>>((s.take(1), 1)));
}

/// A block that was written is read back, and what follows it is left.
proof fn lemma_block_field_written(block: Seq<u8>, then: Seq<u8>, field: Seq<char>)
    ensures
        block_field(block + then, block.len(), field) == Ok::<(Seq<u8>, nat), ErrorView>(
            (block, block.len()),
        ),
        (block + then).skip(block.len() as int) == then,
        (block + then).len() == block.len() + then.len(),
{
    assert((block + then).skip(block.len() as int) =~= then);
    assert((block + then).take(block.len() as int) =~= block);
}

/// Code units that were written are decoded as they would be alone, and what
/// follows them is left.
proof fn lemma_text_written(units: Seq<u8>, count: u64, then: Seq<u8>)
    requires
        units.len() == 2 * count,
    ensures
        text_at(units + then, count) == match units_text(units, count as nat) {
            Ok(text) => Ok::<(Seq<char>, nat), Seq<char>>((text, units.len())),
            Err(cause) => Err::<(Seq<char>, nat), Seq<char>>(cause),
        },
        (units + then).skip(units.len() as int) == then,
        (units + then).len() == units.len() + then.len(),
{
    assert((units + then).skip(units.len() as int) =~= then);
    assert((units + then).take(units.len() as int) =~= units);
}

/// One edit as it lies in a file: its numbers, the code units of its text,
/// and the bytes of its checksum.
pub struct RawChunk {
    pub position: u64,
    pub num_of_deletion: u64,
    pub num_of_addition: u64,
    pub units: Seq<u8>,
    pub checksum: Seq<u8>,
}

impl RawChunk {
    /// There are as many code units as characters were put in, they stand
    /// for text, and the checksum has four bytes.
    pub open spec fn valid(self) -> bool {
        &&& self.units.len() == 2 * self.num_of_addition
        &&& self.checksum.len() == 4
        &&& self.num_of_addition > 0 ==> utf16_text(self.units, self.num_of_addition as nat) is Ok
    }

    /// The edit that these values stand for.
    pub open spec fn record(self) -> ChunkView {
        ChunkView {
            position: self.position,
            num_of_deletion: self.num_of_deletion,
            num_of_addition: self.num_of_addition,
            data: if self.num_of_addition > 0 {
                Some(utf16_text(self.units, self.num_of_addition as nat)->Ok_0)
            } else {
                None
            },
            checksum: hex_upper(self.checksum),
        }
    }

    /// The number of bytes the edit takes.
    pub open spec fn size(self) -> nat {
        varint_bytes(self.position as nat).len() + varint_bytes(self.num_of_deletion as nat).len()
            + varint_bytes(self.num_of_addition as nat).len() + self.units.len()
            + self.checksum.len()
    }

    /// The bytes of the edit, before `then`.
    pub open spec fn bytes_then(self, then: Seq<u8>) -> Seq<u8> {
        varint_bytes(self.position as nat) + (varint_bytes(self.num_of_deletion as nat) + (
        varint_bytes(self.num_of_addition as nat) + (self.units + (self.checksum + then))))
    }
}

/// An edit that was written is decoded as it was, whatever follows, and what
/// follows is left.
proof fn lemma_chunk_written(c: RawChunk, then: Seq<u8>)
    requires
        c.valid(),
    ensures
        chunk_at(c.bytes_then(then)) == Ok::<(ChunkView, nat), ErrorView>((c.record(), c.size())),
        c.bytes_then(then).skip(c.size() as int) == then,
        c.bytes_then(then).len() == c.size() + then.len(),
{
    reveal(chunk_at);
    let r4 = c.checksum + then;
    let r3 = c.units + r4;
    let r2 = varint_bytes(c.num_of_addition as nat) + r3;
    let r1 = varint_bytes(c.num_of_deletion as nat) + r2;
    let s = varint_bytes(c.position as nat) + r1;
    let n1 = varint_bytes(c.position as nat).len();
    let n2 = varint_bytes(c.num_of_deletion as nat).len();
    let n3 = varint_bytes(c.num_of_addition as nat).len();
    let n4 = c.units.len();
    lemma_varint_written(c.position, r1);
    lemma_varint_field_written(c.num_of_deletion, r2, "UnsavedChunk::num_of_deletion"@);
    lemma_skip_more(s, n1, n2);
    lemma_varint_field_written(c.num_of_addition, r3, "UnsavedChunk::num_of_addition"@);
    lemma_skip_more(s, n1 + n2, n3);
    lemma_text_written(c.units, c.num_of_addition, r4);
    assert(chunk_text_at(r3, c.num_of_addition) == Ok::<(Option<Seq<char>>, nat), ErrorView>(
        (c.record().data, n4),
    ));
    lemma_skip_more(s, n1 + n2 + n3, n4);
    lemma_block_field_written(c.checksum, then, "checksum"@);
    lemma_skip_more(s, n1 + n2 + n3 + n4, 4);
}

/// The bytes of a list of edits, one after the other.
pub open spec fn chunks_bytes(chunks: Seq<RawChunk>) -> Seq<u8>
    decreases chunks.len(),
{
    if chunks.len() == 0 {
        Seq::empty()
    } else {
        chunks[0].bytes_then(chunks_bytes(chunks.drop_first()))
    }
}

/// The edits that a list of values stands for.
pub open spec fn chunk_records(chunks: Seq<RawChunk>) -> Seq<ChunkView> {
    Seq::new(chunks.len(), |i: int| chunks[i].record())
}

/// Edits that were written one after the other, with nothing after the
/// last, are decoded as they were, to the last byte.
proof fn lemma_chunks_written(chunks: Seq<RawChunk>)
    requires
        forall|i: int| 0 <= i < chunks.len() ==> (#[trigger] chunks[i]).valid(),
    ensures
        chunks_at(chunks_bytes(chunks)) == Ok::<(Seq<ChunkView>, nat), ErrorView>(
            (chunk_records(chunks), chunks_bytes(chunks).len()),
        ),
        whole_chunks(chunks_bytes(chunks)),
    decreases chunks.len(),
{
    if chunks.len() == 0 {
        crate::unsaved_chunks::lemma_chunks_end(Seq::empty());
        assert(chunk_records(chunks) =~= Seq::<ChunkView>::empty());
    } else {
        let others = chunks.drop_first();
        let then = chunks_bytes(others);
        assert forall|i: int| 0 <= i < others.len() implies (#[trigger] others[i]).valid() by {
            assert(others[i] == chunks[i + 1]);
        }
        lemma_chunks_written(others);
        lemma_chunk_written(chunks[0], then);
        crate::unsaved_chunks::lemma_chunk_at(chunks_bytes(chunks));
        assert(chunk_records(chunks) =~= seq![chunks[0].record()] + chunk_records(others));
    }
}

/// The bytes of the view settings, before `then`.
#[verifier::opaque]
pub open spec fn config_block_bytes(block: ConfigBlock, then: Seq<u8>) -> Seq<u8> {
    seq![flag_byte(block.word_wrap)] + (seq![flag_byte(block.rtl)] + (seq![
        flag_byte(block.show_unicode),
    ] + (varint_bytes(block.version as nat) + (seq![block.unknown0] + (seq![block.unknown1]
        + then)))))
}

/// The number of bytes the view settings take.
pub open spec fn config_block_size(block: ConfigBlock) -> nat {
    5 + varint_bytes(block.version as nat).len()
}

/// View settings that were written are decoded as they were, whatever
/// follows, and what follows is left.
proof fn lemma_config_block_written(block: ConfigBlock, then: Seq<u8>)
    ensures
        config_block_at(config_block_bytes(block, then)) == Ok::<(ConfigBlock, nat), ErrorView>(
            (block, config_block_size(block)),
        ),
        config_block_bytes(block, then).skip(config_block_size(block) as int) == then,
        config_block_bytes(block, then).len() == config_block_size(block) + then.len(),
{
    reveal(config_block_at);
    reveal(config_block_bytes);
    let r5 = seq![block.unknown1] + then;
    let r4 = seq![block.unknown0] + r5;
    let r3 = varint_bytes(block.version as nat) + r4;
    let r2 = seq![flag_byte(block.show_unicode)] + r3;
    let r1 = seq![flag_byte(block.rtl)] + r2;
    let s = seq![flag_byte(block.word_wrap)] + r1;
    let n4 = varint_bytes(block.version as nat).len();
    lemma_switch_field_written(block.word_wrap, r1, "ConfigBlock::word_wrap"@);
    lemma_switch_field_written(block.rtl, r2, "ConfigBlock::rtl"@);
    lemma_skip_more(s, 1, 1);
    lemma_switch_field_written(block.show_unicode, r3, "ConfigBlock::show_unicode"@);
    lemma_skip_more(s, 2, 1);
    lemma_varint_field_written(block.version, r4, "ConfigBlock::version"@);
    lemma_skip_more(s, 3, n4);
    lemma_byte_field_written(block.unknown0, r5, "ConfigBlock::unknown0"@);
    lemma_skip_more(s, 3 + n4, 1);
    lemma_byte_field_written(block.unknown1, then, "ConfigBlock::unknown1"@);
    lemma_skip_more(s, 4 + n4, 1);
}

/// What a file holds on the file on disk: the code units of the path, the
/// bytes of the hash, and the rest as in a record.
pub struct RawDisk {
    pub path_units: Seq<u8>,
    pub file_size: u64,
    pub encoding: Encoding,
    pub cr_type: CRType,
    pub last_write_time: u64,
    pub hash: Seq<u8>,
    pub unknown1: Seq<u8>,
}

/// What a file holds: a record with its texts as code units and its hash and
/// checksums as bytes.
pub struct RawTabState {
    pub seq_number: u64,
    pub path_size: u64,
    pub disk: Option<RawDisk>,
    pub cursor_start: u64,
    pub cursor_end: u64,
    pub config_block: ConfigBlock,
    pub file_content_size: u64,
    pub content_units: Seq<u8>,
    pub contain_unsaved_data: bool,
    pub checksum: Seq<u8>,
    pub chunks: Seq<RawChunk>,
}

impl RawDisk {
    /// The path has `path_size` code units that stand for text, the hash has
    /// 32 bytes, two bytes follow it, and neither code is written as unknown
    /// where it is known.
    pub open spec fn valid(self, path_size: u64) -> bool {
        &&& self.path_units.len() == 2 * path_size
        &&& units_text(self.path_units, path_size as nat) is Ok
        &&& self.hash.len() == 32
        &&& self.unknown1.len() == 2
        &&& self.encoding.is_canonical()
        &&& self.cr_type.is_canonical()
    }

    /// The fields of a record that these values stand for.
    pub open spec fn record(self, path_size: u64) -> DiskGroupView {
        DiskGroupView {
            path: units_text(self.path_units, path_size as nat)->Ok_0,
            file_size: self.file_size,
            encoding: self.encoding,
            cr_type: self.cr_type,
            last_write_time: self.last_write_time,
            file_hash: hex_upper(self.hash),
            unknown1: self.unknown1,
        }
    }

    /// The number of bytes these fields take.
    pub open spec fn size(self) -> nat {
        self.path_units.len() + varint_bytes(self.file_size as nat).len() + 2 + varint_bytes(
            self.last_write_time as nat,
        ).len() + self.hash.len() + self.unknown1.len()
    }

    /// The bytes of these fields, before `then`.
    pub open spec fn bytes_then(self, then: Seq<u8>) -> Seq<u8> {
        self.path_units + (varint_bytes(self.file_size as nat) + (seq![self.encoding.code()] + (
        seq![self.cr_type.code()] + (varint_bytes(self.last_write_time as nat) + (self.hash + (
        self.unknown1 + then))))))
    }
}

/// Fields on the file on disk that were written are decoded as they were,
/// whatever follows, and what follows is left.
proof fn lemma_disk_group_written(d: RawDisk, path_size: u64, then: Seq<u8>)
    requires
        d.valid(path_size),
    ensures
        disk_group_at(d.bytes_then(then), path_size) == Ok::<(DiskGroupView, nat), ErrorView>(
            (d.record(path_size), d.size()),
        ),
        d.bytes_then(then).skip(d.size() as int) == then,
        d.bytes_then(then).len() == d.size() + then.len(),
{
    reveal(disk_group_at);
    let r6 = d.unknown1 + then;
    let r5 = d.hash + r6;
    let r4 = varint_bytes(d.last_write_time as nat) + r5;
    let r3 = seq![d.cr_type.code()] + r4;
    let r2 = seq![d.encoding.code()] + r3;
    let r1 = varint_bytes(d.file_size as nat) + r2;
    let s = d.path_units + r1;
    let n1 = d.path_units.len();
    let n2 = varint_bytes(d.file_size as nat).len();
    let n5 = varint_bytes(d.last_write_time as nat).len();
    lemma_text_written(d.path_units, path_size, r1);
    assert(path_field(s, path_size) == Ok::<(Seq<char>, nat), ErrorView>(
        (d.record(path_size).path, n1),
    ));
    lemma_varint_field_written(d.file_size, r2, "file_size"@);
    lemma_skip_more(s, n1, n2);
    lemma_byte_field_written(d.encoding.code(), r3, "encoding"@);
    lemma_skip_more(s, n1 + n2, 1);
    lemma_byte_field_written(d.cr_type.code(), r4, "cr_type"@);
    lemma_skip_more(s, n1 + n2 + 1, 1);
    lemma_varint_field_written(d.last_write_time, r5, "last_write_time"@);
    lemma_skip_more(s, n1 + n2 + 2, n5);
    lemma_block_field_written(d.hash, r6, "file_hash"@);
    lemma_skip_more(s, n1 + n2 + 2 + n5, 32);
    lemma_block_field_written(d.unknown1, then, "unknown1"@);
    lemma_skip_more(s, n1 + n2 + 2 + n5 + 32, 2);
    crate::enums::lemma_encoding_of_code(d.encoding);
    crate::enums::lemma_cr_type_of_code(d.cr_type);
}

impl RawTabState {
    /// The buffer has a file on disk.
    pub open spec fn is_saved_file(self) -> bool {
        self.disk is Some
    }

    /// Every text has as many code units as its length says, and they stand
    /// for text; every block has its size; the edits are valid.
    pub open spec fn valid(self) -> bool {
        &&& self.disk matches Some(d) ==> d.valid(self.path_size)
        &&& self.content_units.len() == 2 * self.file_content_size
        &&& units_text(self.content_units, self.file_content_size as nat) is Ok
        &&& self.checksum.len() == 4
        &&& forall|i: int| 0 <= i < self.chunks.len() ==> (#[trigger] self.chunks[i]).valid()
    }

    /// The start of the record that these values stand for.
    pub open spec fn head(self) -> HeadView {
        HeadView {
            signature: signature_bytes(),
            seq_number: self.seq_number,
            is_saved_file: self.is_saved_file(),
            path_size: self.path_size,
        }
    }

    /// The fields on the file on disk of the record that these values stand
    /// for.
    pub open spec fn disk_group(self) -> Option<DiskGroupView> {
        match self.disk {
            Some(d) => Some(d.record(self.path_size)),
            None => None,
        }
    }

    /// The fields on the buffer of the record that these values stand for.
    pub open spec fn body(self) -> BodyView {
        BodyView {
            cursor_start: self.cursor_start,
            cursor_end: self.cursor_end,
            config_block: self.config_block,
            file_content_size: self.file_content_size,
            file_content: units_text(self.content_units, self.file_content_size as nat)->Ok_0,
            contain_unsaved_data: self.contain_unsaved_data,
            checksum: hex_upper(self.checksum),
        }
    }

    /// The edits of the record that these values stand for: absent where
    /// there is none.
    pub open spec fn edits(self) -> Option<Seq<ChunkView>> {
        if self.chunks.len() > 0 {
            Some(chunk_records(self.chunks))
        } else {
            None
        }
    }

    /// The record that these values stand for.
    pub open spec fn record(self) -> TabStateView {
        assemble(self.head(), self.disk_group(), self.body(), self.edits())
    }

    /// The bytes of the start of the file, before `then`.
    pub open spec fn head_bytes(self, then: Seq<u8>) -> Seq<u8> {
        signature_bytes() + (varint_bytes(self.seq_number as nat) + (seq![
            flag_byte(self.is_saved_file()),
        ] + (varint_bytes(self.path_size as nat) + then)))
    }

    /// The number of bytes the start of the file takes.
    pub open spec fn head_size(self) -> nat {
        3 + varint_bytes(self.seq_number as nat).len() + varint_bytes(self.path_size as nat).len()
    }

    /// The bytes of the fields on the file on disk, if there are any, before
    /// `then`.
    pub open spec fn disk_bytes(self, then: Seq<u8>) -> Seq<u8> {
        match self.disk {
            Some(d) => d.bytes_then(then),
            None => then,
        }
    }

    /// The number of bytes the fields on the file on disk take.
    pub open spec fn disk_size(self) -> nat {
        match self.disk {
            Some(d) => d.size(),
            None => 0,
        }
    }

    /// The bytes of the fields on the buffer, before `then`.
    pub open spec fn body_bytes(self, then: Seq<u8>) -> Seq<u8> {
        varint_bytes(self.cursor_start as nat) + (varint_bytes(self.cursor_end as nat)
            + config_block_bytes(
            self.config_block,
            varint_bytes(self.file_content_size as nat) + (self.content_units + (seq![
                flag_byte(self.contain_unsaved_data),
            ] + (self.checksum + then))),
        ))
    }

    /// The number of bytes the fields on the buffer take.
    pub open spec fn body_size(self) -> nat {
        varint_bytes(self.cursor_start as nat).len() + varint_bytes(self.cursor_end as nat).len()
            + config_block_size(self.config_block) + varint_bytes(
            self.file_content_size as nat,
        ).len() + self.content_units.len() + 1 + self.checksum.len()
    }

    /// The bytes of the file: its start, the fields on the file on disk if
    /// the buffer has one, the fields on the buffer, and the edits.
    pub open spec fn bytes(self) -> Seq<u8> {
        self.head_bytes(self.disk_bytes(self.body_bytes(chunks_bytes(self.chunks))))
    }
}

/// The start of a file that was written is decoded as it was, whatever
/// follows, and what follows is left.
proof fn lemma_head_written(raw: RawTabState, then: Seq<u8>)
    ensures
        head_at(raw.head_bytes(then)) == Ok::<(HeadView, nat), ErrorView>(
            (raw.head(), raw.head_size()),
        ),
        raw.head_bytes(then).skip(raw.head_size() as int) == then,
        raw.head_bytes(then).len() == raw.head_size() + then.len(),
{
    reveal(head_at);
    let r3 = varint_bytes(raw.path_size as nat) + then;
    let r2 = seq![flag_byte(raw.is_saved_file())] + r3;
    let r1 = varint_bytes(raw.seq_number as nat) + r2;
    let s = signature_bytes() + r1;
    let n2 = varint_bytes(raw.seq_number as nat).len();
    let n4 = varint_bytes(raw.path_size as nat).len();
    lemma_block_field_written(signature_bytes(), r1, "signature"@);
    assert(signature_bytes().len() == 2);
    lemma_varint_field_written(raw.seq_number, r2, "unknown0"@);
    lemma_skip_more(s, 2, n2);
    lemma_flag_field_written(raw.is_saved_file(), r3, "bool <0x1|0x0>"@, "is_saved_file"@);
    lemma_skip_more(s, 2 + n2, 1);
    lemma_varint_field_written(raw.path_size, then, "path_size"@);
    lemma_skip_more(s, 3 + n2, n4);
}

/// The fields on the buffer that were written are decoded as they were,
/// whatever follows, and what follows is left.
proof fn lemma_body_written(raw: RawTabState, then: Seq<u8>)
    requires
        raw.content_units.len() == 2 * raw.file_content_size,
        units_text(raw.content_units, raw.file_content_size as nat) is Ok,
        raw.checksum.len() == 4,
    ensures
        body_at(raw.body_bytes(then)) == Ok::<(BodyView, nat), ErrorView>(
            (raw.body(), raw.body_size()),
        ),
        raw.body_bytes(then).skip(raw.body_size() as int) == then,
        raw.body_bytes(then).len() == raw.body_size() + then.len(),
{
    let r6 = raw.checksum + then;
    let r5 = seq![flag_byte(raw.contain_unsaved_data)] + r6;
    let r4 = raw.content_units + r5;
    let r3 = varint_bytes(raw.file_content_size as nat) + r4;
    let r2 = config_block_bytes(raw.config_block, r3);
    let r1 = varint_bytes(raw.cursor_end as nat) + r2;
    let s = varint_bytes(raw.cursor_start as nat) + r1;
    let n1 = varint_bytes(raw.cursor_start as nat).len();
    let n2 = varint_bytes(raw.cursor_end as nat).len();
    let n3 = config_block_size(raw.config_block);
    let n4 = varint_bytes(raw.file_content_size as nat).len();
    let n5 = raw.content_units.len();
    assert(s == raw.body_bytes(then));
    lemma_varint_field_written(raw.cursor_start, r1, "cursor_start"@);
    lemma_varint_field_written(raw.cursor_end, r2, "cursor_end"@);
    lemma_config_block_written(raw.config_block, r3);
    lemma_skip_more(s, n1, n2);
    assert(s.skip((n1 + n2) as int) == r2);
    lemma_skip_more(s, n1 + n2, n3);
    assert(s.skip((n1 + n2 + n3) as int) == r3);
    lemma_varint_field_written(raw.file_content_size, r4, "file_content_size"@);
    lemma_skip_more(s, n1 + n2 + n3, n4);
    assert(s.skip((n1 + n2 + n3 + n4) as int) == r4);
    lemma_text_written(raw.content_units, raw.file_content_size, r5);
    assert(text_field(r4, raw.file_content_size, "file_content"@) == Ok::<
        (Seq<char>, nat),
        ErrorView,
    >((raw.body().file_content, n5)));
    lemma_skip_more(s, n1 + n2 + n3 + n4, n5);
    assert(s.skip((n1 + n2 + n3 + n4 + n5) as int) == r5);
    lemma_flag_field_written(
        raw.contain_unsaved_data,
        r6,
        "bool <0x0|0x1>"@,
        "contain_unsaved_data"@,
    );
    lemma_skip_more(s, n1 + n2 + n3 + n4 + n5, 1);
    assert(s.skip((n1 + n2 + n3 + n4 + n5 + 1) as int) == r6);
    lemma_block_field_written(raw.checksum, then, "checksum"@);
    lemma_skip_more(s, n1 + n2 + n3 + n4 + n5 + 1, 4);
    assert(s.skip((n1 + n2 + n3 + n4 + n5 + 1 + 4) as int) == then);
    assert(raw.body_size() == n1 + n2 + n3 + n4 + n5 + 1 + 4);
    reveal(body_at);
}

/// A record that is written out and decoded again is the record it was: each
/// number and flag as it was, each text the one its code units stand for,
/// the hash and the checksums as their bytes in hexadecimal, the edits in
/// their order with their transcript, and all of the input read. What was
/// written ends with whole edits.
pub proof fn lemma_round_trip(raw: RawTabState)
    ensures
        raw.valid() ==> tab_state_at(raw.bytes()) == Ok::<(TabStateView, nat), ErrorView>(
            (raw.record(), raw.bytes().len()),
        ) && ends_with_whole_chunks(raw.bytes()),
{
    if raw.valid() {
        let r3 = chunks_bytes(raw.chunks);
        let r2 = raw.body_bytes(r3);
        let r1 = raw.disk_bytes(r2);
        let s = raw.head_bytes(r1);
        let n1 = raw.head_size();
        let n2 = raw.disk_size();
        let n3 = raw.body_size();
        lemma_head_written(raw, r1);
        match raw.disk {
            Some(d) => {
                lemma_disk_group_written(d, raw.path_size, r2);
            },
            None => {
                assert(r1.skip(0) =~= r2);
            },
        }
        assert(disk_part_at(r1, raw.head()) == Ok::<(Option<DiskGroupView>, nat), ErrorView>(
            (raw.disk_group(), n2),
        ));
        lemma_skip_more(s, n1, n2);
        lemma_body_written(raw, r3);
        lemma_skip_more(s, n1 + n2, n3);
        assert(fields_at(s) == Ok::<(FieldsView, nat), ErrorView>(
            (
                FieldsView { head: raw.head(), disk: raw.disk_group(), body: raw.body() },
                n1 + n2 + n3,
            ),
        ));
        assert(s.skip((n1 + n2 + n3) as int) == r3);
        lemma_chunks_written(raw.chunks);
        assert(edits_at(r3) == Ok::<(Option<Seq<ChunkView>>, nat), ErrorView>(
            (raw.edits(), r3.len()),
        ));
    }
}

} // verus!
