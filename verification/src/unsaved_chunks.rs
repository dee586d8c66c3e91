//! The edits that a `TabState` file records after the buffer's text, and
//! the transcript that shows them in one line.
use vstd::prelude::*;
use vstd::slice::*;
use vstd::string::*;

use crate::errors::{ErrorView, NotepadErrors};
use crate::reader::ByteReader;
use crate::text::{decimal, decimal_text, frame_one, frame_two, hex_upper};
use crate::wire::{
    block_field, hex_of, leading_varint_field, read_block_field, read_leading_varint_field,
    read_text_field, read_varint_field, text_field, varint_at, varint_field,
};

verus! {

/// One edit: at `position`, `num_of_deletion` characters were removed and
/// `num_of_addition` characters were put in. `data` holds the characters put
/// in, and is there if and only if there are any.
#[derive(Debug)]
pub struct UnsavedChunk {
    position: u64,
    num_of_deletion: u64,
    num_of_addition: u64,
    data: Option<String>,
    checksum: String,
}

/// An [`UnsavedChunk`] with its texts as sequences of characters.
pub struct ChunkView {
    pub position: u64,
    pub num_of_deletion: u64,
    pub num_of_addition: u64,
    pub data: Option<Seq<char>>,
    pub checksum: Seq<char>,
}

impl ChunkView {
    /// Text is present if and only if characters were put in, and the
    /// checksum is four bytes in hexadecimal.
    pub open spec fn well_formed(self) -> bool {
        &&& self.data is Some <==> self.num_of_addition > 0
        &&& self.checksum.len() == 8
    }
}

impl View for UnsavedChunk {
    type V = ChunkView;

    closed spec fn view(&self) -> ChunkView {
        ChunkView {
            position: self.position,
            num_of_deletion: self.num_of_deletion,
            num_of_addition: self.num_of_addition,
            data: match self.data {
                Some(text) => Some(text@),
                None => None,
            },
            checksum: self.checksum@,
        }
    }
}

/// The text of an edit: absent where nothing was put in, else `count` UTF-16
/// code units.
pub open spec fn chunk_text_at(s: Seq<u8>, count: u64) -> Result<
    (Option<Seq<char>>, nat),
    ErrorView,
> {
    if count == 0 {
        Ok((None, 0))
    } else {
        match text_field(s, count, "UnsavedChunk::data"@) {
            Ok((text, n)) => Ok((Some(text), n)),
            Err(e) => Err(e),
        }
    }
}

/// The edit at the start of `s`: `position`, `num_of_deletion` and
/// `num_of_addition` as base-128 integers, the text if there is any, and four
/// bytes of checksum, kept in hexadecimal.
///
/// Input that ends before `position` is read in full is the end of the edits,
/// `EoF`. Input that ends later is a failure.
#[verifier::opaque]
pub open spec fn chunk_at(s: Seq<u8>) -> Result<(ChunkView, nat), ErrorView> {
    match leading_varint_field(s, "UnsavedChunk::position"@) {
        Err(e) => Err(e),
        Ok((position, n1)) => match varint_field(
            s.skip(n1 as int),
            "UnsavedChunk::num_of_deletion"@,
        ) {
            Err(e) => Err(e),
            Ok((num_of_deletion, n2)) => match varint_field(
                s.skip((n1 + n2) as int),
                "UnsavedChunk::num_of_addition"@,
            ) {
                Err(e) => Err(e),
                Ok((num_of_addition, n3)) => match chunk_text_at(
                    s.skip((n1 + n2 + n3) as int),
                    num_of_addition,
                ) {
                    Err(e) => Err(e),
                    Ok((data, n4)) => match block_field(
                        s.skip((n1 + n2 + n3 + n4) as int),
                        4,
                        "checksum"@,
                    ) {
                        Err(e) => Err(e),
                        Ok((sum, n5)) => Ok(
                            (
                                ChunkView {
                                    position,
                                    num_of_deletion,
                                    num_of_addition,
                                    data,
                                    checksum: hex_upper(sum),
                                },
                                n1 + n2 + n3 + n4 + n5,
                            ),
                        ),
                    },
                },
            },
        },
    }
}

/// The edits that `s` holds, one after the other up to the end of the
/// edits, with the number of bytes read, which is all of `s`: where `s` ends
/// within the position of a further edit, those last bytes are read and
/// stand for nothing.
pub open spec fn chunks_at(s: Seq<u8>) -> Result<(Seq<ChunkView>, nat), ErrorView>
    decreases s.len(),
{
    match chunk_at(s) {
        Err(ErrorView::EoF) => Ok((Seq::empty(), s.len())),
        Err(e) => Err(e),
        Ok((chunk, n)) => if 0 < n <= s.len() {
            match chunks_at(s.skip(n as int)) {
                Ok((others, m)) => Ok((seq![chunk] + others, n + m)),
                Err(e) => Err(e),
            }
        } else {
            Ok((seq![chunk], n))
        },
    }
}

/// `s` is made of whole edits and nothing more: it is empty, or an edit
/// ends where `s` ends.
pub open spec fn whole_chunks(s: Seq<u8>) -> bool
    decreases s.len(),
{
    s.len() == 0 || (chunk_at(s) matches Ok((_, n)) && 0 < n <= s.len() && whole_chunks(
        s.skip(n as int),
    ))
}

/// The list of edits that `s` holds, with the number of bytes read, which is
/// all of `s`. No edit at all is `NA`; an edit that cannot be decoded is a
/// failure that holds the message of what went wrong in it.
pub open spec fn chunk_list_at(s: Seq<u8>) -> Result<(Seq<ChunkView>, nat), ErrorView> {
    match chunks_at(s) {
        Ok((chunks, n)) => if chunks.len() > 0 {
            Ok((chunks, n))
        } else {
            Err(ErrorView::NA)
        },
        Err(e) => Err(
            ErrorView::Generic(
                e.message(),
                "UnsavedChunks::from_reader"@,
                "Error during reading list of UnsavedChunk."@,
            ),
        ),
    }
}

/// `[position]:text`, the mark of an addition that does not go on from the
/// one before.
pub open spec fn marked(position: u64, text: Seq<char>) -> Seq<char> {
    "["@ + decimal_text(position as nat) + "]:"@ + text
}

/// What one edit adds to the transcript, where `last` is the position of the
/// addition before it, or 0 if none is kept in mind.
pub open spec fn fragment(chunk: ChunkView, last: u64) -> Seq<char> {
    if chunk.num_of_addition > 0 {
        let text = match chunk.data {
            Some(text) => text,
            None => Seq::empty(),
        };
        if last == 0 {
            marked(chunk.position, text)
        } else if chunk.position == last + 1 {
            text
        } else {
            ","@ + marked(chunk.position, text)
        }
    } else {
        "<DEL:"@ + decimal_text(chunk.position as nat) + ">"@
    }
}

/// The position kept in mind after one edit: that of an addition; after a
/// deletion, one less than before, but not below 0.
pub open spec fn position_after(chunk: ChunkView, last: u64) -> u64 {
    if chunk.num_of_addition > 0 {
        chunk.position
    } else if last > 0 {
        (last - 1) as u64
    } else {
        last
    }
}

/// The transcript of `chunks`, with `last` kept in mind from before.
pub open spec fn transcript_from(chunks: Seq<ChunkView>, last: u64) -> Seq<char>
    decreases chunks.len(),
{
    if chunks.len() == 0 {
        Seq::empty()
    } else {
        fragment(chunks[0], last) + transcript_from(
            chunks.drop_first(),
            position_after(chunks[0], last),
        )
    }
}

/// The transcript of a list of edits: what each adds, in order, with nothing
/// between.
pub open spec fn transcript_of(chunks: Seq<ChunkView>) -> Seq<char> {
    transcript_from(chunks, 0)
}

/// An edit takes at least seven bytes and no more than there are, and what
/// comes out of it is well formed.
pub proof fn lemma_chunk_at(s: Seq<u8>)
    ensures
        chunk_at(s) matches Ok((chunk, n)) ==> 7 <= n <= s.len() && chunk.well_formed(),
{
    reveal(chunk_at);
    if let Ok((chunk, n)) = chunk_at(s) {
        let (position, n1) = varint_at(s)->Ok_0;
        crate::wire::lemma_varint_len_found(s);
        let s1 = s.skip(n1 as int);
        let (num_of_deletion, n2) = varint_at(s1)->Ok_0;
        crate::wire::lemma_varint_len_found(s1);
        let s2 = s.skip((n1 + n2) as int);
        let (num_of_addition, n3) = varint_at(s2)->Ok_0;
        crate::wire::lemma_varint_len_found(s2);
        let s3 = s.skip((n1 + n2 + n3) as int);
        let (data, n4) = chunk_text_at(s3, num_of_addition)->Ok_0;
        let s4 = s.skip((n1 + n2 + n3 + n4) as int);
        let (sum, n5) = block_field(s4, 4, "checksum"@)->Ok_0;
        assert(n5 == 4);
        assert(n == n1 + n2 + n3 + n4 + n5);
    }
}

/// An edit that was decoded is decoded the same whatever follows it.
pub proof fn lemma_chunk_at_extends(s: Seq<u8>, t: Seq<u8>)
    requires
        crate::wire::starts_with(t, s),
        chunk_at(s) is Ok,
    ensures
        chunk_at(t) == chunk_at(s),
{
    reveal(chunk_at);
    let (position, n1) = varint_at(s)->Ok_0;
    crate::wire::lemma_varint_len_found(s);
    crate::wire::lemma_varint_at_extends(s, t);
    let s1 = s.skip(n1 as int);
    let t1 = t.skip(n1 as int);
    crate::wire::lemma_starts_with_skip(t, s, n1);
    crate::wire::lemma_varint_field_extends(s1, t1, "UnsavedChunk::num_of_deletion"@);
    let (num_of_deletion, n2) = varint_at(s1)->Ok_0;
    crate::wire::lemma_varint_len_found(s1);
    let s2 = s.skip((n1 + n2) as int);
    let t2 = t.skip((n1 + n2) as int);
    crate::wire::lemma_starts_with_skip(t, s, n1 + n2);
    crate::wire::lemma_varint_field_extends(s2, t2, "UnsavedChunk::num_of_addition"@);
    let (num_of_addition, n3) = varint_at(s2)->Ok_0;
    crate::wire::lemma_varint_len_found(s2);
    let s3 = s.skip((n1 + n2 + n3) as int);
    let t3 = t.skip((n1 + n2 + n3) as int);
    crate::wire::lemma_starts_with_skip(t, s, n1 + n2 + n3);
    let (data, n4) = chunk_text_at(s3, num_of_addition)->Ok_0;
    if num_of_addition > 0 {
        crate::wire::lemma_text_at_extends(s3, t3, num_of_addition);
    }
    assert(chunk_text_at(t3, num_of_addition) == chunk_text_at(s3, num_of_addition));
    let s4 = s.skip((n1 + n2 + n3 + n4) as int);
    let t4 = t.skip((n1 + n2 + n3 + n4) as int);
    crate::wire::lemma_starts_with_skip(t, s, n1 + n2 + n3 + n4);
    crate::wire::lemma_block_field_extends(s4, t4, 4, "checksum"@);
}

/// A list that was decoded took all the bytes there are, and every edit in it
/// is well formed.
pub proof fn lemma_chunks_at(s: Seq<u8>)
    ensures
        chunks_at(s) matches Ok((chunks, n)) ==> {
            &&& n == s.len()
            &&& forall|i: int| 0 <= i < chunks.len() ==> (#[trigger] chunks[i]).well_formed()
        },
    decreases s.len(),
{
    lemma_chunk_at(s);
    if let Ok((chunk, n)) = chunk_at(s) {
        lemma_chunks_at(s.skip(n as int));
    }
}

/// Input made of whole edits and nothing more, followed by other input: the
/// edits of the first come out, and then whatever the rest holds, be it more
/// edits, the end of the edits, or a failure.
pub proof fn lemma_chunks_joined(s: Seq<u8>, t: Seq<u8>)
    requires
        whole_chunks(s),
    ensures
        chunks_at(s) matches Ok((chunks, n)) && n == s.len() && chunks_at(s + t) == chunks_before(
            chunks,
            s.len(),
            chunks_at(t),
        ),
    decreases s.len(),
{
    let whole = s + t;
    if s.len() == 0 {
        lemma_chunks_end(s);
        assert(whole =~= t);
        match chunks_at(t) {
            Ok((more, m)) => {
                assert(Seq::<ChunkView>::empty() + more =~= more);
            },
            Err(e) => {},
        }
    } else {
        let (chunk, n) = chunk_at(s)->Ok_0;
        let rest = s.skip(n as int);
        assert(crate::wire::starts_with(whole, s));
        lemma_chunk_at_extends(s, whole);
        lemma_chunks_joined(rest, t);
        let others = chunks_at(rest)->Ok_0.0;
        assert(whole.skip(n as int) =~= rest + t);
        match chunks_at(t) {
            Ok((more, m)) => {
                assert(seq![chunk] + (others + more) =~= (seq![chunk] + others) + more);
            },
            Err(e) => {},
        }
    }
}

/// Whole edits followed by whole edits are whole edits.
pub proof fn lemma_whole_chunks_joined(s: Seq<u8>, t: Seq<u8>)
    requires
        whole_chunks(s),
        whole_chunks(t),
    ensures
        whole_chunks(s + t),
    decreases s.len(),
{
    let whole = s + t;
    if s.len() == 0 {
        assert(whole =~= t);
    } else {
        let (chunk, n) = chunk_at(s)->Ok_0;
        assert(crate::wire::starts_with(whole, s));
        lemma_chunk_at_extends(s, whole);
        lemma_whole_chunks_joined(s.skip(n as int), t);
        assert(whole.skip(n as int) =~= s.skip(n as int) + t);
    }
}

/// Input that is one whole edit and nothing more is a list of that edit.
pub proof fn lemma_chunks_of_one(s: Seq<u8>)
    requires
        chunk_at(s) matches Ok((chunk, n)) && n == s.len(),
    ensures
        whole_chunks(s),
        chunks_at(s) == Ok::<(Seq<ChunkView>, nat), ErrorView>(
            (seq![chunk_at(s)->Ok_0.0], s.len()),
        ),
{
    let (chunk, n) = chunk_at(s)->Ok_0;
    lemma_chunk_at(s);
    let rest = s.skip(n as int);
    assert(rest.len() == 0);
    assert(whole_chunks(rest));
    lemma_chunks_end(rest);
    assert(seq![chunk] + Seq::<ChunkView>::empty() =~= seq![chunk]);
}

/// Input that ends where an edit would begin holds no further edit. So does
/// input that ends within the position of an edit: bytes with their high bit
/// set, no more than ten, are read and make no edit.
pub proof fn lemma_chunks_end(t: Seq<u8>)
    requires
        t.len() <= crate::wire::VARINT_MAX_LEN,
        forall|i: int| 0 <= i < t.len() ==> t[i] >= 0x80,
    ensures
        chunks_at(t) == Ok::<(Seq<ChunkView>, nat), ErrorView>((Seq::empty(), t.len())),
{
    reveal(chunk_at);
    crate::wire::lemma_varint_len_none(t);
}

/// Input cut off one byte into an edit, where that byte is the whole
/// position: the edit fails for want of its next field.
pub proof fn lemma_chunk_cut_after_position(b: u8)
    requires
        b < 0x80,
    ensures
        chunks_at(seq![b]) == Err::<(Seq<ChunkView>, nat), ErrorView>(
            ErrorView::ReadError(
                crate::wire::varint_failure(Seq::empty()),
                "UnsavedChunk::num_of_deletion"@,
            ),
        ),
{
    reveal(chunk_at);
    let s = seq![b];
    crate::wire::lemma_varint_len_is(s, 1);
    assert(crate::wire::varint_len(s) == Some(1nat));
    let rest = s.skip(1);
    assert(rest =~= Seq::<u8>::empty());
    assert(crate::wire::varint_len(rest) is None);
}

/// A list of whole edits, cut off at the end of one of them, is decoded
/// without failure. Cut off one byte later, where that byte is the whole
/// position of a new edit, it is a failure and no shorter list; where that
/// byte is the start of a position that goes on, it is the same list, and
/// the byte is read with it.
pub proof fn lemma_list_cut_short(s: Seq<u8>, b: u8)
    requires
        whole_chunks(s),
    ensures
        chunks_at(s) matches Ok((chunks, n)) && n == s.len() && chunk_list_at(s) == if s.len()
            > 0 {
            Ok::<(Seq<ChunkView>, nat), ErrorView>((chunks, s.len()))
        } else {
            Err::<(Seq<ChunkView>, nat), ErrorView>(ErrorView::NA)
        },
        b < 0x80 ==> chunk_list_at(s.push(b)) matches Err(ErrorView::Generic(_, _, _)),
        b >= 0x80 ==> chunks_at(s.push(b)) == Ok::<(Seq<ChunkView>, nat), ErrorView>(
            (chunks_at(s)->Ok_0.0, s.len() + 1),
        ),
{
    lemma_chunks_joined(s, seq![b]);
    let chunks = chunks_at(s)->Ok_0.0;
    if s.len() > 0 {
        assert(chunks.len() > 0);
    } else {
        lemma_chunks_end(s);
    }
    assert(s + seq![b] =~= s.push(b));
    if b < 0x80 {
        lemma_chunk_cut_after_position(b);
    } else {
        lemma_chunks_end(seq![b]);
        assert(chunks + Seq::<ChunkView>::empty() =~= chunks);
    }
}

/// Reads the edit at the start of `rest`.
pub(crate) fn chunk_of(rest: &[u8]) -> (r: Result<(UnsavedChunk, usize), NotepadErrors>)
    ensures
        match r {
            Ok((chunk, n)) => chunk_at(rest@) == Ok::<(ChunkView, nat), ErrorView>(
                (chunk@, n as nat),
            ) && 7 <= n <= rest@.len(),
            Err(e) => chunk_at(rest@) == Err::<(ChunkView, nat), ErrorView>(e@),
        },
{
    proof {
        reveal(chunk_at);
    }
    let len = rest.len();
    let (position, n1) = match read_leading_varint_field(rest, "UnsavedChunk::position") {
        Ok(found) => found,
        Err(e) => return Err(e),
    };
    let mut at: usize = n1;
    let (num_of_deletion, n2) = match read_varint_field(
        slice_subrange(rest, at, len),
        "UnsavedChunk::num_of_deletion",
    ) {
        Ok(found) => found,
        Err(e) => return Err(e),
    };
    at = at + n2;
    let (num_of_addition, n3) = match read_varint_field(
        slice_subrange(rest, at, len),
        "UnsavedChunk::num_of_addition",
    ) {
        Ok(found) => found,
        Err(e) => return Err(e),
    };
    at = at + n3;
    let data = if num_of_addition == 0 {
        None
    } else {
        match read_text_field(slice_subrange(rest, at, len), num_of_addition, "UnsavedChunk::data") {
            Ok((text, n4)) => {
                at = at + n4;
                Some(text)
            },
            Err(e) => return Err(e),
        }
    };
    let (sum, n5) = match read_block_field::<4>(slice_subrange(rest, at, len), "checksum") {
        Ok(found) => found,
        Err(e) => return Err(e),
    };
    at = at + n5;
    let checksum = hex_of(sum.as_slice());
    proof {
        lemma_chunk_at(rest@);
    }
    Ok((UnsavedChunk { position, num_of_deletion, num_of_addition, data, checksum }, at))
}

impl UnsavedChunk {
    #[verifier::type_invariant]
    spec fn text_iff_addition(self) -> bool {
        &&& self.data is Some <==> self.num_of_addition > 0
        &&& self.checksum@.len() == 8
    }

    /// An edit made of the given values, if they are well formed: `data` is
    /// there if and only if `num_of_addition` is above 0, and `checksum` has
    /// eight characters.
    pub fn new(
        position: u64,
        num_of_deletion: u64,
        num_of_addition: u64,
        data: Option<String>,
        checksum: String,
    ) -> (r: Option<Self>)
        ensures
            ({
                let view = ChunkView {
                    position,
                    num_of_deletion,
                    num_of_addition,
                    data: match data {
                        Some(text) => Some(text@),
                        None => None,
                    },
                    checksum: checksum@,
                };
                match r {
                    Some(chunk) => chunk@ == view && view.well_formed(),
                    None => !view.well_formed(),
                }
            }),
    {
        let present = data.is_some();
        let added = num_of_addition > 0;
        if present == added && checksum.as_str().unicode_len() == 8 {
            Some(UnsavedChunk { position, num_of_deletion, num_of_addition, data, checksum })
        } else {
            None
        }
    }

    /// Decodes one edit from the unread bytes of `reader`, and moves `reader`
    /// past it. Where no edit can be decoded `reader` stays where it is.
    pub fn from_reader(reader: &mut ByteReader) -> (r: Result<Self, NotepadErrors>)
        ensures
            match chunk_at(old(reader).unread()) {
                Ok((chunk, n)) => r matches Ok(found) && found@ == chunk && final(reader).moved_on(
                    *old(reader),
                    n,
                ),
                Err(e) => r matches Err(found) && found@ == e && final(reader).moved_on(
                    *old(reader),
                    0,
                ),
            },
            r matches Ok(found) ==> found@.well_formed(),
    {
        match chunk_of(reader.rest()) {
            Ok((chunk, n)) => {
                proof {
                    lemma_chunk_at(reader.unread());
                }
                reader.advance(n);
                Ok(chunk)
            },
            Err(e) => Err(e),
        }
    }

    /// Where in the buffer the edit was made.
    pub fn position(&self) -> (p: u64)
        ensures
            p == self@.position,
    {
        self.position
    }

    /// How many characters were removed.
    pub fn num_of_deletion(&self) -> (n: u64)
        ensures
            n == self@.num_of_deletion,
    {
        self.num_of_deletion
    }

    /// How many characters were put in.
    pub fn num_of_addition(&self) -> (n: u64)
        ensures
            n == self@.num_of_addition,
    {
        self.num_of_addition
    }

    /// The characters put in; `None` if and only if there are none.
    pub fn data(&self) -> (text: Option<&String>)
        ensures
            self@.well_formed(),
            match text {
                Some(t) => self@.data == Some(t@),
                None => self@.data is None,
            },
    {
        proof {
            use_type_invariant(self);
        }
        match &self.data {
            Some(text) => Some(text),
            None => None,
        }
    }

    /// The four bytes that close the edit, in hexadecimal.
    pub fn checksum(&self) -> (text: &String)
        ensures
            text@ == self@.checksum,
    {
        &self.checksum
    }
}

/// The edits of a file, in the order in which they were made. There is at
/// least one.
#[derive(Debug)]
pub struct UnsavedChunks(Vec<UnsavedChunk>);

/// The views of edits, in order.
pub open spec fn chunk_views(chunks: Seq<UnsavedChunk>) -> Seq<ChunkView> {
    Seq::new(chunks.len(), |i: int| chunks[i]@)
}

impl View for UnsavedChunks {
    type V = Seq<ChunkView>;

    closed spec fn view(&self) -> Seq<ChunkView> {
        chunk_views(self.0@)
    }
}

/// `found` edits that take `used` bytes, before whatever `then` says of the
/// bytes that follow them.
pub open spec fn chunks_before(
    found: Seq<ChunkView>,
    used: nat,
    then: Result<(Seq<ChunkView>, nat), ErrorView>,
) -> Result<(Seq<ChunkView>, nat), ErrorView> {
    match then {
        Ok((others, m)) => Ok((found + others, used + m)),
        Err(e) => Err(e),
    }
}

/// Reading the edits one by one, from the front: after some of them, what is
/// still to come follows by the same rule.
proof fn lemma_chunks_step(s: Seq<u8>, found: Seq<ChunkView>, used: nat)
    requires
        used <= s.len(),
        chunks_at(s) == chunks_before(found, used, chunks_at(s.skip(used as int))),
    ensures
        match chunk_at(s.skip(used as int)) {
            Err(ErrorView::EoF) => chunks_at(s) == Ok::<(Seq<ChunkView>, nat), ErrorView>(
                (found, s.len()),
            ),
            Err(e) => chunks_at(s) == Err::<(Seq<ChunkView>, nat), ErrorView>(e),
            Ok((chunk, n)) => chunks_at(s) == chunks_before(
                found.push(chunk),
                used + n,
                chunks_at(s.skip((used + n) as int)),
            ) && used + n <= s.len(),
        },
{
    let here = s.skip(used as int);
    lemma_chunk_at(here);
    match chunk_at(here) {
        Err(ErrorView::EoF) => {
            assert(found + Seq::<ChunkView>::empty() =~= found);
        },
        Err(e) => {},
        Ok((chunk, n)) => {
            assert(here.skip(n as int) =~= s.skip((used + n) as int));
            match chunks_at(here.skip(n as int)) {
                Ok((others, m)) => {
                    assert(found + (seq![chunk] + others) =~= found.push(chunk) + others);
                },
                Err(e) => {},
            }
        },
    }
}

/// Reads the edits that `rest` holds, and all of `rest` with them.
fn chunks_of(rest: &[u8]) -> (r: Result<(Vec<UnsavedChunk>, usize), NotepadErrors>)
    ensures
        match r {
            Ok((chunks, n)) => chunks_at(rest@) == Ok::<(Seq<ChunkView>, nat), ErrorView>(
                (chunk_views(chunks@), n as nat),
            ) && n == rest@.len(),
            Err(e) => chunks_at(rest@) == Err::<(Seq<ChunkView>, nat), ErrorView>(e@),
        },
{
    let len = rest.len();
    let mut chunks: Vec<UnsavedChunk> = Vec::new();
    let mut at: usize = 0;
    assert(rest@.skip(0) =~= rest@);
    assert(Seq::<ChunkView>::empty() + chunks_at(rest@)->Ok_0.0 =~= chunks_at(rest@)->Ok_0.0);
    assert(chunk_views(chunks@) =~= Seq::<ChunkView>::empty());
    loop
        invariant
            len == rest@.len(),
            at <= len,
            chunks_at(rest@) == chunks_before(
                chunk_views(chunks@),
                at as nat,
                chunks_at(rest@.skip(at as int)),
            ),
        decreases len - at,
    {
        proof {
            lemma_chunks_step(rest@, chunk_views(chunks@), at as nat);
        }
        match chunk_of(slice_subrange(rest, at, len)) {
            Ok((chunk, n)) => {
                proof {
                    assert(chunk_views(chunks@.push(chunk)) =~= chunk_views(chunks@).push(chunk@));
                }
                chunks.push(chunk);
                at = at + n;
            },
            Err(NotepadErrors::EoF) => {
                return Ok((chunks, len));
            },
            Err(e) => {
                return Err(e);
            },
        }
    }
}

/// Reads the list of edits that `rest` holds, and all of `rest` with it.
pub(crate) fn chunk_list_of(rest: &[u8]) -> (r: Result<(UnsavedChunks, usize), NotepadErrors>)
    ensures
        match r {
            Ok((list, n)) => chunk_list_at(rest@) == Ok::<(Seq<ChunkView>, nat), ErrorView>(
                (list@, n as nat),
            ) && n == rest@.len(),
            Err(e) => chunk_list_at(rest@) == Err::<(Seq<ChunkView>, nat), ErrorView>(e@),
        },
{
    match chunks_of(rest) {
        Ok((chunks, n)) => {
            if chunks.len() > 0 {
                Ok((UnsavedChunks(chunks), n))
            } else {
                Err(NotepadErrors::NA)
            }
        },
        Err(e) => Err(
            NotepadErrors::Generic(
                e.message(),
                String::from_str("UnsavedChunks::from_reader"),
                String::from_str("Error during reading list of UnsavedChunk."),
            ),
        ),
    }
}

impl UnsavedChunks {
    #[verifier::type_invariant]
    spec fn not_empty(self) -> bool {
        self.0@.len() > 0
    }

    /// A list of the given edits, if there is at least one.
    pub fn new(chunks: Vec<UnsavedChunk>) -> (r: Option<Self>)
        ensures
            match r {
                Some(list) => list@ == chunk_views(chunks@) && chunks@.len() > 0,
                None => chunks@.len() == 0,
            },
    {
        if chunks.len() > 0 {
            Some(UnsavedChunks(chunks))
        } else {
            None
        }
    }

    /// Decodes edits from the unread bytes of `reader` until the input ends
    /// where a new edit would begin, or within the position of one, and
    /// leaves `reader` at the end of its input. The result is `NA` where
    /// there is no edit, and a failure where the input ends later within an
    /// edit; `reader` then stays where it is.
    pub fn from_reader(reader: &mut ByteReader) -> (r: Result<Self, NotepadErrors>)
        ensures
            match chunk_list_at(old(reader).unread()) {
                Ok((chunks, n)) => r matches Ok(found) && found@ == chunks && final(
                    reader
                ).moved_on(*old(reader), n),
                Err(e) => r matches Err(found) && found@ == e && final(reader).moved_on(
                    *old(reader),
                    0,
                ),
            },
            r matches Ok(found) ==> found@.len() > 0,
            r is Ok ==> final(reader).unread().len() == 0,
    {
        match chunk_list_of(reader.rest()) {
            Ok((list, n)) => {
                reader.advance(n);
                Ok(list)
            },
            Err(e) => Err(e),
        }
    }

    /// The number of edits, which is at least one.
    pub fn len(&self) -> (n: usize)
        ensures
            n == self@.len(),
            n > 0,
    {
        proof {
            use_type_invariant(self);
        }
        self.0.len()
    }

    /// The edit at index `i`, if there is one.
    pub fn get(&self, i: usize) -> (chunk: Option<&UnsavedChunk>)
        ensures
            match chunk {
                Some(c) => i < self@.len() && c@ == self@[i as int],
                None => i >= self@.len(),
            },
    {
        if i < self.0.len() {
            Some(&self.0[i])
        } else {
            None
        }
    }

    /// The edits in one line. An addition is written as its text, after
    /// `[position]:` where it does not go on from the addition before it; a
    /// deletion as `<DEL:position>`.
    pub fn transcript(&self) -> (text: String)
        ensures
            text@ == transcript_of(self@),
    {
        let n = self.0.len();
        let mut text = String::new();
        let mut last: u64 = 0;
        let mut i: usize = 0;
        let ghost all = self@;
        assert(all.skip(0) =~= all);
        assert(Seq::<char>::empty() + transcript_from(all, 0) =~= transcript_from(all, 0));
        while i < n
            invariant
                n == self.0@.len(),
                all == self@,
                all.len() == n,
                i <= n,
                transcript_of(all) == text@ + transcript_from(all.skip(i as int), last),
            decreases n - i,
        {
            let chunk = &self.0[i];
            let ghost here = all.skip(i as int);
            assert(here[0] == chunk@);
            assert(here.drop_first() =~= all.skip(i + 1));
            let piece = render(chunk, last);
            last = follow(chunk, last);
            assert(text@ + (piece@ + transcript_from(all.skip(i + 1), last)) =~= text@ + piece@
                + transcript_from(all.skip(i + 1), last));
            text.append(piece.as_str());
            i = i + 1;
        }
        assert(text@ + Seq::<char>::empty() =~= text@);
        text
    }
}

/// What one edit adds to the transcript.
fn render(chunk: &UnsavedChunk, last: u64) -> (piece: String)
    ensures
        piece@ == fragment(chunk@, last),
{
    let position = decimal(chunk.position);
    if chunk.num_of_addition > 0 {
        let empty = String::new();
        let text: &String = match &chunk.data {
            Some(text) => text,
            None => &empty,
        };
        let contiguous = last < u64::MAX && chunk.position == last + 1;
        if last == 0 {
            let piece = frame_two("[", position.as_str(), "]:", text.as_str(), empty.as_str());
            assert(piece@ =~= marked(chunk@.position, text@));
            piece
        } else if contiguous {
            let piece = frame_one(empty.as_str(), text.as_str(), empty.as_str());
            assert(piece@ =~= text@);
            piece
        } else {
            let piece = frame_two(",[", position.as_str(), "]:", text.as_str(), empty.as_str());
            proof {
                reveal_strlit(",[");
                reveal_strlit(",");
                reveal_strlit("[");
                assert(",["@ =~= ","@ + "["@);
                assert(piece@ =~= ","@ + marked(chunk@.position, text@));
            }
            piece
        }
    } else {
        frame_one("<DEL:", position.as_str(), ">")
    }
}

/// The position to keep in mind after one edit.
fn follow(chunk: &UnsavedChunk, last: u64) -> (next: u64)
    ensures
        next == position_after(chunk@, last),
{
    if chunk.num_of_addition > 0 {
        chunk.position
    } else if last > 0 {
        last - 1
    } else {
        last
    }
}

} // verus!
