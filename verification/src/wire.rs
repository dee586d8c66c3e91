//! The fields a `TabState` file is made of: single bytes, blocks of fixed
//! size, base-128 integers and UTF-16 text.
//!
//! Each kind of field has a `spec` function that takes the bytes not yet read
//! and gives the field's value with the number of bytes it takes, or the
//! failure. The bytes themselves are read by `byteorder`, `winparsingtools`
//! and `std`, through the small functions at the end of this file whose
//! contracts are taken on trust.
use byteorder::ReadBytesExt;
use vstd::prelude::*;
use vstd::slice::*;
use vstd::string::*;

use crate::errors::{ErrorView, NotepadErrors};
use crate::text::hex_upper;

verus! {

/// The longest base-128 integer that is read: ten bytes carry 70 bits, more
/// than a `u64` holds.
pub const VARINT_MAX_LEN: usize = 10;

/// What the reader of single bytes says when no byte is left in `rest`.
pub uninterp spec fn byte_failure(rest: Seq<u8>) -> Seq<char>;

/// What the reader of blocks says when `rest` holds fewer than `size` bytes.
pub uninterp spec fn block_failure(rest: Seq<u8>, size: nat) -> Seq<char>;

/// What the reader of base-128 integers says when `head` ends before the
/// integer does.
pub uninterp spec fn varint_failure(head: Seq<u8>) -> Seq<char>;

/// The text that `count` UTF-16 code units at the start of `units` stand
/// for, low byte first, or what the decoder says when there is none.
pub uninterp spec fn utf16_text(units: Seq<u8>, count: nat) -> Result<Seq<char>, Seq<char>>;

/// Bytes read as UTF-8, with a replacement character wherever they are not.
pub uninterp spec fn lossy_text(bytes: Seq<u8>) -> Seq<char>;

/// The number of bytes of the base-128 integer at the start of `s`: up to
/// and with the first byte below `0x80`. `None` if every byte has its high
/// bit set.
pub open spec fn varint_len(s: Seq<u8>) -> Option<nat>
    decreases s.len(),
{
    if s.len() == 0 {
        None
    } else if s[0] < 0x80 {
        Some(1)
    } else {
        match varint_len(s.drop_first()) {
            Some(n) => Some(n + 1),
            None => None,
        }
    }
}

/// The number that the first `n` bytes of `s` stand for: seven bits a byte,
/// the lowest seven first.
pub open spec fn varint_sum(s: Seq<u8>, n: nat) -> nat
    decreases n,
{
    if n == 0 {
        0
    } else {
        (s[0] % 128) as nat + 128 * varint_sum(s.drop_first(), (n - 1) as nat)
    }
}

/// Why no base-128 integer could be read.
enum VarintFailure {
    /// The input ended first; holds what the reader said.
    EndOfInput(String),
    /// Ten bytes went by and the integer still goes on.
    TooLong,
}

/// Why no base-128 integer could be read, with what the reader said as a
/// sequence of characters.
pub enum VarintFault {
    EndOfInput(Seq<char>),
    TooLong,
}

impl View for VarintFailure {
    type V = VarintFault;

    closed spec fn view(&self) -> VarintFault {
        match self {
            VarintFailure::EndOfInput(text) => VarintFault::EndOfInput(text@),
            VarintFailure::TooLong => VarintFault::TooLong,
        }
    }
}

impl VarintFault {
    /// The cause, as it goes into an error.
    pub open spec fn cause(self) -> Seq<char> {
        match self {
            VarintFault::EndOfInput(text) => text,
            VarintFault::TooLong => "uleb128 value is longer than 10 bytes"@,
        }
    }
}

impl VarintFailure {
    /// The cause, as it goes into an error.
    fn cause(self) -> (text: String)
        ensures
            text@ == self@.cause(),
    {
        match self {
            VarintFailure::EndOfInput(text) => text,
            VarintFailure::TooLong => String::from_str("uleb128 value is longer than 10 bytes"),
        }
    }
}

/// The base-128 integer at the start of `s`, with the number of bytes it
/// takes. Bits above the 64th are dropped. An integer of more than ten bytes
/// is refused, and so is one that the end of `s` cuts short.
pub open spec fn varint_at(s: Seq<u8>) -> Result<(u64, nat), VarintFault> {
    match varint_len(s) {
        Some(n) => if n <= VARINT_MAX_LEN {
            Ok(((varint_sum(s, n) % 0x1_0000_0000_0000_0000) as u64, n))
        } else {
            Err(VarintFault::TooLong)
        },
        None => if s.len() > VARINT_MAX_LEN {
            Err(VarintFault::TooLong)
        } else {
            Err(VarintFault::EndOfInput(varint_failure(s)))
        },
    }
}

/// The byte at the start of `s`.
pub open spec fn byte_at(s: Seq<u8>) -> Result<(u8, nat), Seq<char>> {
    if s.len() > 0 {
        Ok((s[0], 1))
    } else {
        Err(byte_failure(s))
    }
}

/// The first `size` bytes of `s`.
pub open spec fn block_at(s: Seq<u8>, size: nat) -> Result<(Seq<u8>, nat), Seq<char>> {
    if size <= s.len() {
        Ok((s.take(size as int), size))
    } else {
        Err(block_failure(s, size))
    }
}

/// The text that `count` UTF-16 code units stand for: none for no unit, and
/// else what the decoder gives.
pub open spec fn units_text(units: Seq<u8>, count: nat) -> Result<Seq<char>, Seq<char>> {
    if count == 0 {
        Ok(Seq::empty())
    } else {
        utf16_text(units, count)
    }
}

/// The text of `count` UTF-16 code units at the start of `s`, which take
/// twice as many bytes. Where `s` is too short the failure is the one that
/// the decoder reports when asked for one unit more than `s` holds.
pub open spec fn text_at(s: Seq<u8>, count: u64) -> Result<(Seq<char>, nat), Seq<char>> {
    if 2 * count <= s.len() {
        match units_text(s.take(2 * count), count as nat) {
            Ok(text) => Ok((text, (2 * count) as nat)),
            Err(cause) => Err(cause),
        }
    } else {
        match utf16_text(s, (s.len() / 2 + 1) as nat) {
            Ok(_) => Err(Seq::empty()),
            Err(cause) => Err(cause),
        }
    }
}

/// A field of one byte, named `field` in the failure.
pub open spec fn byte_field(s: Seq<u8>, field: Seq<char>) -> Result<(u8, nat), ErrorView> {
    match byte_at(s) {
        Ok(found) => Ok(found),
        Err(cause) => Err(ErrorView::ReadError(cause, field)),
    }
}

/// A field of `size` bytes, named `field` in the failure.
pub open spec fn block_field(s: Seq<u8>, size: nat, field: Seq<char>) -> Result<
    (Seq<u8>, nat),
    ErrorView,
> {
    match block_at(s, size) {
        Ok(found) => Ok(found),
        Err(cause) => Err(ErrorView::ReadError(cause, field)),
    }
}

/// A field that holds a base-128 integer, named `field` in the failure.
pub open spec fn varint_field(s: Seq<u8>, field: Seq<char>) -> Result<(u64, nat), ErrorView> {
    match varint_at(s) {
        Ok(found) => Ok(found),
        Err(failure) => Err(ErrorView::ReadError(failure.cause(), field)),
    }
}

/// A field that holds a base-128 integer, where the input may as well be at
/// its end: input that ends before the integer does is `EoF`, and any other
/// failure names `field`.
pub open spec fn leading_varint_field(s: Seq<u8>, field: Seq<char>) -> Result<
    (u64, nat),
    ErrorView,
> {
    match varint_at(s) {
        Ok(found) => Ok(found),
        Err(VarintFault::EndOfInput(_)) => Err(ErrorView::EoF),
        Err(failure) => Err(ErrorView::ReadError(failure.cause(), field)),
    }
}

/// A field of `count` UTF-16 code units, named `field` in the failure.
pub open spec fn text_field(s: Seq<u8>, count: u64, field: Seq<char>) -> Result<
    (Seq<char>, nat),
    ErrorView,
> {
    match text_at(s, count) {
        Ok(found) => Ok(found),
        Err(cause) => Err(ErrorView::ReadError(cause, field)),
    }
}

/// A field of one byte that is 0 for `false` and 1 for `true`; `expected`
/// says so in the failure.
pub open spec fn flag_field(s: Seq<u8>, expected: Seq<char>, field: Seq<char>) -> Result<
    (bool, nat),
    ErrorView,
> {
    match byte_field(s, field) {
        Ok((byte, n)) => if byte == 0 {
            Ok((false, n))
        } else if byte == 1 {
            Ok((true, n))
        } else {
            Err(ErrorView::UnexpectedValue(expected, crate::text::decimal_text(byte as nat), field))
        },
        Err(e) => Err(e),
    }
}

/// Where a base-128 integer ends: its last byte is below `0x80` and none
/// before it is.
pub proof fn lemma_varint_len_found(s: Seq<u8>)
    ensures
        match varint_len(s) {
            Some(n) => {
                &&& 1 <= n <= s.len()
                &&& s[n - 1] < 0x80
                &&& forall|i: int| 0 <= i < n - 1 ==> s[i] >= 0x80
            },
            None => forall|i: int| 0 <= i < s.len() ==> s[i] >= 0x80,
        },
    decreases s.len(),
{
    if s.len() > 0 && s[0] >= 0x80 {
        let t = s.drop_first();
        lemma_varint_len_found(t);
        match varint_len(t) {
            Some(m) => {
                assert forall|i: int| 0 <= i < m implies s[i] >= 0x80 by {
                    if i > 0 {
                        assert(s[i] == t[i - 1]);
                    }
                }
                assert(s[m as int] == t[m - 1]);
            },
            None => {
                assert forall|i: int| 0 <= i < s.len() implies s[i] >= 0x80 by {
                    if i > 0 {
                        assert(s[i] == t[i - 1]);
                    }
                }
            },
        }
    }
}

/// The first byte below `0x80` ends the integer.
pub proof fn lemma_varint_len_is(s: Seq<u8>, n: nat)
    requires
        1 <= n <= s.len(),
        s[n - 1] < 0x80,
        forall|i: int| 0 <= i < n - 1 ==> s[i] >= 0x80,
    ensures
        varint_len(s) == Some(n),
    decreases n,
{
    if n > 1 {
        let t = s.drop_first();
        assert(s[0] >= 0x80);
        assert(t[n - 2] == s[n - 1]);
        assert forall|i: int| 0 <= i < n - 2 implies t[i] >= 0x80 by {
            assert(t[i] == s[i + 1]);
        }
        lemma_varint_len_is(t, (n - 1) as nat);
    }
}

/// Input in which every byte has its high bit set holds no integer.
pub proof fn lemma_varint_len_none(s: Seq<u8>)
    requires
        forall|i: int| 0 <= i < s.len() ==> s[i] >= 0x80,
    ensures
        varint_len(s) is None,
    decreases s.len(),
{
    if s.len() > 0 {
        let t = s.drop_first();
        assert forall|i: int| 0 <= i < t.len() implies t[i] >= 0x80 by {
            assert(t[i] == s[i + 1]);
        }
        lemma_varint_len_none(t);
    }
}

/// The number that `n` bytes stand for depends on those bytes alone.
pub proof fn lemma_varint_sum_agrees(a: Seq<u8>, b: Seq<u8>, n: nat)
    requires
        n <= a.len(),
        n <= b.len(),
        forall|i: int| 0 <= i < n ==> a[i] == b[i],
    ensures
        varint_sum(a, n) == varint_sum(b, n),
    decreases n,
{
    if n > 0 {
        let ta = a.drop_first();
        let tb = b.drop_first();
        assert forall|i: int| 0 <= i < n - 1 implies ta[i] == tb[i] by {
            assert(ta[i] == a[i + 1]);
            assert(tb[i] == b[i + 1]);
        }
        lemma_varint_sum_agrees(ta, tb, (n - 1) as nat);
    }
}

/// An integer that `s` holds whole is read the same whatever follows it in
/// `t`, where `s` is the start of `t`.
pub proof fn lemma_varint_at_extends(s: Seq<u8>, t: Seq<u8>)
    requires
        s.len() <= t.len(),
        forall|i: int| 0 <= i < s.len() ==> s[i] == t[i],
        varint_len(s) is Some,
    ensures
        varint_len(t) == varint_len(s),
        varint_sum(t, varint_len(s).unwrap()) == varint_sum(s, varint_len(s).unwrap()),
        varint_at(t) == varint_at(s),
{
    lemma_varint_len_found(s);
    let n = varint_len(s).unwrap();
    lemma_varint_len_is(t, n);
    lemma_varint_sum_agrees(s, t, n);
}

/// A field takes no more bytes than there are, and an integer takes at least
/// one.
pub proof fn lemma_field_bounds(s: Seq<u8>, field: Seq<char>)
    ensures
        varint_field(s, field) matches Ok((_, n)) ==> 1 <= n <= s.len() && n <= VARINT_MAX_LEN,
        byte_field(s, field) matches Ok((_, n)) ==> n == 1 && n <= s.len(),
        forall|size: nat| #[trigger]
            block_field(s, size, field) matches Ok((block, n)) ==> n == size && n <= s.len()
                && block.len() == size,
        forall|count: u64| #[trigger]
            text_field(s, count, field) matches Ok((_, n)) ==> n == 2 * count && n <= s.len(),
        forall|count: u64| #[trigger]
            text_at(s, count) matches Ok((_, n)) ==> n == 2 * count && n <= s.len(),
        forall|expected: Seq<char>| #[trigger]
            flag_field(s, expected, field) matches Ok((_, n)) ==> n == 1 && n <= s.len(),
{
    lemma_varint_len_found(s);
}

/// `s` is the start of `t`.
pub open spec fn starts_with(t: Seq<u8>, s: Seq<u8>) -> bool {
    &&& s.len() <= t.len()
    &&& forall|i: int| 0 <= i < s.len() ==> s[i] == t[i]
}

/// Where `s` is the start of `t`, what is left of `s` after `k` bytes is the
/// start of what is left of `t`, and both have the same first `k` bytes.
pub proof fn lemma_starts_with_skip(t: Seq<u8>, s: Seq<u8>, k: nat)
    requires
        starts_with(t, s),
        k <= s.len(),
    ensures
        starts_with(t.skip(k as int), s.skip(k as int)),
        t.take(k as int) == s.take(k as int),
{
    assert forall|i: int| 0 <= i < s.skip(k as int).len() implies s.skip(k as int)[i] == t.skip(
        k as int,
    )[i] by {
        assert(s.skip(k as int)[i] == s[i + k]);
        assert(t.skip(k as int)[i] == t[i + k]);
    }
    assert(t.take(k as int) =~= s.take(k as int));
}

/// A byte that was read is read the same whatever follows.
pub proof fn lemma_byte_field_extends(s: Seq<u8>, t: Seq<u8>, field: Seq<char>)
    requires
        starts_with(t, s),
        byte_field(s, field) is Ok,
    ensures
        byte_field(t, field) == byte_field(s, field),
{
}

/// A flag that was read, or refused for its value, is the same whatever
/// follows.
pub proof fn lemma_flag_field_extends(
    s: Seq<u8>,
    t: Seq<u8>,
    expected: Seq<char>,
    field: Seq<char>,
)
    requires
        starts_with(t, s),
        s.len() > 0,
    ensures
        flag_field(t, expected, field) == flag_field(s, expected, field),
{
}

/// A block that was read is read the same whatever follows.
pub proof fn lemma_block_field_extends(s: Seq<u8>, t: Seq<u8>, size: nat, field: Seq<char>)
    requires
        starts_with(t, s),
        block_field(s, size, field) is Ok,
    ensures
        block_field(t, size, field) == block_field(s, size, field),
{
    lemma_starts_with_skip(t, s, size);
}

/// An integer that was read is read the same whatever follows.
pub proof fn lemma_varint_field_extends(s: Seq<u8>, t: Seq<u8>, field: Seq<char>)
    requires
        starts_with(t, s),
        varint_field(s, field) is Ok,
    ensures
        varint_field(t, field) == varint_field(s, field),
{
    lemma_varint_at_extends(s, t);
}

/// Text whose code units were all there is decoded the same whatever
/// follows, be it to text or to a failure.
pub proof fn lemma_text_at_extends(s: Seq<u8>, t: Seq<u8>, count: u64)
    requires
        starts_with(t, s),
        2 * count <= s.len(),
    ensures
        text_at(t, count) == text_at(s, count),
{
    lemma_starts_with_skip(t, s, (2 * count) as nat);
}

/// What the first ten bytes say of the integer holds of the whole input.
proof fn lemma_varint_head(s: Seq<u8>)
    requires
        s.len() > VARINT_MAX_LEN,
    ensures
        match varint_len(s.take(VARINT_MAX_LEN as int)) {
            Some(n) => varint_at(s) == Ok::<(u64, nat), VarintFault>(
                ((varint_sum(s.take(VARINT_MAX_LEN as int), n) % 0x1_0000_0000_0000_0000) as u64, n),
            ) && n <= VARINT_MAX_LEN,
            None => varint_at(s) == Err::<(u64, nat), VarintFault>(
                VarintFault::TooLong,
            ),
        },
{
    let head = s.take(VARINT_MAX_LEN as int);
    lemma_varint_len_found(head);
    match varint_len(head) {
        Some(n) => {
            lemma_varint_at_extends(head, s);
        },
        None => {
            lemma_varint_len_found(s);
            match varint_len(s) {
                Some(m) => {
                    if m <= VARINT_MAX_LEN {
                        assert(head[m - 1] == s[m - 1]);
                    }
                },
                None => {},
            }
        },
    }
}

/// Reads the base-128 integer at the start of `rest`.
fn varint_of(rest: &[u8]) -> (r: Result<(u64, usize), VarintFailure>)
    ensures
        match r {
            Ok((value, n)) => varint_at(rest@) == Ok::<(u64, nat), VarintFault>(
                (value, n as nat),
            ) && n <= rest@.len(),
            Err(failure) => varint_at(rest@) == Err::<(u64, nat), VarintFault>(failure@),
        },
{
    if rest.len() > VARINT_MAX_LEN {
        let head = slice_subrange(rest, 0, VARINT_MAX_LEN);
        proof {
            lemma_varint_head(rest@);
        }
        match uleb128_of(head) {
            Ok((value, n)) => Ok((value, n)),
            Err(_) => Err(VarintFailure::TooLong),
        }
    } else {
        proof {
            lemma_varint_len_found(rest@);
        }
        match uleb128_of(rest) {
            Ok((value, n)) => Ok((value, n)),
            Err(text) => Err(VarintFailure::EndOfInput(text)),
        }
    }
}

/// Reads a field that holds a base-128 integer.
pub(crate) fn read_varint_field(rest: &[u8], field: &str) -> (r: Result<
    (u64, usize),
    NotepadErrors,
>)
    ensures
        match r {
            Ok((value, n)) => varint_field(rest@, field@) == Ok::<(u64, nat), ErrorView>(
                (value, n as nat),
            ) && n <= rest@.len(),
            Err(e) => varint_field(rest@, field@) == Err::<(u64, nat), ErrorView>(e@),
        },
{
    match varint_of(rest) {
        Ok(found) => Ok(found),
        Err(failure) => Err(NotepadErrors::ReadError(failure.cause(), String::from_str(field))),
    }
}

/// Reads a field that holds a base-128 integer, where the input may as well
/// be at its end.
pub(crate) fn read_leading_varint_field(rest: &[u8], field: &str) -> (r: Result<
    (u64, usize),
    NotepadErrors,
>)
    ensures
        match r {
            Ok((value, n)) => leading_varint_field(rest@, field@) == Ok::<(u64, nat), ErrorView>(
                (value, n as nat),
            ) && n <= rest@.len(),
            Err(e) => leading_varint_field(rest@, field@) == Err::<(u64, nat), ErrorView>(e@),
        },
{
    match varint_of(rest) {
        Ok(found) => Ok(found),
        Err(VarintFailure::EndOfInput(_)) => Err(NotepadErrors::EoF),
        Err(failure) => Err(NotepadErrors::ReadError(failure.cause(), String::from_str(field))),
    }
}

/// Reads a field of one byte.
pub(crate) fn read_byte_field(rest: &[u8], field: &str) -> (r: Result<(u8, usize), NotepadErrors>)
    ensures
        match r {
            Ok((value, n)) => byte_field(rest@, field@) == Ok::<(u8, nat), ErrorView>(
                (value, n as nat),
            ) && n <= rest@.len(),
            Err(e) => byte_field(rest@, field@) == Err::<(u8, nat), ErrorView>(e@),
        },
{
    match byte_of(rest) {
        Ok(value) => Ok((value, 1)),
        Err(cause) => Err(NotepadErrors::ReadError(cause, String::from_str(field))),
    }
}

/// Reads a field of `N` bytes.
pub(crate) fn read_block_field<const N: usize>(rest: &[u8], field: &str) -> (r: Result<
    ([u8; N], usize),
    NotepadErrors,
>)
    ensures
        match r {
            Ok((value, n)) => block_field(rest@, N as nat, field@) == Ok::<
                (Seq<u8>, nat),
                ErrorView,
            >((value@, n as nat)) && n <= rest@.len(),
            Err(e) => block_field(rest@, N as nat, field@) == Err::<(Seq<u8>, nat), ErrorView>(e@),
        },
{
    match block_of::<N>(rest) {
        Ok(value) => Ok((value, N)),
        Err(cause) => Err(NotepadErrors::ReadError(cause, String::from_str(field))),
    }
}

/// Reads `count` UTF-16 code units as text.
pub(crate) fn text_of(rest: &[u8], count: u64) -> (r: Result<(String, usize), String>)
    ensures
        match r {
            Ok((text, n)) => text_at(rest@, count) == Ok::<(Seq<char>, nat), Seq<char>>(
                (text@, n as nat),
            ) && n <= rest@.len(),
            Err(cause) => text_at(rest@, count) == Err::<(Seq<char>, nat), Seq<char>>(cause@),
        },
{
    let pairs: usize = rest.len() / 2;
    if count <= pairs as u64 {
        let units: usize = count as usize;
        let bytes: usize = 2 * units;
        let run = slice_subrange(rest, 0, bytes);
        match utf16_of(run, units) {
            Ok(text) => {
                assert(count == 0 ==> text@ =~= Seq::<char>::empty());
                Ok((text, bytes))
            },
            Err(cause) => Err(cause),
        }
    } else {
        match utf16_of(rest, pairs + 1) {
            Ok(_) => Err(String::new()),
            Err(cause) => Err(cause),
        }
    }
}

/// Reads a field of `count` UTF-16 code units.
pub(crate) fn read_text_field(rest: &[u8], count: u64, field: &str) -> (r: Result<
    (String, usize),
    NotepadErrors,
>)
    ensures
        match r {
            Ok((text, n)) => text_field(rest@, count, field@) == Ok::<(Seq<char>, nat), ErrorView>(
                (text@, n as nat),
            ) && n <= rest@.len(),
            Err(e) => text_field(rest@, count, field@) == Err::<(Seq<char>, nat), ErrorView>(e@),
        },
{
    match text_of(rest, count) {
        Ok(found) => Ok(found),
        Err(cause) => Err(NotepadErrors::ReadError(cause, String::from_str(field))),
    }
}

/// Reads a field of one byte that must be 0 or 1.
pub(crate) fn read_flag_field(rest: &[u8], expected: &str, field: &str) -> (r: Result<
    (bool, usize),
    NotepadErrors,
>)
    ensures
        match r {
            Ok((value, n)) => flag_field(rest@, expected@, field@) == Ok::<(bool, nat), ErrorView>(
                (value, n as nat),
            ) && n <= rest@.len(),
            Err(e) => flag_field(rest@, expected@, field@) == Err::<(bool, nat), ErrorView>(e@),
        },
{
    match read_byte_field(rest, field) {
        Ok((byte, n)) => {
            if byte == 0 {
                Ok((false, n))
            } else if byte == 1 {
                Ok((true, n))
            } else {
                Err(
                    NotepadErrors::UnexpectedValue(
                        String::from_str(expected),
                        crate::text::decimal(byte as u64),
                        String::from_str(field),
                    ),
                )
            }
        },
        Err(e) => Err(e),
    }
}

/// `byteorder::ReadBytesExt::read_u8` on a slice. Trusted: it gives the first
/// byte, and fails only on a slice without bytes, with a text that depends on
/// nothing but the slice.
#[verifier::external_body]
fn byte_of(rest: &[u8]) -> (r: Result<u8, String>)
    ensures
        match r {
            Ok(value) => rest@.len() > 0 && value == rest@[0],
            Err(cause) => rest@.len() == 0 && cause@ == byte_failure(rest@),
        },
{
    let mut source = rest;
    match source.read_u8() {
        Ok(value) => Ok(value),
        Err(e) => Err(e.to_string()),
    }
}

/// `std::io::Read::read_exact` on a slice, into `N` bytes. Trusted: it gives
/// the first `N` bytes, and fails only on a slice that holds fewer, with a
/// text that depends on nothing but the slice and `N`.
#[verifier::external_body]
fn block_of<const N: usize>(rest: &[u8]) -> (r: Result<[u8; N], String>)
    ensures
        match r {
            Ok(block) => N <= rest@.len() && block@ == rest@.take(N as int),
            Err(cause) => N > rest@.len() && cause@ == block_failure(rest@, N as nat),
        },
{
    let mut block = [0u8; N];
    let mut source = rest;
    match std::io::Read::read_exact(&mut source, &mut block) {
        Ok(()) => Ok(block),
        Err(e) => Err(e.to_string()),
    }
}

/// `winparsingtools::utils::read_uleb128` on a slice of at most ten bytes, so
/// that no byte is shifted by 64 bits or more. Trusted: it reads up to and
/// with the first byte below `0x80`, gives the sum of the low seven bits of
/// each byte read, the `i`-th shifted left by `7 * i` within 64 bits, and the
/// number of bytes read; and fails only where the slice has no byte below
/// `0x80`, with a text that depends on nothing but the slice.
#[verifier::external_body]
fn uleb128_of(head: &[u8]) -> (r: Result<(u64, usize), String>)
    requires
        head@.len() <= VARINT_MAX_LEN,
    ensures
        match r {
            Ok((value, n)) => varint_len(head@) == Some(n as nat) && value == varint_sum(
                head@,
                n as nat,
            ) % 0x1_0000_0000_0000_0000,
            Err(cause) => varint_len(head@) is None && cause@ == varint_failure(head@),
        },
{
    let mut cursor = std::io::Cursor::new(head);
    match winparsingtools::utils::read_uleb128(&mut cursor) {
        Ok(value) => Ok((value, cursor.position() as usize)),
        Err(e) => Err(e.to_string()),
    }
}

/// `winparsingtools::utils::read_utf16_string` on a slice, asked for `count`
/// code units; the slice is not much shorter than what is asked for, so that
/// the buffer it allocates is no larger than the slice. Trusted: what it
/// gives, text or failure, depends on nothing but the slice and `count`; it
/// fails where the slice holds fewer than `count` units; and asked for no
/// unit it gives the empty text.
#[verifier::external_body]
fn utf16_of(units: &[u8], count: usize) -> (r: Result<String, String>)
    requires
        2 * count <= units@.len() + 2,
    ensures
        match r {
            Ok(text) => utf16_text(units@, count as nat) == Ok::<Seq<char>, Seq<char>>(text@),
            Err(cause) => utf16_text(units@, count as nat) == Err::<Seq<char>, Seq<char>>(cause@),
        },
        2 * count > units@.len() ==> r is Err,
        count == 0 ==> r is Ok && r->Ok_0@.len() == 0,
{
    let mut source = units;
    match winparsingtools::utils::read_utf16_string(&mut source, Some(count)) {
        Ok(text) => Ok(text),
        Err(e) => Err(e.to_string()),
    }
}

/// `winparsingtools::utils::bytes_to_hex`. Trusted: it writes each byte as
/// two upper-case hexadecimal digits, in order, with nothing between them.
#[verifier::external_body]
pub(crate) fn hex_of(bytes: &[u8]) -> (text: String)
    ensures
        text@ == hex_upper(bytes@),
{
    winparsingtools::utils::bytes_to_hex(&bytes.to_vec())
}

/// `String::from_utf8_lossy`. Trusted: the text depends on nothing but the
/// bytes.
#[verifier::external_body]
pub(crate) fn lossy_of(bytes: &[u8]) -> (text: String)
    ensures
        text@ == lossy_text(bytes@),
{
    String::from_utf8_lossy(bytes).into_owned()
}

} // verus!
