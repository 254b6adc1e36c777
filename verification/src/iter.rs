//! The decoder: one outcome for each encoded unit that it attempts.
//!
//! A `Chars` never reads by itself. Its caller reads from the byte source, as
//! many bytes as `wanted` says at most, and hands the result of each read to
//! `advance`, which says whether the unit in progress needs another read, is
//! over with an outcome, or whether the stream ended between two units.

use crate::utf8::{
    decode_unit, lead_width, lemma_unit_is_valid_utf8, unit_scalar, utf8_char_width,
};
use vstd::prelude::*;
use vstd::slice::{slice_subrange, slice_to_vec};
use vstd::utf8::*;

verus! {

/// The raw bytes that one step of the decoder consumed.
#[derive(Clone, Copy, Debug, PartialEq, Eq)]
pub enum ReadBytes {
    /// The lead byte alone decided the step.
    FirstByte(u8),
    /// A longer unit was attempted: its buffer, and how many bytes of it were
    /// read. The rest of the buffer is zero.
    WholeBuffer([u8; 4], usize),
}

impl View for ReadBytes {
    type V = Seq<u8>;

    /// The bytes read, in the order in which they came.
    open spec fn view(&self) -> Seq<u8> {
        match *self {
            ReadBytes::FirstByte(byte) => seq![byte],
            ReadBytes::WholeBuffer(buf, len) => buf@.subrange(0, len as int),
        }
    }
}

impl ReadBytes {
    /// A buffer holds 1 to 4 bytes.
    pub open spec fn wf(&self) -> bool {
        match *self {
            ReadBytes::FirstByte(_) => true,
            ReadBytes::WholeBuffer(_, len) => 1 <= len <= 4,
        }
    }

    /// The number of raw bytes.
    pub fn len(&self) -> (len: usize)
        requires
            self.wf(),
        ensures
            len == self@.len(),
            1 <= len <= 4,
    {
        match *self {
            ReadBytes::FirstByte(_) => 1,
            ReadBytes::WholeBuffer(_, len) => len,
        }
    }

    /// The raw bytes, in the order in which they came.
    pub fn to_vec(&self) -> (bytes: Vec<u8>)
        requires
            self.wf(),
        ensures
            bytes@ == self@,
    {
        match self {
            ReadBytes::FirstByte(byte) => {
                let mut bytes = Vec::new();
                bytes.push(*byte);
                bytes
            },
            ReadBytes::WholeBuffer(buf, len) => slice_to_vec(
                slice_subrange(buf.as_slice(), 0, *len),
            ),
        }
    }
}

/// What one step of the decoder found. Malformed input is no error: it is an
/// outcome like any other, and keeps its bytes.
#[derive(Clone, Copy, Debug, PartialEq, Eq)]
pub enum ReadChar {
    /// The bytes encode this scalar.
    Valid(char, ReadBytes),
    /// The bytes encode nothing.
    Invalid(ReadBytes),
}

impl ReadChar {
    /// The raw bytes are well-formed.
    pub open spec fn wf(&self) -> bool {
        match *self {
            ReadChar::Valid(_, bytes) => bytes.wf(),
            ReadChar::Invalid(bytes) => bytes.wf(),
        }
    }

    /// The raw bytes of the outcome.
    pub open spec fn raw(&self) -> Seq<u8> {
        match *self {
            ReadChar::Valid(_, bytes) => bytes@,
            ReadChar::Invalid(bytes) => bytes@,
        }
    }

    /// The raw bytes, whether or not they encode a scalar.
    pub fn bytes(&self) -> (bytes: ReadBytes)
        ensures
            bytes == match *self {
                ReadChar::Valid(_, bytes) => bytes,
                ReadChar::Invalid(bytes) => bytes,
            },
            bytes@ == self.raw(),
            bytes.wf() == self.wf(),
    {
        match *self {
            ReadChar::Valid(_, bytes) => bytes,
            ReadChar::Invalid(bytes) => bytes,
        }
    }
}

/// The byte at `i`, or zero past the end.
pub open spec fn byte_or_zero(raw: Seq<u8>, i: int) -> u8 {
    if 0 <= i < raw.len() {
        raw[i]
    } else {
        0
    }
}

/// The four-byte buffer that starts with `raw` and is zero after it.
pub open spec fn zero_padded(raw: Seq<u8>) -> [u8; 4] {
    [byte_or_zero(raw, 0), byte_or_zero(raw, 1), byte_or_zero(raw, 2), byte_or_zero(raw, 3)]
}

/// The raw bytes of a longer unit, as the decoder hands them out: in a
/// buffer that is zero after them, with their number.
pub open spec fn buffered(raw: Seq<u8>) -> ReadBytes {
    ReadBytes::WholeBuffer(zero_padded(raw), raw.len() as usize)
}

/// The outcome of a step that its lead byte decides: a scalar of the
/// single-byte range, or a byte that can start no unit.
pub open spec fn lead_outcome(lead: u8) -> ReadChar {
    if lead_width(lead) == 1 {
        ReadChar::Valid(lead as char, ReadBytes::FirstByte(lead))
    } else {
        ReadChar::Invalid(ReadBytes::FirstByte(lead))
    }
}

/// The outcome of a longer unit all of whose bytes were read.
pub open spec fn unit_outcome(raw: Seq<u8>) -> ReadChar {
    match unit_scalar(raw) {
        Some(scalar) => ReadChar::Valid(scalar, buffered(raw)),
        None => ReadChar::Invalid(buffered(raw)),
    }
}

/// The outcome of a longer unit that the end of the stream cut short: the
/// bytes that did come, and no more.
pub open spec fn truncated_outcome(raw: Seq<u8>) -> ReadChar {
    ReadChar::Invalid(buffered(raw))
}

/// What holds of every outcome, whatever the input was.
///
/// - It is well-formed, and has 1 to 4 raw bytes.
/// - A valid one carries the scalar that its bytes decode to by themselves,
///   and that scalar encodes to these bytes again.
/// - An invalid one has a lead byte that can start no unit, or fewer bytes
///   than its lead byte calls for, or all of them and no scalar in them.
pub open spec fn sound(item: ReadChar) -> bool {
    let raw = item.raw();
    &&& item.wf()
    &&& 1 <= raw.len() <= 4
    &&& match item {
        ReadChar::Valid(scalar, _) => {
            &&& unit_scalar(raw) == Some(scalar)
            &&& encode_scalar(scalar as u32) == raw
        },
        ReadChar::Invalid(_) => {
            ||| lead_width(raw[0]) == 0
            ||| raw.len() < lead_width(raw[0])
            ||| raw.len() == lead_width(raw[0]) && unit_scalar(raw) is None
        },
    }
}

/// The buffer of a longer unit holds the unit's bytes and its length.
pub proof fn lemma_buffer_view(raw: Seq<u8>)
    requires
        raw.len() <= 4,
    ensures
        buffered(raw)@ == raw,
        raw.len() >= 1 ==> buffered(raw).wf(),
{
    assert(zero_padded(raw)@.subrange(0, raw.len() as int) =~= raw);
}

/// A byte of the single-byte range decodes to the scalar of its own value.
pub proof fn lemma_single_byte_scalar(byte: u8)
    by (bit_vector)
    requires
        byte <= 0x7F,
    ensures
        codepoint_width_1(byte) == byte as u32,
        leading_byte_width_1(byte as u32) == byte,
{
}

/// The outcome of a lead byte that decides by itself is sound.
pub proof fn lemma_lead_outcome_sound(lead: u8)
    requires
        lead_width(lead) <= 1,
    ensures
        sound(lead_outcome(lead)),
        lead_outcome(lead).raw() == seq![lead],
{
    if lead_width(lead) == 1 {
        lemma_single_byte_scalar(lead);
        let raw = seq![lead];
        assert(valid_first_scalar(raw));
        assert(decode_first_scalar(raw) as char == lead as char);
        assert(encode_scalar(lead as char as u32) =~= raw);
    }
}

/// The outcome of a full unit is sound.
pub proof fn lemma_unit_outcome_sound(raw: Seq<u8>)
    requires
        2 <= raw.len() == lead_width(raw[0]),
    ensures
        sound(unit_outcome(raw)),
        unit_outcome(raw).raw() == raw,
{
    lemma_buffer_view(raw);
    if unit_scalar(raw) is Some {
        lemma_unit_is_valid_utf8(raw);
        decode_utf8_first_scalar(raw);
        assert(take_first_scalar(raw) =~= raw);
    }
}

/// The outcome of a unit that the end of the stream cut short is sound.
pub proof fn lemma_truncated_outcome_sound(raw: Seq<u8>)
    requires
        1 <= raw.len() < lead_width(raw[0]),
    ensures
        sound(truncated_outcome(raw)),
        truncated_outcome(raw).raw() == raw,
{
    lemma_buffer_view(raw);
}

/// What the decoder makes of one read.
#[derive(Debug)]
pub enum Step<E> {
    /// The unit in progress is incomplete: read again.
    Continue,
    /// The step is over, with an outcome or with the source's error.
    Yield(Result<ReadChar, E>),
    /// The stream ended between two units: the sequence is over.
    Finish,
}

/// How many bytes the next read may bring at most, given the bytes of the
/// unit in progress: the lead byte alone, then what its unit still lacks.
pub open spec fn bytes_wanted(pending: Seq<u8>) -> nat {
    if pending.len() == 0 {
        1
    } else {
        (lead_width(pending[0]) - pending.len()) as nat
    }
}

/// One read, as the specifications see it: the bytes that came (none at the
/// end of the stream), or the source's error.
pub open spec fn read_view<E>(read: Result<&[u8], E>) -> Result<Seq<u8>, E> {
    match read {
        Ok(bytes) => Ok(bytes@),
        Err(error) => Err(error),
    }
}

/// The decoder's transition: from the bytes of the unit in progress and one
/// read, to the bytes in progress after it and what the step comes to.
///
/// - An error ends the step; the bytes in progress are given up.
/// - The end of the stream between two units ends the sequence; inside a
///   unit it makes the unit invalid, at the length that was read.
/// - A lead byte of width 0 or 1 is an outcome by itself.
/// - Otherwise bytes are collected until the unit is full, and the full unit
///   is valid or not as a whole.
pub open spec fn step<E>(pending: Seq<u8>, read: Result<Seq<u8>, E>) -> (Seq<u8>, Step<E>) {
    match read {
        Err(error) => (Seq::empty(), Step::Yield(Err(error))),
        Ok(bytes) => {
            let raw = pending + bytes;
            if bytes.len() == 0 {
                if pending.len() == 0 {
                    (Seq::empty(), Step::Finish)
                } else {
                    (Seq::empty(), Step::Yield(Ok(truncated_outcome(pending))))
                }
            } else if lead_width(raw[0]) <= 1 {
                (Seq::empty(), Step::Yield(Ok(lead_outcome(raw[0]))))
            } else if raw.len() < lead_width(raw[0]) {
                (raw, Step::Continue)
            } else {
                (Seq::empty(), Step::Yield(Ok(unit_outcome(raw))))
            }
        },
    }
}

/// What the bytes of a unit in progress can be: a lead byte of width 2 to 4
/// and fewer continuation bytes than it calls for, or nothing at all.
pub open spec fn partial_unit(pending: Seq<u8>) -> bool {
    pending.len() == 0 || pending.len() < lead_width(pending[0])
}

/// The outcomes that a step hands out: one, or none.
pub open spec fn yielded<E>(outcome: Step<E>) -> Seq<ReadChar> {
    match outcome {
        Step::Yield(Ok(item)) => seq![item],
        _ => Seq::empty(),
    }
}

/// Every step keeps the decoder's state well-formed, and every outcome that
/// it hands out is sound.
pub proof fn lemma_step_sound<E>(pending: Seq<u8>, read: Result<Seq<u8>, E>)
    requires
        partial_unit(pending),
        read matches Ok(bytes) ==> bytes.len() <= bytes_wanted(pending),
    ensures
        partial_unit(step(pending, read).0),
        step(pending, read).1 matches Step::Yield(Ok(item)) ==> sound(item),
{
    if let Ok(bytes) = read {
        let raw = pending + bytes;
        if bytes.len() == 0 {
            if pending.len() > 0 {
                lemma_truncated_outcome_sound(pending);
            }
        } else if lead_width(raw[0]) <= 1 {
            lemma_lead_outcome_sound(raw[0]);
        } else if raw.len() == lead_width(raw[0]) {
            lemma_unit_outcome_sound(raw);
        }
    }
}

/// Single-byte immediacy: at the start of a unit, a byte of the single-byte
/// range is a valid outcome after that one read, with a one-byte buffer, and
/// the decoder is at the start of a unit again.
pub proof fn lemma_single_byte_is_immediate<E>(lead: u8)
    requires
        lead <= 0x7F,
    ensures
        step::<E>(Seq::empty(), Ok(seq![lead])) == (
            Seq::<u8>::empty(),
            Step::<E>::Yield(Ok(ReadChar::Valid(lead as char, ReadBytes::FirstByte(lead)))),
        ),
        ReadBytes::FirstByte(lead)@ == seq![lead],
{
    assert(Seq::<u8>::empty() + seq![lead] =~= seq![lead]);
}

/// Invalid lead: at the start of a unit, a byte that can start no unit is an
/// invalid outcome after that one read, with a one-byte buffer, and no
/// further byte is consumed for it.
pub proof fn lemma_invalid_lead_is_immediate<E>(lead: u8)
    requires
        lead_width(lead) == 0,
    ensures
        step::<E>(Seq::empty(), Ok(seq![lead])) == (
            Seq::<u8>::empty(),
            Step::<E>::Yield(Ok(ReadChar::Invalid(ReadBytes::FirstByte(lead)))),
        ),
        ReadBytes::FirstByte(lead)@ == seq![lead],
{
    assert(Seq::<u8>::empty() + seq![lead] =~= seq![lead]);
}

/// Truncated tail: where the stream ends inside a unit, the outcome is
/// invalid and its raw bytes are the bytes that were read, not as many as
/// the lead byte called for.
pub proof fn lemma_truncated_tail<E>(pending: Seq<u8>)
    requires
        1 <= pending.len() < lead_width(pending[0]),
    ensures
        step::<E>(pending, Ok(Seq::empty())) == (
            Seq::<u8>::empty(),
            Step::<E>::Yield(Ok(ReadChar::Invalid(buffered(pending)))),
        ),
        buffered(pending)@ == pending,
{
    assert(zero_padded(pending)@.subrange(0, pending.len() as int) =~= pending);
}

/// Malformed tail: where the bytes that complete a unit are not all
/// continuation bytes, the outcome is invalid and its raw bytes are the
/// whole unit, at the length that the lead byte called for.
pub proof fn lemma_malformed_tail<E>(pending: Seq<u8>, bytes: Seq<u8>, at: int)
    requires
        1 <= pending.len(),
        1 <= bytes.len(),
        pending.len() + bytes.len() == lead_width(pending[0]),
        1 <= at < pending.len() + bytes.len(),
        !is_continuation_byte((pending + bytes)[at]),
    ensures
        step::<E>(pending, Ok(bytes)) == (
            Seq::<u8>::empty(),
            Step::<E>::Yield(Ok(ReadChar::Invalid(buffered(pending + bytes)))),
        ),
        buffered(pending + bytes)@ == pending + bytes,
        buffered(pending + bytes)@.len() == lead_width(pending[0]),
{
    let raw = pending + bytes;
    assert(zero_padded(raw)@.subrange(0, raw.len() as int) =~= raw);
    assert(unit_scalar(raw) is None);
}

/// The bytes of a unit in progress.
#[derive(Clone, Copy)]
struct Partial {
    buf: [u8; 4],
    start: usize,
}

impl Partial {
    #[verifier::type_invariant]
    spec fn well_formed(self) -> bool {
        &&& self.start == 0 || self.start < lead_width(self.buf[0])
        &&& self.buf == zero_padded(self.bytes())
    }

    spec fn bytes(self) -> Seq<u8> {
        self.buf@.subrange(0, self.start as int)
    }

    fn none() -> (partial: Partial)
        ensures
            partial.bytes() == Seq::<u8>::empty(),
    {
        let partial = Partial { buf: [0, 0, 0, 0], start: 0 };
        assert(partial.buf =~= zero_padded(partial.bytes()));
        partial
    }
}

/// A decoder of the UTF-8 characters that a byte source `R` holds.
pub struct Chars<R> {
    inner: R,
    partial: Partial,
}

impl<R> Chars<R> {
    /// The byte source.
    pub closed spec fn source(&self) -> R {
        self.inner
    }

    /// The bytes of the unit in progress: those read since the last outcome.
    pub closed spec fn pending(&self) -> Seq<u8> {
        self.partial.bytes()
    }

    /// Creates a decoder for the given byte source, at the start of a unit.
    pub fn new(r: R) -> (chars: Chars<R>)
        ensures
            chars.source() == r,
            chars.pending() == Seq::<u8>::empty(),
    {
        Chars { inner: r, partial: Partial::none() }
    }

    /// How many bytes the next read may bring at most: always 1 to 3.
    pub fn wanted(&self) -> (count: usize)
        ensures
            count == bytes_wanted(self.pending()),
            1 <= count <= 3,
            partial_unit(self.pending()),
    {
        proof {
            use_type_invariant(&self.partial);
        }
        if self.partial.start == 0 {
            1
        } else {
            utf8_char_width(self.partial.buf[0]) - self.partial.start
        }
    }

    /// Takes the result of one read from the byte source: the bytes that
    /// came, none of them at the end of the stream, or the source's error.
    /// The read may not bring more bytes than `wanted` allowed.
    pub fn advance<E>(&mut self, read: Result<&[u8], E>) -> (outcome: Step<E>)
        requires
            read matches Ok(bytes) ==> bytes@.len() <= bytes_wanted(old(self).pending()),
        ensures
            final(self).source() == old(self).source(),
            (final(self).pending(), outcome) == step(old(self).pending(), read_view(read)),
            partial_unit(final(self).pending()),
            outcome matches Step::Yield(Ok(item)) ==> sound(item),
    {
        proof {
            use_type_invariant(&self.partial);
        }
        let partial = self.partial;
        let ghost pending = partial.bytes();
        proof {
            lemma_step_sound(pending, read_view(read));
        }
        match read {
            Err(error) => {
                self.partial = Partial::none();
                Step::Yield(Err(error))
            },
            Ok(bytes) => {
                if bytes.len() == 0 {
                    if partial.start == 0 {
                        assert(pending =~= Seq::<u8>::empty());
                        Step::Finish
                    } else {
                        self.partial = Partial::none();
                        Step::Yield(
                            Ok(ReadChar::Invalid(ReadBytes::WholeBuffer(partial.buf, partial.start))),
                        )
                    }
                } else if partial.start == 0 {
                    let first_byte = bytes[0];
                    let width = utf8_char_width(first_byte);
                    assert(pending + bytes@ =~= seq![first_byte]);
                    if width == 0 {
                        Step::Yield(Ok(ReadChar::Invalid(ReadBytes::FirstByte(first_byte))))
                    } else if width == 1 {
                        Step::Yield(
                            Ok(ReadChar::Valid(first_byte as char, ReadBytes::FirstByte(first_byte))),
                        )
                    } else {
                        let started = Partial { buf: [first_byte, 0, 0, 0], start: 1 };
                        assert(started.bytes() =~= seq![first_byte]);
                        assert(started.buf =~= zero_padded(started.bytes()));
                        self.partial = started;
                        Step::Continue
                    }
                } else {
                    let width = utf8_char_width(partial.buf[0]);
                    let ghost raw = pending + bytes@;
                    let mut buf = partial.buf;
                    let mut start = partial.start;
                    let mut taken: usize = 0;
                    while taken < bytes.len()
                        invariant
                            taken <= bytes@.len(),
                            start == partial.start + taken,
                            partial.start + bytes@.len() <= width <= 4,
                            raw == pending + bytes@,
                            pending.len() == partial.start,
                            buf == zero_padded(raw.subrange(0, start as int)),
                        decreases bytes@.len() - taken,
                    {
                        let ghost before = buf;
                        buf[start] = bytes[taken];
                        start += 1;
                        taken += 1;
                        assert(buf =~= zero_padded(raw.subrange(0, start as int)));
                    }
                    assert(raw.subrange(0, start as int) =~= raw);
                    assert(buf@.subrange(0, start as int) =~= raw);
                    if start < width {
                        self.partial = Partial { buf, start };
                        Step::Continue
                    } else {
                        self.partial = Partial::none();
                        let read = ReadBytes::WholeBuffer(buf, width);
                        match decode_unit(slice_subrange(buf.as_slice(), 0, width)) {
                            Some(scalar) => Step::Yield(Ok(ReadChar::Valid(scalar, read))),
                            None => Step::Yield(Ok(ReadChar::Invalid(read))),
                        }
                    }
                }
            },
        }
    }

    /// The byte source, to read from.
    pub fn get_mut(&mut self) -> (r: &mut R)
        ensures
            *r == old(self).source(),
            final(self).source() == *final(r),
            final(self).pending() == old(self).pending(),
    {
        &mut self.inner
    }

    /// Gives the byte source back. The bytes of a unit in progress are lost.
    pub fn into_inner(self) -> (r: R)
        ensures
            r == self.source(),
    {
        self.inner
    }
}

} // verus!
