//! A whole stream at once: the outcomes that a byte string decodes to, and
//! what holds of them.

use crate::iter::{
    bytes_wanted, lead_outcome, lemma_lead_outcome_sound, lemma_single_byte_scalar,
    lemma_truncated_outcome_sound, lemma_unit_outcome_sound, partial_unit, sound, step,
    truncated_outcome, unit_outcome, yielded, Chars, ReadChar, Step,
};
use crate::utf8::{lead_width, lemma_valid_scalar_width, unit_scalar};
use vstd::prelude::*;
use vstd::slice::slice_subrange;
use vstd::utf8::*;

verus! {

/// How many bytes of `stream` the first step consumes: the whole unit that
/// the lead byte calls for, or what is left of the stream if that is less.
pub open spec fn first_len(stream: Seq<u8>) -> nat
    recommends
        stream.len() > 0,
{
    let width = lead_width(stream[0]);
    if width <= 1 {
        1
    } else if stream.len() < width {
        stream.len()
    } else {
        width
    }
}

/// The outcome of the first step on `stream`.
pub open spec fn first_outcome(stream: Seq<u8>) -> ReadChar
    recommends
        stream.len() > 0,
{
    let width = lead_width(stream[0]);
    if width <= 1 {
        lead_outcome(stream[0])
    } else if stream.len() < width {
        truncated_outcome(stream)
    } else {
        unit_outcome(stream.subrange(0, width as int))
    }
}

/// The outcomes that a source yields which holds `stream` and then ends.
pub open spec fn outcomes(stream: Seq<u8>) -> Seq<ReadChar>
    decreases stream.len(),
{
    if stream.len() == 0 {
        Seq::empty()
    } else {
        seq![first_outcome(stream)] + outcomes(
            stream.subrange(first_len(stream) as int, stream.len() as int),
        )
    }
}

/// The raw bytes of all the outcomes, one after the other.
pub open spec fn raw_bytes(items: Seq<ReadChar>) -> Seq<u8>
    decreases items.len(),
{
    if items.len() == 0 {
        Seq::empty()
    } else {
        items[0].raw() + raw_bytes(items.drop_first())
    }
}

/// The scalars of the valid outcomes, in their order.
pub open spec fn scalars(items: Seq<ReadChar>) -> Seq<char>
    decreases items.len(),
{
    if items.len() == 0 {
        Seq::empty()
    } else {
        match items[0] {
            ReadChar::Valid(scalar, _) => seq![scalar] + scalars(items.drop_first()),
            ReadChar::Invalid(_) => scalars(items.drop_first()),
        }
    }
}

/// The first outcome on a stream is sound, and its raw bytes are the bytes
/// that the first step consumes.
pub proof fn lemma_first_outcome(stream: Seq<u8>)
    requires
        stream.len() > 0,
    ensures
        sound(first_outcome(stream)),
        first_outcome(stream).raw() == stream.subrange(0, first_len(stream) as int),
        1 <= first_len(stream) <= stream.len(),
{
    let width = lead_width(stream[0]);
    if width <= 1 {
        lemma_lead_outcome_sound(stream[0]);
        assert(stream.subrange(0, 1) =~= seq![stream[0]]);
    } else if stream.len() < width {
        lemma_truncated_outcome_sound(stream);
        assert(stream.subrange(0, stream.len() as int) =~= stream);
    } else {
        lemma_unit_outcome_sound(stream.subrange(0, width as int));
    }
}

/// Every outcome is sound: for every input, valid or not, each outcome has
/// 1 to 4 raw bytes, a valid one re-encodes to its bytes, and an invalid one
/// is invalid for one of the three reasons.
pub proof fn lemma_outcomes_sound(stream: Seq<u8>)
    ensures
        forall|i: int| 0 <= i < outcomes(stream).len() ==> sound(#[trigger] outcomes(stream)[i]),
    decreases stream.len(),
{
    if stream.len() > 0 {
        lemma_first_outcome(stream);
        let rest = stream.subrange(first_len(stream) as int, stream.len() as int);
        lemma_outcomes_sound(rest);
        assert forall|i: int| 0 <= i < outcomes(stream).len() implies sound(
            #[trigger] outcomes(stream)[i],
        ) by {
            if i > 0 {
                assert(outcomes(stream)[i] == outcomes(rest)[i - 1]);
            }
        }
    }
}

/// No byte is lost and none is reported twice: the raw bytes of the
/// outcomes, put together in order, are the stream.
pub proof fn lemma_nothing_lost(stream: Seq<u8>)
    ensures
        raw_bytes(outcomes(stream)) == stream,
    decreases stream.len(),
{
    if stream.len() > 0 {
        lemma_first_outcome(stream);
        let cut = first_len(stream) as int;
        let rest = stream.subrange(cut, stream.len() as int);
        lemma_nothing_lost(rest);
        assert(outcomes(stream).drop_first() =~= outcomes(rest));
        assert(stream.subrange(0, cut) + rest =~= stream);
    } else {
        assert(raw_bytes(outcomes(stream)) =~= stream);
    }
}

/// Round trip: on well-formed UTF-8 every outcome is valid, the raw bytes of
/// the outcomes put together are the text, each outcome's bytes decode by
/// themselves to the scalar that the outcome carries, and the scalars are
/// the characters of the text.
pub proof fn lemma_round_trip(text: Seq<u8>)
    requires
        valid_utf8(text),
    ensures
        raw_bytes(outcomes(text)) == text,
        forall|i: int|
            0 <= i < outcomes(text).len() ==> (#[trigger] outcomes(text)[i] matches ReadChar::Valid(
                scalar,
                bytes,
            ) && unit_scalar(bytes@) == Some(scalar)),
        scalars(outcomes(text)) == decode_utf8(text),
    decreases text.len(),
{
    lemma_nothing_lost(text);
    if text.len() > 0 {
        lemma_valid_scalar_width(text);
        lemma_first_outcome(text);
        let width = lead_width(text[0]);
        let unit = text.subrange(0, width as int);
        let rest = text.subrange(width as int, text.len() as int);
        assert(rest == pop_first_scalar(text));
        assert(valid_first_scalar(unit));
        assert(decode_first_scalar(unit) == decode_first_scalar(text));
        if width == 1 {
            lemma_single_byte_scalar(text[0]);
        }
        let first = first_outcome(text);
        assert(first matches ReadChar::Valid(scalar, bytes) && scalar == decode_first_scalar(
            text,
        ) as char);
        lemma_round_trip(rest);
        assert(outcomes(text).drop_first() =~= outcomes(rest));
        assert forall|i: int| 0 <= i < outcomes(text).len() implies (
        #[trigger] outcomes(text)[i] matches ReadChar::Valid(scalar, bytes) && unit_scalar(bytes@)
            == Some(scalar)) by {
            if i > 0 {
                assert(outcomes(text)[i] == outcomes(rest)[i - 1]);
            }
        }
    } else {
        assert(scalars(outcomes(text)) =~= decode_utf8(text));
    }
}

/// One step, seen from the stream: after a read of `bytes`, with `rest` still
/// to come, the step hands out the first outcomes of the stream, and the
/// outcomes still to come are those of what is in progress and `rest`.
pub proof fn lemma_step_on_stream(pending: Seq<u8>, bytes: Seq<u8>, rest: Seq<u8>)
    requires
        partial_unit(pending),
        bytes.len() <= bytes_wanted(pending),
        bytes.len() == 0 ==> rest.len() == 0,
    ensures
        ({
            let (next, outcome) = step::<()>(pending, Ok(bytes));
            &&& partial_unit(next)
            &&& outcomes(pending + bytes + rest) == yielded(outcome) + outcomes(next + rest)
        }),
{
    let raw = pending + bytes;
    let stream = raw + rest;
    let (next, outcome) = step::<()>(pending, Ok(bytes));
    if bytes.len() == 0 {
        assert(stream =~= pending);
        assert(next + rest =~= Seq::<u8>::empty());
        if pending.len() > 0 {
            assert(stream.subrange(first_len(stream) as int, stream.len() as int) =~= Seq::<
                u8,
            >::empty());
        }
    } else {
        let width = lead_width(raw[0]);
        assert(stream[0] == raw[0]);
        if width <= 1 {
            assert(pending.len() == 0);
            assert(stream.subrange(1, stream.len() as int) =~= next + rest);
        } else if raw.len() < width {
            assert(next + rest =~= stream);
            assert(yielded(outcome) + outcomes(stream) =~= outcomes(stream));
        } else {
            assert(stream.subrange(0, width as int) =~= raw);
            assert(stream.subrange(width as int, stream.len() as int) =~= next + rest);
        }
    }
}

/// Whether a source may answer `reads`, one after the other, to a decoder
/// with `pending` in progress: each read brings at least one byte, and no
/// more than the decoder asked for.
pub open spec fn admissible(pending: Seq<u8>, reads: Seq<Seq<u8>>) -> bool
    decreases reads.len(),
{
    reads.len() > 0 ==> {
        &&& 1 <= reads[0].len() <= bytes_wanted(pending)
        &&& admissible(step::<()>(pending, Ok(reads[0])).0, reads.drop_first())
    }
}

/// The outcomes of a decoder with `pending` in progress whose source answers
/// `reads`, one after the other, and then reports the end of the stream.
pub open spec fn run(pending: Seq<u8>, reads: Seq<Seq<u8>>) -> Seq<ReadChar>
    decreases reads.len(),
{
    if reads.len() == 0 {
        yielded(step::<()>(pending, Ok(Seq::empty())).1)
    } else {
        let (next, outcome) = step::<()>(pending, Ok(reads[0]));
        yielded(outcome) + run(next, reads.drop_first())
    }
}

/// Short reads do not matter: however the source cuts the stream into
/// reads, the outcomes are those of the stream.
pub proof fn lemma_short_reads(pending: Seq<u8>, reads: Seq<Seq<u8>>)
    requires
        partial_unit(pending),
        admissible(pending, reads),
    ensures
        run(pending, reads) == outcomes(pending + reads.flatten()),
    decreases reads.len(),
{
    if reads.len() == 0 {
        lemma_step_on_stream(pending, Seq::empty(), Seq::empty());
        assert(pending + reads.flatten() =~= pending + Seq::<u8>::empty() + Seq::<u8>::empty());
        assert(outcomes(Seq::<u8>::empty() + Seq::<u8>::empty()) =~= Seq::<ReadChar>::empty());
    } else {
        let rest = reads.drop_first().flatten();
        let (next, outcome) = step::<()>(pending, Ok(reads[0]));
        lemma_step_on_stream(pending, reads[0], rest);
        lemma_short_reads(next, reads.drop_first());
        assert(pending + reads.flatten() =~= pending + reads[0] + rest);
    }
}

/// Decodes a whole byte string: the outcomes of a source that holds `bytes`
/// and then ends.
pub fn decode_all(bytes: &[u8]) -> (items: Vec<ReadChar>)
    ensures
        items@ == outcomes(bytes@),
{
    let mut chars = Chars::new(());
    let mut items: Vec<ReadChar> = Vec::new();
    let mut at: usize = 0;
    assert(chars.pending() + bytes@.subrange(0, bytes@.len() as int) =~= bytes@);
    loop
        invariant
            at <= bytes@.len(),
            items@ + outcomes(chars.pending() + bytes@.subrange(at as int, bytes@.len() as int))
                == outcomes(bytes@),
        decreases bytes@.len() - at, chars.pending().len(),
    {
        let wanted = chars.wanted();
        let left = bytes.len() - at;
        let count = if left < wanted {
            left
        } else {
            wanted
        };
        let chunk = slice_subrange(bytes, at, at + count);
        let ghost pending = chars.pending();
        let ghost rest = bytes@.subrange(at + count, bytes@.len() as int);
        proof {
            lemma_step_on_stream(pending, chunk@, rest);
            assert(pending + chunk@ + rest =~= pending + bytes@.subrange(
                at as int,
                bytes@.len() as int,
            ));
        }
        at += count;
        match chars.advance::<()>(Ok(chunk)) {
            Step::Continue => {},
            Step::Yield(Ok(item)) => {
                items.push(item);
            },
            Step::Yield(Err(_)) => {},
            Step::Finish => {
                assert(outcomes(Seq::<u8>::empty() + rest) =~= Seq::<ReadChar>::empty());
                return items;
            },
        }
    }
}

} // verus!
