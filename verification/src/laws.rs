//! The laws the modem keeps: running the packet decoder over the bits of a
//! framed packet emits exactly one message — the payload text when the
//! received checksum matches, the checksum diagnostic when it does not — and
//! returns the decoder to its searching state.

use vstd::prelude::*;

use crate::demodulator::{demodulator_transition, DemodulatorModel};
use crate::modulator::{bit_chars, bits_of_byte, bits_of_bytes, frame_bytes};
use crate::packet::{checksum, crc_error_text, decoder_transition, fresh_decoder, shift_in,
    DecoderModel, EventModel, PacketState, PREAMBLE_BYTE, SYNC_BYTE};
use crate::text::{bit_char, lossy_decode};

verus! {

/// The decoder after every bit of `bits` has been pushed, first bit first.
pub open spec fn decoder_run(d: DecoderModel, bits: Seq<u8>) -> DecoderModel
    decreases bits.len(),
{
    if bits.len() == 0 {
        d
    } else {
        decoder_run(decoder_transition(d, bits[0]).0, bits.drop_first())
    }
}

/// The messages emitted while every bit of `bits` is pushed, in order.
pub open spec fn decoder_outputs(d: DecoderModel, bits: Seq<u8>) -> Seq<Seq<char>>
    decreases bits.len(),
{
    if bits.len() == 0 {
        Seq::empty()
    } else {
        opt_messages(decoder_transition(d, bits[0]).1) + decoder_outputs(
            decoder_transition(d, bits[0]).0,
            bits.drop_first(),
        )
    }
}

/// An optional message as a sequence of zero or one messages.
pub open spec fn opt_messages(o: Option<Seq<char>>) -> Seq<Seq<char>> {
    match o {
        Some(m) => seq![m],
        None => Seq::empty(),
    }
}

/// A run decomposes at any cut of its input bits.
pub proof fn lemma_run_append(d: DecoderModel, a: Seq<u8>, b: Seq<u8>)
    ensures
        decoder_run(d, a + b) == decoder_run(decoder_run(d, a), b),
        decoder_outputs(d, a + b) == decoder_outputs(d, a) + decoder_outputs(
            decoder_run(d, a),
            b,
        ),
    decreases a.len(),
{
    if a.len() == 0 {
        assert(a + b =~= b);
        assert(decoder_outputs(d, a + b) =~= decoder_outputs(d, a) + decoder_outputs(
            decoder_run(d, a),
            b,
        ));
    } else {
        assert((a + b)[0] == a[0]);
        assert((a + b).drop_first() =~= a.drop_first() + b);
        lemma_run_append(decoder_transition(d, a[0]).0, a.drop_first(), b);
        assert(decoder_outputs(d, a + b) =~= decoder_outputs(d, a) + decoder_outputs(
            decoder_run(d, a),
            b,
        ));
    }
}

/// The decoder after the eight bits of one byte, written out step by step.
spec fn run8_model(d: DecoderModel, bits: Seq<u8>) -> DecoderModel {
    let d1 = decoder_transition(d, bits[0]).0;
    let d2 = decoder_transition(d1, bits[1]).0;
    let d3 = decoder_transition(d2, bits[2]).0;
    let d4 = decoder_transition(d3, bits[3]).0;
    let d5 = decoder_transition(d4, bits[4]).0;
    let d6 = decoder_transition(d5, bits[5]).0;
    let d7 = decoder_transition(d6, bits[6]).0;
    decoder_transition(d7, bits[7]).0
}

/// The messages emitted over the eight bits of one byte.
spec fn run8_outputs(d: DecoderModel, bits: Seq<u8>) -> Seq<Seq<char>> {
    let d1 = decoder_transition(d, bits[0]).0;
    let d2 = decoder_transition(d1, bits[1]).0;
    let d3 = decoder_transition(d2, bits[2]).0;
    let d4 = decoder_transition(d3, bits[3]).0;
    let d5 = decoder_transition(d4, bits[4]).0;
    let d6 = decoder_transition(d5, bits[5]).0;
    let d7 = decoder_transition(d6, bits[6]).0;
    opt_messages(decoder_transition(d, bits[0]).1) + opt_messages(decoder_transition(d1, bits[1]).1)
        + opt_messages(decoder_transition(d2, bits[2]).1) + opt_messages(
        decoder_transition(d3, bits[3]).1,
    ) + opt_messages(decoder_transition(d4, bits[4]).1) + opt_messages(
        decoder_transition(d5, bits[5]).1,
    ) + opt_messages(decoder_transition(d6, bits[6]).1) + opt_messages(
        decoder_transition(d7, bits[7]).1,
    )
}

/// An eight-bit run is the eightfold composition of single steps.
#[verifier::rlimit(100)]
proof fn lemma_run_unfold8(d: DecoderModel, bits: Seq<u8>)
    requires
        bits.len() == 8,
    ensures
        decoder_run(d, bits) == run8_model(d, bits),
{
    let s1 = bits.drop_first();
    let s2 = s1.drop_first();
    let s3 = s2.drop_first();
    let s4 = s3.drop_first();
    let s5 = s4.drop_first();
    let s6 = s5.drop_first();
    let s7 = s6.drop_first();
    let s8 = s7.drop_first();
    assert(s1[0] == bits[1] && s2[0] == bits[2] && s3[0] == bits[3] && s4[0] == bits[4] && s5[0]
        == bits[5] && s6[0] == bits[6] && s7[0] == bits[7]);
    let d1 = decoder_transition(d, bits[0]).0;
    let d2 = decoder_transition(d1, bits[1]).0;
    let d3 = decoder_transition(d2, bits[2]).0;
    let d4 = decoder_transition(d3, bits[3]).0;
    let d5 = decoder_transition(d4, bits[4]).0;
    let d6 = decoder_transition(d5, bits[5]).0;
    let d7 = decoder_transition(d6, bits[6]).0;
    let d8 = decoder_transition(d7, bits[7]).0;
    assert(decoder_run(d, bits) == decoder_run(d1, s1));
    assert(decoder_run(d1, s1) == decoder_run(d2, s2));
    assert(decoder_run(d2, s2) == decoder_run(d3, s3));
    assert(decoder_run(d3, s3) == decoder_run(d4, s4));
    assert(decoder_run(d4, s4) == decoder_run(d5, s5));
    assert(decoder_run(d5, s5) == decoder_run(d6, s6));
    assert(decoder_run(d6, s6) == decoder_run(d7, s7));
    assert(decoder_run(d7, s7) == decoder_run(d8, s8));
    assert(s8.len() == 0);
    assert(decoder_run(d8, s8) == d8);
}

/// The messages of an eight-bit run, step by step.
#[verifier::rlimit(100)]
proof fn lemma_outputs_unfold8(d: DecoderModel, bits: Seq<u8>)
    requires
        bits.len() == 8,
    ensures
        decoder_outputs(d, bits) == run8_outputs(d, bits),
{
    let s1 = bits.drop_first();
    let s2 = s1.drop_first();
    let s3 = s2.drop_first();
    let s4 = s3.drop_first();
    let s5 = s4.drop_first();
    let s6 = s5.drop_first();
    let s7 = s6.drop_first();
    let s8 = s7.drop_first();
    assert(s1[0] == bits[1] && s2[0] == bits[2] && s3[0] == bits[3] && s4[0] == bits[4] && s5[0]
        == bits[5] && s6[0] == bits[6] && s7[0] == bits[7]);
    let d1 = decoder_transition(d, bits[0]).0;
    let d2 = decoder_transition(d1, bits[1]).0;
    let d3 = decoder_transition(d2, bits[2]).0;
    let d4 = decoder_transition(d3, bits[3]).0;
    let d5 = decoder_transition(d4, bits[4]).0;
    let d6 = decoder_transition(d5, bits[5]).0;
    let d7 = decoder_transition(d6, bits[6]).0;
    let d8 = decoder_transition(d7, bits[7]).0;
    assert(decoder_outputs(d, bits) == opt_messages(decoder_transition(d, bits[0]).1)
        + decoder_outputs(d1, s1));
    assert(decoder_outputs(d1, s1) == opt_messages(decoder_transition(d1, bits[1]).1)
        + decoder_outputs(d2, s2));
    assert(decoder_outputs(d2, s2) == opt_messages(decoder_transition(d2, bits[2]).1)
        + decoder_outputs(d3, s3));
    assert(decoder_outputs(d3, s3) == opt_messages(decoder_transition(d3, bits[3]).1)
        + decoder_outputs(d4, s4));
    assert(decoder_outputs(d4, s4) == opt_messages(decoder_transition(d4, bits[4]).1)
        + decoder_outputs(d5, s5));
    assert(decoder_outputs(d5, s5) == opt_messages(decoder_transition(d5, bits[5]).1)
        + decoder_outputs(d6, s6));
    assert(decoder_outputs(d6, s6) == opt_messages(decoder_transition(d6, bits[6]).1)
        + decoder_outputs(d7, s7));
    assert(decoder_outputs(d7, s7) == opt_messages(decoder_transition(d7, bits[7]).1)
        + decoder_outputs(d8, s8));
    assert(decoder_outputs(d8, s8) =~= Seq::<Seq<char>>::empty());
    assert(decoder_outputs(d, bits) =~= run8_outputs(d, bits));
}

/// The shift register after the eight bits of `b` have entered, most
/// significant first, on top of any starting contents.
spec fn shift_in_byte(b0: u8, b: u8) -> u8 {
    shift_in(
        shift_in(
            shift_in(
                shift_in(
                    shift_in(
                        shift_in(shift_in(shift_in(b0, (b >> 7) & 1), (b >> 6) & 1), (b >> 5) & 1),
                        (b >> 4) & 1,
                    ),
                    (b >> 3) & 1,
                ),
                (b >> 2) & 1,
            ),
            (b >> 1) & 1,
        ),
        b & 1,
    )
}

/// A searching decoder with a cleared register locks onto the preamble byte
/// at exactly its last bit.
#[verifier::rlimit(100)]
pub proof fn lemma_scan_preamble(d: DecoderModel)
    requires
        d.state is SearchPreamble,
        d.buffer == 0,
        d.bits_text == Seq::<char>::empty(),
    ensures
        decoder_run(d, bits_of_byte(PREAMBLE_BYTE)) == (DecoderModel {
            state: PacketState::SearchSync,
            buffer: PREAMBLE_BYTE,
            bit_count: 0,
            history: d.history.push(
                EventModel {
                    label: "PRE"@,
                    bits: bit_chars(bits_of_byte(PREAMBLE_BYTE)),
                    is_complete: true,
                    is_error: false,
                },
            ),
            bits_text: Seq::empty(),
            ..d
        }),
        decoder_outputs(d, bits_of_byte(PREAMBLE_BYTE)) == Seq::<Seq<char>>::empty(),
{
    reveal(decoder_transition);
    let bits = bits_of_byte(PREAMBLE_BYTE);
    assert(((0xAAu8 >> 7) & 1) == 1 && ((0xAAu8 >> 6) & 1) == 0 && ((0xAAu8 >> 5) & 1) == 1 && ((
    0xAAu8 >> 4) & 1) == 0 && ((0xAAu8 >> 3) & 1) == 1 && ((0xAAu8 >> 2) & 1) == 0 && ((0xAAu8
        >> 1) & 1) == 1 && (0xAAu8 & 1) == 0) by (bit_vector);
    assert(((0u8 << 1) | (1u8 & 1)) == 1 && ((1u8 << 1) | (0u8 & 1)) == 2 && ((2u8 << 1) | (1u8
        & 1)) == 5 && ((5u8 << 1) | (0u8 & 1)) == 10 && ((10u8 << 1) | (1u8 & 1)) == 21 && ((21u8
        << 1) | (0u8 & 1)) == 42 && ((42u8 << 1) | (1u8 & 1)) == 85 && ((85u8 << 1) | (0u8 & 1))
        == 170) by (bit_vector);
    lemma_run_unfold8(d, bits);
    lemma_outputs_unfold8(d, bits);
    let c = bit_chars(bits);
    assert(bits[0] == 1 && bits[1] == 0 && bits[2] == 1 && bits[3] == 0 && bits[4] == 1 && bits[5]
        == 0 && bits[6] == 1 && bits[7] == 0);
    let d1 = decoder_transition(d, bits[0]).0;
    let d2 = decoder_transition(d1, bits[1]).0;
    let d3 = decoder_transition(d2, bits[2]).0;
    let d4 = decoder_transition(d3, bits[3]).0;
    let d5 = decoder_transition(d4, bits[4]).0;
    let d6 = decoder_transition(d5, bits[5]).0;
    let d7 = decoder_transition(d6, bits[6]).0;
    let d8 = decoder_transition(d7, bits[7]).0;
    assert(d1 =~= (DecoderModel { buffer: 1, bits_text: c.take(1), ..d }));
    assert(d2 =~= (DecoderModel { buffer: 2, bits_text: c.take(2), ..d }));
    assert(d3 =~= (DecoderModel { buffer: 5, bits_text: c.take(3), ..d }));
    assert(d4 =~= (DecoderModel { buffer: 10, bits_text: c.take(4), ..d }));
    assert(d5 =~= (DecoderModel { buffer: 21, bits_text: c.take(5), ..d }));
    assert(d6 =~= (DecoderModel { buffer: 42, bits_text: c.take(6), ..d }));
    assert(d7 =~= (DecoderModel { buffer: 85, bits_text: c.take(7), ..d }));
    assert(c.take(7).push(bit_char(bits[7])) =~= c);
    assert(d8 =~= (DecoderModel {
        state: PacketState::SearchSync,
        buffer: PREAMBLE_BYTE,
        bit_count: 0,
        history: d.history.push(
            EventModel { label: "PRE"@, bits: c, is_complete: true, is_error: false },
        ),
        bits_text: Seq::empty(),
        ..d
    }));
    assert(decoder_run(d, bits) == d8);
    assert(decoder_outputs(d, bits) =~= Seq::<Seq<char>>::empty());
}

/// A decoder that has seen the preamble locks onto the sync byte at exactly
/// its last bit.
#[verifier::rlimit(100)]
pub proof fn lemma_scan_sync(d: DecoderModel)
    requires
        d.state is SearchSync,
        d.buffer == PREAMBLE_BYTE,
        d.bits_text == Seq::<char>::empty(),
    ensures
        decoder_run(d, bits_of_byte(SYNC_BYTE)) == (DecoderModel {
            state: PacketState::ReadLength,
            buffer: SYNC_BYTE,
            bit_count: 0,
            history: d.history.push(
                EventModel {
                    label: "SYNC"@,
                    bits: bit_chars(bits_of_byte(SYNC_BYTE)),
                    is_complete: true,
                    is_error: false,
                },
            ),
            bits_text: Seq::empty(),
            ..d
        }),
        decoder_outputs(d, bits_of_byte(SYNC_BYTE)) == Seq::<Seq<char>>::empty(),
{
    reveal(decoder_transition);
    let bits = bits_of_byte(SYNC_BYTE);
    assert(((0x7Eu8 >> 7) & 1) == 0 && ((0x7Eu8 >> 6) & 1) == 1 && ((0x7Eu8 >> 5) & 1) == 1 && ((
    0x7Eu8 >> 4) & 1) == 1 && ((0x7Eu8 >> 3) & 1) == 1 && ((0x7Eu8 >> 2) & 1) == 1 && ((0x7Eu8
        >> 1) & 1) == 1 && (0x7Eu8 & 1) == 0) by (bit_vector);
    assert(((170u8 << 1) | (0u8 & 1)) == 84 && ((84u8 << 1) | (1u8 & 1)) == 169 && ((169u8 << 1) | (
    1u8 & 1)) == 83 && ((83u8 << 1) | (1u8 & 1)) == 167 && ((167u8 << 1) | (1u8 & 1)) == 79 && ((
    79u8 << 1) | (1u8 & 1)) == 159 && ((159u8 << 1) | (1u8 & 1)) == 63 && ((63u8 << 1) | (0u8 & 1))
        == 126) by (bit_vector);
    lemma_run_unfold8(d, bits);
    lemma_outputs_unfold8(d, bits);
    let c = bit_chars(bits);
    assert(bits[0] == 0 && bits[1] == 1 && bits[2] == 1 && bits[3] == 1 && bits[4] == 1 && bits[5]
        == 1 && bits[6] == 1 && bits[7] == 0);
    let d1 = decoder_transition(d, bits[0]).0;
    let d2 = decoder_transition(d1, bits[1]).0;
    let d3 = decoder_transition(d2, bits[2]).0;
    let d4 = decoder_transition(d3, bits[3]).0;
    let d5 = decoder_transition(d4, bits[4]).0;
    let d6 = decoder_transition(d5, bits[5]).0;
    let d7 = decoder_transition(d6, bits[6]).0;
    let d8 = decoder_transition(d7, bits[7]).0;
    assert(d1 =~= (DecoderModel { buffer: 84, bits_text: c.take(1), ..d }));
    assert(d2 =~= (DecoderModel { buffer: 169, bits_text: c.take(2), ..d }));
    assert(d3 =~= (DecoderModel { buffer: 83, bits_text: c.take(3), ..d }));
    assert(d4 =~= (DecoderModel { buffer: 167, bits_text: c.take(4), ..d }));
    assert(d5 =~= (DecoderModel { buffer: 79, bits_text: c.take(5), ..d }));
    assert(d6 =~= (DecoderModel { buffer: 159, bits_text: c.take(6), ..d }));
    assert(d7 =~= (DecoderModel { buffer: 63, bits_text: c.take(7), ..d }));
    assert(c.take(7).push(bit_char(bits[7])) =~= c);
    assert(d8 =~= (DecoderModel {
        state: PacketState::ReadLength,
        buffer: SYNC_BYTE,
        bit_count: 0,
        history: d.history.push(
            EventModel { label: "SYNC"@, bits: c, is_complete: true, is_error: false },
        ),
        bits_text: Seq::empty(),
        ..d
    }));
    assert(decoder_run(d, bits) == d8);
    assert(decoder_outputs(d, bits) =~= Seq::<Seq<char>>::empty());
}

/// Reading the length byte: after its eight bits the decoder holds the byte
/// as the expected payload length and moves on.
#[verifier::rlimit(100)]
pub proof fn lemma_read_length_byte(d: DecoderModel, b: u8)
    requires
        d.state is ReadLength,
        d.bit_count == 0,
        d.bits_text == Seq::<char>::empty(),
    ensures
        decoder_run(d, bits_of_byte(b)) == (DecoderModel {
            state: if b > 0 {
                PacketState::ReadPayload
            } else {
                PacketState::ReadCRC
            },
            buffer: b,
            bit_count: 0,
            length: b,
            payload: Seq::empty(),
            history: d.history.push(
                EventModel {
                    label: "LEN"@,
                    bits: bit_chars(bits_of_byte(b)),
                    is_complete: true,
                    is_error: false,
                },
            ),
            bits_text: Seq::empty(),
            ..d
        }),
        decoder_outputs(d, bits_of_byte(b)) == Seq::<Seq<char>>::empty(),
{
    reveal(decoder_transition);
    let bits = bits_of_byte(b);
    lemma_run_unfold8(d, bits);
    lemma_outputs_unfold8(d, bits);
    let c = bit_chars(bits);
    let d1 = decoder_transition(d, bits[0]).0;
    let d2 = decoder_transition(d1, bits[1]).0;
    let d3 = decoder_transition(d2, bits[2]).0;
    let d4 = decoder_transition(d3, bits[3]).0;
    let d5 = decoder_transition(d4, bits[4]).0;
    let d6 = decoder_transition(d5, bits[5]).0;
    let d7 = decoder_transition(d6, bits[6]).0;
    let d8 = decoder_transition(d7, bits[7]).0;
    assert(d1 =~= (DecoderModel {
        buffer: shift_in(d.buffer, bits[0]),
        bit_count: 1,
        bits_text: c.take(1),
        ..d
    }));
    assert(d2 =~= (DecoderModel {
        buffer: shift_in(d1.buffer, bits[1]),
        bit_count: 2,
        bits_text: c.take(2),
        ..d
    }));
    assert(d3 =~= (DecoderModel {
        buffer: shift_in(d2.buffer, bits[2]),
        bit_count: 3,
        bits_text: c.take(3),
        ..d
    }));
    assert(d4 =~= (DecoderModel {
        buffer: shift_in(d3.buffer, bits[3]),
        bit_count: 4,
        bits_text: c.take(4),
        ..d
    }));
    assert(d5 =~= (DecoderModel {
        buffer: shift_in(d4.buffer, bits[4]),
        bit_count: 5,
        bits_text: c.take(5),
        ..d
    }));
    assert(d6 =~= (DecoderModel {
        buffer: shift_in(d5.buffer, bits[5]),
        bit_count: 6,
        bits_text: c.take(6),
        ..d
    }));
    assert(d7 =~= (DecoderModel {
        buffer: shift_in(d6.buffer, bits[6]),
        bit_count: 7,
        bits_text: c.take(7),
        ..d
    }));
    assert(shift_in(d7.buffer, bits[7]) == shift_in_byte(d.buffer, b));
    lemma_byte_assembly(d.buffer, b);
    assert(c.take(7).push(bit_char(bits[7])) =~= c);
    assert(d8 =~= (DecoderModel {
        state: if b > 0 {
            PacketState::ReadPayload
        } else {
            PacketState::ReadCRC
        },
        buffer: b,
        bit_count: 0,
        length: b,
        payload: Seq::empty(),
        history: d.history.push(
            EventModel { label: "LEN"@, bits: c, is_complete: true, is_error: false },
        ),
        bits_text: Seq::empty(),
        ..d
    }));
    assert(decoder_run(d, bits) == d8);
    assert(decoder_outputs(d, bits) =~= Seq::<Seq<char>>::empty());
}

/// Reading one payload byte: after its eight bits the byte stands appended
/// to the payload, and the decoder turns to the checksum exactly when the
/// payload is full.
#[verifier::rlimit(100)]
pub proof fn lemma_read_payload_byte(d: DecoderModel, b: u8)
    requires
        d.state is ReadPayload,
        d.bit_count == 0,
        d.bits_text == Seq::<char>::empty(),
        d.payload.len() < d.length,
    ensures
        decoder_run(d, bits_of_byte(b)) == (DecoderModel {
            state: if d.payload.len() + 1 == d.length {
                PacketState::ReadCRC
            } else {
                PacketState::ReadPayload
            },
            buffer: b,
            bit_count: 0,
            payload: d.payload.push(b),
            history: d.history.push(
                EventModel {
                    label: lossy_decode(seq![b]),
                    bits: bit_chars(bits_of_byte(b)),
                    is_complete: true,
                    is_error: false,
                },
            ),
            bits_text: Seq::empty(),
            ..d
        }),
        decoder_outputs(d, bits_of_byte(b)) == Seq::<Seq<char>>::empty(),
{
    reveal(decoder_transition);
    let bits = bits_of_byte(b);
    lemma_run_unfold8(d, bits);
    lemma_outputs_unfold8(d, bits);
    let c = bit_chars(bits);
    let d1 = decoder_transition(d, bits[0]).0;
    let d2 = decoder_transition(d1, bits[1]).0;
    let d3 = decoder_transition(d2, bits[2]).0;
    let d4 = decoder_transition(d3, bits[3]).0;
    let d5 = decoder_transition(d4, bits[4]).0;
    let d6 = decoder_transition(d5, bits[5]).0;
    let d7 = decoder_transition(d6, bits[6]).0;
    let d8 = decoder_transition(d7, bits[7]).0;
    assert(d1 =~= (DecoderModel {
        buffer: shift_in(d.buffer, bits[0]),
        bit_count: 1,
        bits_text: c.take(1),
        ..d
    }));
    assert(d2 =~= (DecoderModel {
        buffer: shift_in(d1.buffer, bits[1]),
        bit_count: 2,
        bits_text: c.take(2),
        ..d
    }));
    assert(d3 =~= (DecoderModel {
        buffer: shift_in(d2.buffer, bits[2]),
        bit_count: 3,
        bits_text: c.take(3),
        ..d
    }));
    assert(d4 =~= (DecoderModel {
        buffer: shift_in(d3.buffer, bits[3]),
        bit_count: 4,
        bits_text: c.take(4),
        ..d
    }));
    assert(d5 =~= (DecoderModel {
        buffer: shift_in(d4.buffer, bits[4]),
        bit_count: 5,
        bits_text: c.take(5),
        ..d
    }));
    assert(d6 =~= (DecoderModel {
        buffer: shift_in(d5.buffer, bits[5]),
        bit_count: 6,
        bits_text: c.take(6),
        ..d
    }));
    assert(d7 =~= (DecoderModel {
        buffer: shift_in(d6.buffer, bits[6]),
        bit_count: 7,
        bits_text: c.take(7),
        ..d
    }));
    assert(shift_in(d7.buffer, bits[7]) == shift_in_byte(d.buffer, b));
    lemma_byte_assembly(d.buffer, b);
    assert(c.take(7).push(bit_char(bits[7])) =~= c);
    assert(d8 =~= (DecoderModel {
        state: if d.payload.len() + 1 == d.length {
            PacketState::ReadCRC
        } else {
            PacketState::ReadPayload
        },
        buffer: b,
        bit_count: 0,
        payload: d.payload.push(b),
        history: d.history.push(
            EventModel {
                label: lossy_decode(seq![b]),
                bits: c,
                is_complete: true,
                is_error: false,
            },
        ),
        bits_text: Seq::empty(),
        ..d
    }));
    assert(decoder_run(d, bits) == d8);
    assert(decoder_outputs(d, bits) =~= Seq::<Seq<char>>::empty());
}

/// Reading the checksum byte: after its eight bits the decoder emits the
/// payload text when the byte matches the payload's checksum and the
/// diagnostic otherwise, and searches for the next preamble.
#[verifier::rlimit(100)]
pub proof fn lemma_read_crc_byte(d: DecoderModel, b: u8)
    requires
        d.state is ReadCRC,
        d.bit_count == 0,
        d.bits_text == Seq::<char>::empty(),
    ensures
        decoder_run(d, bits_of_byte(b)) == (DecoderModel {
            state: PacketState::SearchPreamble,
            buffer: b,
            bit_count: 0,
            crc: b,
            history: d.history.push(
                EventModel {
                    label: "CRC"@,
                    bits: bit_chars(bits_of_byte(b)),
                    is_complete: true,
                    is_error: b != checksum(d.payload),
                },
            ),
            bits_text: Seq::empty(),
            ..d
        }),
        decoder_outputs(d, bits_of_byte(b)) == seq![
            if b == checksum(d.payload) {
                lossy_decode(d.payload)
            } else {
                crc_error_text(checksum(d.payload), b)
            },
        ],
{
    reveal(decoder_transition);
    let bits = bits_of_byte(b);
    lemma_run_unfold8(d, bits);
    lemma_outputs_unfold8(d, bits);
    let c = bit_chars(bits);
    let d1 = decoder_transition(d, bits[0]).0;
    let d2 = decoder_transition(d1, bits[1]).0;
    let d3 = decoder_transition(d2, bits[2]).0;
    let d4 = decoder_transition(d3, bits[3]).0;
    let d5 = decoder_transition(d4, bits[4]).0;
    let d6 = decoder_transition(d5, bits[5]).0;
    let d7 = decoder_transition(d6, bits[6]).0;
    let d8 = decoder_transition(d7, bits[7]).0;
    assert(d1 =~= (DecoderModel {
        buffer: shift_in(d.buffer, bits[0]),
        bit_count: 1,
        bits_text: c.take(1),
        ..d
    }));
    assert(d2 =~= (DecoderModel {
        buffer: shift_in(d1.buffer, bits[1]),
        bit_count: 2,
        bits_text: c.take(2),
        ..d
    }));
    assert(d3 =~= (DecoderModel {
        buffer: shift_in(d2.buffer, bits[2]),
        bit_count: 3,
        bits_text: c.take(3),
        ..d
    }));
    assert(d4 =~= (DecoderModel {
        buffer: shift_in(d3.buffer, bits[3]),
        bit_count: 4,
        bits_text: c.take(4),
        ..d
    }));
    assert(d5 =~= (DecoderModel {
        buffer: shift_in(d4.buffer, bits[4]),
        bit_count: 5,
        bits_text: c.take(5),
        ..d
    }));
    assert(d6 =~= (DecoderModel {
        buffer: shift_in(d5.buffer, bits[5]),
        bit_count: 6,
        bits_text: c.take(6),
        ..d
    }));
    assert(d7 =~= (DecoderModel {
        buffer: shift_in(d6.buffer, bits[6]),
        bit_count: 7,
        bits_text: c.take(7),
        ..d
    }));
    assert(shift_in(d7.buffer, bits[7]) == shift_in_byte(d.buffer, b));
    lemma_byte_assembly(d.buffer, b);
    assert(c.take(7).push(bit_char(bits[7])) =~= c);
    assert(d8 =~= (DecoderModel {
        state: PacketState::SearchPreamble,
        buffer: b,
        bit_count: 0,
        crc: b,
        history: d.history.push(
            EventModel {
                label: "CRC"@,
                bits: c,
                is_complete: true,
                is_error: b != checksum(d.payload),
            },
        ),
        bits_text: Seq::empty(),
        ..d
    }));
    assert(decoder_run(d, bits) == d8);
    assert(decoder_outputs(d, bits) =~= seq![
        if b == checksum(d.payload) {
            lossy_decode(d.payload)
        } else {
            crc_error_text(checksum(d.payload), b)
        },
    ]);
}

/// The decode events of a payload: one per byte, labelled with the byte's
/// lenient decoding.
pub open spec fn payload_events(bytes: Seq<u8>) -> Seq<EventModel> {
    Seq::new(
        bytes.len(),
        |i: int|
            EventModel {
                label: lossy_decode(seq![bytes[i]]),
                bits: bit_chars(bits_of_byte(bytes[i])),
                is_complete: true,
                is_error: false,
            },
    )
}

/// Reading the whole payload: the bytes land in the payload in order, with
/// no message emitted, and the decoder turns to the checksum.
pub proof fn lemma_read_payload_bytes(d: DecoderModel, bytes: Seq<u8>)
    requires
        d.state is ReadPayload,
        d.bit_count == 0,
        d.bits_text == Seq::<char>::empty(),
        bytes.len() >= 1,
        d.payload.len() + bytes.len() == d.length,
    ensures
        decoder_run(d, bits_of_bytes(bytes)) == (DecoderModel {
            state: PacketState::ReadCRC,
            buffer: bytes.last(),
            bit_count: 0,
            payload: d.payload + bytes,
            history: d.history + payload_events(bytes),
            bits_text: Seq::empty(),
            ..d
        }),
        decoder_outputs(d, bits_of_bytes(bytes)) == Seq::<Seq<char>>::empty(),
    decreases bytes.len(),
{
    let b0 = bytes[0];
    let rest = bytes.drop_first();
    let head_bits = bits_of_byte(b0);
    let rest_bits = bits_of_bytes(rest);
    assert(bits_of_bytes(bytes) == head_bits + rest_bits);
    lemma_run_append(d, head_bits, rest_bits);
    lemma_read_payload_byte(d, b0);
    let d1 = decoder_run(d, head_bits);
    if bytes.len() == 1 {
        assert(rest.len() == 0);
        assert(rest_bits =~= Seq::<u8>::empty());
        assert(decoder_run(d1, rest_bits) == d1);
        assert(d.payload.push(b0) =~= d.payload + bytes);
        assert(d.history.push(payload_events(bytes)[0]) =~= d.history + payload_events(bytes));
        assert(decoder_run(d, bits_of_bytes(bytes)) =~= (DecoderModel {
            state: PacketState::ReadCRC,
            buffer: bytes.last(),
            bit_count: 0,
            payload: d.payload + bytes,
            history: d.history + payload_events(bytes),
            bits_text: Seq::empty(),
            ..d
        }));
        assert(decoder_outputs(d, bits_of_bytes(bytes)) =~= Seq::<Seq<char>>::empty());
    } else {
        assert(d1.state is ReadPayload);
        lemma_read_payload_bytes(d1, rest);
        assert(rest.last() == bytes.last());
        assert((d.payload.push(b0)) + rest =~= d.payload + bytes);
        assert((d.history.push(payload_events(bytes)[0])) + payload_events(rest) =~= d.history
            + payload_events(bytes));
        assert(decoder_run(d, bits_of_bytes(bytes)) =~= (DecoderModel {
            state: PacketState::ReadCRC,
            buffer: bytes.last(),
            bit_count: 0,
            payload: d.payload + bytes,
            history: d.history + payload_events(bytes),
            bits_text: Seq::empty(),
            ..d
        }));
        assert(decoder_outputs(d, bits_of_bytes(bytes)) =~= Seq::<Seq<char>>::empty());
    }
}

/// Shifting in the eight bits of a byte reproduces the byte, whatever the
/// register held before.
proof fn lemma_byte_assembly(b0: u8, b: u8)
    ensures
        shift_in_byte(b0, b) == b,
{
    assert(((((((((((((((((b0 << 1) | (((b >> 7) & 1) & 1)) << 1) | (((b >> 6) & 1) & 1)) << 1) | ((
    (b >> 5) & 1) & 1)) << 1) | (((b >> 4) & 1) & 1)) << 1) | (((b >> 3) & 1) & 1)) << 1) | (((b
        >> 2) & 1) & 1)) << 1) | (((b >> 1) & 1) & 1)) << 1) | ((b & 1) & 1)) == b)
        by (bit_vector);
}

/// Within a symbol no bit is decided: every sample before the last only
/// advances the sample counter, whatever the correlator reads.
pub proof fn lemma_mid_symbol_silent(
    m: DemodulatorModel,
    low_energy: bool,
    tone1_stronger: bool,
    carrier_detected: bool,
)
    requires
        m.sample_counter + 1 < m.samples_per_symbol,
    ensures
        demodulator_transition(m, low_energy, tone1_stronger, carrier_detected) == ((
            DemodulatorModel { sample_counter: m.sample_counter + 1, ..m },
            Option::<u8>::None,
        )),
{
}

/// At the last sample of a symbol the bit is decided from the correlator
/// readings alone: under frequency keying a quiet symbol is squelched and
/// otherwise the stronger tone names the bit; under amplitude keying the
/// carrier names it. A decided bit goes straight into the packet decoder.
pub proof fn lemma_symbol_decision(
    m: DemodulatorModel,
    low_energy: bool,
    tone1_stronger: bool,
    carrier_detected: bool,
)
    requires
        m.sample_counter + 1 >= m.samples_per_symbol,
    ensures
        ({
            let stepped = demodulator_transition(m, low_energy, tone1_stronger, carrier_detected);
            &&& (m.scheme is FSK && low_energy) ==> stepped == ((
                DemodulatorModel { sample_counter: 0, ..m },
                Option::<u8>::None,
            ))
            &&& (m.scheme is FSK && !low_energy) ==> stepped.1 == Some(
                if tone1_stronger {
                    1u8
                } else {
                    0u8
                },
            )
            &&& (m.scheme is ASK) ==> stepped.1 == Some(
                if carrier_detected {
                    1u8
                } else {
                    0u8
                },
            )
            &&& stepped.1 matches Some(bit) ==> stepped.0.decoder == decoder_transition(
                m.decoder,
                bit,
            ).0
        }),
{
}

/// Bit expansion distributes over concatenation.
proof fn lemma_bits_of_bytes_append(s1: Seq<u8>, s2: Seq<u8>)
    ensures
        bits_of_bytes(s1 + s2) == bits_of_bytes(s1) + bits_of_bytes(s2),
    decreases s1.len(),
{
    if s1.len() == 0 {
        assert(s1 + s2 =~= s2);
        assert(bits_of_bytes(s1 + s2) =~= bits_of_bytes(s1) + bits_of_bytes(s2));
    } else {
        assert((s1 + s2)[0] == s1[0]);
        assert((s1 + s2).drop_first() =~= s1.drop_first() + s2);
        lemma_bits_of_bytes_append(s1.drop_first(), s2);
        assert(bits_of_bytes(s1 + s2) =~= bits_of_bytes(s1) + bits_of_bytes(s2));
    }
}

/// The bits of a single byte, as a one-byte sequence.
proof fn lemma_bits_of_singleton(b: u8)
    ensures
        bits_of_bytes(seq![b]) == bits_of_byte(b),
{
    assert(seq![b].drop_first() =~= Seq::<u8>::empty());
    assert(bits_of_bytes(Seq::<u8>::empty()) == Seq::<u8>::empty());
    assert(seq![b][0] == b);
    assert(bits_of_bytes(seq![b]) == bits_of_byte(b) + Seq::<u8>::empty());
    assert(bits_of_byte(b) + Seq::<u8>::empty() =~= bits_of_byte(b));
}

/// A packet around `payload` carrying `crc_byte` where the checksum belongs,
/// whether or not it is the right one.
pub open spec fn frame_with_crc(payload: Seq<u8>, crc_byte: u8) -> Seq<u8> {
    seq![PREAMBLE_BYTE, SYNC_BYTE, payload.len() as u8] + payload + seq![crc_byte]
}

/// Checksum screening: a fresh decoder fed the bits of a packet around
/// `payload` whose checksum byte is `crc_byte` emits exactly one message —
/// the payload's lenient decoding when the byte is the payload's checksum,
/// the diagnostic naming both bytes when it is not — marks the closing event
/// as an error exactly on a mismatch, and searches for the next preamble.
pub proof fn lemma_frame_decoding(payload: Seq<u8>, crc_byte: u8)
    requires
        payload.len() <= 255,
    ensures
        ({
            let bits = bits_of_bytes(frame_with_crc(payload, crc_byte));
            let end = decoder_run(fresh_decoder(), bits);
            &&& decoder_outputs(fresh_decoder(), bits) == seq![
                if crc_byte == checksum(payload) {
                    lossy_decode(payload)
                } else {
                    crc_error_text(checksum(payload), crc_byte)
                },
            ]
            &&& end.state is SearchPreamble
            &&& end.payload == payload
            &&& end.length == payload.len() as u8
            &&& end.crc == crc_byte
            &&& end.history.len() > 0
            &&& end.history.last() == (EventModel {
                label: "CRC"@,
                bits: bit_chars(bits_of_byte(crc_byte)),
                is_complete: true,
                is_error: crc_byte != checksum(payload),
            })
        }),
{
    let len_byte: u8 = payload.len() as u8;
    let frame = frame_with_crc(payload, crc_byte);
    let ba = bits_of_byte(PREAMBLE_BYTE);
    let bs = bits_of_byte(SYNC_BYTE);
    let bl = bits_of_byte(len_byte);
    let bp = bits_of_bytes(payload);
    let bc = bits_of_byte(crc_byte);
    let head = seq![PREAMBLE_BYTE, SYNC_BYTE, len_byte];
    assert(head =~= seq![PREAMBLE_BYTE] + seq![SYNC_BYTE] + seq![len_byte]);
    lemma_bits_of_bytes_append(seq![PREAMBLE_BYTE] + seq![SYNC_BYTE], seq![len_byte]);
    lemma_bits_of_bytes_append(seq![PREAMBLE_BYTE], seq![SYNC_BYTE]);
    lemma_bits_of_singleton(PREAMBLE_BYTE);
    lemma_bits_of_singleton(SYNC_BYTE);
    lemma_bits_of_singleton(len_byte);
    lemma_bits_of_singleton(crc_byte);
    lemma_bits_of_bytes_append(head, payload);
    lemma_bits_of_bytes_append(head + payload, seq![crc_byte]);
    assert(frame =~= (head + payload) + seq![crc_byte]);
    let bits = bits_of_bytes(frame);
    assert(bits == ((ba + bs) + bl + bp) + bc);
    let d0 = fresh_decoder();
    lemma_scan_preamble(d0);
    let d1 = decoder_run(d0, ba);
    lemma_scan_sync(d1);
    let d2 = decoder_run(d1, bs);
    lemma_read_length_byte(d2, len_byte);
    let d3 = decoder_run(d2, bl);
    lemma_run_append(d0, ba, bs);
    assert(decoder_run(d0, ba + bs) == d2);
    lemma_run_append(d0, ba + bs, bl);
    assert(decoder_run(d0, (ba + bs) + bl) == d3);
    let d4 = decoder_run(d3, bp);
    if payload.len() == 0 {
        assert(len_byte == 0);
        assert(bp =~= Seq::<u8>::empty());
        assert(d4 == d3);
        assert(d4.state is ReadCRC);
        assert(d4.payload =~= payload);
    } else {
        assert(len_byte > 0) by {
            assert(payload.len() as u8 as nat == payload.len());
        }
        assert(d3.state is ReadPayload);
        assert(d3.payload.len() + payload.len() == d3.length);
        lemma_read_payload_bytes(d3, payload);
        assert(d4.state is ReadCRC);
        assert(d4.payload =~= payload);
    }
    assert(d4.bit_count == 0 && d4.bits_text == Seq::<char>::empty());
    lemma_run_append(d0, (ba + bs) + bl, bp);
    assert(decoder_run(d0, ((ba + bs) + bl) + bp) == d4);
    lemma_read_crc_byte(d4, crc_byte);
    let d5 = decoder_run(d4, bc);
    lemma_run_append(d0, ((ba + bs) + bl) + bp, bc);
    assert(decoder_run(d0, bits) == d5);
    assert(d5.history.last() == (EventModel {
        label: "CRC"@,
        bits: bit_chars(bc),
        is_complete: true,
        is_error: crc_byte != checksum(payload),
    }));
    assert(decoder_outputs(d0, bits) =~= seq![
        if crc_byte == checksum(payload) {
            lossy_decode(payload)
        } else {
            crc_error_text(checksum(payload), crc_byte)
        },
    ]);
}

/// Packet round trip: the bits the modulator generates for any payload of at
/// most 255 bytes drive a fresh decoder to emit exactly one message, the
/// lenient decoding of exactly that payload, with the closing event clean,
/// and leave the decoder searching for the next packet.
pub proof fn lemma_packet_round_trip(payload: Seq<u8>)
    requires
        payload.len() <= 255,
    ensures
        ({
            let bits = bits_of_bytes(frame_bytes(payload));
            let end = decoder_run(fresh_decoder(), bits);
            &&& decoder_outputs(fresh_decoder(), bits) == seq![lossy_decode(payload)]
            &&& end.state is SearchPreamble
            &&& end.payload == payload
            &&& end.history.len() > 0
            &&& !end.history.last().is_error
        }),
{
    lemma_frame_decoding(payload, checksum(payload));
    assert(frame_bytes(payload) =~= frame_with_crc(payload, checksum(payload)));
}

} // verus!
