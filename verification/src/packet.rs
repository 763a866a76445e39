//! Bit-serial packet decoder. Bits are shifted into an 8-bit register; a
//! state machine locates the preamble and sync bytes, then reads length,
//! payload and checksum, and emits either the decoded text or a checksum
//! diagnostic. The whole behaviour is captured by `decoder_transition`, a
//! transition function over `DecoderModel`.

use vstd::prelude::*;

use crate::text::{all_ascii, ascii_chars, bit_char, hex_pair, lossy_decode, lossy_string,
    push_char, push_hex_byte};
use vstd::string::StringExecFns;

verus! {

/// Phase of the packet state machine.
#[derive(Debug, Clone, Copy, PartialEq, Eq, Structural)]
pub enum PacketState {
    /// Waiting for the shift register to spell the preamble byte.
    SearchPreamble,
    /// Waiting for the sync byte.
    SearchSync,
    /// Reading the one-byte payload length.
    ReadLength,
    /// Reading the payload bytes.
    ReadPayload,
    /// Reading the one-byte checksum.
    ReadCRC,
}

/// One framed field as it was decoded, for diagnostics.
#[derive(Debug, Clone)]
pub struct DecodeEvent {
    pub label: String,
    pub bits: String,
    pub is_complete: bool,
    pub is_error: bool,
}

/// Mathematical image of a `DecodeEvent`.
#[verifier::ext_equal]
pub ghost struct EventModel {
    pub label: Seq<char>,
    pub bits: Seq<char>,
    pub is_complete: bool,
    pub is_error: bool,
}

impl View for DecodeEvent {
    type V = EventModel;

    open spec fn view(&self) -> EventModel {
        EventModel {
            label: self.label@,
            bits: self.bits@,
            is_complete: self.is_complete,
            is_error: self.is_error,
        }
    }
}

/// Mathematical image of a `PacketDecoder`.
#[verifier::ext_equal]
pub ghost struct DecoderModel {
    pub state: PacketState,
    pub buffer: u8,
    pub bit_count: nat,
    pub length: u8,
    pub payload: Seq<u8>,
    pub crc: u8,
    pub history: Seq<EventModel>,
    pub bits_text: Seq<char>,
}

/// The preamble byte that opens every packet.
pub const PREAMBLE_BYTE: u8 = 0xAA;

/// The sync byte that follows the preamble.
pub const SYNC_BYTE: u8 = 0x7E;

/// Sum of a sequence of bytes, as an unbounded integer.
pub open spec fn sum_bytes(s: Seq<u8>) -> int
    decreases s.len(),
{
    if s.len() == 0 {
        0
    } else {
        sum_bytes(s.drop_last()) + s.last()
    }
}

/// The checksum carried by a packet: the byte sum reduced modulo 256.
pub open spec fn checksum(payload: Seq<u8>) -> u8 {
    (sum_bytes(payload) % 256) as u8
}

/// The diagnostic text emitted when the received checksum disagrees with the
/// computed one.
pub open spec fn crc_error_text(expected: u8, got: u8) -> Seq<char> {
    "[CRC ERROR] Expected "@ + hex_pair(expected) + ", Got "@ + hex_pair(got)
}

/// The shift register after one bit enters from the right.
pub open spec fn shift_in(buffer: u8, bit: u8) -> u8 {
    (buffer << 1) | (bit & 1)
}

/// The model of a freshly constructed decoder.
pub open spec fn fresh_decoder() -> DecoderModel {
    DecoderModel {
        state: PacketState::SearchPreamble,
        buffer: 0,
        bit_count: 0,
        length: 0,
        payload: Seq::empty(),
        crc: 0,
        history: Seq::empty(),
        bits_text: Seq::empty(),
    }
}

/// What one input bit does to a decoder: the next model and the message
/// emitted, if any. This is the single source of truth for `push_bit`.
/// Opaque: proofs that need the definition reveal it.
#[verifier::opaque]
pub open spec fn decoder_transition(d: DecoderModel, bit: u8) -> (DecoderModel, Option<
    Seq<char>,
>) {
    let b = shift_in(d.buffer, bit);
    let t = d.bits_text.push(bit_char(bit));
    match d.state {
        PacketState::SearchPreamble => {
            if b == PREAMBLE_BYTE {
                (
                    DecoderModel {
                        state: PacketState::SearchSync,
                        buffer: b,
                        bit_count: 0,
                        history: d.history.push(
                            EventModel {
                                label: "PRE"@,
                                bits: t,
                                is_complete: true,
                                is_error: false,
                            },
                        ),
                        bits_text: Seq::empty(),
                        ..d
                    },
                    None,
                )
            } else {
                (DecoderModel { buffer: b, bits_text: t, ..d }, None)
            }
        },
        PacketState::SearchSync => {
            if b == SYNC_BYTE {
                (
                    DecoderModel {
                        state: PacketState::ReadLength,
                        buffer: b,
                        bit_count: 0,
                        history: d.history.push(
                            EventModel {
                                label: "SYNC"@,
                                bits: t,
                                is_complete: true,
                                is_error: false,
                            },
                        ),
                        bits_text: Seq::empty(),
                        ..d
                    },
                    None,
                )
            } else {
                (DecoderModel { buffer: b, bits_text: t, ..d }, None)
            }
        },
        PacketState::ReadLength => {
            if d.bit_count + 1 == 8 {
                (
                    DecoderModel {
                        state: if b > 0 {
                            PacketState::ReadPayload
                        } else {
                            PacketState::ReadCRC
                        },
                        buffer: b,
                        bit_count: 0,
                        length: b,
                        payload: Seq::empty(),
                        history: d.history.push(
                            EventModel {
                                label: "LEN"@,
                                bits: t,
                                is_complete: true,
                                is_error: false,
                            },
                        ),
                        bits_text: Seq::empty(),
                        ..d
                    },
                    None,
                )
            } else {
                (
                    DecoderModel { buffer: b, bit_count: d.bit_count + 1, bits_text: t, ..d },
                    None,
                )
            }
        },
        PacketState::ReadPayload => {
            if d.bit_count + 1 == 8 {
                let p = d.payload.push(b);
                (
                    DecoderModel {
                        state: if p.len() == d.length {
                            PacketState::ReadCRC
                        } else {
                            PacketState::ReadPayload
                        },
                        buffer: b,
                        bit_count: 0,
                        payload: p,
                        history: d.history.push(
                            EventModel {
                                label: lossy_decode(seq![b]),
                                bits: t,
                                is_complete: true,
                                is_error: false,
                            },
                        ),
                        bits_text: Seq::empty(),
                        ..d
                    },
                    None,
                )
            } else {
                (
                    DecoderModel { buffer: b, bit_count: d.bit_count + 1, bits_text: t, ..d },
                    None,
                )
            }
        },
        PacketState::ReadCRC => {
            if d.bit_count + 1 == 8 {
                let expected = checksum(d.payload);
                let valid = b == expected;
                (
                    DecoderModel {
                        state: PacketState::SearchPreamble,
                        buffer: b,
                        bit_count: 0,
                        crc: b,
                        history: d.history.push(
                            EventModel {
                                label: "CRC"@,
                                bits: t,
                                is_complete: true,
                                is_error: !valid,
                            },
                        ),
                        bits_text: Seq::empty(),
                        ..d
                    },
                    if valid {
                        Some(lossy_decode(d.payload))
                    } else {
                        Some(crc_error_text(expected, b))
                    },
                )
            } else {
                (
                    DecoderModel { buffer: b, bit_count: d.bit_count + 1, bits_text: t, ..d },
                    None,
                )
            }
        },
    }
}

/// Structural bounds that every reachable decoder satisfies.
pub open spec fn decoder_wf(d: DecoderModel) -> bool {
    &&& d.payload.len() <= 255
    &&& d.bit_count < 8
    &&& (d.state is ReadPayload ==> d.payload.len() < d.length)
}

/// One bit preserves the structural bounds.
pub proof fn lemma_transition_wf(d: DecoderModel, bit: u8)
    requires
        decoder_wf(d),
    ensures
        decoder_wf(decoder_transition(d, bit).0),
{
    reveal(decoder_transition);
}

/// Bit-serial packet decoder: locates preamble and sync, then reads length,
/// payload and checksum, and reports each decoded packet.
pub struct PacketDecoder {
    state: PacketState,
    buffer: u8,
    bit_count: usize,
    length: u8,
    payload: Vec<u8>,
    crc: u8,
    pub history: Vec<DecodeEvent>,
    pub current_bits_buffer: String,
}

impl View for PacketDecoder {
    type V = DecoderModel;

    closed spec fn view(&self) -> DecoderModel {
        DecoderModel {
            state: self.state,
            buffer: self.buffer,
            bit_count: self.bit_count as nat,
            length: self.length,
            payload: self.payload@,
            crc: self.crc,
            history: self.history@.map_values(|e: DecodeEvent| e@),
            bits_text: self.current_bits_buffer@,
        }
    }
}

impl PacketDecoder {
    /// The structural bounds, seen through the model.
    pub open spec fn wf(&self) -> bool {
        decoder_wf(self@)
    }

    pub fn new() -> (d: Self)
        ensures
            d@ == fresh_decoder(),
            d.wf(),
    {
        let d = PacketDecoder {
            state: PacketState::SearchPreamble,
            buffer: 0,
            bit_count: 0,
            length: 0,
            payload: Vec::new(),
            crc: 0,
            history: Vec::new(),
            current_bits_buffer: String::new(),
        };
        proof {
            assert(d@ =~= fresh_decoder());
        }
        d
    }

    /// Returns to the searching state, dropping any partial packet and the
    /// diagnostic buffers; the last captured length and checksum remain.
    pub fn reset(&mut self)
        ensures
            final(self)@ == (DecoderModel {
                state: PacketState::SearchPreamble,
                buffer: 0,
                bit_count: 0,
                payload: Seq::empty(),
                history: Seq::empty(),
                bits_text: Seq::empty(),
                ..old(self)@
            }),
            final(self).wf(),
    {
        self.state = PacketState::SearchPreamble;
        self.bit_count = 0;
        self.buffer = 0;
        self.payload.clear();
        self.history.clear();
        self.current_bits_buffer = String::new();
        proof {
            assert(self@ =~= (DecoderModel {
                state: PacketState::SearchPreamble,
                buffer: 0,
                bit_count: 0,
                payload: Seq::empty(),
                history: Seq::empty(),
                bits_text: Seq::empty(),
                ..old(self)@
            }));
        }
    }

    pub fn get_state(&self) -> (s: PacketState)
        ensures
            s == self@.state,
    {
        self.state
    }

    /// Shifts one bit into the decoder. Returns the decoded payload text when
    /// a packet completes with a matching checksum, the checksum diagnostic
    /// when it completes with a mismatch, and nothing otherwise; the state
    /// advances exactly as `decoder_transition` says.
    pub fn push_bit(&mut self, bit: u8) -> (r: Option<String>)
        requires
            old(self).wf(),
        ensures
            final(self)@ == decoder_transition(old(self)@, bit).0,
            r.deep_view() == decoder_transition(old(self)@, bit).1,
            final(self).wf(),
    {
        proof {
            reveal(decoder_transition);
            lemma_transition_wf(old(self)@, bit);
        }
        self.buffer = (self.buffer << 1) | (bit & 1);
        push_char(&mut self.current_bits_buffer, if bit == 1 { '1' } else { '0' });
        match self.state {
            PacketState::SearchPreamble => {
                if self.buffer == PREAMBLE_BYTE {
                    let event = DecodeEvent {
                        label: "PRE".to_owned(),
                        bits: self.current_bits_buffer.clone(),
                        is_complete: true,
                        is_error: false,
                    };
                    self.history.push(event);
                    self.current_bits_buffer = String::new();
                    self.bit_count = 0;
                    self.state = PacketState::SearchSync;
                }
            },
            PacketState::SearchSync => {
                if self.buffer == SYNC_BYTE {
                    let event = DecodeEvent {
                        label: "SYNC".to_owned(),
                        bits: self.current_bits_buffer.clone(),
                        is_complete: true,
                        is_error: false,
                    };
                    self.history.push(event);
                    self.current_bits_buffer = String::new();
                    self.state = PacketState::ReadLength;
                    self.bit_count = 0;
                }
            },
            PacketState::ReadLength => {
                self.bit_count = self.bit_count + 1;
                if self.bit_count == 8 {
                    self.length = self.buffer;
                    let event = DecodeEvent {
                        label: "LEN".to_owned(),
                        bits: self.current_bits_buffer.clone(),
                        is_complete: true,
                        is_error: false,
                    };
                    self.history.push(event);
                    self.current_bits_buffer = String::new();
                    self.payload.clear();
                    self.bit_count = 0;
                    if self.length > 0 {
                        self.state = PacketState::ReadPayload;
                    } else {
                        self.state = PacketState::ReadCRC;
                    }
                }
            },
            PacketState::ReadPayload => {
                self.bit_count = self.bit_count + 1;
                if self.bit_count == 8 {
                    self.payload.push(self.buffer);
                    let mut byte: Vec<u8> = Vec::new();
                    byte.push(self.buffer);
                    let label = lossy_string(byte.as_slice());
                    proof {
                        assert(byte@ =~= seq![self.buffer]);
                    }
                    let event = DecodeEvent {
                        label,
                        bits: self.current_bits_buffer.clone(),
                        is_complete: true,
                        is_error: false,
                    };
                    self.history.push(event);
                    self.current_bits_buffer = String::new();
                    self.bit_count = 0;
                    if self.payload.len() == self.length as usize {
                        self.state = PacketState::ReadCRC;
                    }
                }
            },
            PacketState::ReadCRC => {
                self.bit_count = self.bit_count + 1;
                if self.bit_count == 8 {
                    self.crc = self.buffer;
                    let calc_crc = self.compute_checksum();
                    let is_valid = self.crc == calc_crc;
                    let event = DecodeEvent {
                        label: "CRC".to_owned(),
                        bits: self.current_bits_buffer.clone(),
                        is_complete: true,
                        is_error: !is_valid,
                    };
                    self.history.push(event);
                    self.current_bits_buffer = String::new();
                    self.state = PacketState::SearchPreamble;
                    self.bit_count = 0;
                    proof {
                        assert(self@ =~= decoder_transition(old(self)@, bit).0);
                    }
                    if is_valid {
                        return Some(lossy_string(self.payload.as_slice()));
                    } else {
                        let mut msg = "[CRC ERROR] Expected ".to_owned();
                        push_hex_byte(&mut msg, calc_crc);
                        msg.append(", Got ");
                        push_hex_byte(&mut msg, self.crc);
                        proof {
                            assert(msg@ =~= crc_error_text(calc_crc, self.crc));
                        }
                        return Some(msg);
                    }
                }
            },
        }
        proof {
            assert(self@ =~= decoder_transition(old(self)@, bit).0);
        }
        None
    }

    /// The byte sum of the gathered payload, reduced modulo 256.
    fn compute_checksum(&self) -> (c: u8)
        requires
            self@.payload.len() <= 255,
        ensures
            c == checksum(self@.payload),
    {
        let mut sum: u16 = 0;
        let mut i: usize = 0;
        let n = self.payload.len();
        while i < n
            invariant
                i <= n,
                n == self@.payload.len(),
                n <= 255,
                self@.payload == self.payload@,
                sum == sum_bytes(self@.payload.take(i as int)),
                sum <= i * 255,
            decreases n - i,
        {
            proof {
                let p = self@.payload;
                assert(p.take(i + 1).drop_last() =~= p.take(i as int));
                assert(p.take(i + 1).last() == p[i as int]);
            }
            sum = sum + self.payload[i] as u16;
            i = i + 1;
        }
        proof {
            assert(self@.payload.take(n as int) =~= self@.payload);
        }
        (sum % 256) as u8
    }

    /// The payload gathered so far, decoded leniently.
    pub fn get_partial_payload(&self) -> (r: String)
        ensures
            r@ == lossy_decode(self@.payload),
            all_ascii(self@.payload) ==> r@ == ascii_chars(self@.payload),
    {
        lossy_string(self.payload.as_slice())
    }
}

} // verus!
