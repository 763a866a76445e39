//! Modulator: frames an ASCII payload into a packet, expands it to a bit
//! vector (most significant bit of each byte first), and hands out one
//! modulation symbol per simulation step at a fixed symbol rate. The host
//! maps each symbol to a real (frequency, amplitude) pair; the library keeps
//! the tone selection and on/off gating, which is everything the bitstream
//! determines.

use vstd::prelude::*;

use crate::packet::{checksum, sum_bytes, PREAMBLE_BYTE, SYNC_BYTE};
use crate::text::{bit_char, push_char};
use vstd::string::StringSliceAdditionalSpecFns;

verus! {

/// How bits are keyed onto the carrier.
#[derive(Debug, Clone, Copy, PartialEq, Eq, Structural)]
pub enum ModulationScheme {
    /// Frequency-shift keying: the bit selects one of two tones.
    FSK,
    /// Amplitude-shift keying: the bit gates a single carrier on or off.
    ASK,
}

/// One symbol of the transmission: which of the two protocol tones to send,
/// and whether the carrier is on. Frequency-shift keying always keeps the
/// amplitude on; amplitude-shift keying always uses the second tone.
#[derive(Debug, Clone, Copy, PartialEq, Eq, Structural)]
pub struct ModulationSymbol {
    pub use_freq_1: bool,
    pub amplitude_on: bool,
}

/// The eight bits of a byte, most significant first.
pub open spec fn bits_of_byte(b: u8) -> Seq<u8> {
    seq![
        (b >> 7) & 1,
        (b >> 6) & 1,
        (b >> 5) & 1,
        (b >> 4) & 1,
        (b >> 3) & 1,
        (b >> 2) & 1,
        (b >> 1) & 1,
        b & 1,
    ]
}

/// The bits of a byte sequence, byte by byte, most significant bit first.
pub open spec fn bits_of_bytes(s: Seq<u8>) -> Seq<u8>
    decreases s.len(),
{
    if s.len() == 0 {
        Seq::empty()
    } else {
        bits_of_byte(s[0]) + bits_of_bytes(s.drop_first())
    }
}

/// Appending a byte appends its bits.
pub proof fn lemma_bits_of_bytes_push(s: Seq<u8>, b: u8)
    ensures
        bits_of_bytes(s.push(b)) == bits_of_bytes(s) + bits_of_byte(b),
    decreases s.len(),
{
    assert(s.push(b)[0] == if s.len() == 0 {
        b
    } else {
        s[0]
    });
    if s.len() == 0 {
        assert(s.push(b).drop_first() =~= Seq::<u8>::empty());
        assert(bits_of_bytes(s.push(b).drop_first()) == Seq::<u8>::empty());
        assert(bits_of_bytes(s.push(b)) =~= bits_of_bytes(s) + bits_of_byte(b));
    } else {
        assert(s.push(b).drop_first() =~= s.drop_first().push(b));
        lemma_bits_of_bytes_push(s.drop_first(), b);
        assert(bits_of_bytes(s.push(b)) =~= bits_of_bytes(s) + bits_of_byte(b));
    }
}

/// The payload actually framed: at most the first 255 bytes of the text.
pub open spec fn clip_payload(bytes: Seq<u8>) -> Seq<u8> {
    if bytes.len() <= 255 {
        bytes
    } else {
        bytes.take(255)
    }
}

/// The packet laid around a payload of at most 255 bytes: preamble, sync,
/// length, payload, checksum.
pub open spec fn frame_bytes(payload: Seq<u8>) -> Seq<u8> {
    seq![PREAMBLE_BYTE, SYNC_BYTE, payload.len() as u8] + payload + seq![checksum(payload)]
}

/// The display characters of a bit vector.
pub open spec fn bit_chars(bits: Seq<u8>) -> Seq<char> {
    Seq::new(bits.len(), |i: int| bit_char(bits[i]))
}

/// Converts a string to the vector of its bits, one `0`/`1` byte per bit,
/// most significant bit of each UTF-8 byte first.
pub fn text_to_bits(text: &str) -> (bits: Vec<u8>)
    ensures
        bits@ == bits_of_bytes(text.spec_bytes()),
{
    let bytes = text.as_bytes();
    bits_from_bytes(bytes)
}

/// The bit expansion shared by `text_to_bits` and the modulator.
fn bits_from_bytes(bytes: &[u8]) -> (bits: Vec<u8>)
    ensures
        bits@ == bits_of_bytes(bytes@),
{
    let mut bits: Vec<u8> = Vec::new();
    let n = bytes.len();
    let mut i: usize = 0;
    while i < n
        invariant
            i <= n,
            n == bytes@.len(),
            bits@ == bits_of_bytes(bytes@.take(i as int)),
        decreases n - i,
    {
        let b = bytes[i];
        bits.push((b >> 7) & 1);
        bits.push((b >> 6) & 1);
        bits.push((b >> 5) & 1);
        bits.push((b >> 4) & 1);
        bits.push((b >> 3) & 1);
        bits.push((b >> 2) & 1);
        bits.push((b >> 1) & 1);
        bits.push(b & 1);
        proof {
            lemma_bits_of_bytes_push(bytes@.take(i as int), b);
            assert(bytes@.take(i + 1) =~= bytes@.take(i as int).push(b));
            assert(bits@ =~= bits_of_bytes(bytes@.take(i as int)) + bits_of_byte(b));
        }
        i = i + 1;
    }
    proof {
        assert(bytes@.take(n as int) =~= bytes@);
    }
    bits
}

/// Mathematical image of a `Modulator`.
#[verifier::ext_equal]
pub ghost struct ModulatorModel {
    pub bits: Seq<u8>,
    pub current_bit_idx: nat,
    pub samples_per_symbol: nat,
    pub sample_counter: nat,
    pub scheme: ModulationScheme,
}

/// What one call of `next_modulation` does: the next model and the symbol
/// handed out, if bits remain.
pub open spec fn modulator_transition(m: ModulatorModel) -> (ModulatorModel, Option<
    ModulationSymbol,
>) {
    if m.current_bit_idx >= m.bits.len() {
        (m, None)
    } else {
        let bit = m.bits[m.current_bit_idx as int];
        let symbol = match m.scheme {
            ModulationScheme::FSK => ModulationSymbol {
                use_freq_1: bit == 1,
                amplitude_on: true,
            },
            ModulationScheme::ASK => ModulationSymbol {
                use_freq_1: true,
                amplitude_on: bit == 1,
            },
        };
        let counted = m.sample_counter + 1;
        let next = if counted >= m.samples_per_symbol {
            ModulatorModel {
                sample_counter: 0,
                current_bit_idx: m.current_bit_idx + 1,
                ..m
            }
        } else {
            ModulatorModel { sample_counter: counted, ..m }
        };
        (next, Some(symbol))
    }
}

/// Sends a framed packet as one modulation symbol per step, each bit held
/// for `samples_per_symbol` steps.
pub struct Modulator {
    bits: Vec<u8>,
    current_bit_idx: usize,
    samples_per_symbol: usize,
    sample_counter: usize,
    scheme: ModulationScheme,
}

impl View for Modulator {
    type V = ModulatorModel;

    closed spec fn view(&self) -> ModulatorModel {
        ModulatorModel {
            bits: self.bits@,
            current_bit_idx: self.current_bit_idx as nat,
            samples_per_symbol: self.samples_per_symbol as nat,
            sample_counter: self.sample_counter as nat,
            scheme: self.scheme,
        }
    }
}

impl Modulator {
    /// Structural bounds that every reachable modulator satisfies.
    pub open spec fn wf(&self) -> bool {
        &&& self@.current_bit_idx <= self@.bits.len()
        &&& (self@.sample_counter < self@.samples_per_symbol || self@.sample_counter == 0)
    }

    /// A modulator with no loaded transmission; frequency-shift keying by
    /// default. The host keeps the two tone frequencies.
    pub fn new(samples_per_symbol: usize) -> (m: Self)
        ensures
            m@ == (ModulatorModel {
                bits: Seq::empty(),
                current_bit_idx: 0,
                samples_per_symbol: samples_per_symbol as nat,
                sample_counter: 0,
                scheme: ModulationScheme::FSK,
            }),
            m.wf(),
    {
        let m = Modulator {
            bits: Vec::new(),
            current_bit_idx: 0,
            samples_per_symbol,
            sample_counter: 0,
            scheme: ModulationScheme::FSK,
        };
        proof {
            assert(m@ =~= (ModulatorModel {
                bits: Seq::empty(),
                current_bit_idx: 0,
                samples_per_symbol: samples_per_symbol as nat,
                sample_counter: 0,
                scheme: ModulationScheme::FSK,
            }));
        }
        m
    }

    pub fn set_scheme(&mut self, scheme: ModulationScheme)
        ensures
            final(self)@ == (ModulatorModel { scheme, ..old(self)@ }),
    {
        self.scheme = scheme;
    }

    /// Frames `text` into a packet and loads its bits: preamble, sync, the
    /// clipped length, at most 255 payload bytes, and their checksum. The bit
    /// index and the sample counter start over.
    pub fn load_text(&mut self, text: &str)
        ensures
            final(self)@ == (ModulatorModel {
                bits: bits_of_bytes(frame_bytes(clip_payload(text.spec_bytes()))),
                current_bit_idx: 0,
                sample_counter: 0,
                ..old(self)@
            }),
            final(self).wf(),
    {
        let bytes = text.as_bytes();
        let len: usize = if bytes.len() < 255 {
            bytes.len()
        } else {
            255
        };
        let ghost payload = clip_payload(text.spec_bytes());
        proof {
            assert(payload =~= bytes@.take(len as int));
        }
        let mut data: Vec<u8> = Vec::new();
        data.push(PREAMBLE_BYTE);
        data.push(SYNC_BYTE);
        data.push(len as u8);
        let mut i: usize = 0;
        while i < len
            invariant
                i <= len,
                len <= bytes@.len(),
                data@ == seq![PREAMBLE_BYTE, SYNC_BYTE, len as u8] + bytes@.take(i as int),
            decreases len - i,
        {
            data.push(bytes[i]);
            proof {
                assert(bytes@.take(i + 1) =~= bytes@.take(i as int).push(bytes@[i as int]));
                assert(data@ =~= seq![PREAMBLE_BYTE, SYNC_BYTE, len as u8] + bytes@.take(i + 1));
            }
            i = i + 1;
        }
        let mut sum: u16 = 0;
        let mut j: usize = 0;
        while j < len
            invariant
                j <= len,
                len <= bytes@.len(),
                len <= 255,
                sum == sum_bytes(bytes@.take(len as int).take(j as int)),
                sum <= j * 255,
            decreases len - j,
        {
            proof {
                let p = bytes@.take(len as int);
                assert(p.take(j + 1).drop_last() =~= p.take(j as int));
                assert(p.take(j + 1).last() == bytes@[j as int]);
            }
            sum = sum + bytes[j] as u16;
            j = j + 1;
        }
        proof {
            assert(bytes@.take(len as int).take(len as int) =~= bytes@.take(len as int));
        }
        data.push((sum % 256) as u8);
        proof {
            assert(data@ =~= frame_bytes(payload));
        }
        self.bits = bits_from_bytes(data.as_slice());
        self.current_bit_idx = 0;
        self.sample_counter = 0;
    }

    /// The symbol for the current step, or nothing once every bit has been
    /// sent for its full symbol duration.
    pub fn next_modulation(&mut self) -> (r: Option<ModulationSymbol>)
        requires
            old(self).wf(),
        ensures
            final(self)@ == modulator_transition(old(self)@).0,
            r == modulator_transition(old(self)@).1,
            final(self).wf(),
    {
        if self.current_bit_idx >= self.bits.len() {
            return None;
        }
        let bit = self.bits[self.current_bit_idx];
        let symbol = match self.scheme {
            ModulationScheme::FSK => ModulationSymbol { use_freq_1: bit == 1, amplitude_on: true },
            ModulationScheme::ASK => ModulationSymbol { use_freq_1: true, amplitude_on: bit == 1 },
        };
        self.sample_counter = self.sample_counter + 1;
        if self.sample_counter >= self.samples_per_symbol {
            self.sample_counter = 0;
            self.current_bit_idx = self.current_bit_idx + 1;
        }
        Some(symbol)
    }

    /// The loaded bit vector, one display character per bit.
    pub fn get_bits_string(&self) -> (r: String)
        ensures
            r@ == bit_chars(self@.bits),
    {
        let mut r = String::new();
        let n = self.bits.len();
        let mut i: usize = 0;
        while i < n
            invariant
                i <= n,
                n == self@.bits.len(),
                self@.bits == self.bits@,
                r@ == bit_chars(self@.bits.take(i as int)),
            decreases n - i,
        {
            push_char(&mut r, if self.bits[i] == 1 { '1' } else { '0' });
            proof {
                assert(r@ =~= bit_chars(self@.bits.take(i + 1)));
            }
            i = i + 1;
        }
        proof {
            assert(self@.bits.take(n as int) =~= self@.bits);
        }
        r
    }
}

} // verus!
