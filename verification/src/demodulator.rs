//! Demodulator decision core. The host runs the quadrature correlator over
//! each symbol (real-valued work) and reports, sample by sample, how the two
//! tone energies compare; the library counts the samples, applies the squelch
//! and the keying rule at each symbol boundary, keeps the rolling record of
//! decided bits, and feeds the packet decoder.

use vstd::prelude::*;

use crate::modulator::ModulationScheme;
use crate::packet::{decoder_transition, decoder_wf, fresh_decoder, lemma_transition_wf,
    DecoderModel, PacketDecoder, PacketState};
use crate::text::{all_ascii, ascii_chars, bit_char, lossy_decode, push_char};

verus! {

/// How many decided bits the rolling diagnostic record keeps.
pub const BIT_RECORD_CAP: usize = 64;

/// Mathematical image of a `Demodulator`.
#[verifier::ext_equal]
pub ghost struct DemodulatorModel {
    pub samples_per_symbol: nat,
    pub sample_counter: nat,
    pub scheme: ModulationScheme,
    pub decoder: DecoderModel,
    pub last_message: Seq<char>,
    pub received_bits: Seq<char>,
}

/// A sequence extended by one element, keeping only the newest
/// `BIT_RECORD_CAP` elements.
pub open spec fn push_capped(s: Seq<char>, c: char) -> Seq<char> {
    let p = s.push(c);
    if p.len() > BIT_RECORD_CAP {
        p.remove(0)
    } else {
        p
    }
}

/// What one sample does to the demodulator. The three flags are the
/// correlator readings at this sample: whether the summed tone energies fall
/// under the squelch floor, whether the second tone outweighs the first, and
/// whether the carrier energy clears the keying threshold. They matter only
/// at a symbol boundary. Frequency-shift keying squelches quiet symbols;
/// amplitude-shift keying reads a quiet symbol as a zero bit.
pub open spec fn demodulator_transition(
    m: DemodulatorModel,
    low_energy: bool,
    tone1_stronger: bool,
    carrier_detected: bool,
) -> (DemodulatorModel, Option<u8>) {
    let counted = m.sample_counter + 1;
    if counted >= m.samples_per_symbol {
        if m.scheme is FSK && low_energy {
            (DemodulatorModel { sample_counter: 0, ..m }, None)
        } else {
            let bit: u8 = match m.scheme {
                ModulationScheme::FSK => if tone1_stronger {
                    1
                } else {
                    0
                },
                ModulationScheme::ASK => if carrier_detected {
                    1
                } else {
                    0
                },
            };
            let stepped = decoder_transition(m.decoder, bit);
            (
                DemodulatorModel {
                    sample_counter: 0,
                    decoder: stepped.0,
                    last_message: match stepped.1 {
                        Some(msg) => msg,
                        None => m.last_message,
                    },
                    received_bits: push_capped(m.received_bits, bit_char(bit)),
                    ..m
                },
                Some(bit),
            )
        }
    } else {
        (DemodulatorModel { sample_counter: counted, ..m }, None)
    }
}

/// The human-readable name of a decoder phase.
pub open spec fn state_label(s: PacketState) -> Seq<char> {
    match s {
        PacketState::SearchPreamble => "SearchPreamble"@,
        PacketState::SearchSync => "SearchSync"@,
        PacketState::ReadLength => "ReadLength"@,
        PacketState::ReadPayload => "ReadPayload"@,
        PacketState::ReadCRC => "ReadCRC"@,
    }
}

/// Decides one bit per symbol from the host's correlator readings and runs
/// the packet decoder over the decided bits.
pub struct Demodulator {
    samples_per_symbol: usize,
    sample_counter: usize,
    scheme: ModulationScheme,
    decoder: PacketDecoder,
    last_message: String,
    received_bits: Vec<char>,
}

impl View for Demodulator {
    type V = DemodulatorModel;

    closed spec fn view(&self) -> DemodulatorModel {
        DemodulatorModel {
            samples_per_symbol: self.samples_per_symbol as nat,
            sample_counter: self.sample_counter as nat,
            scheme: self.scheme,
            decoder: self.decoder@,
            last_message: self.last_message@,
            received_bits: self.received_bits@,
        }
    }
}

impl Demodulator {
    /// Structural bounds that every reachable demodulator satisfies.
    pub open spec fn wf(&self) -> bool {
        &&& decoder_wf(self@.decoder)
        &&& (self@.sample_counter < self@.samples_per_symbol || self@.sample_counter == 0)
        &&& self@.received_bits.len() <= BIT_RECORD_CAP
    }

    /// A demodulator with a fresh packet decoder; frequency-shift keying by
    /// default. The host keeps the tone frequencies and the thresholds.
    pub fn new(samples_per_symbol: usize) -> (d: Self)
        ensures
            d@ == (DemodulatorModel {
                samples_per_symbol: samples_per_symbol as nat,
                sample_counter: 0,
                scheme: ModulationScheme::FSK,
                decoder: fresh_decoder(),
                last_message: Seq::empty(),
                received_bits: Seq::empty(),
            }),
            d.wf(),
    {
        let d = Demodulator {
            samples_per_symbol,
            sample_counter: 0,
            scheme: ModulationScheme::FSK,
            decoder: PacketDecoder::new(),
            last_message: String::new(),
            received_bits: Vec::new(),
        };
        proof {
            assert(d@ =~= (DemodulatorModel {
                samples_per_symbol: samples_per_symbol as nat,
                sample_counter: 0,
                scheme: ModulationScheme::FSK,
                decoder: fresh_decoder(),
                last_message: Seq::empty(),
                received_bits: Seq::empty(),
            }));
        }
        d
    }

    pub fn set_scheme(&mut self, scheme: ModulationScheme)
        ensures
            final(self)@ == (DemodulatorModel { scheme, ..old(self)@ }),
    {
        self.scheme = scheme;
    }

    /// Registers one received sample. The three flags are the correlator
    /// readings at this sample, as `demodulator_transition` explains; the
    /// call returns the decided bit at a symbol boundary and nothing
    /// otherwise.
    pub fn process_sample(
        &mut self,
        low_energy: bool,
        tone1_stronger: bool,
        carrier_detected: bool,
    ) -> (r: Option<u8>)
        requires
            old(self).wf(),
        ensures
            final(self)@ == demodulator_transition(
                old(self)@,
                low_energy,
                tone1_stronger,
                carrier_detected,
            ).0,
            r == demodulator_transition(
                old(self)@,
                low_energy,
                tone1_stronger,
                carrier_detected,
            ).1,
            final(self).wf(),
    {
        self.sample_counter = self.sample_counter + 1;
        if self.sample_counter >= self.samples_per_symbol {
            self.sample_counter = 0;
            let is_fsk = match self.scheme {
                ModulationScheme::FSK => true,
                ModulationScheme::ASK => false,
            };
            if is_fsk && low_energy {
                return None;
            }
            let bit: u8 = if is_fsk {
                if tone1_stronger {
                    1
                } else {
                    0
                }
            } else {
                if carrier_detected {
                    1
                } else {
                    0
                }
            };
            self.received_bits.push(if bit == 1 { '1' } else { '0' });
            if self.received_bits.len() > BIT_RECORD_CAP {
                self.received_bits.remove(0);
            }
            proof {
                lemma_transition_wf(old(self)@.decoder, bit);
            }
            let decoded = self.decoder.push_bit(bit);
            if let Some(msg) = decoded {
                self.last_message = msg;
            }
            proof {
                assert(self@ =~= demodulator_transition(
                    old(self)@,
                    low_energy,
                    tone1_stronger,
                    carrier_detected,
                ).0);
            }
            return Some(bit);
        }
        None
    }

    /// The text of the last completed packet: its payload if the checksum
    /// matched, the checksum diagnostic otherwise.
    pub fn get_text(&self) -> (r: String)
        ensures
            r@ == self@.last_message,
    {
        self.last_message.clone()
    }

    /// The payload gathered so far by the packet decoder, decoded leniently.
    pub fn get_partial_text(&self) -> (r: String)
        ensures
            r@ == lossy_decode(self@.decoder.payload),
            all_ascii(self@.decoder.payload) ==> r@ == ascii_chars(self@.decoder.payload),
    {
        self.decoder.get_partial_payload()
    }

    /// The newest decided bits, one display character per bit, at most
    /// `BIT_RECORD_CAP` of them.
    pub fn get_bits_string(&self) -> (r: String)
        ensures
            r@ == self@.received_bits,
    {
        let mut r = String::new();
        let n = self.received_bits.len();
        let mut i: usize = 0;
        while i < n
            invariant
                i <= n,
                n == self@.received_bits.len(),
                self@.received_bits == self.received_bits@,
                r@ == self@.received_bits.take(i as int),
            decreases n - i,
        {
            push_char(&mut r, self.received_bits[i]);
            proof {
                assert(r@ =~= self@.received_bits.take(i + 1));
            }
            i = i + 1;
        }
        proof {
            assert(self@.received_bits.take(n as int) =~= self@.received_bits);
        }
        r
    }

    /// The name of the packet decoder's current phase.
    pub fn get_state_string(&self) -> (r: String)
        ensures
            r@ == state_label(self@.decoder.state),
    {
        match self.decoder.get_state() {
            PacketState::SearchPreamble => "SearchPreamble".to_owned(),
            PacketState::SearchSync => "SearchSync".to_owned(),
            PacketState::ReadLength => "ReadLength".to_owned(),
            PacketState::ReadPayload => "ReadPayload".to_owned(),
            PacketState::ReadCRC => "ReadCRC".to_owned(),
        }
    }
}

} // verus!
