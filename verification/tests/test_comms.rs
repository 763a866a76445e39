use fdtd_modem::demodulator::Demodulator;
use fdtd_modem::modulator::{text_to_bits, ModulationScheme, ModulationSymbol, Modulator};

#[test]
fn test_text_to_bits_conversion() {
    let text = "AB";
    // 'A' = 65 = 01000001
    // 'B' = 66 = 01000010
    let bits = text_to_bits(text);
    assert_eq!(bits.len(), 16);
    assert_eq!(bits[0..8], [0, 1, 0, 0, 0, 0, 0, 1]);
    assert_eq!(bits[8..16], [0, 1, 0, 0, 0, 0, 1, 0]);
}

#[test]
fn test_modulator_sequence_fsk() {
    let mut modulator = Modulator::new(10);
    modulator.load_text("A");

    // First byte 0xAA (10101010).
    // Bit 0: 1 -> FSK: second tone, amplitude on.
    for _ in 0..10 {
        assert_eq!(
            modulator.next_modulation(),
            Some(ModulationSymbol { use_freq_1: true, amplitude_on: true })
        );
    }

    // Bit 1: 0 -> FSK: first tone, amplitude on.
    for _ in 0..10 {
        assert_eq!(
            modulator.next_modulation(),
            Some(ModulationSymbol { use_freq_1: false, amplitude_on: true })
        );
    }
}

#[test]
fn test_modulator_ask() {
    let mut modulator = Modulator::new(10);
    modulator.set_scheme(ModulationScheme::ASK);
    modulator.load_text("A");

    // First byte 0xAA.
    // Bit 0: 1 -> ASK: carrier tone, amplitude on.
    for _ in 0..10 {
        assert_eq!(
            modulator.next_modulation(),
            Some(ModulationSymbol { use_freq_1: true, amplitude_on: true })
        );
    }

    // Bit 1: 0 -> ASK: carrier tone, amplitude off.
    for _ in 0..10 {
        assert_eq!(
            modulator.next_modulation(),
            Some(ModulationSymbol { use_freq_1: true, amplitude_on: false })
        );
    }
}

#[test]
fn test_modulator_exhausts_to_none() {
    let mut modulator = Modulator::new(2);
    modulator.load_text("");
    // Frame of an empty text: preamble, sync, length 0, checksum 0 = 32 bits,
    // each held for 2 samples.
    for _ in 0..64 {
        assert!(modulator.next_modulation().is_some());
    }
    assert_eq!(modulator.next_modulation(), None);
    assert_eq!(modulator.next_modulation(), None);
}

#[test]
fn test_modulator_bits_string_checksum() {
    let mut modulator = Modulator::new(1);
    modulator.load_text("AB");
    let bits = modulator.get_bits_string();
    // preamble, sync, length, 'A', 'B', checksum = 6 bytes.
    assert_eq!(bits.len(), 48);
    assert_eq!(&bits[0..8], "10101010"); // 0xAA
    assert_eq!(&bits[8..16], "01111110"); // 0x7E
    assert_eq!(&bits[16..24], "00000010"); // length 2
    assert_eq!(&bits[24..32], "01000001"); // 'A'
    assert_eq!(&bits[32..40], "01000010"); // 'B'
    assert_eq!(&bits[40..48], "10000011"); // (0x41 + 0x42) % 256 = 0x83
}

/// Runs the quadrature correlator the host keeps, handing the demodulator
/// the three energy comparisons at each sample.
struct Correlator {
    f0: f64,
    f1: f64,
    i0: f64,
    q0: f64,
    i1: f64,
    q1: f64,
}

impl Correlator {
    fn new(f0: f64, f1: f64) -> Self {
        Correlator { f0, f1, i0: 0.0, q0: 0.0, i1: 0.0, q1: 0.0 }
    }

    fn feed(&mut self, dem: &mut Demodulator, value: f64, t: f64) -> Option<u8> {
        let omega0 = 2.0 * std::f64::consts::PI * self.f0;
        let omega1 = 2.0 * std::f64::consts::PI * self.f1;
        self.i0 += value * (omega0 * t).cos();
        self.q0 += value * (omega0 * t).sin();
        self.i1 += value * (omega1 * t).cos();
        self.q1 += value * (omega1 * t).sin();
        let energy0 = self.i0 * self.i0 + self.q0 * self.q0;
        let energy1 = self.i1 * self.i1 + self.q1 * self.q1;
        let decided = dem.process_sample(
            energy0 + energy1 < 1.0,
            energy1 > energy0,
            energy1 > 800.0,
        );
        if decided.is_some() {
            self.i0 = 0.0;
            self.q0 = 0.0;
            self.i1 = 0.0;
            self.q1 = 0.0;
        }
        decided
    }
}

#[test]
fn test_demodulator_perfect_signal_fsk() {
    let f0 = 0.1;
    let f1 = 0.2;
    let samples_per_sym = 100;
    let mut dem = Demodulator::new(samples_per_sym);
    dem.set_scheme(ModulationScheme::FSK);
    let mut corr = Correlator::new(f0, f1);

    // Simulate bit '0' (F0)
    for t_step in 0..samples_per_sym {
        let val = (2.0 * std::f64::consts::PI * f0 * (t_step as f64)).sin();
        let bit = corr.feed(&mut dem, val, t_step as f64);
        if t_step == samples_per_sym - 1 {
            assert_eq!(bit, Some(0));
        } else {
            assert_eq!(bit, None);
        }
    }

    // Simulate bit '1' (F1)
    for t_step in 0..samples_per_sym {
        let t = t_step as f64 + samples_per_sym as f64;
        let val = (2.0 * std::f64::consts::PI * f1 * t).sin();
        let bit = corr.feed(&mut dem, val, t);
        if t_step == samples_per_sym - 1 {
            assert_eq!(bit, Some(1));
        } else {
            assert_eq!(bit, None);
        }
    }
}

#[test]
fn test_demodulator_perfect_signal_ask() {
    let f_carrier = 0.15;
    let samples_per_sym = 100;
    let mut dem = Demodulator::new(samples_per_sym);
    dem.set_scheme(ModulationScheme::ASK);
    let mut corr = Correlator::new(0.0, f_carrier);

    // Simulate bit '1' (carrier on)
    for t_step in 0..samples_per_sym {
        let val = (2.0 * std::f64::consts::PI * f_carrier * (t_step as f64)).sin();
        let bit = corr.feed(&mut dem, val, t_step as f64);
        if t_step == samples_per_sym - 1 {
            assert_eq!(bit, Some(1));
        } else {
            assert_eq!(bit, None);
        }
    }

    // Simulate bit '0' (carrier off / silence)
    for t_step in 0..samples_per_sym {
        let t = t_step as f64 + samples_per_sym as f64;
        let bit = corr.feed(&mut dem, 0.0, t);
        if t_step == samples_per_sym - 1 {
            assert_eq!(bit, Some(0));
        } else {
            assert_eq!(bit, None);
        }
    }
}

#[test]
fn test_demodulator_fsk_squelches_silence() {
    // One sample per symbol: every call is a symbol boundary.
    let mut dem = Demodulator::new(1);
    dem.set_scheme(ModulationScheme::FSK);
    // Quiet symbol: squelched, no bit.
    assert_eq!(dem.process_sample(true, false, false), None);
    // Loud symbol, second tone stronger: bit 1.
    assert_eq!(dem.process_sample(false, true, false), Some(1));
    // Loud symbol, first tone stronger: bit 0.
    assert_eq!(dem.process_sample(false, false, false), Some(0));
}

#[test]
fn test_demodulator_ask_reads_silence_as_zero() {
    let mut dem = Demodulator::new(1);
    dem.set_scheme(ModulationScheme::ASK);
    // A quiet symbol is a zero bit under amplitude keying, not squelched.
    assert_eq!(dem.process_sample(true, false, false), Some(0));
    // Carrier above the threshold: bit 1.
    assert_eq!(dem.process_sample(true, false, true), Some(1));
}

#[test]
fn test_demodulator_bit_record_keeps_last_64() {
    let mut dem = Demodulator::new(1);
    dem.set_scheme(ModulationScheme::ASK);
    // 6 zero bits, then 64 one bits: only the 64 ones remain.
    for _ in 0..6 {
        assert_eq!(dem.process_sample(false, false, false), Some(0));
    }
    for _ in 0..64 {
        assert_eq!(dem.process_sample(false, false, true), Some(1));
    }
    let bits = dem.get_bits_string();
    assert_eq!(bits.len(), 64);
    assert!(bits.chars().all(|c| c == '1'));
}
