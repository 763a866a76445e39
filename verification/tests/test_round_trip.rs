use fdtd_modem::modulator::Modulator;
use fdtd_modem::packet::{PacketDecoder, PacketState};

/// Pipes the modulator's loaded bits into a fresh decoder and collects every
/// emitted message.
fn pipe_bits_to_decoder(modulator: &Modulator, decoder: &mut PacketDecoder) -> Vec<String> {
    let mut messages = Vec::new();
    for c in modulator.get_bits_string().chars() {
        let bit = if c == '1' { 1 } else { 0 };
        if let Some(msg) = decoder.push_bit(bit) {
            messages.push(msg);
        }
    }
    messages
}

#[test]
fn test_round_trip_short_text() {
    let mut modulator = Modulator::new(1);
    modulator.load_text("Hello, field!");
    let mut decoder = PacketDecoder::new();
    let messages = pipe_bits_to_decoder(&modulator, &mut decoder);
    assert_eq!(messages, vec!["Hello, field!".to_string()]);
    assert_eq!(decoder.get_state(), PacketState::SearchPreamble);
}

#[test]
fn test_round_trip_empty_text() {
    let mut modulator = Modulator::new(1);
    modulator.load_text("");
    let mut decoder = PacketDecoder::new();
    let messages = pipe_bits_to_decoder(&modulator, &mut decoder);
    assert_eq!(messages, vec!["".to_string()]);
}

#[test]
fn test_round_trip_full_length_payload() {
    let text: String = std::iter::repeat('x').take(255).collect();
    let mut modulator = Modulator::new(1);
    modulator.load_text(&text);
    let mut decoder = PacketDecoder::new();
    let messages = pipe_bits_to_decoder(&modulator, &mut decoder);
    assert_eq!(messages, vec![text]);
}

#[test]
fn test_round_trip_clips_overlong_text() {
    let text: String = std::iter::repeat('y').take(300).collect();
    let mut modulator = Modulator::new(1);
    modulator.load_text(&text);
    let mut decoder = PacketDecoder::new();
    let messages = pipe_bits_to_decoder(&modulator, &mut decoder);
    let expected: String = std::iter::repeat('y').take(255).collect();
    assert_eq!(messages, vec![expected]);
}

#[test]
fn test_round_trip_back_to_back_packets() {
    let mut decoder = PacketDecoder::new();
    let mut all = Vec::new();
    for text in ["one", "two"] {
        let mut modulator = Modulator::new(1);
        modulator.load_text(text);
        all.extend(pipe_bits_to_decoder(&modulator, &mut decoder));
    }
    assert_eq!(all, vec!["one".to_string(), "two".to_string()]);
}
