use fdtd_modem::packet::{PacketDecoder, PacketState};

#[test]
fn test_packet_decoder_state_transitions() {
    let mut decoder = PacketDecoder::new();
    assert_eq!(decoder.get_state(), PacketState::SearchPreamble);

    // Feed Preamble 0xAA (10101010)
    let preamble = vec![1, 0, 1, 0, 1, 0, 1, 0];
    for bit in preamble {
        decoder.push_bit(bit);
    }

    // Should be in SearchSync
    assert_eq!(decoder.get_state(), PacketState::SearchSync);

    // Feed Sync 0x7E (01111110)
    let sync = vec![0, 1, 1, 1, 1, 1, 1, 0];
    for bit in sync {
        decoder.push_bit(bit);
    }

    // Should be Reading Length
    assert_eq!(decoder.get_state(), PacketState::ReadLength);
}

/// Pushes the eight bits of one byte, most significant first, returning the
/// last message the decoder emitted while doing so.
fn push_byte(decoder: &mut PacketDecoder, byte: u8) -> Option<String> {
    let mut emitted = None;
    for i in (0..8).rev() {
        if let Some(msg) = decoder.push_bit((byte >> i) & 1) {
            emitted = Some(msg);
        }
    }
    emitted
}

#[test]
fn test_packet_decoder_decodes_valid_packet() {
    let mut decoder = PacketDecoder::new();
    // Packet around "Hi": length 2, checksum (0x48 + 0x69) % 256 = 0xB1.
    for byte in [0xAA, 0x7E, 0x02, 0x48, 0x69] {
        assert_eq!(push_byte(&mut decoder, byte), None);
    }
    assert_eq!(decoder.get_state(), PacketState::ReadCRC);
    let msg = push_byte(&mut decoder, 0xB1);
    assert_eq!(msg, Some("Hi".to_string()));
    assert_eq!(decoder.get_state(), PacketState::SearchPreamble);
}

#[test]
fn test_packet_decoder_reports_crc_mismatch() {
    let mut decoder = PacketDecoder::new();
    // Payload "A" has checksum 0x41; transmit 0x42 instead.
    for byte in [0xAA, 0x7E, 0x01, 0x41] {
        assert_eq!(push_byte(&mut decoder, byte), None);
    }
    let msg = push_byte(&mut decoder, 0x42);
    assert_eq!(msg, Some("[CRC ERROR] Expected 41, Got 42".to_string()));
    assert_eq!(decoder.get_state(), PacketState::SearchPreamble);
}

#[test]
fn test_packet_decoder_empty_payload() {
    let mut decoder = PacketDecoder::new();
    // Length 0: the decoder skips straight to the checksum, which is 0.
    for byte in [0xAA, 0x7E, 0x00] {
        assert_eq!(push_byte(&mut decoder, byte), None);
    }
    assert_eq!(decoder.get_state(), PacketState::ReadCRC);
    let msg = push_byte(&mut decoder, 0x00);
    assert_eq!(msg, Some("".to_string()));
}

#[test]
fn test_packet_decoder_invalid_utf8_is_replaced() {
    let mut decoder = PacketDecoder::new();
    // Payload of one 0xFF byte, checksum 0xFF: decodes to the replacement
    // character.
    for byte in [0xAA, 0x7E, 0x01, 0xFF] {
        assert_eq!(push_byte(&mut decoder, byte), None);
    }
    let msg = push_byte(&mut decoder, 0xFF);
    assert_eq!(msg, Some("\u{FFFD}".to_string()));
}

#[test]
fn test_packet_decoder_partial_payload() {
    let mut decoder = PacketDecoder::new();
    for byte in [0xAA, 0x7E, 0x03, 0x48, 0x69] {
        push_byte(&mut decoder, byte);
    }
    assert_eq!(decoder.get_state(), PacketState::ReadPayload);
    assert_eq!(decoder.get_partial_payload(), "Hi".to_string());
}

#[test]
fn test_packet_decoder_reset() {
    let mut decoder = PacketDecoder::new();
    for byte in [0xAA, 0x7E, 0x03, 0x48] {
        push_byte(&mut decoder, byte);
    }
    assert_eq!(decoder.get_state(), PacketState::ReadPayload);
    decoder.reset();
    assert_eq!(decoder.get_state(), PacketState::SearchPreamble);
    assert_eq!(decoder.get_partial_payload(), "".to_string());
    assert!(decoder.history.is_empty());
    assert!(decoder.current_bits_buffer.is_empty());
}

#[test]
fn test_packet_decoder_history_labels() {
    let mut decoder = PacketDecoder::new();
    for byte in [0xAA, 0x7E, 0x01, 0x41, 0x41] {
        push_byte(&mut decoder, byte);
    }
    let labels: Vec<String> = decoder.history.iter().map(|e| e.label.clone()).collect();
    assert_eq!(labels, vec!["PRE", "SYNC", "LEN", "A", "CRC"]);
    assert!(decoder.history.iter().all(|e| e.is_complete));
    assert!(decoder.history.iter().all(|e| !e.is_error));
    assert_eq!(decoder.history[0].bits, "10101010");
}

#[test]
fn test_packet_decoder_keeps_scanning_after_noise() {
    let mut decoder = PacketDecoder::new();
    // Noise never spelling 0xAA in the register keeps the decoder searching.
    for _ in 0..100 {
        assert_eq!(decoder.push_bit(1), None);
    }
    assert_eq!(decoder.get_state(), PacketState::SearchPreamble);
    // The preamble still locks in afterwards.
    for bit in [0, 1, 0, 1, 0, 1, 0] {
        decoder.push_bit(bit);
    }
    assert_eq!(decoder.get_state(), PacketState::SearchSync);
}
