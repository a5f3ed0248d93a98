//! Wire-protocol codec tests: round trips, every error case, and the exact
//! byte layout of an encoded frame.

use canvas_core::codec::{decode_ws_message, encode_ws_message, DecodeError, WsMessage};

fn msg(version: u8, msg_type: u8, flags: u8, payload: Vec<u8>) -> WsMessage {
    WsMessage { version, msg_type, flags, payload }
}

#[test]
fn encode_decode_roundtrip() {
    let m = msg(1, 42, 1, b"hello world".to_vec());
    let buf = encode_ws_message(&m);
    let decoded = decode_ws_message(&buf).unwrap();
    assert_eq!(m.version, decoded.version);
    assert_eq!(m.msg_type, decoded.msg_type);
    assert_eq!(m.flags, decoded.flags);
    assert_eq!(m.payload, decoded.payload);
}

#[test]
fn decode_invalid_version() {
    let mut data = vec![2, 42, 0, 0, 0, 0, 5]; // version 2 (invalid)
    data.extend(b"hello");
    let result = decode_ws_message(&data);
    assert!(result.is_err());
    assert!(result.unwrap_err().message().contains("Unsupported protocol version"));
}

#[test]
fn decode_message_too_short() {
    let data = vec![1, 42, 0, 0, 0, 0]; // Only 6 bytes, need at least 7
    let result = decode_ws_message(&data);
    assert!(result.is_err());
    assert!(result.unwrap_err().message().contains("Message too short"));
}

#[test]
fn decode_empty_message() {
    let data = vec![];
    let result = decode_ws_message(&data);
    assert!(result.is_err());
    assert!(result.unwrap_err().message().contains("Message too short"));
}

#[test]
fn decode_minimum_valid_message() {
    let data = vec![1, 100, 255, 0, 0, 0, 0]; // No payload
    let decoded = decode_ws_message(&data).unwrap();
    assert_eq!(decoded.version, 1);
    assert_eq!(decoded.msg_type, 100);
    assert_eq!(decoded.flags, 255);
    assert_eq!(decoded.payload.len(), 0);
}

#[test]
fn decode_payload_length_mismatch_too_short() {
    let mut data = vec![1, 42, 0, 0, 0, 0, 10]; // Claims 10 bytes payload
    data.extend(b"hello"); // Only 5 bytes payload
    let result = decode_ws_message(&data);
    assert!(result.is_err());
    assert!(result.unwrap_err().message().contains("Message length mismatch"));
}

#[test]
fn decode_payload_length_mismatch_too_long() {
    let mut data = vec![1, 42, 0, 0, 0, 0, 3]; // Claims 3 bytes payload
    data.extend(b"hello world"); // 11 bytes payload
    let result = decode_ws_message(&data);
    assert!(result.is_err());
    assert!(result.unwrap_err().message().contains("Message length mismatch"));
}

#[test]
fn encode_decode_large_payload() {
    let large_payload = vec![0xAB; 1024]; // 1KB of 0xAB bytes
    let m = msg(1, 255, 128, large_payload.clone());
    let encoded = encode_ws_message(&m);
    let decoded = decode_ws_message(&encoded).unwrap();
    assert_eq!(decoded.version, 1);
    assert_eq!(decoded.msg_type, 255);
    assert_eq!(decoded.flags, 128);
    assert_eq!(decoded.payload, large_payload);
}

#[test]
fn encode_decode_max_u32_payload_size() {
    // Test with a reasonably large payload (not full u32::MAX for practical reasons)
    let payload_size = 65536; // 64KB
    let payload = vec![0x42; payload_size];
    let m = msg(1, 200, 64, payload.clone());
    let encoded = encode_ws_message(&m);
    let decoded = decode_ws_message(&encoded).unwrap();
    assert_eq!(decoded.version, 1);
    assert_eq!(decoded.msg_type, 200);
    assert_eq!(decoded.flags, 64);
    assert_eq!(decoded.payload, payload);
    assert_eq!(decoded.payload.len(), payload_size);
}

#[test]
fn encode_decode_binary_payload() {
    let binary_payload = vec![0, 1, 2, 3, 255, 254, 253, 128, 127];
    let m = msg(1, 50, 0, binary_payload.clone());
    let encoded = encode_ws_message(&m);
    let decoded = decode_ws_message(&encoded).unwrap();
    assert_eq!(decoded.payload, binary_payload);
}

#[test]
fn encode_decode_all_flag_values() {
    for flags in 0..=255u8 {
        let m = msg(1, 10, flags, vec![flags]); // Use flag value as payload for verification
        let encoded = encode_ws_message(&m);
        let decoded = decode_ws_message(&encoded).unwrap();
        assert_eq!(decoded.flags, flags);
        assert_eq!(decoded.payload, vec![flags]);
    }
}

#[test]
fn encode_decode_all_message_types() {
    for msg_type in 0..=255u8 {
        let m = msg(1, msg_type, 0, vec![msg_type]); // Use msg_type as payload for verification
        let encoded = encode_ws_message(&m);
        let decoded = decode_ws_message(&encoded).unwrap();
        assert_eq!(decoded.msg_type, msg_type);
        assert_eq!(decoded.payload, vec![msg_type]);
    }
}

#[test]
fn decode_invalid_version_zero() {
    let data = vec![0, 42, 0, 0, 0, 0, 0]; // version 0
    let result = decode_ws_message(&data);
    assert!(result.is_err());
    assert!(result.unwrap_err().message().contains("Unsupported protocol version: 0"));
}

#[test]
fn decode_invalid_version_max() {
    let data = vec![255, 42, 0, 0, 0, 0, 0]; // version 255
    let result = decode_ws_message(&data);
    assert!(result.is_err());
    assert!(result.unwrap_err().message().contains("Unsupported protocol version: 255"));
}

#[test]
fn encode_message_capacity_optimization() {
    let payload = b"test payload".to_vec();
    let m = msg(1, 1, 0, payload.clone());
    let encoded_data = encode_ws_message(&m);

    // Verify the encoded data has correct structure
    assert_eq!(encoded_data[0], 1); // version
    assert_eq!(encoded_data[1], 1); // msg_type
    assert_eq!(encoded_data[2], 0); // flags

    // Verify payload length encoding (big-endian u32)
    let payload_len = u32::from_be_bytes([
        encoded_data[3],
        encoded_data[4],
        encoded_data[5],
        encoded_data[6],
    ]);
    assert_eq!(payload_len as usize, payload.len());

    // Verify payload data
    assert_eq!(&encoded_data[7..], &payload);
}

#[test]
fn decode_utf8_string_payload() {
    let utf8_string = "Hello, ‰∏ñÁïå! üåç";
    let m = msg(1, 1, 0, utf8_string.as_bytes().to_vec());
    let encoded = encode_ws_message(&m);
    let decoded = decode_ws_message(&encoded).unwrap();
    assert_eq!(decoded.payload, utf8_string.as_bytes());
    assert_eq!(String::from_utf8(decoded.payload).unwrap(), utf8_string);
}

#[test]
fn decode_header_only_truncated() {
    // Test various truncated headers
    for len in 1..7 {
        let data = vec![1; len];
        let result = decode_ws_message(&data);
        assert!(result.is_err());
        assert!(result.unwrap_err().message().contains("Message too short"));
    }
}

#[test]
fn decode_error_messages_exact() {
    assert_eq!(DecodeError::TooShort.message(), "Message too short");
    assert_eq!(DecodeError::LengthMismatch.message(), "Message length mismatch");
    assert_eq!(DecodeError::UnsupportedVersion(0).message(), "Unsupported protocol version: 0");
    assert_eq!(DecodeError::UnsupportedVersion(7).message(), "Unsupported protocol version: 7");
    assert_eq!(DecodeError::UnsupportedVersion(42).message(), "Unsupported protocol version: 42");
    assert_eq!(DecodeError::UnsupportedVersion(255).message(), "Unsupported protocol version: 255");
}

#[test]
fn encode_example_bytes_exact() {
    // encode {version=1, msg_type=42, flags=0, payload="abc"} gives exactly
    // [1, 42, 0, 0, 0, 0, 3, 'a', 'b', 'c']
    let m = msg(1, 42, 0, b"abc".to_vec());
    let encoded = encode_ws_message(&m);
    assert_eq!(encoded, vec![1, 42, 0, 0, 0, 0, 3, b'a', b'b', b'c']);
}
