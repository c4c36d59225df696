use name_registry::wire::{
    decode_host_record, decode_request, encode_host_record, encode_request, request_from_parts,
    HostRecord, Request, RequestKind, WireError,
};

fn request(kind: RequestKind, payload: &str) -> Request {
    Request { kind, payload: payload.to_string() }
}

fn record(address: &[u8], name: &str) -> HostRecord {
    HostRecord { address: address.to_vec(), name: name.to_string() }
}

#[test]
fn kind_tags_are_zero_and_one() {
    assert_eq!(RequestKind::Resolve.tag(), 0);
    assert_eq!(RequestKind::Register.tag(), 1);
    assert_eq!(RequestKind::from_tag(0), Some(RequestKind::Resolve));
    assert_eq!(RequestKind::from_tag(1), Some(RequestKind::Register));
    assert_eq!(RequestKind::from_tag(2), None);
    assert_eq!(RequestKind::from_tag(u32::MAX), None);
}

#[test]
fn resolve_request_bytes_are_tag_length_text() {
    let bytes = encode_request(&request(RequestKind::Resolve, "example"));
    assert_eq!(bytes, vec![0, 7, b'e', b'x', b'a', b'm', b'p', b'l', b'e']);
}

#[test]
fn register_request_bytes_are_tag_length_text() {
    let bytes = encode_request(&request(RequestKind::Register, "a|1.2.3.4"));
    assert_eq!(bytes, vec![1, 9, b'a', b'|', b'1', b'.', b'2', b'.', b'3', b'.', b'4']);
}

#[test]
fn empty_payload_is_two_bytes() {
    assert_eq!(encode_request(&request(RequestKind::Register, "")), vec![1, 0]);
}

#[test]
fn text_length_counts_bytes_not_characters() {
    let bytes = encode_request(&request(RequestKind::Resolve, "ñ"));
    assert_eq!(bytes, vec![0, 2, 0xc3, 0xb1]);
}

#[test]
fn length_of_250_takes_one_byte_and_251_takes_three() {
    let short = encode_request(&request(RequestKind::Resolve, &"a".repeat(250)));
    assert_eq!(short.len(), 1 + 1 + 250);
    assert_eq!(short[1], 250);
    let long = encode_request(&request(RequestKind::Resolve, &"a".repeat(251)));
    assert_eq!(long.len(), 1 + 3 + 251);
    assert_eq!(&long[1..4], &[251, 251, 0]);
}

#[test]
fn length_above_two_bytes_takes_five() {
    let payload = "b".repeat(70_000);
    let bytes = encode_request(&request(RequestKind::Resolve, &payload));
    assert_eq!(bytes.len(), 1 + 5 + 70_000);
    assert_eq!(&bytes[1..6], &[252, 0x70, 0x11, 0x01, 0x00]);
    assert_eq!(decode_request(&bytes), Ok(request(RequestKind::Resolve, &payload)));
}

#[test]
fn host_record_bytes_are_octets_then_name() {
    let bytes = encode_host_record(&record(&[192, 168, 1, 1], "example"));
    assert_eq!(
        bytes,
        vec![4, 192, 168, 1, 1, 7, b'e', b'x', b'a', b'm', b'p', b'l', b'e']
    );
}

#[test]
fn not_found_record_is_two_zero_bytes() {
    let sentinel = HostRecord::not_found();
    assert!(sentinel.address.is_empty());
    assert!(sentinel.name.is_empty());
    assert!(sentinel.is_not_found());
    assert_eq!(encode_host_record(&sentinel), vec![0, 0]);
    assert!(!record(&[1, 2, 3, 4], "").is_not_found());
    assert!(!record(&[], "x").is_not_found());
}

#[test]
fn encoding_agrees_with_bincode_on_a_pair() {
    let config = bincode::config::standard();
    for payload in ["", "example", "a|1.2.3.4", "dominio con ñ y é", &"x".repeat(300)] {
        let direct = bincode::encode_to_vec((1u32, payload), config).unwrap();
        assert_eq!(encode_request(&request(RequestKind::Register, payload)), direct);
    }
    let octets: Vec<u8> = vec![10, 0, 0, 255];
    let direct = bincode::encode_to_vec((octets.clone(), "host".to_string()), config).unwrap();
    assert_eq!(encode_host_record(&record(&octets, "host")), direct);
}

#[test]
fn request_round_trip() {
    for kind in [RequestKind::Resolve, RequestKind::Register] {
        for payload in ["", "example", " padded ", "a|b|c", "ünïcödé|1.2.3.4", &"z".repeat(1000)] {
            let sent = request(kind, payload);
            assert_eq!(decode_request(&encode_request(&sent)), Ok(sent));
        }
    }
}

#[test]
fn host_record_round_trip() {
    let long: Vec<u8> = (0..=255u8).cycle().take(700).collect();
    for address in [&[][..], &[192, 168, 1, 1][..], &[0][..], &long[..]] {
        for name in ["", "example", "nombre.con.puntos", "名前"] {
            let sent = record(address, name);
            assert_eq!(decode_host_record(&encode_host_record(&sent)), Ok(sent));
        }
    }
}

#[test]
fn bytes_behind_a_message_are_ignored() {
    let mut bytes = encode_request(&request(RequestKind::Resolve, "example"));
    bytes.extend_from_slice(&[1, 2, 3]);
    assert_eq!(decode_request(&bytes), Ok(request(RequestKind::Resolve, "example")));
    let mut bytes = encode_host_record(&record(&[1, 2, 3, 4], "h"));
    bytes.push(9);
    assert_eq!(decode_host_record(&bytes), Ok(record(&[1, 2, 3, 4], "h")));
}

#[test]
fn a_longer_form_of_an_integer_is_read() {
    assert_eq!(
        decode_request(&[251, 1, 0, 252, 2, 0, 0, 0, b'h', b'i']),
        Ok(request(RequestKind::Register, "hi"))
    );
    assert_eq!(
        decode_request(&[0, 253, 1, 0, 0, 0, 0, 0, 0, 0, b'x']),
        Ok(request(RequestKind::Resolve, "x"))
    );
}

#[test]
fn unknown_kind_is_reported_with_its_number() {
    assert_eq!(decode_request(&[2, 0]), Err(WireError::UnknownKind { tag: 2 }));
    assert_eq!(decode_request(&[250, 1, b'a']), Err(WireError::UnknownKind { tag: 250 }));
    assert_eq!(
        decode_request(&[252, 0xff, 0xff, 0xff, 0xff, 0]),
        Err(WireError::UnknownKind { tag: u32::MAX })
    );
}

#[test]
fn request_from_parts_checks_the_kind() {
    assert_eq!(
        request_from_parts(0, "n".to_string()),
        Ok(request(RequestKind::Resolve, "n"))
    );
    assert_eq!(
        request_from_parts(1, "n|1.1.1.1".to_string()),
        Ok(request(RequestKind::Register, "n|1.1.1.1"))
    );
    assert_eq!(request_from_parts(7, String::new()), Err(WireError::UnknownKind { tag: 7 }));
}

#[test]
fn truncated_requests_are_malformed() {
    assert_eq!(decode_request(&[]), Err(WireError::Malformed));
    assert_eq!(decode_request(&[0]), Err(WireError::Malformed));
    assert_eq!(decode_request(&[1, 3, b'a', b'b']), Err(WireError::Malformed));
    assert_eq!(decode_request(&[251, 0]), Err(WireError::Malformed));
    assert_eq!(decode_request(&[0, 251, 5]), Err(WireError::Malformed));
    let whole = encode_request(&request(RequestKind::Register, "example|1.2.3.4"));
    for cut in 0..whole.len() {
        assert_eq!(decode_request(&whole[..cut]), Err(WireError::Malformed));
    }
}

#[test]
fn a_kind_wider_than_four_bytes_is_malformed() {
    assert_eq!(
        decode_request(&[253, 0, 0, 0, 0, 0, 0, 0, 0, 0]),
        Err(WireError::Malformed)
    );
    assert_eq!(decode_request(&[254, 0, 0]), Err(WireError::Malformed));
    assert_eq!(decode_request(&[255, 0, 0]), Err(WireError::Malformed));
}

#[test]
fn a_length_wider_than_eight_bytes_is_malformed() {
    let mut bytes = vec![0, 254];
    bytes.extend_from_slice(&[0; 16]);
    assert_eq!(decode_request(&bytes), Err(WireError::Malformed));
    assert_eq!(decode_request(&[0, 255, 0]), Err(WireError::Malformed));
}

#[test]
fn text_that_is_not_utf8_is_malformed() {
    assert_eq!(decode_request(&[0, 2, 0xff, 0xfe]), Err(WireError::Malformed));
    assert_eq!(decode_request(&[0, 1, 0xc3]), Err(WireError::Malformed));
    assert_eq!(decode_host_record(&[1, 7, 2, 0xc0, 0x80]), Err(WireError::Malformed));
}

#[test]
fn a_length_that_the_input_cannot_back_is_malformed() {
    let mut bytes = vec![0, 253];
    bytes.extend_from_slice(&u64::MAX.to_le_bytes());
    bytes.extend_from_slice(b"short");
    assert_eq!(decode_request(&bytes), Err(WireError::Malformed));
    let mut bytes = vec![253];
    bytes.extend_from_slice(&(1u64 << 40).to_le_bytes());
    bytes.extend_from_slice(&[1, 2, 3, 4, 0]);
    assert_eq!(decode_host_record(&bytes), Err(WireError::Malformed));
}

#[test]
fn truncated_host_records_are_malformed() {
    assert_eq!(decode_host_record(&[]), Err(WireError::Malformed));
    assert_eq!(decode_host_record(&[4, 1, 2, 3]), Err(WireError::Malformed));
    assert_eq!(decode_host_record(&[4, 1, 2, 3, 4]), Err(WireError::Malformed));
    assert_eq!(decode_host_record(&[0, 3, b'a']), Err(WireError::Malformed));
    let whole = encode_host_record(&record(&[192, 168, 1, 1], "example"));
    for cut in 0..whole.len() {
        assert_eq!(decode_host_record(&whole[..cut]), Err(WireError::Malformed));
    }
}

#[test]
fn decoding_agrees_with_bincode_on_a_pair() {
    let config = bincode::config::standard();
    let inputs: Vec<Vec<u8>> = vec![
        vec![],
        vec![0, 0],
        vec![1, 4, b'a', b'|', b'b', b'c'],
        vec![1, 4, b'a'],
        vec![251, 0, 0, 0],
        vec![252, 1, 0, 0, 0, 1, b'q'],
        vec![0, 2, 0xff, 0xff],
        vec![0, 251, 3, 0, b'a', b'b', b'c', 0],
    ];
    for input in inputs {
        let direct = bincode::decode_from_slice::<(u32, String), _>(&input, config)
            .ok()
            .map(|(pair, _)| pair);
        let ours = match decode_request(&input) {
            Ok(r) => Some((r.kind.tag(), r.payload)),
            Err(WireError::UnknownKind { .. }) => direct.clone(),
            Err(WireError::Malformed) => None,
        };
        assert_eq!(ours, direct);
    }
}
