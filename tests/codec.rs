use copi::codec::{decode_request, decode_response, encode_request, encode_response, MAX_USB_PACKET_SIZE};
use copi::protocol::{CopiRequest, CopiResponse, DeviceMessage, HostMessage};

fn all_max_messages() -> Vec<HostMessage> {
    vec![
        HostMessage::Version { major: u16::MAX, minor: u16::MAX, patch: u16::MAX },
        HostMessage::GetCpuFrequency { freq: u32::MAX },
        HostMessage::GpioOutputInit { pin: u8::MAX, value: true },
        HostMessage::GpioOutputSet { pin: u8::MAX, state: true },
        HostMessage::GpioOutputGet { pin: u8::MAX },
        HostMessage::PwmInit {
            slice: u8::MAX,
            a: Some(u8::MAX),
            b: Some(u8::MAX),
            divider: u8::MAX,
            compare_a: u16::MAX,
            compare_b: u16::MAX,
            top: u16::MAX,
        },
        HostMessage::PwmInit {
            slice: 0,
            a: None,
            b: None,
            divider: 0,
            compare_a: 0,
            compare_b: 0,
            top: 0,
        },
        HostMessage::PwmSetDutyCyclePercent { pin: u8::MAX, percent: u8::MAX },
        HostMessage::PioLoadProgram {
            pio_num: u8::MAX,
            program: [u8::MAX; 32],
            program_len: u8::MAX,
            origin: Some(u8::MAX),
            wrap_source: u8::MAX,
            wrap_target: u8::MAX,
            side_set_opt: true,
            side_set_bits: u8::MAX,
            side_set_pindirs: true,
            pio_version_v0: true,
        },
        HostMessage::PioLoadProgram {
            pio_num: 0,
            program: [0; 32],
            program_len: 0,
            origin: None,
            wrap_source: 0,
            wrap_target: 0,
            side_set_opt: false,
            side_set_bits: 0,
            side_set_pindirs: false,
            pio_version_v0: false,
        },
        HostMessage::PioSmInit { pio_num: u8::MAX, sm_num: u8::MAX, pin_num: u8::MAX },
        HostMessage::PioSmSetEnable { pio_num: u8::MAX, sm_num: u8::MAX, enable: true },
        HostMessage::PioSmPush { pio_num: u8::MAX, sm_num: u8::MAX, instr: u32::MAX },
        HostMessage::PioSmExecInstr { pio_num: u8::MAX, sm_num: u8::MAX, exec_instr: u16::MAX },
    ]
}

#[test]
fn lib_vaild_command_len() {
    let request = CopiRequest::new(0, HostMessage::GpioOutputSet { pin: 1, state: true });
    assert!(encode_request(&request).len() < MAX_USB_PACKET_SIZE);
}

#[test]
fn lib_test_command_codec() {
    let gpio_req = CopiRequest::new_without_id(HostMessage::GpioOutputSet { pin: 1, state: true });
    let encoded = encode_request(&gpio_req);
    assert!(encoded.len() <= 64);
    let decoded = decode_request(&encoded).unwrap();
    assert_eq!(decoded, gpio_req);
}

#[test]
fn pwm_init_at_max_values_fits_a_packet() {
    let request = CopiRequest::new(
        u32::MAX,
        HostMessage::PwmInit {
            slice: u8::MAX,
            a: Some(u8::MAX),
            b: Some(u8::MAX),
            divider: u8::MAX,
            compare_a: u16::MAX,
            compare_b: u16::MAX,
            top: u16::MAX,
        },
    );
    assert!(encode_request(&request).len() < MAX_USB_PACKET_SIZE);
}

#[test]
fn every_command_round_trips_at_boundary_values() {
    for id in [0u32, 1, 23, 24, 255, 256, 65535, 65536, u32::MAX] {
        for message in all_max_messages() {
            let request = CopiRequest::new(id, message);
            let bytes = encode_request(&request);
            assert!(bytes.len() <= MAX_USB_PACKET_SIZE);
            assert_eq!(decode_request(&bytes), Some(request));
        }
    }
}

#[test]
fn largest_request_is_within_the_packet_ceiling() {
    let request = CopiRequest::new(u32::MAX, all_max_messages()[8].clone());
    assert_eq!(encode_request(&request).len(), 59);
}

#[test]
fn every_response_round_trips_at_boundary_values() {
    for id in [0u32, 1, u32::MAX] {
        for (error, data) in [(0u16, 0u64), (1, 0), (2, 0), (u16::MAX, u64::MAX), (300, 1 << 40)] {
            let response = CopiResponse::new(id, DeviceMessage::Common { error, data });
            let bytes = encode_response(&response);
            assert!(bytes.len() <= MAX_USB_PACKET_SIZE);
            assert_eq!(decode_response(&bytes), Some(response));
        }
    }
}

#[test]
fn request_bytes_follow_the_array_layout() {
    let request = CopiRequest::new(7, HostMessage::GpioOutputSet { pin: 2, state: false });
    assert_eq!(encode_request(&request), vec![0x82, 0x07, 0x82, 0x18, 0x41, 0x82, 0x02, 0xf4]);
    let version = CopiRequest::new(0, HostMessage::Version { major: 1, minor: 300, patch: 0 });
    assert_eq!(
        encode_request(&version),
        vec![0x82, 0x00, 0x82, 0x00, 0x84, 0xf6, 0x01, 0x19, 0x01, 0x2c, 0x00]
    );
}

#[test]
fn response_bytes_follow_the_array_layout() {
    let response = CopiResponse::new(3, DeviceMessage::Common { error: 2, data: 0 });
    assert_eq!(encode_response(&response), vec![0x82, 0x03, 0x82, 0x00, 0x82, 0x02, 0x00]);
}

#[test]
fn malformed_frames_are_rejected() {
    let request = CopiRequest::new(5, HostMessage::GpioOutputInit { pin: 4, value: true });
    let bytes = encode_request(&request);
    let mut longer = bytes.clone();
    longer.push(0);
    assert_eq!(decode_request(&longer), None);
    assert_eq!(decode_request(&bytes[..bytes.len() - 1]), None);
    assert_eq!(decode_request(&[]), None);
    // An unknown variant index.
    assert_eq!(decode_request(&[0x82, 0x01, 0x82, 0x18, 0x63, 0x80]), None);
    // A value that does not fit the field's width.
    assert_eq!(decode_request(&[0x82, 0x01, 0x82, 0x18, 0x42, 0x81, 0x19, 0x01, 0x00]), None);
    // A number written longer than it needs.
    assert_eq!(decode_request(&[0x82, 0x18, 0x01, 0x82, 0x18, 0x42, 0x81, 0x02]), None);
    assert_eq!(decode_response(&[0x82, 0x03, 0x82, 0x01, 0x82, 0x02, 0x00]), None);
}

#[test]
fn layout_matches_a_cbor_encoder() {
    let mut e = minicbor::Encoder::new(Vec::new());
    e.array(2).unwrap().u32(70_000).unwrap();
    e.array(2).unwrap().u32(67).unwrap();
    e.array(7).unwrap();
    e.u8(3).unwrap().u8(4).unwrap().null().unwrap().u8(16).unwrap();
    e.u16(0).unwrap().u16(300).unwrap().u16(624).unwrap();
    let expected = e.into_writer();
    let request = CopiRequest::new(
        70_000,
        HostMessage::PwmInit { slice: 3, a: Some(4), b: None, divider: 16, compare_a: 0, compare_b: 300, top: 624 },
    );
    assert_eq!(encode_request(&request), expected);

    let mut e = minicbor::Encoder::new(Vec::new());
    e.array(2).unwrap().u32(1).unwrap();
    e.array(2).unwrap().u32(69).unwrap();
    e.array(10).unwrap();
    let program = [7u8; 32];
    e.u8(1).unwrap().bytes(&program).unwrap().u8(4).unwrap().u8(2).unwrap();
    e.u8(1).unwrap().u8(0).unwrap().bool(true).unwrap().u8(1).unwrap();
    e.bool(false).unwrap().bool(true).unwrap();
    let expected = e.into_writer();
    let request = CopiRequest::new(
        1,
        HostMessage::PioLoadProgram {
            pio_num: 1,
            program,
            program_len: 4,
            origin: Some(2),
            wrap_source: 1,
            wrap_target: 0,
            side_set_opt: true,
            side_set_bits: 1,
            side_set_pindirs: false,
            pio_version_v0: true,
        },
    );
    assert_eq!(encode_request(&request), expected);

    let mut e = minicbor::Encoder::new(Vec::new());
    e.array(2).unwrap().u32(9).unwrap();
    e.array(2).unwrap().u32(0).unwrap();
    e.array(2).unwrap().u16(2).unwrap().u64(u64::MAX).unwrap();
    let expected = e.into_writer();
    let response = CopiResponse::new(9, DeviceMessage::Common { error: 2, data: u64::MAX });
    assert_eq!(encode_response(&response), expected);
}

#[test]
fn items_after_the_known_fields_are_skipped() {
    // GpioOutputSet { pin: 2, state: false } with a third field, a nested array.
    let frame = [0x82, 0x07, 0x82, 0x18, 0x41, 0x83, 0x02, 0xf4, 0x82, 0x01, 0x63, b'a', b'b', b'c'];
    assert_eq!(
        decode_request(&frame),
        Some(CopiRequest::new(7, HostMessage::GpioOutputSet { pin: 2, state: false }))
    );
    // An envelope with a third item, a map {1: 2}.
    let frame = [0x83, 0x07, 0x82, 0x18, 0x42, 0x81, 0x05, 0xa1, 0x01, 0x02];
    assert_eq!(decode_request(&frame), Some(CopiRequest::new(7, HostMessage::GpioOutputGet { pin: 5 })));
    // A result with an extra field.
    let frame = [0x82, 0x03, 0x82, 0x00, 0x83, 0x02, 0x00, 0xf5];
    assert_eq!(
        decode_response(&frame),
        Some(CopiResponse::new(3, DeviceMessage::Common { error: 2, data: 0 }))
    );
}

#[test]
fn missing_required_fields_are_rejected() {
    // GpioOutputSet without its state.
    assert_eq!(decode_request(&[0x82, 0x07, 0x82, 0x18, 0x41, 0x81, 0x02]), None);
    // An extra item that is cut short.
    assert_eq!(decode_request(&[0x82, 0x07, 0x82, 0x18, 0x41, 0x83, 0x02, 0xf4, 0x82, 0x01]), None);
}
