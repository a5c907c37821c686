use copi::codec::{decode_response, encode_request};
use copi::command::{
    device_link_step, execute, handle_frame, handle_request, pio_load_program_command, unpack_words, DeviceAction,
    ReadError,
};
use copi::peripherals::{ControlError, HwOp, PeripheralController, PinState, PioProgram};
use copi::protocol::{CopiRequest, DeviceMessage, HostMessage, UNKNOWN_ERROR_CODE, WRONG_PIN_STATE_CODE};
use copi::slot::Slot;

fn ok() -> DeviceMessage {
    DeviceMessage::Common { error: 0, data: 0 }
}

fn wrong_pin_state() -> DeviceMessage {
    DeviceMessage::Common { error: WRONG_PIN_STATE_CODE, data: 0 }
}

fn unknown_error() -> DeviceMessage {
    DeviceMessage::Common { error: UNKNOWN_ERROR_CODE, data: 0 }
}

fn program(words: &[u16]) -> PioProgram {
    PioProgram {
        code: words.to_vec(),
        origin: None,
        wrap_source: 1,
        wrap_target: 0,
        side_set_opt: false,
        side_set_bits: 0,
        side_set_pindirs: false,
        version_v0: true,
    }
}

#[test]
fn slot_add_on_a_full_pool_returns_none() {
    let mut pool: Slot<u32, 16> = Slot::new();
    for i in 0..16 {
        assert_eq!(pool.add(i as u32), Some(i));
    }
    assert_eq!(pool.len(), 16);
    assert_eq!(pool.add(99), None);
    assert_eq!(pool.len(), 16);
}

#[test]
fn slot_add_after_remove_reuses_the_lowest_freed_index() {
    let mut pool: Slot<&str, 16> = Slot::new();
    for _ in 0..6 {
        pool.add("x");
    }
    assert!(pool.remove(4));
    assert!(pool.remove(2));
    assert_eq!(pool.len(), 4);
    assert_eq!(pool.get(5), Some(&"x"));
    assert_eq!(pool.add("y"), Some(2));
    assert_eq!(pool.add("z"), Some(4));
    assert_eq!(pool.add("w"), Some(6));
    assert_eq!(pool.get(2), Some(&"y"));
}

#[test]
fn slot_remove_of_an_empty_or_out_of_range_index_returns_false() {
    let mut pool: Slot<u8, 4> = Slot::new();
    assert!(!pool.remove(0));
    assert!(!pool.remove(4));
    assert!(!pool.remove(usize::MAX));
    pool.add(1);
    assert!(pool.remove(0));
    assert!(!pool.remove(0));
    assert_eq!(pool.len(), 0);
}

#[test]
fn slot_get_and_get_mut_check_bounds() {
    let mut pool: Slot<u8, 2> = Slot::new();
    assert_eq!(pool.get(0), None);
    assert_eq!(pool.get(7), None);
    pool.add(10);
    if let Some(v) = pool.get_mut(0) {
        *v = 11;
    }
    assert_eq!(pool.get(0), Some(&11));
    assert!(pool.get_mut(1).is_none());
    assert!(pool.get_mut(2).is_none());
}

#[test]
fn second_gpio_output_init_of_a_pin_fails() {
    let mut pc = PeripheralController::new();
    for pin in 0..30usize {
        assert!(pc.gpio_output_init(pin, pin % 2 == 0));
        assert!(!pc.gpio_output_init(pin, true));
        assert!(!pc.gpio_output_init(pin, false));
    }
    assert!(!pc.gpio_output_init(30, true));
}

#[test]
fn scenario_gpio_output() {
    let mut pc = PeripheralController::new();
    assert_eq!(execute(&mut pc, &HostMessage::GpioOutputInit { pin: 2, value: true }), ok());
    assert_eq!(execute(&mut pc, &HostMessage::GpioOutputSet { pin: 2, state: false }), ok());
    assert_eq!(
        execute(&mut pc, &HostMessage::GpioOutputSet { pin: 3, state: true }),
        wrong_pin_state()
    );
    assert_eq!(
        pc.take_ops(),
        vec![HwOp::DriveOutput { pin: 2, level: true }, HwOp::DriveOutput { pin: 2, level: false }]
    );
    assert_eq!(pc.pins[2].state, PinState::GpioOutput);
    assert_eq!(pc.pins[3].state, PinState::Unowned);
}

#[test]
fn scenario_pwm() {
    let mut pc = PeripheralController::new();
    let init = HostMessage::PwmInit {
        slice: 2,
        a: Some(4),
        b: None,
        divider: 16,
        compare_a: 0,
        compare_b: 0,
        top: 624,
    };
    assert_eq!(execute(&mut pc, &init), ok());
    assert_eq!(
        execute(&mut pc, &HostMessage::PwmSetDutyCyclePercent { pin: 4, percent: 66 }),
        ok()
    );
    assert_eq!(
        execute(&mut pc, &HostMessage::PwmSetDutyCyclePercent { pin: 9, percent: 10 }),
        wrong_pin_state()
    );
    assert_eq!(
        execute(&mut pc, &HostMessage::PwmSetDutyCyclePercent { pin: 4, percent: 101 }),
        wrong_pin_state()
    );
    let slice = pc.pwms.get(pc.pins[4].resource_index).unwrap();
    assert_eq!(slice.duty_percent, Some(66));
    assert_eq!(slice.top, 624);
    assert_eq!(slice.a, Some(4));
    assert_eq!(slice.b, None);
}

#[test]
fn pwm_init_binds_only_the_free_pin() {
    let mut pc = PeripheralController::new();
    assert!(pc.gpio_output_init(5, true));
    let index = pc.pwm_init(1, Some(5), Some(6), 1, 0, 0, 100).unwrap();
    assert_eq!(pc.pins[5].state, PinState::GpioOutput);
    assert_eq!(pc.pins[6].state, PinState::PwmOut);
    assert_eq!(pc.pins[6].resource_index, index);
    let slice = pc.pwms.get(index).unwrap();
    assert_eq!(slice.a, None);
    assert_eq!(slice.b, Some(6));
    assert_eq!(pc.pwm_init(12, Some(7), None, 1, 0, 0, 100), None);
    assert_eq!(pc.pins[7].state, PinState::Unowned);
}

#[test]
fn pio_state_machine_needs_a_loaded_program() {
    let mut pc = PeripheralController::new();
    assert_eq!(pc.pio_sm_init(0, 0, 10), Err(ControlError::NoProgram));
    assert_eq!(pc.pio_load_program(0, program(&[0xe081, 0xa042])), Ok(()));
    assert_eq!(pc.pio_load_program(3, program(&[0xe081])), Err(ControlError::IndexOutOfRange));
    assert_eq!(pc.pio_sm_init(0, 1, 10), Ok(()));
    assert_eq!(pc.pio_sm_init(1, 0, 10), Err(ControlError::WrongPinState));
    assert_eq!(pc.pio_sm_init(0, 4, 11), Err(ControlError::IndexOutOfRange));
    assert_eq!(pc.pins[10].state, PinState::PioOwned);
    assert_eq!(pc.pio_sm_set_enable(0, 1, true), Ok(()));
    assert_eq!(pc.pio_sm_set_enable(3, 0, true), Err(ControlError::IndexOutOfRange));
    assert!(pc.sms[1].enabled);
    assert_eq!(pc.pio_sm_push(0, 1, 0xdead_beef), Ok(()));
    assert_eq!(pc.pio_sm_push(0, 4, 0), Err(ControlError::IndexOutOfRange));
    assert_eq!(pc.pio_sm_exec_instr_unchecked(2, 3, 0xe001), Ok(()));
    assert_eq!(pc.pio_sm_exec_instr_unchecked(3, 0, 0xe001), Err(ControlError::IndexOutOfRange));
    let ops = pc.take_ops();
    assert_eq!(ops.len(), 5);
    assert_eq!(ops[1], HwOp::ConfigureSm { block: 0, sm: 1, pin: 10 });
    assert_eq!(ops[3], HwOp::PushWord { block: 0, sm: 1, word: 0xdead_beef });
    assert!(pc.take_ops().is_empty());
}

#[test]
fn program_words_survive_the_byte_buffer() {
    let words = [0xe081u16, 0x0001, 0xff00, 0x1234];
    let message = pio_load_program_command(1, &program(&words)).unwrap();
    match message {
        HostMessage::PioLoadProgram { pio_num, program, program_len, .. } => {
            assert_eq!(pio_num, 1);
            assert_eq!(program_len, 8);
            assert_eq!(&program[..8], &[0x81, 0xe0, 0x01, 0x00, 0x00, 0xff, 0x34, 0x12]);
            assert!(program[8..].iter().all(|b| *b == 0));
            assert_eq!(unpack_words(&program, program_len), words.to_vec());
        }
        _ => panic!("wrong command"),
    }
    assert!(pio_load_program_command(0, &program(&[0u16; 17])).is_none());
    assert_eq!(unpack_words(&[0xab; 32], 3), vec![0xabab]);
}

#[test]
fn load_program_command_reaches_the_block() {
    let mut pc = PeripheralController::new();
    let message = pio_load_program_command(2, &program(&[0xe081, 0xa042])).unwrap();
    assert_eq!(execute(&mut pc, &message), ok());
    assert_eq!(pc.programs[2].as_ref().unwrap().code, vec![0xe081, 0xa042]);
    let too_long = HostMessage::PioLoadProgram {
        pio_num: 0,
        program: [0; 32],
        program_len: 34,
        origin: None,
        wrap_source: 0,
        wrap_target: 0,
        side_set_opt: false,
        side_set_bits: 0,
        side_set_pindirs: false,
        pio_version_v0: false,
    };
    assert_eq!(execute(&mut pc, &too_long), unknown_error());
}

#[test]
fn unsupported_commands_give_unknown_error() {
    let mut pc = PeripheralController::new();
    assert_eq!(execute(&mut pc, &HostMessage::Version { major: 1, minor: 0, patch: 0 }), unknown_error());
    assert_eq!(execute(&mut pc, &HostMessage::GetCpuFrequency { freq: 0 }), unknown_error());
    assert_eq!(execute(&mut pc, &HostMessage::GpioOutputGet { pin: 1 }), unknown_error());
}

#[test]
fn requests_without_id_get_no_response() {
    let mut pc = PeripheralController::new();
    let silent = CopiRequest::new_without_id(HostMessage::GpioOutputSet { pin: 3, state: true });
    assert_eq!(handle_request(&mut pc, &silent), None);
    let asked = CopiRequest::new(9, HostMessage::GpioOutputSet { pin: 3, state: true });
    let response = handle_request(&mut pc, &asked).unwrap();
    assert_eq!(response.request_id, 9);
    assert_eq!(response.message, wrong_pin_state());
}

#[test]
fn frames_are_answered_or_dropped() {
    let mut pc = PeripheralController::new();
    let frame = encode_request(&CopiRequest::new(12, HostMessage::GpioOutputInit { pin: 0, value: true }));
    let reply = handle_frame(&mut pc, &frame).unwrap();
    let response = decode_response(&reply).unwrap();
    assert_eq!(response.request_id, 12);
    assert_eq!(response.message, ok());
    assert_eq!(handle_frame(&mut pc, &[0xff, 0x00]), None);
    let silent = encode_request(&CopiRequest::new(0, HostMessage::GpioOutputInit { pin: 1, value: true }));
    assert_eq!(handle_frame(&mut pc, &silent), None);
    assert_eq!(pc.pins[1].state, PinState::GpioOutput);
}

#[test]
fn unknown_commands_are_answered_with_unknown_error() {
    let mut pc = PeripheralController::new();
    let reply = handle_frame(&mut pc, &[0x82, 0x05, 0x82, 0x18, 0x63, 0x80]).unwrap();
    assert_eq!(reply, vec![0x82, 0x05, 0x82, 0x00, 0x82, 0x01, 0x00]);
    let response = decode_response(&reply).unwrap();
    assert_eq!(response.request_id, 5);
    assert_eq!(response.message, unknown_error());
    assert_eq!(handle_frame(&mut pc, &[0x82, 0x00, 0x82, 0x18, 0x63, 0x80]), None);
    assert!(pc.take_ops().is_empty());
}

#[test]
fn device_loop_decisions() {
    let mut pc = PeripheralController::new();
    let frame = encode_request(&CopiRequest::new(3, HostMessage::GpioOutputInit { pin: 7, value: false }));
    match device_link_step(&mut pc, Ok(frame)) {
        DeviceAction::Send(bytes) => {
            let response = decode_response(&bytes).unwrap();
            assert_eq!(response.request_id, 3);
            assert_eq!(response.message, ok());
        }
        _ => panic!("expected a reply"),
    }
    assert!(matches!(device_link_step(&mut pc, Ok(vec![0x00])), DeviceAction::Continue));
    assert!(matches!(device_link_step(&mut pc, Err(ReadError::BufferOverflow)), DeviceAction::Continue));
    assert!(matches!(device_link_step(&mut pc, Err(ReadError::Disabled)), DeviceAction::Stop(_)));
    assert_eq!(pc.pins[7].state, PinState::GpioOutput);
}

#[test]
fn numbers_out_of_range_give_unknown_error() {
    let mut pc = PeripheralController::new();
    assert_eq!(execute(&mut pc, &HostMessage::GpioOutputInit { pin: 30, value: true }), unknown_error());
    assert_eq!(execute(&mut pc, &HostMessage::PioSmSetEnable { pio_num: 3, sm_num: 0, enable: true }), unknown_error());
    assert_eq!(execute(&mut pc, &HostMessage::PioSmPush { pio_num: 0, sm_num: 4, instr: 1 }), unknown_error());
    assert_eq!(
        execute(&mut pc, &HostMessage::PwmInit { slice: 12, a: None, b: None, divider: 1, compare_a: 0, compare_b: 0, top: 1 }),
        unknown_error()
    );
    assert!(pc.take_ops().is_empty());
}

#[test]
fn request_without_id_is_still_carried_out() {
    let mut pc = PeripheralController::new();
    let silent = CopiRequest::new_without_id(HostMessage::GpioOutputInit { pin: 2, value: true });
    assert_eq!(handle_request(&mut pc, &silent), None);
    assert_eq!(pc.pins[2].state, PinState::GpioOutput);
    assert_eq!(pc.take_ops(), vec![HwOp::DriveOutput { pin: 2, level: true }]);
}

#[test]
fn scenario_gpio_output_through_requests() {
    let mut pc = PeripheralController::new();
    let init = CopiRequest::new(1, HostMessage::GpioOutputInit { pin: 2, value: true });
    assert_eq!(handle_request(&mut pc, &init).unwrap().message, ok());
    let set = CopiRequest::new(2, HostMessage::GpioOutputSet { pin: 2, state: false });
    assert_eq!(handle_request(&mut pc, &set).unwrap().message, ok());
    let other = CopiRequest::new(3, HostMessage::GpioOutputSet { pin: 3, state: true });
    let response = handle_request(&mut pc, &other).unwrap();
    assert_eq!(response.request_id, 3);
    assert_eq!(response.message, wrong_pin_state());
    let output = pc.gpio_outputs.get(pc.pins[2].resource_index).unwrap();
    assert_eq!(output.pin, 2);
    assert!(!output.level);
}
