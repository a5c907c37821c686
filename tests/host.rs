use copi::channel::{host_link_step, DeviceChannel, LinkAction, LinkEvent, NonZeroU32Count, PendingTable};
use copi::codec::{encode_request, encode_response};
use copi::protocol::{
    CommonResponse, CopiRequest, CopiResponse, DeviceMessage, HostMessage, ResponseCommonErrorCode,
};
use copi::requests::{PostGpioOutputInitReq, PostPioSmPushReq, PostPwmInitReq};

#[test]
fn ids_start_at_one_and_increase() {
    let mut count = NonZeroU32Count::new();
    let ids: Vec<u32> = (0..5).map(|_| count.next()).collect();
    assert_eq!(ids, vec![1, 2, 3, 4, 5]);
}

#[test]
fn response_resolves_only_its_own_caller() {
    let mut table: PendingTable<&str> = PendingTable::new();
    assert_eq!(table.register(1, "first"), None);
    assert_eq!(table.register(2, "second"), None);
    let second = CopiResponse::new(2, DeviceMessage::Common { error: 0, data: 22 });
    let first = CopiResponse::new(1, DeviceMessage::Common { error: 2, data: 0 });
    assert_eq!(table.resolve(second), Some(("second", second.message)));
    assert_eq!(table.resolve(second), None);
    assert_eq!(table.resolve(first), Some(("first", first.message)));
    assert_eq!(table.resolve(first), None);
}

#[test]
fn response_with_id_zero_resolves_nothing() {
    let mut table: PendingTable<u8> = PendingTable::new();
    table.register(7, 70);
    assert_eq!(table.resolve(CopiResponse::empty()), None);
    assert_eq!(table.cancel(7), Some(70));
    assert_eq!(table.cancel(7), None);
}

#[test]
fn concurrent_queries_are_matched_by_id() {
    let mut channel: DeviceChannel<&str> = DeviceChannel::new();
    let a = channel.query(HostMessage::GpioOutputInit { pin: 2, value: true }, "caller a");
    let b = channel.query(HostMessage::GpioOutputSet { pin: 2, state: false }, "caller b");
    assert_eq!(a.request_id, 1);
    assert_eq!(b.request_id, 2);
    let for_b = CopiResponse::new(2, DeviceMessage::Common { error: 0, data: 0 });
    let for_a = CopiResponse::new(1, DeviceMessage::Common { error: 2, data: 0 });
    assert_eq!(channel.deliver(for_b), Some(("caller b", for_b.message)));
    assert_eq!(channel.deliver(for_a), Some(("caller a", for_a.message)));
    assert_eq!(channel.deliver(for_a), None);
    let sent = channel.send(HostMessage::GpioOutputGet { pin: 1 });
    assert_eq!(sent.request_id, 0);
}

#[test]
fn link_steps() {
    let request = CopiRequest::new(4, HostMessage::PioSmPush { pio_num: 0, sm_num: 1, instr: 5 });
    match host_link_step(LinkEvent::Outbound(request.clone())) {
        LinkAction::Write(bytes) => assert_eq!(bytes, encode_request(&request)),
        _ => panic!("expected a write"),
    }
    let response = CopiResponse::new(4, DeviceMessage::common(9));
    match host_link_step(LinkEvent::Inbound(encode_response(&response))) {
        LinkAction::Deliver(r) => assert_eq!(r, response),
        _ => panic!("expected a delivery"),
    }
    assert!(matches!(host_link_step(LinkEvent::Inbound(vec![])), LinkAction::Ignore));
    assert!(matches!(host_link_step(LinkEvent::Inbound(vec![1, 2, 3])), LinkAction::Ignore));
    assert!(matches!(host_link_step(LinkEvent::ReadFailed), LinkAction::Stop));
    assert!(matches!(host_link_step(LinkEvent::OutboundClosed), LinkAction::Stop));
}

#[test]
fn error_codes_and_names() {
    assert_eq!(ResponseCommonErrorCode::UnknownError.code(), 1);
    assert_eq!(ResponseCommonErrorCode::WrongPinState.code(), 2);
    assert_eq!(ResponseCommonErrorCode::from_code(2), Some(ResponseCommonErrorCode::WrongPinState));
    assert_eq!(ResponseCommonErrorCode::from_code(0), None);
    assert_eq!(ResponseCommonErrorCode::WrongPinState.as_str_name(), "WRONG_PIN_STATE");
    assert_eq!(ResponseCommonErrorCode::UnknownError.as_str_name(), "UNKNOWN_ERROR");
    assert_eq!(
        ResponseCommonErrorCode::from_str_name("UNKNOWN_ERROR"),
        Some(ResponseCommonErrorCode::UnknownError)
    );
    assert_eq!(ResponseCommonErrorCode::from_str_name("WRONG_PIN"), None);
    assert_eq!(DeviceMessage::unknown_error(), DeviceMessage::Common { error: 1, data: 0 });
    assert_eq!(DeviceMessage::empty_ok(), DeviceMessage::Common { error: 0, data: 0 });
    assert_eq!(DeviceMessage::common(5), DeviceMessage::Common { error: 0, data: 5 });
    let common = CommonResponse::from(DeviceMessage::Common { error: 2, data: 7 });
    assert_eq!(common, CommonResponse { error: 2, data: 7 });
}

#[test]
fn front_end_requests_become_commands() {
    let init = PostGpioOutputInitReq { skip_response: false, pin: 3, value: true };
    assert_eq!(init.to_message(), HostMessage::GpioOutputInit { pin: 3, value: true });
    let pwm = PostPwmInitReq {
        skip_response: true,
        slice: 1,
        a: Some(2),
        b: None,
        divider: 4,
        compare_a: 5,
        compare_b: 6,
        top: 7,
    };
    assert_eq!(
        pwm.to_message(),
        HostMessage::PwmInit { slice: 1, a: Some(2), b: None, divider: 4, compare_a: 5, compare_b: 6, top: 7 }
    );
    let push = PostPioSmPushReq { skip_response: false, pio_num: 1, sm_num: 2, instr: 3 };
    assert_eq!(push.to_message(), HostMessage::PioSmPush { pio_num: 1, sm_num: 2, instr: 3 });
}

#[test]
fn closing_the_channel_drops_every_waiting_caller() {
    let mut channel: DeviceChannel<u8> = DeviceChannel::new();
    channel.query(HostMessage::GpioOutputGet { pin: 1 }, 10);
    channel.query(HostMessage::GpioOutputGet { pin: 2 }, 20);
    channel.close();
    let late = CopiResponse::new(1, DeviceMessage::empty_ok());
    assert_eq!(channel.deliver(late), None);
    let next = channel.query(HostMessage::GpioOutputGet { pin: 3 }, 30);
    assert_eq!(next.request_id, 3);
}

#[test]
fn failed_writes_abandon_their_call() {
    assert!(matches!(host_link_step(LinkEvent::WriteFailed(5)), LinkAction::Abandon(5)));
    assert!(matches!(host_link_step(LinkEvent::WriteFailed(0)), LinkAction::Ignore));
}
