use ehci_debug_bridge::ehci_debug::{
    debug_endpoints, DebugControlHandler, Direction, EhciDebugClass, EndpointPlan, InResponse,
    OutResponse, Recipient, Request, RequestType, State, DEBUG_DESCRIPTOR_LEN,
    DEBUG_DESCRIPTOR_TYPE, DEBUG_ENDPOINT_MAX_PACKET_SIZE, DEBUG_INTERFACE_CLASS,
    DEBUG_INTERFACE_PROTOCOL, DEBUG_INTERFACE_SUBCLASS, DEBUG_TRANSACTION_SIZE,
    FEATURE_DEVICE_DEBUG_MODE, GET_DESCRIPTOR, SET_FEATURE,
};

fn get_descriptor(value: u16, length: u16) -> Request {
    Request {
        direction: Direction::In,
        request_type: RequestType::Standard,
        recipient: Recipient::Device,
        request: GET_DESCRIPTOR,
        value,
        index: 0,
        length,
    }
}

fn set_feature(value: u16, index: u16) -> Request {
    Request {
        direction: Direction::Out,
        request_type: RequestType::Standard,
        recipient: Recipient::Device,
        request: SET_FEATURE,
        value,
        index,
        length: 0,
    }
}

fn reply(handler: &DebugControlHandler, req: Request) -> Option<Vec<u8>> {
    let mut buf = [0xeeu8; 64];
    match handler.control_in(req, &mut buf) {
        Some(InResponse::Accepted(data)) => Some(data.to_vec()),
        Some(InResponse::Rejected) => panic!("rejected"),
        None => None,
    }
}

fn debug_state() -> State {
    let mut state = State::new();
    let (out, input) = debug_endpoints();
    let _ = EhciDebugClass::new((), out.address, (), input.address, &mut state).split();
    state
}

#[test]
fn constants_are_those_of_usb() {
    assert_eq!(GET_DESCRIPTOR, embassy_usb::control::Request::GET_DESCRIPTOR);
    assert_eq!(SET_FEATURE, embassy_usb::control::Request::SET_FEATURE);
    assert_eq!(DEBUG_DESCRIPTOR_TYPE, 10);
    assert_eq!(FEATURE_DEVICE_DEBUG_MODE, 6);
    assert_eq!(DEBUG_DESCRIPTOR_LEN, 4);
    assert_eq!(DEBUG_TRANSACTION_SIZE, 8);
    assert_eq!(DEBUG_ENDPOINT_MAX_PACKET_SIZE, 512);
    assert_eq!(DEBUG_INTERFACE_CLASS, 0xff);
    assert_eq!(DEBUG_INTERFACE_SUBCLASS, 0);
    assert_eq!(DEBUG_INTERFACE_PROTOCOL, 0);
}

#[test]
fn a_new_state_has_no_endpoints_and_no_debug_mode() {
    let state = State::new();
    assert_eq!(state.handler.descriptor(), [4, 0x0a, 0, 0]);
    assert!(!state.handler.debug_mode());
}

#[test]
fn endpoints_have_distinct_indices() {
    let (out, input) = debug_endpoints();
    assert_eq!(
        out,
        EndpointPlan { address: 0x01, max_packet_size: 512, interval_ms: 0 }
    );
    assert_eq!(
        input,
        EndpointPlan { address: 0x82, max_packet_size: 512, interval_ms: 0 }
    );
}

#[test]
fn the_class_records_its_endpoints_and_splits() {
    let mut state = State::new();
    let class = EhciDebugClass::new("out", 0x03, "in", 0x85, &mut state);
    assert_eq!(state.handler.descriptor(), [4, 0x0a, 0x85, 0x03]);
    let (out, input) = class.split();
    assert_eq!(out.ep, "out");
    assert_eq!(input.ep, "in");
}

#[test]
fn the_debug_descriptor_is_served() {
    let state = debug_state();
    assert_eq!(
        reply(&state.handler, get_descriptor(0x0a00, 4)),
        Some(vec![4, 0x0a, 0x82, 0x01])
    );
    assert_eq!(
        reply(&state.handler, get_descriptor(0x0a00, 255)),
        Some(vec![4, 0x0a, 0x82, 0x01])
    );
    assert_eq!(
        reply(&state.handler, get_descriptor(0x0a00, 3)),
        Some(vec![4, 0x0a, 0x82])
    );
    assert_eq!(reply(&state.handler, get_descriptor(0x0a00, 0)), Some(vec![]));
}

#[test]
fn the_descriptor_goes_to_the_front_of_the_buffer() {
    let state = debug_state();
    let mut buf = [0xeeu8; 4];
    assert!(state.handler.control_in(get_descriptor(0x0a00, 2), &mut buf).is_some());
    assert_eq!(buf, [4, 0x0a, 0xee, 0xee]);
    let mut buf = [0xeeu8; 4];
    assert!(state.handler.control_in(get_descriptor(0x0100, 2), &mut buf).is_none());
    assert_eq!(buf, [0xee; 4]);
}

#[test]
fn other_descriptors_are_left_to_others() {
    let state = debug_state();
    assert_eq!(reply(&state.handler, get_descriptor(0x0100, 4)), None);
    assert_eq!(reply(&state.handler, get_descriptor(0x0a01, 4)), None);
    assert_eq!(reply(&state.handler, get_descriptor(0x000a, 4)), None);
    let req = get_descriptor(0x0a00, 4);
    for other in [
        Request { request_type: RequestType::Class, ..req },
        Request { request_type: RequestType::Vendor, ..req },
        Request { request_type: RequestType::Reserved, ..req },
        Request { recipient: Recipient::Interface, ..req },
        Request { recipient: Recipient::Endpoint, ..req },
        Request { recipient: Recipient::Other, ..req },
        Request { recipient: Recipient::Reserved, ..req },
        Request { request: SET_FEATURE, ..req },
    ] {
        assert_eq!(reply(&state.handler, other), None);
    }
}

#[test]
fn debug_mode_is_accepted() {
    let mut state = debug_state();
    assert_eq!(
        state.handler.control_out(set_feature(6, 0), &[]),
        Some(OutResponse::Accepted)
    );
    assert!(state.handler.debug_mode());
    assert_eq!(state.handler.descriptor(), [4, 0x0a, 0x82, 0x01]);
}

#[test]
fn other_features_of_the_device_are_rejected() {
    let mut state = debug_state();
    for (req, data) in [
        (set_feature(5, 0), &[][..]),
        (set_feature(6, 1), &[][..]),
        (set_feature(6, 0), &[0][..]),
    ] {
        assert_eq!(state.handler.control_out(req, data), Some(OutResponse::Rejected));
        assert!(!state.handler.debug_mode());
    }
}

#[test]
fn other_requests_with_data_are_left_to_others() {
    let mut state = debug_state();
    let req = set_feature(6, 0);
    for other in [
        Request { request_type: RequestType::Vendor, ..req },
        Request { recipient: Recipient::Endpoint, ..req },
        Request { request: GET_DESCRIPTOR, ..req },
    ] {
        assert_eq!(state.handler.control_out(other, &[]), None);
        assert!(!state.handler.debug_mode());
    }
}

#[test]
fn debug_mode_lasts_until_a_reset() {
    let mut state = debug_state();
    state.handler.control_out(set_feature(6, 0), &[]);
    state.handler.control_out(set_feature(5, 0), &[]);
    assert!(state.handler.debug_mode());
    state.handler.reset();
    assert!(!state.handler.debug_mode());
    assert_eq!(
        reply(&state.handler, get_descriptor(0x0a00, 4)),
        Some(vec![4, 0x0a, 0x82, 0x01])
    );
    state.handler.control_out(set_feature(6, 0), &[]);
    assert!(state.handler.debug_mode());
}

#[test]
fn no_request_is_answered_twice() {
    let mut state = debug_state();
    assert_eq!(state.handler.control_out(get_descriptor(0x0a00, 4), &[]), None);
    assert_eq!(reply(&state.handler, set_feature(6, 0)), None);
}
