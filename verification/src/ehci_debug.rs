//! The USB 2.0 EHCI debug device class.
//!
//! An EHCI debug port moves up to eight payload bytes per transaction. The
//! standard USB debug descriptor points the host at one bulk IN endpoint and
//! one bulk OUT endpoint; after `SET_FEATURE(DEBUG_MODE)` the host uses those
//! endpoints as the console pipes.

use embassy_usb::control::Request as UsbRequest;
use embassy_usb::control::{Recipient as UsbRecipient, RequestType as UsbRequestType};
use embassy_usb::driver::{Direction as UsbDirection, EndpointAddress};
use vstd::prelude::*;
use vstd::slice::slice_subrange;

verus! {

/// The length of a debug descriptor.
pub const DEBUG_DESCRIPTOR_LEN: usize = 4;

/// The type of a debug descriptor.
pub const DEBUG_DESCRIPTOR_TYPE: u8 = 0x0a;

/// The standard request that reads a descriptor.
pub const GET_DESCRIPTOR: u8 = 6;

/// The standard request that sets a feature.
pub const SET_FEATURE: u8 = 3;

/// The selector of the debug mode among the features of a device.
pub const FEATURE_DEVICE_DEBUG_MODE: u16 = 6;

/// Maximum payload size of an EHCI debug-port transaction.
pub const DEBUG_TRANSACTION_SIZE: usize = 8;

/// USB 2.0 high-speed bulk endpoints must advertise 512-byte packets.
///
/// EHCI debug transactions still carry at most `DEBUG_TRANSACTION_SIZE` bytes;
/// this is only the descriptor/allocation size needed for a valid high-speed
/// bulk endpoint.
pub const DEBUG_ENDPOINT_MAX_PACKET_SIZE: usize = 512;

/// The class of the debug interface: it is vendor-specific.
pub const DEBUG_INTERFACE_CLASS: u8 = 0xff;

/// The subclass of the debug interface.
pub const DEBUG_INTERFACE_SUBCLASS: u8 = 0;

/// The protocol of the debug interface.
pub const DEBUG_INTERFACE_PROTOCOL: u8 = 0;

/// The direction of a transfer, as the host sees it.
#[derive(Clone, Copy, Debug, PartialEq, Eq, Structural)]
pub enum Direction {
    /// From the host to the device.
    Out,
    /// From the device to the host.
    In,
}

/// Who defines the meaning of a control request.
#[derive(Clone, Copy, Debug, PartialEq, Eq, Structural)]
pub enum RequestType {
    /// The USB standard.
    Standard,
    /// A device class.
    Class,
    /// A vendor.
    Vendor,
    /// Nobody yet.
    Reserved,
}

/// The part of a device that a control request is meant for.
#[derive(Clone, Copy, Debug, PartialEq, Eq, Structural)]
pub enum Recipient {
    /// The whole device.
    Device,
    /// One interface.
    Interface,
    /// One endpoint.
    Endpoint,
    /// Another part.
    Other,
    /// None that is defined.
    Reserved,
}

/// A control request.
#[derive(Clone, Copy, Debug, PartialEq, Eq, Structural)]
pub struct Request {
    /// Direction of the request.
    pub direction: Direction,
    /// Type of the request.
    pub request_type: RequestType,
    /// Recipient of the request.
    pub recipient: Recipient,
    /// Request code.
    pub request: u8,
    /// Request value.
    pub value: u16,
    /// Request index.
    pub index: u16,
    /// Length of the data stage: what the host sends, or the most that it
    /// takes.
    pub length: u16,
}

/// The response to a request that asks for data.
#[derive(Clone, Copy, Debug)]
pub enum InResponse<'a> {
    /// The request is accepted, and this is the data.
    Accepted(&'a [u8]),
    /// The request is rejected.
    Rejected,
}

/// The response to a request that brings data.
#[derive(Clone, Copy, Debug, PartialEq, Eq, Structural)]
pub enum OutResponse {
    /// The request is accepted.
    Accepted,
    /// The request is rejected.
    Rejected,
}

/// `Request::descriptor_type_index`: a descriptor request carries the
/// descriptor's type in the high byte of its value and the index in the low
/// byte. No other field of the request counts.
#[verifier::external_body]
fn descriptor_type_index(value: u16) -> (type_index: (u8, u8))
    ensures
        type_index.0 == value / 256,
        type_index.1 == value % 256,
{
    let request = UsbRequest {
        direction: UsbDirection::In,
        request_type: UsbRequestType::Standard,
        recipient: UsbRecipient::Device,
        request: UsbRequest::GET_DESCRIPTOR,
        value,
        index: 0,
        length: 0,
    };
    request.descriptor_type_index()
}

/// `EndpointAddress::from_parts`: the address is the endpoint's index, with
/// the top bit set for the direction to the host.
#[verifier::external_body]
fn endpoint_address(index: u8, direction: Direction) -> (address: u8)
    requires
        index < 0x80,
    ensures
        address == index + (if direction == Direction::In {
            0x80int
        } else {
            0int
        }),
{
    let direction = match direction {
        Direction::Out => UsbDirection::Out,
        Direction::In => UsbDirection::In,
    };
    u8::from(EndpointAddress::from_parts(index as usize, direction))
}

/// What the control endpoint of the debug class knows.
#[verifier::ext_equal]
pub struct ControlState {
    /// The debug descriptor.
    pub descriptor: Seq<u8>,
    /// Whether the host has switched to debug mode since the last bus reset.
    pub debug_mode: bool,
}

/// A standard request for the device, with the given request code.
pub open spec fn standard_device(req: Request, code: u8) -> bool {
    &&& req.request_type == RequestType::Standard
    &&& req.recipient == Recipient::Device
    &&& req.request == code
}

/// The request asks for the debug descriptor.
pub open spec fn asks_for_debug_descriptor(req: Request) -> bool {
    &&& standard_device(req, GET_DESCRIPTOR)
    &&& req.value == 256 * DEBUG_DESCRIPTOR_TYPE
}

/// The debug descriptor of a device with these endpoints: its own length, its
/// type, the address of the IN endpoint and that of the OUT endpoint.
pub open spec fn debug_descriptor(write_address: u8, read_address: u8) -> Seq<u8> {
    seq![DEBUG_DESCRIPTOR_LEN as u8, DEBUG_DESCRIPTOR_TYPE, write_address, read_address]
}

/// How many bytes of the debug descriptor a request gets.
pub open spec fn descriptor_reply_len(req: Request) -> int {
    if req.length < DEBUG_DESCRIPTOR_LEN {
        req.length as int
    } else {
        DEBUG_DESCRIPTOR_LEN as int
    }
}

/// The data that a request gets, `None` where the request is left to others.
pub open spec fn in_reply(state: ControlState, req: Request) -> Option<Seq<u8>> {
    if asks_for_debug_descriptor(req) {
        Some(state.descriptor.take(descriptor_reply_len(req)))
    } else {
        None
    }
}

/// The request, with `data_len` bytes of data, switches to debug mode.
pub open spec fn sets_debug_mode(req: Request, data_len: nat) -> bool {
    &&& standard_device(req, SET_FEATURE)
    &&& req.value == FEATURE_DEVICE_DEBUG_MODE
    &&& req.index == 0
    &&& data_len == 0
}

/// The response to a request that brings `data_len` bytes, `None` where the
/// request is left to others.
pub open spec fn out_reply(req: Request, data_len: nat) -> Option<OutResponse> {
    if !standard_device(req, SET_FEATURE) {
        None
    } else if sets_debug_mode(req, data_len) {
        Some(OutResponse::Accepted)
    } else {
        Some(OutResponse::Rejected)
    }
}

/// Something that happens on the control endpoint.
pub enum ControlEvent {
    /// The bus is reset.
    Reset,
    /// A request asks for data.
    In { request: Request },
    /// A request brings `data_len` bytes of data.
    Out { request: Request, data_len: nat },
}

/// What the control endpoint knows after an event.
pub open spec fn control_step(state: ControlState, event: ControlEvent) -> ControlState {
    match event {
        ControlEvent::Reset => ControlState { debug_mode: false, ..state },
        ControlEvent::In { request } => state,
        ControlEvent::Out { request, data_len } => if sets_debug_mode(request, data_len) {
            ControlState { debug_mode: true, ..state }
        } else {
            state
        },
    }
}

/// What the control endpoint knows after a series of events.
pub open spec fn control_run(state: ControlState, events: Seq<ControlEvent>) -> ControlState
    decreases events.len(),
{
    if events.len() == 0 {
        state
    } else {
        control_step(control_run(state, events.drop_last()), events.last())
    }
}

/// The event switches the device to debug mode.
pub open spec fn switches_on(event: ControlEvent) -> bool {
    event matches ControlEvent::Out { request, data_len } && sets_debug_mode(request, data_len)
}

/// No bus reset happens from the event at `from` on.
pub open spec fn no_reset_from(events: Seq<ControlEvent>, from: int) -> bool {
    forall|j: int| from <= j < events.len() ==> !(#[trigger] events[j] is Reset)
}

/// Whatever happens on the control endpoint, the descriptor stays the one
/// that the endpoints were recorded in.
pub proof fn law_descriptor_is_stable(state: ControlState, events: Seq<ControlEvent>)
    ensures
        control_run(state, events).descriptor == state.descriptor,
    decreases events.len(),
{
    if events.len() > 0 {
        law_descriptor_is_stable(state, events.drop_last());
    }
}

/// A host that asks for the debug descriptor learns which endpoints to use, at
/// any time and in any mode, and a host that asks for a part of it gets the
/// first bytes of the same descriptor.
pub proof fn law_host_learns_the_endpoints(
    state: ControlState,
    events: Seq<ControlEvent>,
    req: Request,
    write_address: u8,
    read_address: u8,
)
    requires
        state.descriptor == debug_descriptor(write_address, read_address),
        req.request_type == RequestType::Standard,
        req.recipient == Recipient::Device,
        req.request == 6,
        req.value == 0x0a00,
    ensures
        in_reply(control_run(state, events), req) matches Some(reply) && reply == (if req.length
            < 4 {
            seq![4u8, 0x0a, write_address, read_address].take(req.length as int)
        } else {
            seq![4u8, 0x0a, write_address, read_address]
        }),
{
    law_descriptor_is_stable(state, events);
    let whole = debug_descriptor(write_address, read_address);
    assert(whole.take(4) =~= whole);
}

/// A request that asks for data is answered exactly where it is a standard
/// request for the device, asks for a descriptor and names the debug descriptor
/// with index zero; its direction, its index field and its length do not count.
/// The answer is the front of the descriptor, as long as the host takes it.
pub proof fn law_only_the_debug_descriptor_is_answered(state: ControlState, req: Request)
    requires
        state.descriptor.len() == 4,
    ensures
        in_reply(state, req) is Some <==> asks_for_debug_descriptor(req),
        in_reply(state, req) is Some <==> req.request_type == RequestType::Standard && req.recipient
            == Recipient::Device && req.request == 6 && req.value == 0x0a00,
        in_reply(state, req) matches Some(reply) ==> {
            &&& reply.len() <= req.length
            &&& reply.len() < req.length ==> reply.len() == 4
            &&& reply.len() <= 4
            &&& reply.len() == descriptor_reply_len(req)
            &&& forall|i: int| 0 <= i < reply.len() ==> #[trigger] reply[i] == state.descriptor[i]
        },
{
}

/// Two requests that differ only in their length get the same descriptor: the
/// shorter answer is the front of the longer one.
pub proof fn law_a_longer_request_gets_no_other_answer(
    state: ControlState,
    req: Request,
    length: u16,
)
    requires
        state.descriptor.len() == 4,
        req.length <= length,
    ensures
        ({
            let short = in_reply(state, req);
            let long = in_reply(state, Request { length, ..req });
            &&& short is Some <==> long is Some
            &&& short is Some && req.length <= 4 ==> short->0 == long->0.take(req.length as int)
            &&& short is Some && req.length >= 4 ==> short->0 == long->0
        }),
{
    let short = in_reply(state, req);
    let long = in_reply(state, Request { length, ..req });
    if short is Some && req.length <= 4 {
        assert(short->0 =~= long->0.take(req.length as int));
    }
}

/// A request that brings data is answered exactly where it is a standard
/// request for the device that sets a feature. It is accepted exactly where the
/// feature is the debug mode, the index is zero and no data came, and rejected
/// otherwise. Only an accepted one changes anything: it switches debug mode on.
pub proof fn law_only_debug_mode_is_accepted(state: ControlState, request: Request, data_len: nat)
    ensures
        ({
            let reply = out_reply(request, data_len);
            let after = control_step(state, ControlEvent::Out { request, data_len });
            &&& reply is Some <==> request.request_type == RequestType::Standard
                && request.recipient == Recipient::Device && request.request == 3
            &&& reply == Some(OutResponse::Accepted) <==> reply is Some && request.value == 6
                && request.index == 0 && data_len == 0
            &&& after.debug_mode <==> state.debug_mode || reply == Some(OutResponse::Accepted)
            &&& after.descriptor == state.descriptor
        }),
{
}

/// A bus reset switches debug mode off and asking for data changes nothing;
/// neither changes the descriptor.
pub proof fn law_a_reset_leaves_debug_mode(state: ControlState, request: Request)
    ensures
        !control_step(state, ControlEvent::Reset).debug_mode,
        control_step(state, ControlEvent::Reset).descriptor == state.descriptor,
        control_step(state, ControlEvent::In { request }) == state,
{
}

/// A debug descriptor is four bytes long: its length, its type, then the IN
/// endpoint's address and the OUT endpoint's. A handler with any such
/// descriptor is well-formed.
pub proof fn law_a_debug_descriptor_names_both_endpoints(
    handler: DebugControlHandler,
    write_address: u8,
    read_address: u8,
)
    ensures
        debug_descriptor(write_address, read_address) == seq![
            4u8,
            0x0a,
            write_address,
            read_address,
        ],
        handler@.descriptor == seq![4u8, 0x0a, write_address, read_address] ==> handler.wf(),
{
}

/// The device is in debug mode exactly when the host has asked for it and the
/// bus was not reset since, or when it was in debug mode to begin with and the
/// bus was not reset at all.
pub proof fn law_debug_mode_until_reset(state: ControlState, events: Seq<ControlEvent>)
    ensures
        control_run(state, events).debug_mode <==> (state.debug_mode && no_reset_from(events, 0))
            || exists|i: int|
            0 <= i < events.len() && #[trigger] switches_on(events[i]) && no_reset_from(events, i),
    decreases events.len(),
{
    if events.len() > 0 {
        let before = events.drop_last();
        law_debug_mode_until_reset(state, before);
        let last = events.len() - 1;
        assert(forall|j: int| 0 <= j < last ==> before[j] == #[trigger] events[j]);
        if events[last] is Reset {
            assert(forall|i: int| 0 <= i <= last ==> !no_reset_from(events, i));
        } else {
            assert forall|i: int| 0 <= i implies no_reset_from(before, i) == #[trigger] no_reset_from(
                events,
                i,
            ) by {
                if no_reset_from(events, i) {
                    assert forall|j: int| i <= j < last implies !(#[trigger] before[j] is Reset) by {
                        assert(before[j] == events[j]);
                    }
                }
            }
            if switches_on(events[last]) {
                assert(no_reset_from(events, last));
            } else if control_run(state, before).debug_mode && !(state.debug_mode && no_reset_from(
                before,
                0,
            )) {
                let i = choose|i: int|
                    0 <= i < before.len() && #[trigger] switches_on(before[i]) && no_reset_from(
                        before,
                        i,
                    );
                assert(switches_on(events[i]) && no_reset_from(events, i));
            }
            if exists|i: int|
                0 <= i < events.len() && #[trigger] switches_on(events[i]) && no_reset_from(
                    events,
                    i,
                ) {
                let i = choose|i: int|
                    0 <= i < events.len() && #[trigger] switches_on(events[i]) && no_reset_from(
                        events,
                        i,
                    );
                if i < last {
                    assert(switches_on(before[i]) && no_reset_from(before, i));
                }
            }
        }
    }
}

/// No request is answered both as one that asks for data and as one that
/// brings data.
pub proof fn law_answers_do_not_overlap(req: Request, data_len: nat)
    ensures
        !(asks_for_debug_descriptor(req) && out_reply(req, data_len) is Some),
{
}

/// A request that changes what the device knows is one that is accepted.
pub proof fn law_only_accepted_requests_change_state(
    state: ControlState,
    request: Request,
    data_len: nat,
)
    ensures
        out_reply(request, data_len) != Some(OutResponse::Accepted) ==> control_step(
            state,
            ControlEvent::Out { request, data_len },
        ) == state,
        out_reply(request, data_len) == Some(OutResponse::Accepted) ==> control_step(
            state,
            ControlEvent::Out { request, data_len },
        ).debug_mode,
{
}

/// Answers the control requests of the EHCI debug class.
pub struct DebugControlHandler {
    descriptor: [u8; DEBUG_DESCRIPTOR_LEN],
    debug_mode: bool,
}

impl View for DebugControlHandler {
    type V = ControlState;

    closed spec fn view(&self) -> ControlState {
        ControlState { descriptor: self.descriptor@, debug_mode: self.debug_mode }
    }
}

impl DebugControlHandler {
    /// The descriptor starts with its own length and the debug type.
    pub open spec fn wf(&self) -> bool {
        &&& self@.descriptor.len() == DEBUG_DESCRIPTOR_LEN
        &&& self@.descriptor[0] == DEBUG_DESCRIPTOR_LEN
        &&& self@.descriptor[1] == DEBUG_DESCRIPTOR_TYPE
    }

    /// Handles a bus reset: the device leaves debug mode.
    pub fn reset(&mut self)
        ensures
            final(self)@ == control_step(old(self)@, ControlEvent::Reset),
            !final(self)@.debug_mode,
            final(self)@.descriptor == old(self)@.descriptor,
    {
        self.debug_mode = false;
    }

    /// Answers a request that asks for data.
    ///
    /// A request for the debug descriptor gets as much of it as the host asked
    /// for, at the front of `buf`. Any other request is left to others.
    pub fn control_in<'a>(&self, req: Request, buf: &'a mut [u8]) -> (response: Option<
        InResponse<'a>,
    >)
        requires
            asks_for_debug_descriptor(req) ==> old(buf)@.len() >= descriptor_reply_len(req),
        ensures
            response is Some <==> req.request_type == RequestType::Standard && req.recipient
                == Recipient::Device && req.request == 6 && req.value == 0x0a00,
            response matches Some(answer) ==> answer is Accepted,
            match in_reply(self@, req) {
                None => response is None && final(buf)@ == old(buf)@,
                Some(reply) => {
                    &&& response matches Some(InResponse::Accepted(data)) && data@ == reply
                    &&& final(buf)@ == reply + old(buf)@.skip(reply.len() as int)
                },
            },
    {
        if req.request_type != RequestType::Standard || req.recipient != Recipient::Device
            || req.request != GET_DESCRIPTOR {
            return None;
        }
        let (dtype, descriptor_index) = descriptor_type_index(req.value);
        if dtype != DEBUG_DESCRIPTOR_TYPE || descriptor_index != 0 {
            return None;
        }
        let len: usize = if (req.length as usize) < DEBUG_DESCRIPTOR_LEN {
            req.length as usize
        } else {
            DEBUG_DESCRIPTOR_LEN
        };
        let mut i: usize = 0;
        while i < len
            invariant
                i <= len <= DEBUG_DESCRIPTOR_LEN,
                len <= old(buf)@.len(),
                buf@ == self.descriptor@.take(i as int) + old(buf)@.skip(i as int),
            decreases len - i,
        {
            buf[i] = self.descriptor[i];
            i = i + 1;
        }
        Some(InResponse::Accepted(slice_subrange(buf, 0, len)))
    }

    /// Answers a request that brings data.
    ///
    /// `SET_FEATURE(DEBUG_MODE)` for the device, without data, is accepted.
    /// Any other feature of the device is rejected. Any other request is left
    /// to others.
    pub fn control_out(&mut self, req: Request, data: &[u8]) -> (response: Option<OutResponse>)
        ensures
            response == out_reply(req, data@.len()),
            response is Some <==> req.request_type == RequestType::Standard && req.recipient
                == Recipient::Device && req.request == 3,
            response == Some(OutResponse::Accepted) <==> response is Some && req.value == 6
                && req.index == 0 && data@.len() == 0,
            final(self)@.debug_mode == (old(self)@.debug_mode || response == Some(
                OutResponse::Accepted,
            )),
            final(self)@.descriptor == old(self)@.descriptor,
            final(self)@ == control_step(
                old(self)@,
                (ControlEvent::Out { request: req, data_len: data@.len() }),
            ),
    {
        if req.request_type != RequestType::Standard || req.recipient != Recipient::Device
            || req.request != SET_FEATURE {
            return None;
        }
        if req.value == FEATURE_DEVICE_DEBUG_MODE && req.index == 0 && data.len() == 0 {
            self.debug_mode = true;
            Some(OutResponse::Accepted)
        } else {
            Some(OutResponse::Rejected)
        }
    }

    /// The debug descriptor.
    pub fn descriptor(&self) -> (descriptor: [u8; DEBUG_DESCRIPTOR_LEN])
        ensures
            descriptor@ == self@.descriptor,
    {
        self.descriptor
    }

    /// Whether the device is in debug mode.
    pub fn debug_mode(&self) -> (debug_mode: bool)
        ensures
            debug_mode == self@.debug_mode,
    {
        self.debug_mode
    }
}

/// Holds control-request state for the EHCI debug class.
pub struct State {
    /// Answers the control requests.
    pub handler: DebugControlHandler,
}

impl State {
    /// Creates a new EHCI debug class state block.
    #[must_use]
    pub fn new() -> (state: State)
        ensures
            state.handler.wf(),
            state.handler@.descriptor == debug_descriptor(0, 0),
            state.handler@.descriptor == seq![4u8, 0x0a, 0, 0],
            !state.handler@.debug_mode,
    {
        State {
            handler: DebugControlHandler {
                descriptor: [DEBUG_DESCRIPTOR_LEN as u8, DEBUG_DESCRIPTOR_TYPE, 0, 0],
                debug_mode: false,
            },
        }
    }
}

/// How a data endpoint is allocated.
#[derive(Clone, Copy, Debug, PartialEq, Eq, Structural)]
pub struct EndpointPlan {
    /// The endpoint's address.
    pub address: u8,
    /// The packet size that the endpoint advertises.
    pub max_packet_size: u16,
    /// The polling interval in milliseconds.
    pub interval_ms: u8,
}

/// The index that an endpoint address holds.
pub open spec fn endpoint_index(address: u8) -> int {
    address as int % 0x80
}

/// The plans of the two bulk endpoints: the OUT endpoint, which the device
/// under test writes to, and the IN endpoint, which it polls.
///
/// The USB high-speed hardware cannot use the same endpoint index for IN and
/// OUT, so these are OUT endpoint 1 and IN endpoint 2. The host reads the
/// actual endpoint numbers from the debug descriptor.
pub fn debug_endpoints() -> (plans: (EndpointPlan, EndpointPlan))
    ensures
        plans.0 == (EndpointPlan { address: 0x01, max_packet_size: 512, interval_ms: 0 }),
        plans.1 == (EndpointPlan { address: 0x82, max_packet_size: 512, interval_ms: 0 }),
        endpoint_index(plans.0.address) != endpoint_index(plans.1.address),
{
    let max_packet_size: u16 = DEBUG_ENDPOINT_MAX_PACKET_SIZE as u16;
    (
        EndpointPlan {
            address: endpoint_address(1, Direction::Out),
            max_packet_size,
            interval_ms: 0,
        },
        EndpointPlan {
            address: endpoint_address(2, Direction::In),
            max_packet_size,
            interval_ms: 0,
        },
    )
}

/// The debug interface is vendor-specific, without a subclass or a protocol.
pub proof fn law_the_debug_interface_is_vendor_specific()
    ensures
        DEBUG_INTERFACE_CLASS == 0xff,
        DEBUG_INTERFACE_SUBCLASS == 0,
        DEBUG_INTERFACE_PROTOCOL == 0,
{
}

/// Owns the EHCI debug data endpoints.
pub struct EhciDebugClass<R, W> {
    /// The OUT endpoint.
    pub read_ep: R,
    /// The IN endpoint.
    pub write_ep: W,
}

impl<R, W> EhciDebugClass<R, W> {
    /// Creates the debug class on two allocated endpoints and records their
    /// addresses in the debug descriptor: first the IN endpoint's, then the
    /// OUT endpoint's.
    pub fn new(
        read_ep: R,
        read_address: u8,
        write_ep: W,
        write_address: u8,
        state: &mut State,
    ) -> (class: EhciDebugClass<R, W>)
        requires
            old(state).handler.wf(),
        ensures
            class.read_ep == read_ep,
            class.write_ep == write_ep,
            final(state).handler.wf(),
            final(state).handler@.descriptor == debug_descriptor(write_address, read_address),
            final(state).handler@.descriptor == seq![4u8, 0x0a, write_address, read_address],
            final(state).handler@.debug_mode == old(state).handler@.debug_mode,
    {
        state.handler.descriptor[2] = write_address;
        state.handler.descriptor[3] = read_address;
        EhciDebugClass { read_ep, write_ep }
    }

    /// Splits the class into independent read and write endpoints.
    #[must_use]
    pub fn split(self) -> (halves: (DebugOut<R>, DebugIn<W>))
        ensures
            halves.0.ep == self.read_ep,
            halves.1.ep == self.write_ep,
    {
        (DebugOut { ep: self.read_ep }, DebugIn { ep: self.write_ep })
    }
}

/// Receives debug-console bytes written by the device under test.
pub struct DebugOut<R> {
    /// The OUT endpoint.
    pub ep: R,
}

/// Sends debug-console bytes to the device under test when it polls the debug
/// IN endpoint.
pub struct DebugIn<W> {
    /// The IN endpoint.
    pub ep: W,
}

} // verus!
