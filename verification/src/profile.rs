//! How the bridge presents itself on USB and on the network.

use vstd::prelude::*;

verus! {

/// The vendor of both USB devices.
pub const VID: u16 = 0x1209;

/// The product id of the EHCI debug device.
pub const PID_DEBUG: u16 = 0x000d;

/// The product id of the USB serial port.
pub const PID_ACM: u16 = 0x000e;

/// How many endpoint buffers the EHCI debug device needs: one each for bulk
/// OUT, bulk IN and the control endpoint.
pub const DEBUG_ENDPOINT_BUFFER_COUNT: usize = 3;

/// How many endpoint buffers the USB serial port needs: one each for interrupt
/// IN, bulk OUT, bulk IN and the control endpoint. With fewer the host sees a
/// device that never answers setup packets.
pub const ACM_ENDPOINT_BUFFER_COUNT: usize = 4;

/// How many packets the network interface queues in each direction.
pub const NETWORK_QUEUE_DEPTH: usize = 4;

/// How many sockets the network stack has room for.
pub const NETWORK_SOCKET_COUNT: usize = 3;

/// How a USB device describes itself to its host, and what it needs for that.
#[derive(Clone, Copy, Debug)]
pub struct DeviceProfile {
    /// Vendor id.
    pub vendor_id: u16,
    /// Product id.
    pub product_id: u16,
    /// Who made the device.
    pub manufacturer: &'static str,
    /// What the device is.
    pub product: &'static str,
    /// The device's serial number.
    pub serial_number: &'static str,
    /// The most current that the device draws, in milliamperes.
    pub max_power: u16,
    /// The packet size of the control endpoint.
    pub max_packet_size_0: u8,
    /// Device class.
    pub device_class: u8,
    /// Device subclass.
    pub device_sub_class: u8,
    /// Device protocol.
    pub device_protocol: u8,
    /// Whether the device groups its interfaces by association descriptors.
    pub composite_with_iads: bool,
    /// How many endpoint buffers the device needs.
    pub endpoint_buffers: usize,
}

/// The high-speed device that the device under test finds on its debug port: a
/// vendor-specific device.
pub fn debug_device() -> (profile: DeviceProfile)
    ensures
        profile.vendor_id == 0x1209,
        profile.product_id == 0x000d,
        profile.manufacturer@ == "Arthur Heymans"@,
        profile.product@ == "CH32V307 EHCI debug device"@,
        profile.serial_number@ == "ehci-debug"@,
        profile.max_power == 100,
        profile.max_packet_size_0 == 64,
        profile.device_class == 0xff,
        profile.device_sub_class == 0,
        profile.device_protocol == 0,
        !profile.composite_with_iads,
        profile.endpoint_buffers == 3,
{
    DeviceProfile {
        vendor_id: VID,
        product_id: PID_DEBUG,
        manufacturer: "Arthur Heymans",
        product: "CH32V307 EHCI debug device",
        serial_number: "ehci-debug",
        max_power: 100,
        max_packet_size_0: 64,
        device_class: 0xff,
        device_sub_class: 0,
        device_protocol: 0,
        composite_with_iads: false,
        endpoint_buffers: DEBUG_ENDPOINT_BUFFER_COUNT,
    }
}

/// The full-speed device that the host finds: a USB serial port.
pub fn acm_device() -> (profile: DeviceProfile)
    ensures
        profile.vendor_id == 0x1209,
        profile.product_id == 0x000e,
        profile.manufacturer@ == "Arthur Heymans"@,
        profile.product@ == "CH32V307 EHCI debug ACM bridge"@,
        profile.serial_number@ == "ehci-acm"@,
        profile.max_power == 100,
        profile.max_packet_size_0 == 64,
        profile.device_class == 0x02,
        profile.device_sub_class == 0x02,
        profile.device_protocol == 0x00,
        !profile.composite_with_iads,
        profile.endpoint_buffers == 4,
{
    DeviceProfile {
        vendor_id: VID,
        product_id: PID_ACM,
        manufacturer: "Arthur Heymans",
        product: "CH32V307 EHCI debug ACM bridge",
        serial_number: "ehci-acm",
        max_power: 100,
        max_packet_size_0: 64,
        device_class: 0x02,
        device_sub_class: 0x02,
        device_protocol: 0x00,
        composite_with_iads: false,
        endpoint_buffers: ACM_ENDPOINT_BUFFER_COUNT,
    }
}

/// How the bridge sets up its network interface.
#[derive(Clone, Copy, Debug)]
pub struct NetworkProfile {
    /// The hardware address.
    pub mac_addr: [u8; 6],
    /// The address of the transceiver.
    pub phy_addr: u8,
    /// The clock of the interface, in megahertz.
    pub clock_mhz: u32,
    /// The seed of the network stack's random numbers.
    pub seed: u64,
    /// How many packets the interface queues in each direction.
    pub queue_depth: usize,
    /// How many sockets the network stack has room for.
    pub sockets: usize,
}

/// The network interface of the TCP bridge. Its hardware address is one that is
/// administered locally and belongs to a single station.
pub fn network() -> (profile: NetworkProfile)
    ensures
        profile.mac_addr@ == seq![0x02u8, 0xcb, 0x00, 0x12, 0x34, 0x57],
        profile.mac_addr@[0] % 4 == 2,
        profile.phy_addr == 1,
        profile.clock_mhz == 144,
        profile.seed == 0x1234_5678_9abc_def0,
        profile.queue_depth == 4,
        profile.sockets == 3,
{
    NetworkProfile {
        mac_addr: [0x02, 0xcb, 0x00, 0x12, 0x34, 0x57],
        phy_addr: 1,
        clock_mhz: 144,
        seed: 0x1234_5678_9abc_def0,
        queue_depth: NETWORK_QUEUE_DEPTH,
        sockets: NETWORK_SOCKET_COUNT,
    }
}

} // verus!
