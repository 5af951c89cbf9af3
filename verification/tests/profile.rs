use ehci_debug_bridge::profile::{
    acm_device, debug_device, network, ACM_ENDPOINT_BUFFER_COUNT, DEBUG_ENDPOINT_BUFFER_COUNT,
    NETWORK_QUEUE_DEPTH, NETWORK_SOCKET_COUNT,
};

#[test]
fn the_debug_device_is_vendor_specific() {
    let device = debug_device();
    assert_eq!((device.vendor_id, device.product_id), (0x1209, 0x000d));
    assert_eq!(device.manufacturer, "Arthur Heymans");
    assert_eq!(device.product, "CH32V307 EHCI debug device");
    assert_eq!(device.serial_number, "ehci-debug");
    assert_eq!(device.max_power, 100);
    assert_eq!(device.max_packet_size_0, 64);
    assert_eq!(
        (device.device_class, device.device_sub_class, device.device_protocol),
        (0xff, 0, 0)
    );
    assert!(!device.composite_with_iads);
    assert_eq!(device.endpoint_buffers, 3);
    assert_eq!(DEBUG_ENDPOINT_BUFFER_COUNT, 3);
}

#[test]
fn the_acm_device_is_a_serial_port() {
    let device = acm_device();
    assert_eq!((device.vendor_id, device.product_id), (0x1209, 0x000e));
    assert_eq!(device.manufacturer, "Arthur Heymans");
    assert_eq!(device.product, "CH32V307 EHCI debug ACM bridge");
    assert_eq!(device.serial_number, "ehci-acm");
    assert_eq!(device.max_power, 100);
    assert_eq!(device.max_packet_size_0, 64);
    assert_eq!(
        (device.device_class, device.device_sub_class, device.device_protocol),
        (2, 2, 0)
    );
    assert!(!device.composite_with_iads);
    assert_eq!(device.endpoint_buffers, 4);
    assert_eq!(ACM_ENDPOINT_BUFFER_COUNT, 4);
}

#[test]
fn the_network_interface_has_its_own_address() {
    let network = network();
    assert_eq!(network.mac_addr, [0x02, 0xcb, 0x00, 0x12, 0x34, 0x57]);
    assert_eq!(network.phy_addr, 1);
    assert_eq!(network.clock_mhz, 144);
    assert_eq!(network.seed, 0x1234_5678_9abc_def0);
    assert_eq!((network.queue_depth, NETWORK_QUEUE_DEPTH), (4, 4));
    assert_eq!((network.sockets, NETWORK_SOCKET_COUNT), (3, 3));
}
