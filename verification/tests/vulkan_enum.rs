use ghostty_voice_core::vulkan::{parse_vulkaninfo, resolve_device_index, PciAddress};

const SAMPLE: &str = "
\tdeviceName        = AMD Radeon RX 6900 XT (RADV NAVI21)
\tdriverUUID        = 414d442d-4d45-5341-2d44-525600000000
\tdeviceUUID                        = 00000000-0300-0000-0000-000000000000
\tdeviceName        = AMD Ryzen 9 7950X 16-Core Processor (RADV RAPHAEL_MENDOCINO)
\tdeviceUUID                        = 00000000-1a00-0000-0000-000000000000
";

#[test]
fn parses_devices_with_index_name_and_pci() {
    let devices = parse_vulkaninfo(SAMPLE);
    assert_eq!(devices.len(), 2);
    assert_eq!(devices[0].index, 0);
    assert!(devices[0].name.contains("RX 6900 XT"));
    assert_eq!(
        devices[0].pci_address,
        PciAddress::parse("0000:03:00.0").unwrap()
    );
    assert_eq!(
        devices[1].pci_address,
        PciAddress::parse("0000:1a:00.0").unwrap()
    );
}

#[test]
fn resolves_configured_pci_to_the_discrete_index() {
    let devices = parse_vulkaninfo(SAMPLE);
    let target = PciAddress::parse("0000:03:00.0").unwrap();
    assert_eq!(resolve_device_index(&devices, target), Ok(0));
}

#[test]
fn driver_uuid_is_not_mistaken_for_device_uuid() {
    let devices = parse_vulkaninfo(SAMPLE);
    assert_eq!(devices.len(), 2);
}

#[test]
fn a_device_whose_uuid_names_no_address_is_skipped_but_keeps_its_index() {
    let out = "deviceName = first\ndeviceUUID = nodash\ndeviceName = second\r\ndeviceUUID = 0-0a0b-x\n";
    let devices = parse_vulkaninfo(out);
    assert_eq!(devices.len(), 1);
    assert_eq!(devices[0].index, 1);
    assert_eq!(devices[0].name, "second");
    assert_eq!(devices[0].pci_address.bus, 0x0a);
    assert_eq!(devices[0].pci_address.device, 0x0b);
}
