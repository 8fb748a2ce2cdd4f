use ghostty_voice_core::vulkan::{
    resolve_device_index, verify_device_name, DeviceNameMismatch, PciAddress, ResolveError,
    VulkanDevice,
};

#[test]
fn parses_a_full_pci_address() {
    let addr = PciAddress::parse("0000:03:00.0").expect("should parse");
    assert_eq!(
        addr,
        PciAddress {
            domain: 0x0000,
            bus: 0x03,
            device: 0x00,
            function: 0,
        }
    );
}

#[test]
fn parses_hex_fields() {
    let addr = PciAddress::parse("0000:1a:00.0").expect("should parse");
    assert_eq!(addr.bus, 0x1a);
}

#[test]
fn rejects_garbage() {
    assert!(PciAddress::parse("not-a-pci-address").is_err());
}

fn pci(s: &str) -> PciAddress {
    PciAddress::parse(s).expect("test fixture address should parse")
}

fn sample_devices() -> Vec<VulkanDevice> {
    vec![
        VulkanDevice {
            index: 0,
            name: "AMD Radeon RX 6900 XT (RADV NAVI21)".to_owned(),
            pci_address: pci("0000:03:00.0"),
        },
        VulkanDevice {
            index: 1,
            name: "AMD Ryzen 9 7950X 16-Core Processor (RADV RAPHAEL_MENDOCINO)".to_owned(),
            pci_address: pci("0000:1a:00.0"),
        },
    ]
}

#[test]
fn resolves_discrete_gpu_to_its_index() {
    let idx = resolve_device_index(&sample_devices(), pci("0000:03:00.0")).unwrap();
    assert_eq!(idx, 0);
}

#[test]
fn resolves_igpu_to_its_index() {
    let idx = resolve_device_index(&sample_devices(), pci("0000:1a:00.0")).unwrap();
    assert_eq!(idx, 1);
}

#[test]
fn missing_address_is_device_not_found() {
    let target = pci("0000:0a:00.0");
    assert_eq!(
        resolve_device_index(&sample_devices(), target),
        Err(ResolveError::DeviceNotFound { target }),
    );
}

#[test]
fn duplicate_address_is_ambiguous() {
    let target = pci("0000:03:00.0");
    let devices = vec![
        VulkanDevice {
            index: 0,
            name: "first".to_owned(),
            pci_address: target,
        },
        VulkanDevice {
            index: 1,
            name: "second".to_owned(),
            pci_address: target,
        },
    ];
    assert_eq!(
        resolve_device_index(&devices, target),
        Err(ResolveError::AmbiguousMatch { target, count: 2 }),
    );
}

const DISCRETE: &str = "AMD Radeon RX 6900 XT (RADV NAVI21)";
const IGPU: &str = "AMD Ryzen 9 7950X 16-Core Processor (RADV RAPHAEL_MENDOCINO)";

#[test]
fn accepts_matching_device_name() {
    assert!(verify_device_name(DISCRETE, "RX 6900 XT").is_ok());
}

#[test]
fn name_match_is_case_insensitive() {
    assert!(verify_device_name(DISCRETE, "rx 6900 xt").is_ok());
}

#[test]
fn rejects_wrong_device() {
    let err = verify_device_name(IGPU, "RX 6900 XT").unwrap_err();
    assert_eq!(
        err,
        DeviceNameMismatch {
            expected_contains: "RX 6900 XT".to_owned(),
            loaded_name: IGPU.to_owned(),
        }
    );
}

#[test]
fn pci_fields_must_fit_their_width_and_count() {
    assert!(PciAddress::parse("10000:03:00.0").is_err());
    assert!(PciAddress::parse("0000:100:00.0").is_err());
    assert!(PciAddress::parse("0000:03.0").is_err());
    assert!(PciAddress::parse("0000:03:00:00.0").is_err());
    assert!(PciAddress::parse("0000:03:00.").is_err());
    assert_eq!(
        PciAddress::parse("ffff:FF:1f.7").unwrap(),
        PciAddress { domain: 0xffff, bus: 0xff, device: 0x1f, function: 7 }
    );
}

#[test]
fn the_last_dot_separates_the_function() {
    assert!(PciAddress::parse("0.000:03:00.0").is_err());
    assert_eq!(PciAddress::parse("0:3:0.+1").unwrap().function, 1);
}

#[test]
fn unicode_case_folding_applies_beyond_ascii() {
    assert!(verify_device_name("GPU ÄRGER", "ärger").is_ok());
}
