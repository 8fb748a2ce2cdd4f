use ghostty_voice_core::device::{parse_selector, pick_device, DeviceCandidate, DeviceSelector};

fn cand(name: Option<&str>, node_number: u32, keyboard: bool) -> DeviceCandidate {
    DeviceCandidate { name: name.map(str::to_owned), node_number, keyboard }
}

fn is_auto(s: &DeviceSelector) -> bool {
    matches!(s, DeviceSelector::Auto)
}

#[test]
fn selectors_read_auto_name_and_path() {
    assert!(is_auto(&parse_selector("  auto ")));
    match parse_selector(" name: Das Keyboard") {
        DeviceSelector::Name(n) => assert_eq!(n, " Das Keyboard"),
        _ => panic!("expected a name selector"),
    }
    match parse_selector("/dev/input/event3 ") {
        DeviceSelector::Path(p) => assert_eq!(p, "/dev/input/event3"),
        _ => panic!("expected a path selector"),
    }
    match parse_selector("AUTO") {
        DeviceSelector::Path(p) => assert_eq!(p, "AUTO"),
        _ => panic!("`auto` is matched exactly"),
    }
}

#[test]
fn auto_picks_the_lowest_numbered_real_keyboard() {
    let cs = vec![
        cand(Some("AT Translated Set 2 keyboard"), 7, true),
        cand(Some("ydotoold virtual device"), 1, true),
        cand(Some("Power Button"), 0, false),
        cand(Some("daskeyboard"), 4, true),
        cand(None, 2, true),
    ];
    assert_eq!(pick_device(&DeviceSelector::Auto, &cs), Some(4));
}

#[test]
fn auto_breaks_node_number_ties_by_enumeration_order() {
    let cs = vec![cand(Some("b"), 3, true), cand(Some("a"), 3, true)];
    assert_eq!(pick_device(&DeviceSelector::Auto, &cs), Some(0));
}

#[test]
fn auto_finds_nothing_among_virtual_devices() {
    let cs = vec![cand(Some("ydotoold virtual device"), 1, true), cand(Some("uinput kbd"), 2, true)];
    assert_eq!(pick_device(&DeviceSelector::Auto, &cs), None);
}

#[test]
fn name_prefers_the_keyboard_collection_of_a_device() {
    let cs = vec![
        cand(Some("daskeyboard System Control"), 5, false),
        cand(Some("daskeyboard"), 6, true),
        cand(Some("Other"), 1, true),
    ];
    let sel = parse_selector("name: DasKeyboard ");
    assert_eq!(pick_device(&sel, &cs), Some(1));
}

#[test]
fn name_falls_back_to_the_lowest_numbered_match() {
    let cs = vec![
        cand(Some("Foot Pedal B"), 9, false),
        cand(Some("Foot Pedal A"), 8, false),
        cand(Some("keyboard"), 1, true),
    ];
    assert_eq!(pick_device(&parse_selector("name:pedal"), &cs), Some(1));
}

#[test]
fn name_without_a_match_picks_nothing_and_a_path_is_opened_directly() {
    let cs = vec![cand(Some("keyboard"), 1, true)];
    assert_eq!(pick_device(&parse_selector("name:mouse"), &cs), None);
    assert_eq!(pick_device(&parse_selector("/dev/input/event1"), &cs), None);
}
