use raven_gaming::collections::NameSet;
use raven_gaming::controllers::{
    axis_name, bit_set, bitmap, button_name, can_read, discover, event_node, open_failure, parse_device,
    parse_devices, parse_events, parse_events_in, shared_hid_device, steam_input_rules,
    take_events, Controller, Input, PowerSupply, Transport, EVENT_SIZE, EV_ABS_TYPE, EV_KEY,
};

/// A real 360 pad's block, as the kernel prints it.
///
/// `KEY=7cdb000000000000 0 0 0 0` is five 64-bit words, highest first, so the leading one is word
/// 4 — bits 256..319. `0x7cdb` shifted up 48 places lands on 304, 305, 307, 308, 310, 311 and
/// 314..318: A, B, X, Y, the two bumpers, select, start, guide and both sticks. Exactly a 360 pad,
/// and the reason the bitmap has to be read from the far end rather than the near one.
const XBOX: &str = "I: Bus=0003 Vendor=045e Product=028e Version=0114\n\
    N: Name=\"Microsoft X-Box 360 pad\"\n\
    P: Phys=usb-0000:00:14.0-3/input0\n\
    S: Sysfs=/devices/pci0000:00/0000:00:14.0/usb1/1-3/1-3:1.0/input/input20\n\
    U: Uniq=\n\
    H: Handlers=event20 js0 \n\
    B: PROP=0\n\
    B: EV=20000b\n\
    B: KEY=7cdb000000000000 0 0 0 0\n\
    B: ABS=3003f\n\
    B: FF=107030000 0";

const KEYBOARD: &str = "I: Bus=0011 Vendor=0001 Product=0001 Version=ab83\n\
    N: Name=\"AT Translated Set 2 keyboard\"\n\
    S: Sysfs=/devices/platform/i8042/serio0/input/input5\n\
    H: Handlers=sysrq kbd leds event5 \n\
    B: EV=120013\n\
    B: KEY=402000000 3803078f800d001 feffffdfffefffff fffffffffffffffe\n\
    B: MSC=10\n\
    B: LED=7";

fn pad() -> Controller {
    parse_device(XBOX).expect("the 360 pad is a controller")
}

#[test]
fn a_gamepad_is_recognised_by_its_buttons() {
    let pad = parse_device(XBOX).expect("the 360 pad is a controller");
    assert_eq!(pad.name, "Microsoft X-Box 360 pad");
    assert_eq!((pad.vendor, pad.product), (0x045e, 0x028e));
    assert_eq!(pad.transport, Transport::Usb);
    assert_eq!(pad.event.as_deref(), Some("/dev/input/event20"));
    assert_eq!(pad.joystick.as_deref(), Some("/dev/input/js0"));
    assert!(pad.has_rumble);
    assert!(pad.is_gamepad);
    assert_eq!(pad.kind(), "Gamepad");
    // Six sticks and triggers, plus the two hat axes.
    assert_eq!(pad.axes, 8, "a 360 pad has eight axes");
    assert_eq!(pad.buttons, 11);
}

#[test]
fn a_keyboard_is_not_a_controller() {
    // The one case that matters: a keyboard claims hundreds of key codes, and a naive "has
    // buttons" test calls it a gamepad.
    assert!(parse_device(KEYBOARD).is_none());
}

#[test]
fn a_mouse_and_a_lid_switch_are_not_controllers() {
    let mouse = "I: Bus=0018 Vendor=04f3 Product=30e9 Version=0100\n\
        N: Name=\"ELAN1200:00 04F3:30E9 Mouse\"\n\
        H: Handlers=mouse0 event6 \n\
        B: EV=17\n\
        B: KEY=30000 0 0 0 0\n\
        B: ABS=0";
    assert!(parse_device(mouse).is_none());
    let lid = "I: Bus=0019 Vendor=0000 Product=0005 Version=0000\n\
        N: Name=\"Lid Switch\"\n\
        H: Handlers=event0 \n\
        B: EV=21";
    assert!(parse_device(lid).is_none());
}

#[test]
fn a_flight_stick_counts_even_without_face_buttons() {
    let stick = "I: Bus=0003 Vendor=044f Product=b10a Version=0110\n\
        N: Name=\"Thrustmaster T.16000M\"\n\
        H: Handlers=event9 js0 \n\
        B: EV=1b\n\
        B: KEY=ffff00000000 0 0 0 0\n\
        B: ABS=100000f";
    let found = parse_device(stick).expect("a stick is a controller");
    assert!(!found.is_gamepad);
    assert_eq!(found.kind(), "Stick or wheel");
}

#[test]
fn several_devices_are_read_from_one_file() {
    let file = format!("{KEYBOARD}\n\n{XBOX}\n\n{KEYBOARD}\n");
    let found = parse_devices(&file);
    assert_eq!(found.len(), 1);
    assert_eq!(found[0].name, "Microsoft X-Box 360 pad");
}

#[test]
fn this_machines_own_devices_parse_without_panicking() {
    // Reading a whole file must not blow up and must not invent a controller out of a keyboard.
    let file = format!("{KEYBOARD}\n\n{XBOX}\n\nI: Bus=zzzz\nN: Name=\"\"\nB: KEY=nonsense\n\n\n");
    let found = discover(Some(&file));
    assert_eq!(found.len(), 1);
    for controller in found {
        assert!(!controller.name.is_empty());
        assert!(controller.is_gamepad || controller.joystick.is_some() || controller.axes > 0);
    }
    assert!(discover(None).is_empty());
}

#[test]
fn capability_bitmaps_are_read_from_the_right_end() {
    // Printed high word first, so the last word holds bits 0..63.
    let bits = bitmap("7cdb000000000000 0 0 0 0");
    assert!(bit_set(&bits, 0x130), "BTN_SOUTH should be set");
    assert!(bit_set(&bits, 0x13e), "BTN_THUMBR should be set");
    assert!(!bit_set(&bits, 0x132), "BTN_C is not on a 360 pad");
    assert!(!bit_set(&bits, 0x00));
    // A keyboard: four words, and nothing at all above bit 255, which is what makes it not a pad.
    let keyboard = bitmap("402000000 3803078f800d001 feffffdfffefffff fffffffffffffffe");
    assert!(!bit_set(&keyboard, 0x130));
    assert!(bit_set(&keyboard, 1), "KEY_ESC is set on a keyboard");
    // One word: bit 0 and bit 3.
    let small = bitmap("9");
    assert!(bit_set(&small, 0));
    assert!(bit_set(&small, 3));
    assert!(!bit_set(&small, 1));
    // Past the end is not set, rather than a panic.
    assert!(!bit_set(&small, 5000));
    assert!(!bit_set(&[], 0));
}

#[test]
fn a_bus_number_becomes_a_transport() {
    assert_eq!(Transport::from_bus(0x03), Transport::Usb);
    assert_eq!(Transport::from_bus(0x05), Transport::Bluetooth);
    assert_eq!(Transport::from_bus(0x06), Transport::Virtual);
    assert_eq!(Transport::from_bus(0x99), Transport::Other);
}

fn event(bytes: &mut Vec<u8>, kind: u16, code: u16, value: i32) {
    bytes.extend_from_slice(&[0u8; 16]); // timestamp, unread
    bytes.extend_from_slice(&kind.to_ne_bytes());
    bytes.extend_from_slice(&code.to_ne_bytes());
    bytes.extend_from_slice(&value.to_ne_bytes());
}

#[test]
fn event_records_become_presses_and_movements() {
    let mut bytes = Vec::new();
    event(&mut bytes, EV_KEY, 0x130, 1);
    event(&mut bytes, EV_ABS_TYPE, 0x00, -32_768);
    event(&mut bytes, 0x00, 0, 0); // EV_SYN, which carries no information here
    event(&mut bytes, EV_KEY, 0x130, 0);
    let parsed = parse_events(&bytes);
    assert_eq!(
        parsed,
        vec![
            Input::Button { code: 0x130, pressed: true },
            Input::Axis { code: 0x00, value: -32_768 },
            Input::Button { code: 0x130, pressed: false },
        ]
    );
}

#[test]
fn a_half_record_is_dropped_rather_than_misread() {
    // A short read must never be interpreted as a phantom press.
    assert!(parse_events(&[0u8; 10]).is_empty());
    assert!(parse_events(&[]).is_empty());
}

#[test]
fn buttons_and_axes_have_names_people_recognise() {
    assert_eq!(button_name(0x130), "A / Cross");
    assert_eq!(button_name(0x13b), "Start");
    assert!(button_name(0x999).contains("0x999"));
    assert_eq!(axis_name(0x00), "Left stick X");
    assert_eq!(axis_name(0x05), "Right trigger");
    assert_eq!(axis_name(0x2f), "Axis 0x2f");
}

#[test]
fn a_battery_is_matched_to_its_own_controller() {
    let input = "/sys/devices/pci0000:00/usb1/1-3/1-3:1.0/0003:054C:0CE6.0009/input/input25";
    let battery = "/sys/devices/pci0000:00/usb1/1-3/1-3:1.0/0003:054C:0CE6.0009/power_supply/ps-controller-battery";
    assert!(shared_hid_device(input, battery));
    let other = "/sys/devices/pci0000:00/usb1/1-4/1-4:1.0/0003:045E:028E.000A/power_supply/xbox-battery";
    assert!(!shared_hid_device(input, other));
    // The laptop's own battery shares no HID device with anything.
    assert!(!shared_hid_device(input, "/sys/class/power_supply/BAT0"));
}

#[test]
fn a_controllers_battery_is_read_from_its_supply() {
    let mut found = pad();
    found.sysfs = "/devices/usb1/1-3/1-3:1.0/0003:054C:0CE6.0009/input/input25".into();
    let supply = |path: &str, scope: &str, capacity: &str| PowerSupply {
        path: path.into(),
        scope: Some(scope.into()),
        capacity: Some(capacity.into()),
    };
    let own = "/sys/devices/usb1/1-3/1-3:1.0/0003:054C:0CE6.0009/power_supply/ps";
    assert_eq!(found.battery(&vec![supply(own, "Device\n", "85\n")]), Some(85));
    assert_eq!(found.battery(&vec![supply(own, "System\n", "85\n")]), None);
    assert_eq!(found.battery(&vec![supply("/sys/class/power_supply/BAT0", "Device", "85")]), None);
    assert_eq!(found.battery(&Vec::new()), None);
}

#[test]
fn a_driver_is_looked_for_up_the_tree() {
    let found = pad();
    let links = found.driver_links();
    assert_eq!(links.len(), 6);
    assert_eq!(
        links[0],
        "/sys/devices/pci0000:00/0000:00:14.0/usb1/1-3/1-3:1.0/input/input20/driver"
    );
    assert!(links[1].ends_with("/1-3:1.0/input/driver"));
    assert_eq!(
        found.driver(&vec![None, None, Some("../../../../bus/usb/drivers/xpad".into())]).as_deref(),
        Some("xpad")
    );
    assert_eq!(found.driver(&vec![None, None]), None);
}

#[test]
fn steams_rules_are_found_by_name() {
    assert!(steam_input_rules(&vec!["60-steam-input.rules".into()]));
    assert!(steam_input_rules(&vec!["a".into(), "70-steam-devices.rules".into()]));
    assert!(!steam_input_rules(&vec!["60-input.rules".into()]));
}

#[test]
fn the_node_to_read_is_the_event_one() {
    let mut found = pad();
    assert_eq!(event_node(&found).as_deref(), Ok("/dev/input/event20"));
    let opened = NameSet::of(&vec!["/dev/input/event20".to_string()]);
    assert!(can_read(&found, &opened));
    assert!(!can_read(&found, &NameSet::new()));
    found.event = None;
    assert!(!can_read(&found, &opened));
    assert_eq!(event_node(&found), Err("This controller has no event device to read".into()));
    assert!(open_failure("/dev/input/event20", "denied").starts_with("Cannot open /dev/input/event20: denied."));
}

#[test]
fn both_byte_orders_are_read() {
    let mut little = vec![0u8; EVENT_SIZE];
    little[16..18].copy_from_slice(&EV_ABS_TYPE.to_le_bytes());
    little[18..20].copy_from_slice(&0x0102u16.to_le_bytes());
    little[20..24].copy_from_slice(&(-2i32).to_le_bytes());
    let mut big = vec![0u8; EVENT_SIZE];
    big[16..18].copy_from_slice(&EV_ABS_TYPE.to_be_bytes());
    big[18..20].copy_from_slice(&0x0102u16.to_be_bytes());
    big[20..24].copy_from_slice(&(-2i32).to_be_bytes());
    let expected = vec![Input::Axis { code: 0x0102, value: -2 }];
    assert_eq!(parse_events_in(&little, true), expected);
    assert_eq!(parse_events_in(&big, false), expected);
}

#[test]
fn reading_goes_on_while_the_buffer_is_filled() {
    let mut bytes = Vec::new();
    event(&mut bytes, EV_KEY, 0x131, 1);
    event(&mut bytes, EV_KEY, 0x131, 0);
    let mut events = vec![Input::Axis { code: 0, value: 1 }];
    assert!(take_events(&mut events, &bytes, bytes.len()));
    assert_eq!(events.len(), 3);
    assert!(!take_events(&mut events, &bytes[..EVENT_SIZE], bytes.len()));
    assert_eq!(events.len(), 4);
    assert!(!take_events(&mut events, &[], 0));
}

#[test]
fn two_pads_on_one_usb_controller_keep_their_own_batteries() {
    let block = "N: Name=\"Pad\"\nS: Sysfs=/devices/pci0000:00/0000:00:14.0/usb1/1-3/1-3:1.0/0003:054C:0CE6.0009/input/input25\nH: Handlers=event25 js0\n";
    let pad = parse_device(block).unwrap();
    let supply = |path: &str| PowerSupply {
        path: path.into(),
        scope: Some("Device\n".into()),
        capacity: Some("80\n".into()),
    };
    let other = "/sys/devices/pci0000:00/0000:00:14.0/usb1/1-4/1-4:1.0/0003:045E:028E.000A/power_supply/xbox-battery";
    let own = "/sys/devices/pci0000:00/0000:00:14.0/usb1/1-3/1-3:1.0/0003:054C:0CE6.0009/power_supply/battery";
    assert_eq!(pad.battery(&vec![supply(other)]), None);
    assert_eq!(pad.battery(&vec![supply(other), supply(own)]), Some(80));
    assert!(!shared_hid_device("/a/0000:00:14.0/b", "/c/0000:00:14.0/d"));
    assert!(!shared_hid_device("/a/0003:054C:0CEX.0009/b", "/c/0003:054C:0CEX.0009/d"));
    assert!(!shared_hid_device("/a/0003:054C:0CE6./b", "/c/0003:054C:0CE6./d"));
}

#[test]
fn a_node_has_a_number() {
    let block = |rest: &str| format!("N: Name=\"Stick\"\n{rest}");
    assert!(parse_device(&block("H: Handlers=js\n")).is_none());
    assert!(parse_device(&block("H: Handlers=jsx\n")).is_none());
    let found = parse_device(&block("H: Handlers=event event3 js7\n")).unwrap();
    assert_eq!(found.event.as_deref(), Some("/dev/input/event3"));
    assert_eq!(found.joystick.as_deref(), Some("/dev/input/js7"));
    // Trigger buttons without an axis are no stick.
    assert!(parse_device(&block("B: EV=1b\nB: KEY=ffff00000000 0 0 0 0\nB: ABS=0\n")).is_none());
}
