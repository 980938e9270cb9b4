use wifi_display_server::input::{
    adapter_string_for_device, looks_like_vdd, select_target_monitor, wide_to_string, AdapterMap,
    InputError, InputInjector, MonitorBounds, SelectError, TouchAction, TouchKind, VirtualDesktop,
};

fn monitor(x: i32, width: i32, device: &str, adapter: &str) -> MonitorBounds {
    MonitorBounds {
        x,
        y: 0,
        width,
        height: 1080,
        device_name: device.to_string(),
        adapter_string: adapter.to_string(),
    }
}

fn desktop() -> VirtualDesktop {
    VirtualDesktop { x: 0, y: 0, width: 3840, height: 1080 }
}

fn wide(s: &str, len: usize) -> Vec<u16> {
    let mut v: Vec<u16> = s.encode_utf16().collect();
    v.resize(len, 0);
    v
}

fn packet(t: u8, x: f32, y: f32) -> Vec<u8> {
    let mut p = vec![t];
    p.extend_from_slice(&x.to_le_bytes());
    p.extend_from_slice(&y.to_le_bytes());
    p
}

#[test]
fn injector_needs_a_positive_desktop() {
    let m = monitor(1920, 1920, "\\\\.\\DISPLAY2", "Virtual Display Driver");
    assert!(matches!(
        InputInjector::new(m.clone(), VirtualDesktop { x: 0, y: 0, width: 0, height: 1080 }),
        Err(InputError::BadDesktopDimensions)
    ));
    assert!(matches!(
        InputInjector::new(m.clone(), VirtualDesktop { x: 0, y: 0, width: 100, height: -1 }),
        Err(InputError::BadDesktopDimensions)
    ));
    let inj = InputInjector::new(m, desktop()).unwrap();
    assert_eq!(inj.monitor().x, 1920);
    assert_eq!(inj.monitor().device_name, "\\\\.\\DISPLAY2");
    assert_eq!(inj.desktop().width, 3840);
}

#[test]
fn touch_packets_decode_to_mouse_events() {
    let inj = InputInjector::new(monitor(0, 1920, "d", "a"), desktop()).unwrap();
    assert_eq!(
        inj.handle_touch_packet(&packet(0, 0.5, 0.25)),
        TouchAction::Inject { kind: TouchKind::Move, x_bits: 0.5f32.to_bits(), y_bits: 0.25f32.to_bits() }
    );
    assert_eq!(
        inj.handle_touch_packet(&packet(1, 1.0, 0.0)),
        TouchAction::Inject { kind: TouchKind::Down, x_bits: 1.0f32.to_bits(), y_bits: 0 }
    );
    assert_eq!(
        inj.handle_touch_packet(&packet(2, -3.5, 2.0)),
        TouchAction::Inject { kind: TouchKind::Up, x_bits: (-3.5f32).to_bits(), y_bits: 2.0f32.to_bits() }
    );
    assert_eq!(inj.handle_touch_packet(&packet(7, 0.5, 0.5)), TouchAction::UnknownType(7));
}

#[test]
fn short_touch_packets_are_ignored() {
    let inj = InputInjector::new(monitor(0, 1920, "d", "a"), desktop()).unwrap();
    assert_eq!(inj.handle_touch_packet(&[]), TouchAction::TooShort);
    assert_eq!(inj.handle_touch_packet(&packet(1, 0.5, 0.5)[..8]), TouchAction::TooShort);
    let mut long = packet(1, 0.5, 0.5);
    long.extend_from_slice(&[9, 9, 9]);
    assert_eq!(
        inj.handle_touch_packet(&long),
        TouchAction::Inject { kind: TouchKind::Down, x_bits: 0.5f32.to_bits(), y_bits: 0.5f32.to_bits() }
    );
}

#[test]
fn touch_packet_roundtrip() {
    let inj = InputInjector::new(monitor(0, 1920, "d", "a"), desktop()).unwrap();
    for (t, kind) in [(0u8, TouchKind::Move), (1, TouchKind::Down), (2, TouchKind::Up)] {
        for bits in [0u32, 1, 0x3F00_0000, 0xFFFF_FFFF, 0x1234_5678] {
            let mut p = vec![t];
            p.extend_from_slice(&bits.to_le_bytes());
            p.extend_from_slice(&bits.rotate_left(8).to_le_bytes());
            assert_eq!(
                inj.handle_touch_packet(&p),
                TouchAction::Inject { kind, x_bits: bits, y_bits: bits.rotate_left(8) }
            );
        }
    }
}

#[test]
fn vdd_heuristic() {
    assert!(looks_like_vdd("IddSampleDriver Device", "\\\\.\\DISPLAY3"));
    assert!(looks_like_vdd("Parsec Virtual Display Adapter", "\\\\.\\DISPLAY2"));
    assert!(looks_like_vdd("Virtual Display Driver", ""));
    assert!(looks_like_vdd("Amyuni USB Mobile Monitor", "x"));
    assert!(looks_like_vdd("", "MttVDD"));
    assert!(looks_like_vdd("deskreen", ""));
    assert!(!looks_like_vdd("NVIDIA GeForce RTX 4070", "\\\\.\\DISPLAY1"));
    assert!(!looks_like_vdd("Intel(R) UHD Graphics", "\\\\.\\DISPLAY2"));
    assert!(!looks_like_vdd("", ""));
}

#[test]
fn vdd_heuristic_ignores_case() {
    for (a, d) in [("PARSEC", "x"), ("x", "VIRTUAL"), ("AmYuNi", ""), ("nvidia", "display")] {
        assert_eq!(looks_like_vdd(a, d), looks_like_vdd(&a.to_ascii_lowercase(), &d.to_ascii_lowercase()));
        assert_eq!(looks_like_vdd(a, d), looks_like_vdd(&a.to_ascii_uppercase(), &d.to_ascii_uppercase()));
    }
}

#[test]
fn wide_buffers_decode_up_to_the_first_nul() {
    assert_eq!(wide_to_string(&wide("\\\\.\\DISPLAY3", 32)), "\\\\.\\DISPLAY3");
    assert_eq!(wide_to_string(&[72, 105, 0, 120]), "Hi");
    assert_eq!(wide_to_string(&[72, 105]), "Hi");
    assert_eq!(wide_to_string(&[0, 72]), "");
    assert_eq!(wide_to_string(&[]), "");
    assert_eq!(wide_to_string(&[0xD800, 65, 0]), "\u{FFFD}A");
}

#[test]
fn adapter_map_lookups() {
    let mut map = AdapterMap::new();
    assert_eq!(adapter_string_for_device("\\\\.\\DISPLAY1", &map), "");
    map.record_adapter(&wide("\\\\.\\DISPLAY1", 32), &wide("NVIDIA GeForce RTX 4070", 128));
    map.record_adapter(&wide("\\\\.\\DISPLAY3", 32), &wide("Virtual Display Driver", 128));
    map.record_adapter(&wide("", 32), &wide("ignored", 128));
    assert_eq!(adapter_string_for_device("\\\\.\\DISPLAY1", &map), "NVIDIA GeForce RTX 4070");
    assert_eq!(adapter_string_for_device("\\\\.\\DISPLAY3", &map), "Virtual Display Driver");
    assert_eq!(adapter_string_for_device("\\\\.\\display3", &map), "");
    assert_eq!(adapter_string_for_device("", &map), "");
    map.insert("\\\\.\\DISPLAY1".to_string(), "Replaced".to_string());
    assert_eq!(adapter_string_for_device("\\\\.\\DISPLAY1", &map), "Replaced");
    assert_eq!(map.get("\\\\.\\DISPLAY3").map(|s| s.as_str()), Some("Virtual Display Driver"));
    assert_eq!(map.get("nope"), None);
}

#[test]
fn monitor_bounds_from_rectangle() {
    let mut map = AdapterMap::new();
    map.insert("\\\\.\\DISPLAY2".to_string(), "Parsec Virtual Display Adapter".to_string());
    let m = MonitorBounds::from_monitor_info(-1920, 0, 0, 1080, &wide("\\\\.\\DISPLAY2", 32), &map);
    assert_eq!((m.x, m.y, m.width, m.height), (-1920, 0, 1920, 1080));
    assert_eq!(m.device_name, "\\\\.\\DISPLAY2");
    assert_eq!(m.adapter_string, "Parsec Virtual Display Adapter");
    let m = MonitorBounds::from_monitor_info(0, 0, 2560, 1440, &wide("\\\\.\\DISPLAY9", 32), &map);
    assert_eq!((m.width, m.height), (2560, 1440));
    assert_eq!(m.adapter_string, "");
}

fn three_monitors() -> Vec<MonitorBounds> {
    vec![
        monitor(0, 1920, "\\\\.\\DISPLAY1", "NVIDIA GeForce RTX 4070"),
        monitor(1920, 1920, "\\\\.\\DISPLAY2", "IddSampleDriver Device"),
        monitor(3840, 1280, "\\\\.\\DISPLAY3", "Intel(R) UHD Graphics"),
    ]
}

#[test]
fn selection_prefers_a_virtual_display() {
    let sel = select_target_monitor(three_monitors(), None, 0).unwrap();
    assert_eq!(sel.bounds.device_name, "\\\\.\\DISPLAY2");
    assert_eq!(sel.bounds.x, 1920);
    assert_eq!(sel.reason, "VDD heuristic match");
}

#[test]
fn selection_override_wins() {
    let sel = select_target_monitor(three_monitors(), Some("  display3 "), 0).unwrap();
    assert_eq!(sel.bounds.device_name, "\\\\.\\DISPLAY3");
    assert_eq!(sel.reason, "env WIFI_DISPLAY_VDD_MATCH=\"display3\"");
    let sel = select_target_monitor(three_monitors(), Some("NVIDIA"), 2).unwrap();
    assert_eq!(sel.bounds.device_name, "\\\\.\\DISPLAY1");
    assert_eq!(sel.reason, "env WIFI_DISPLAY_VDD_MATCH=\"NVIDIA\"");
}

#[test]
fn selection_override_that_matches_nothing_falls_through() {
    let sel = select_target_monitor(three_monitors(), Some("amd"), 0).unwrap();
    assert_eq!(sel.bounds.device_name, "\\\\.\\DISPLAY2");
    assert_eq!(sel.reason, "VDD heuristic match");
    let sel = select_target_monitor(three_monitors(), Some("   "), 0).unwrap();
    assert_eq!(sel.reason, "VDD heuristic match");
}

#[test]
fn selection_falls_back_to_the_index() {
    let mut ms = three_monitors();
    ms[1].adapter_string = "AMD Radeon".to_string();
    let sel = select_target_monitor(ms.clone(), None, 2).unwrap();
    assert_eq!(sel.bounds.device_name, "\\\\.\\DISPLAY3");
    assert_eq!(sel.reason, "--monitor-index fallback");
    assert_eq!(
        select_target_monitor(ms, Some("zzz"), 5).unwrap_err(),
        SelectError::NothingSelected { count: 3, index: 5 }
    );
}

#[test]
fn selection_needs_a_monitor() {
    assert_eq!(select_target_monitor(Vec::new(), Some("x"), 0).unwrap_err(), SelectError::NoMonitors);
}

#[test]
fn override_is_trimmed_of_unicode_white_space() {
    let sel = select_target_monitor(three_monitors(), Some("\u{3000}\tdisplay1\u{a0}\n"), 0).unwrap();
    assert_eq!(sel.bounds.device_name, "\\\\.\\DISPLAY1");
    assert_eq!(sel.reason, "env WIFI_DISPLAY_VDD_MATCH=\"display1\"");
}

#[test]
fn wide_buffers_decode_surrogate_pairs() {
    assert_eq!(wide_to_string(&[0xD83D, 0xDE00, 0]), "\u{1F600}");
    assert_eq!(wide_to_string(&[0xDC00, 0xD800]), "\u{FFFD}\u{FFFD}");
    assert_eq!(wide_to_string(&[0xD800, 0xD800, 0xDC00]), "\u{FFFD}\u{10000}");
}

#[test]
fn encoded_text_reads_back_whatever_follows_the_terminator() {
    for s in ["", "DISPLAY1", "caf\u{e9} \u{1F600} \u{10FFFF}", "\u{FFFD}\u{D7FF}\u{E000}"] {
        let mut buf: Vec<u16> = s.encode_utf16().collect();
        buf.push(0);
        buf.extend_from_slice(&[0xD800, 65, 0, 66]);
        assert_eq!(wide_to_string(&buf), s);
    }
}
