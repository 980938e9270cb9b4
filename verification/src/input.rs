//! Touch input: decoding touch packets from the client, and choosing the
//! monitor (preferably a virtual display driver) that touch and capture
//! lock to.

use crate::text::{
    ascii_lower,
    debug_quoted,
    debug_string,
    encode_utf16,
    has_substring,
    lemma_utf16_no_nul,
    lemma_utf16_roundtrip,
    str_contains,
    str_equals,
    str_trim,
    to_ascii_lowercase,
    trimmed,
    utf16_lossy,
    from_utf16_lossy,
};
use vstd::prelude::*;
use vstd::string::StringExecFns;

verus! {

/// Touch packet type: the finger moved.
pub const TOUCH_MOVE: u8 = 0;

/// Touch packet type: the finger went down.
pub const TOUCH_DOWN: u8 = 1;

/// Touch packet type: the finger went up.
pub const TOUCH_UP: u8 = 2;

/// Size of a touch packet: a type byte and two little-endian `f32`
/// coordinates, normalized to 0.0-1.0.
pub const PACKET_SIZE: usize = 9;

/// Monitor bounds in physical pixels plus adapter/device identity for VDD matching.
#[derive(Debug, Clone)]
pub struct MonitorBounds {
    pub x: i32,
    pub y: i32,
    pub width: i32,
    pub height: i32,
    /// Monitor display name, e.g. `\\.\DISPLAY3`.
    pub device_name: String,
    /// Adapter DeviceString, e.g. `"IddSampleDriver Device"`, `"Parsec Virtual Display Adapter"`.
    pub adapter_string: String,
}

/// Virtual desktop bounds for absolute coordinate mapping.
#[derive(Debug, Clone, Copy)]
pub struct VirtualDesktop {
    pub x: i32,
    pub y: i32,
    pub width: i32,
    pub height: i32,
}

/// Why an input injector could not be made.
#[derive(Debug)]
pub enum InputError {
    /// The virtual desktop reported a width or height that is not positive.
    BadDesktopDimensions,
}

/// The kind of a touch event.
#[derive(Debug, Clone, Copy, PartialEq, Eq, Structural)]
pub enum TouchKind {
    Move,
    Down,
    Up,
}

/// What a received touch packet asks for. Coordinates are the raw bits of the
/// little-endian `f32` values of the packet.
#[derive(Debug, Clone, Copy, PartialEq, Eq, Structural)]
pub enum TouchAction {
    /// The packet is shorter than `PACKET_SIZE` bytes: nothing to do.
    TooShort,
    /// Inject a mouse event of this kind at the normalized coordinates.
    Inject { kind: TouchKind, x_bits: u32, y_bits: u32 },
    /// The type byte is not a known touch type.
    UnknownType(u8),
}

/// The little-endian 32-bit value of four bytes.
pub open spec fn le_u32(b0: u8, b1: u8, b2: u8, b3: u8) -> u32 {
    (b0 as int + 256 * (b1 as int) + 65536 * (b2 as int) + 16777216 * (b3 as int)) as u32
}

/// What a touch packet decodes to.
pub open spec fn touch_action_spec(data: Seq<u8>) -> TouchAction {
    if data.len() < PACKET_SIZE {
        TouchAction::TooShort
    } else {
        let x_bits = le_u32(data[1], data[2], data[3], data[4]);
        let y_bits = le_u32(data[5], data[6], data[7], data[8]);
        if data[0] == TOUCH_MOVE {
            TouchAction::Inject { kind: TouchKind::Move, x_bits, y_bits }
        } else if data[0] == TOUCH_DOWN {
            TouchAction::Inject { kind: TouchKind::Down, x_bits, y_bits }
        } else if data[0] == TOUCH_UP {
            TouchAction::Inject { kind: TouchKind::Up, x_bits, y_bits }
        } else {
            TouchAction::UnknownType(data[0])
        }
    }
}

/// Assembles a little-endian 32-bit value.
fn read_le_u32(b0: u8, b1: u8, b2: u8, b3: u8) -> (v: u32)
    ensures
        v == le_u32(b0, b1, b2, b3),
{
    let v = (b0 as u32) | ((b1 as u32) << 8) | ((b2 as u32) << 16) | ((b3 as u32) << 24);
    assert((b0 as u32) | ((b1 as u32) << 8) | ((b2 as u32) << 16) | ((b3 as u32) << 24) == b0 as int
        + 256 * (b1 as int) + 65536 * (b2 as int) + 16777216 * (b3 as int)) by (bit_vector);
    v
}

/// Maps touches onto one monitor of the virtual desktop.
pub struct InputInjector {
    monitor: MonitorBounds,
    desktop: VirtualDesktop,
}

impl InputInjector {
    /// The monitor that touches land on.
    pub closed spec fn spec_monitor(&self) -> MonitorBounds {
        self.monitor
    }

    /// The virtual desktop that absolute coordinates are relative to.
    pub closed spec fn spec_desktop(&self) -> VirtualDesktop {
        self.desktop
    }

    /// Creates an injector for the already-selected monitor bounds, given the
    /// virtual desktop's dimensions; fails when these are not positive.
    pub fn new(monitor: MonitorBounds, desktop: VirtualDesktop) -> (res: Result<Self, InputError>)
        ensures
            match res {
                Ok(injector) => desktop.width > 0 && desktop.height > 0
                    && injector.spec_monitor() == monitor && injector.spec_desktop() == desktop,
                Err(e) => !(desktop.width > 0 && desktop.height > 0) && e
                    == InputError::BadDesktopDimensions,
            },
    {
        if desktop.width > 0 && desktop.height > 0 {
            Ok(InputInjector { monitor, desktop })
        } else {
            Err(InputError::BadDesktopDimensions)
        }
    }

    /// Decodes a 9-byte touch packet into the mouse event to inject.
    pub fn handle_touch_packet(&self, data: &[u8]) -> (action: TouchAction)
        ensures
            action == touch_action_spec(data@),
    {
        if data.len() < PACKET_SIZE {
            return TouchAction::TooShort;
        }
        let touch_type = data[0];
        let x_bits = read_le_u32(data[1], data[2], data[3], data[4]);
        let y_bits = read_le_u32(data[5], data[6], data[7], data[8]);
        if touch_type == TOUCH_MOVE {
            TouchAction::Inject { kind: TouchKind::Move, x_bits, y_bits }
        } else if touch_type == TOUCH_DOWN {
            TouchAction::Inject { kind: TouchKind::Down, x_bits, y_bits }
        } else if touch_type == TOUCH_UP {
            TouchAction::Inject { kind: TouchKind::Up, x_bits, y_bits }
        } else {
            TouchAction::UnknownType(touch_type)
        }
    }

    /// The monitor that touches land on.
    pub fn monitor(&self) -> (m: &MonitorBounds)
        ensures
            *m == self.spec_monitor(),
    {
        &self.monitor
    }

    /// The virtual desktop that absolute coordinates are relative to.
    pub fn desktop(&self) -> (d: VirtualDesktop)
        ensures
            d == self.spec_desktop(),
    {
        self.desktop
    }
}

} // verus!

verus! {

/// Lower-case adapter/device name fragments that mark a Virtual Display
/// Driver: IDD-based sample drivers, Parsec VDD, Amyuni, VirtualDisplayDriver,
/// Deskreen.
pub open spec fn vdd_tokens() -> Seq<Seq<char>> {
    seq!["virtual"@, "idd"@, "vdd"@, "parsec"@, "amyuni"@, "deskreen"@]
}

/// Whether an adapter/device pair looks like a Virtual Display Driver: one of
/// the tokens occurs, ignoring ASCII case, in the adapter string or in the
/// device name.
pub open spec fn looks_like_vdd_spec(adapter_string: Seq<char>, device_name: Seq<char>) -> bool {
    exists|k: int|
        0 <= k < vdd_tokens().len() && (has_substring(
            ascii_lower(adapter_string),
            #[trigger] vdd_tokens()[k],
        ) || has_substring(ascii_lower(device_name), vdd_tokens()[k]))
}

/// Returns true if this adapter/device looks like a Virtual Display Driver
/// (IDD-based sample drivers, Parsec VDD, amyuni, Virtual Display, etc.).
pub fn looks_like_vdd(adapter_string: &str, device_name: &str) -> (vdd: bool)
    ensures
        vdd == looks_like_vdd_spec(adapter_string@, device_name@),
{
    let a = to_ascii_lowercase(adapter_string);
    let d = to_ascii_lowercase(device_name);
    let a = a.as_str();
    let d = d.as_str();
    let found = (str_contains(a, "virtual") || str_contains(d, "virtual"))
        || (str_contains(a, "idd") || str_contains(d, "idd"))
        || (str_contains(a, "vdd") || str_contains(d, "vdd"))
        || (str_contains(a, "parsec") || str_contains(d, "parsec"))
        || (str_contains(a, "amyuni") || str_contains(d, "amyuni"))
        || (str_contains(a, "deskreen") || str_contains(d, "deskreen"));
    proof {
        let t = vdd_tokens();
        assert(t[0] == "virtual"@ && t[1] == "idd"@ && t[2] == "vdd"@ && t[3] == "parsec"@ && t[4]
            == "amyuni"@ && t[5] == "deskreen"@);
        if !found {
            assert forall|k: int| 0 <= k < t.len() implies !(has_substring(
                ascii_lower(adapter_string@),
                #[trigger] t[k],
            ) || has_substring(ascii_lower(device_name@), t[k])) by {
                assert(0 <= k < 6);
            }
        }
    }
    found
}

} // verus!

verus! {

/// Length of a null-terminated UTF-16 buffer from `from` on: the offset of
/// the first 0 at or after `from`, or the buffer's length when there is none.
pub open spec fn wide_len(buf: Seq<u16>, from: int) -> int
    decreases buf.len() - from,
{
    if from < 0 || from >= buf.len() {
        buf.len() as int
    } else if buf[from] == 0 {
        from
    } else {
        wide_len(buf, from + 1)
    }
}

/// The text of a null-terminated UTF-16 fixed buffer.
pub open spec fn wide_text(buf: Seq<u16>) -> Seq<char> {
    utf16_lossy(buf.take(wide_len(buf, 0)))
}

/// Decode a null-terminated UTF-16 fixed buffer into a String.
pub fn wide_to_string(buf: &[u16]) -> (s: String)
    ensures
        s@ == wide_text(buf@),
{
    let mut n: usize = 0;
    while n < buf.len() && buf[n] != 0
        invariant
            n <= buf.len(),
            wide_len(buf@, 0) == wide_len(buf@, n as int),
        decreases buf.len() - n,
    {
        n = n + 1;
    }
    let prefix = vstd::slice::slice_subrange(buf, 0, n);
    assert(prefix@ == buf@.take(wide_len(buf@, 0)));
    from_utf16_lossy(prefix)
}

/// Scanning for the terminator from `from` stops at the first 0 at or after it.
proof fn lemma_wide_len_first_zero(buf: Seq<u16>, from: int, z: int)
    requires
        0 <= from <= z < buf.len(),
        buf[z] == 0,
        forall|i: int| from <= i < z ==> buf[i] != 0,
    ensures
        wide_len(buf, from) == z,
    decreases z - from,
{
    if from < z {
        lemma_wide_len_first_zero(buf, from + 1, z);
    }
}

/// A buffer that holds a string without NUL in UTF-16, then the 0
/// terminator, then anything at all, reads back as that string.
pub proof fn lemma_wide_text_roundtrip(s: Seq<char>, tail: Seq<u16>)
    requires
        forall|i: int| 0 <= i < s.len() ==> s[i] != '\0',
    ensures
        wide_text(encode_utf16(s) + seq![0u16] + tail) == s,
{
    let e = encode_utf16(s);
    let buf = e + seq![0u16] + tail;
    lemma_utf16_no_nul(s);
    assert forall|i: int| 0 <= i < e.len() implies buf[i] != 0 by {
        assert(buf[i] == e[i]);
    }
    assert(buf[e.len() as int] == 0);
    lemma_wide_len_first_zero(buf, 0, e.len() as int);
    assert(buf.take(e.len() as int) =~= e);
    lemma_utf16_roundtrip(s);
}

/// The map that a list of (name, value) insertions builds, later insertions
/// replacing earlier ones of the same name.
pub open spec fn entries_map(entries: Seq<(String, String)>) -> Map<Seq<char>, Seq<char>>
    decreases entries.len(),
{
    if entries.len() == 0 {
        Map::empty()
    } else {
        entries_map(entries.drop_last()).insert(entries.last().0@, entries.last().1@)
    }
}

proof fn lemma_entries_map_hit(entries: Seq<(String, String)>, key: Seq<char>, j: int)
    requires
        0 <= j < entries.len(),
        entries[j].0@ == key,
        forall|i: int| j < i < entries.len() ==> (#[trigger] entries[i]).0@ != key,
    ensures
        entries_map(entries).contains_key(key),
        entries_map(entries)[key] == entries[j].1@,
    decreases entries.len(),
{
    if j < entries.len() - 1 {
        lemma_entries_map_hit(entries.drop_last(), key, j);
    }
}

proof fn lemma_entries_map_miss(entries: Seq<(String, String)>, key: Seq<char>)
    requires
        forall|i: int| 0 <= i < entries.len() ==> (#[trigger] entries[i]).0@ != key,
    ensures
        !entries_map(entries).contains_key(key),
    decreases entries.len(),
{
    if entries.len() > 0 {
        lemma_entries_map_miss(entries.drop_last(), key);
    }
}

/// Adapter `DeviceName` (e.g. `\\.\DISPLAY3`) to adapter `DeviceString`
/// (e.g. "Virtual Display Driver").
pub struct AdapterMap {
    entries: Vec<(String, String)>,
}

impl View for AdapterMap {
    type V = Map<Seq<char>, Seq<char>>;

    closed spec fn view(&self) -> Map<Seq<char>, Seq<char>> {
        entries_map(self.entries@)
    }
}

impl AdapterMap {
    /// An empty map.
    pub fn new() -> (map: Self)
        ensures
            map@ == Map::<Seq<char>, Seq<char>>::empty(),
    {
        let map = AdapterMap { entries: Vec::new() };
        assert(map@ =~= Map::<Seq<char>, Seq<char>>::empty());
        map
    }

    /// Maps `name` to `value`, replacing what `name` mapped to before.
    pub fn insert(&mut self, name: String, value: String)
        ensures
            final(self)@ == old(self)@.insert(name@, value@),
    {
        let ghost old_entries = self.entries@;
        self.entries.push((name, value));
        assert(self.entries@.drop_last() =~= old_entries);
    }

    /// What `name` maps to.
    pub fn get(&self, name: &str) -> (value: Option<&String>)
        ensures
            match value {
                Some(v) => self@.contains_key(name@) && v@ == self@[name@],
                None => !self@.contains_key(name@),
            },
    {
        let mut i = self.entries.len();
        while i > 0
            invariant
                i <= self.entries.len(),
                forall|k: int| i <= k < self.entries.len() ==> (#[trigger] self.entries@[k]).0@
                    != name@,
            decreases i,
        {
            i = i - 1;
            if str_equals(self.entries[i].0.as_str(), name) {
                proof {
                    lemma_entries_map_hit(self.entries@, name@, i as int);
                }
                return Some(&self.entries[i].1);
            }
        }
        proof {
            lemma_entries_map_miss(self.entries@, name@);
        }
        None
    }

    /// Records one display adapter given its `DeviceName` and `DeviceString`
    /// fixed UTF-16 buffers; an adapter with an empty name is skipped.
    pub fn record_adapter(&mut self, device_name: &[u16], device_string: &[u16])
        ensures
            final(self)@ == if wide_text(device_name@).len() > 0 {
                old(self)@.insert(wide_text(device_name@), wide_text(device_string@))
            } else {
                old(self)@
            },
    {
        let name = wide_to_string(device_name);
        let string = wide_to_string(device_string);
        if !name.as_str().is_empty() {
            self.insert(name, string);
        }
    }
}

/// What `adapter_string_for_device` returns.
pub open spec fn adapter_string_spec(device_name: Seq<char>, map: Map<Seq<char>, Seq<char>>) -> Seq<char> {
    if map.contains_key(device_name) {
        map[device_name]
    } else {
        Seq::empty()
    }
}

/// Look up the adapter DeviceString for a monitor display name (e.g. `\\.\DISPLAY3`).
/// Returns empty string if the lookup fails.
pub fn adapter_string_for_device(device_name: &str, map: &AdapterMap) -> (s: String)
    ensures
        s@ == adapter_string_spec(device_name@, map@),
{
    match map.get(device_name) {
        Some(s) => s.clone(),
        None => String::new(),
    }
}

impl MonitorBounds {
    /// Bounds and identity of a monitor from its rectangle (left, top, right,
    /// bottom) and its `szDevice` buffer, with the adapter string looked up in
    /// `adapter_map`.
    pub fn from_monitor_info(
        left: i32,
        top: i32,
        right: i32,
        bottom: i32,
        sz_device: &[u16],
        adapter_map: &AdapterMap,
    ) -> (m: MonitorBounds)
        requires
            i32::MIN <= right - left <= i32::MAX,
            i32::MIN <= bottom - top <= i32::MAX,
        ensures
            m.x == left,
            m.y == top,
            m.width == right - left,
            m.height == bottom - top,
            m.device_name@ == wide_text(sz_device@),
            m.adapter_string@ == adapter_string_spec(wide_text(sz_device@), adapter_map@),
    {
        let device_name = wide_to_string(sz_device);
        let adapter_string = adapter_string_for_device(device_name.as_str(), adapter_map);
        MonitorBounds {
            x: left,
            y: top,
            width: right - left,
            height: bottom - top,
            device_name,
            adapter_string,
        }
    }
}

} // verus!

verus! {

/// Whether a monitor matches an operator override (already lower case): as a
/// substring, ignoring ASCII case, of its device name or adapter string.
pub open spec fn override_matches(m: MonitorBounds, needle_lower: Seq<char>) -> bool {
    has_substring(ascii_lower(m.device_name@), needle_lower) || has_substring(
        ascii_lower(m.adapter_string@),
        needle_lower,
    )
}

/// Whether a monitor looks like a Virtual Display Driver.
pub open spec fn monitor_looks_like_vdd(m: MonitorBounds) -> bool {
    looks_like_vdd_spec(m.adapter_string@, m.device_name@)
}

/// The first monitor at or after `from` that matches the override.
pub open spec fn first_override_match(ms: Seq<MonitorBounds>, needle_lower: Seq<char>, from: int) -> Option<int>
    decreases ms.len() - from,
{
    if from < 0 || from >= ms.len() {
        None
    } else if override_matches(ms[from], needle_lower) {
        Some(from)
    } else {
        first_override_match(ms, needle_lower, from + 1)
    }
}

/// The first monitor at or after `from` that looks like a Virtual Display Driver.
pub open spec fn first_vdd_match(ms: Seq<MonitorBounds>, from: int) -> Option<int>
    decreases ms.len() - from,
{
    if from < 0 || from >= ms.len() {
        None
    } else if monitor_looks_like_vdd(ms[from]) {
        Some(from)
    } else {
        first_vdd_match(ms, from + 1)
    }
}

/// The monitor an operator override selects: none when there is no override
/// or it is only white space, else the first monitor it matches.
pub open spec fn override_selection(ms: Seq<MonitorBounds>, vdd_override: Option<Seq<char>>) -> Option<int> {
    match vdd_override {
        Some(n) => if trimmed(n).len() > 0 {
            first_override_match(ms, ascii_lower(trimmed(n)), 0)
        } else {
            None
        },
        None => None,
    }
}

/// Why a monitor was selected.
#[derive(Debug, Clone, Copy, PartialEq, Eq, Structural)]
pub enum SelectionRule {
    /// The operator override matched it.
    EnvOverride,
    /// It looks like a Virtual Display Driver.
    VddHeuristic,
    /// It is the monitor at the fallback index.
    IndexFallback,
}

/// Which monitor is selected, and by which rule, in priority order: the
/// operator override, the VDD heuristic, the fallback index.
pub open spec fn selection_spec(
    ms: Seq<MonitorBounds>,
    vdd_override: Option<Seq<char>>,
    monitor_index_fallback: int,
) -> Option<(int, SelectionRule)> {
    if let Some(i) = override_selection(ms, vdd_override) {
        Some((i, SelectionRule::EnvOverride))
    } else if let Some(i) = first_vdd_match(ms, 0) {
        Some((i, SelectionRule::VddHeuristic))
    } else if 0 <= monitor_index_fallback < ms.len() {
        Some((monitor_index_fallback, SelectionRule::IndexFallback))
    } else {
        None
    }
}

/// The text that explains a selection.
pub open spec fn reason_spec(rule: SelectionRule, vdd_override: Option<Seq<char>>) -> Seq<char> {
    match rule {
        SelectionRule::EnvOverride => "env WIFI_DISPLAY_VDD_MATCH="@ + debug_quoted(
            trimmed(vdd_override.unwrap()),
        ),
        SelectionRule::VddHeuristic => "VDD heuristic match"@,
        SelectionRule::IndexFallback => "--monitor-index fallback"@,
    }
}

/// Result of VDD / target-monitor selection.
#[derive(Debug, Clone)]
pub struct TargetSelection {
    pub bounds: MonitorBounds,
    pub reason: String,
}

/// Why no monitor could be selected.
#[derive(Debug, Clone, Copy, PartialEq, Eq, Structural)]
pub enum SelectError {
    /// No monitor was enumerated.
    NoMonitors,
    /// Neither the override nor the heuristic matched, and the fallback index
    /// is out of range.
    NothingSelected { count: usize, index: usize },
}

/// The first monitor that the (lower case) override matches.
fn find_override_match(monitors: &Vec<MonitorBounds>, needle_lower: &str) -> (found: Option<usize>)
    ensures
        match found {
            Some(i) => i < monitors.len() && first_override_match(monitors@, needle_lower@, 0) == Some(
                i as int,
            ),
            None => first_override_match(monitors@, needle_lower@, 0) is None,
        },
        match found {
            Some(i) => override_matches(monitors@[i as int], needle_lower@) && forall|j: int|
                0 <= j < i ==> !override_matches(#[trigger] monitors@[j], needle_lower@),
            None => forall|j: int|
                0 <= j < monitors.len() ==> !override_matches(#[trigger] monitors@[j], needle_lower@),
        },
{
    let mut i: usize = 0;
    while i < monitors.len()
        invariant
            i <= monitors.len(),
            forall|j: int| 0 <= j < i ==> !override_matches(#[trigger] monitors@[j], needle_lower@),
            first_override_match(monitors@, needle_lower@, 0) == first_override_match(
                monitors@,
                needle_lower@,
                i as int,
            ),
        decreases monitors.len() - i,
    {
        let m = &monitors[i];
        let device = to_ascii_lowercase(m.device_name.as_str());
        let adapter = to_ascii_lowercase(m.adapter_string.as_str());
        if str_contains(device.as_str(), needle_lower) || str_contains(adapter.as_str(), needle_lower) {
            return Some(i);
        }
        i = i + 1;
    }
    None
}

/// The first monitor that looks like a Virtual Display Driver.
fn find_vdd_match(monitors: &Vec<MonitorBounds>) -> (found: Option<usize>)
    ensures
        match found {
            Some(i) => i < monitors.len() && first_vdd_match(monitors@, 0) == Some(i as int),
            None => first_vdd_match(monitors@, 0) is None,
        },
        match found {
            Some(i) => monitor_looks_like_vdd(monitors@[i as int]) && forall|j: int|
                0 <= j < i ==> !monitor_looks_like_vdd(#[trigger] monitors@[j]),
            None => forall|j: int|
                0 <= j < monitors.len() ==> !monitor_looks_like_vdd(#[trigger] monitors@[j]),
        },
{
    let mut i: usize = 0;
    while i < monitors.len()
        invariant
            i <= monitors.len(),
            first_vdd_match(monitors@, 0) == first_vdd_match(monitors@, i as int),
            forall|j: int| 0 <= j < i ==> !monitor_looks_like_vdd(#[trigger] monitors@[j]),
        decreases monitors.len() - i,
    {
        let m = &monitors[i];
        if looks_like_vdd(m.adapter_string.as_str(), m.device_name.as_str()) {
            return Some(i);
        }
        i = i + 1;
    }
    None
}

/// Shared VDD selection logic used by BOTH touch injection and screen capture.
///
/// Priority:
///   1. `vdd_override` (the `WIFI_DISPLAY_VDD_MATCH` setting) trimmed, when
///      not empty: the first monitor whose device name or adapter string
///      contains it, ignoring ASCII case.
///   2. The first monitor whose adapter/device string looks like a virtual
///      display driver (see `looks_like_vdd`).
///   3. `monitor_index_fallback`, when it is in range.
///
/// Fails only if no monitor was enumerated, or none of the three selects one.
pub fn select_target_monitor(
    monitors: Vec<MonitorBounds>,
    vdd_override: Option<&str>,
    monitor_index_fallback: usize,
) -> (res: Result<TargetSelection, SelectError>)
    ensures
        ({
            let ov = match vdd_override {
                Some(s) => Some(s@),
                None => None,
            };
            match res {
                Ok(sel) => monitors.len() > 0 && (selection_spec(
                    monitors@,
                    ov,
                    monitor_index_fallback as int,
                ) matches Some((i, rule)) && sel.bounds == monitors@[i] && sel.reason@
                    == reason_spec(rule, ov)),
                Err(SelectError::NoMonitors) => monitors.len() == 0,
                Err(SelectError::NothingSelected { count, index }) => monitors.len() > 0
                    && selection_spec(monitors@, ov, monitor_index_fallback as int) is None
                    && count == monitors.len() && index == monitor_index_fallback,
            }
        }),
{
    let mut monitors = monitors;
    if monitors.len() == 0 {
        return Err(SelectError::NoMonitors);
    }
    let ghost ov = match vdd_override {
        Some(s) => Some(s@),
        None => None::<Seq<char>>,
    };
    let mut selected: Option<(usize, String)> = None;
    if let Some(needle) = vdd_override {
        let n = str_trim(needle);
        if !n.is_empty() {
            let nl = to_ascii_lowercase(n);
            if let Some(i) = find_override_match(&monitors, nl.as_str()) {
                let quoted = debug_string(n);
                let reason = "env WIFI_DISPLAY_VDD_MATCH=".to_owned().concat(quoted.as_str());
                selected = Some((i, reason));
            }
        }
    }
    assert(selected matches Some((i, r)) ==> i < monitors.len() && override_selection(monitors@, ov)
        == Some(i as int) && r@ == reason_spec(SelectionRule::EnvOverride, ov));
    assert(selected is None ==> override_selection(monitors@, ov) is None);
    if selected.is_none() {
        if let Some(i) = find_vdd_match(&monitors) {
            selected = Some((i, "VDD heuristic match".to_owned()));
        }
    }
    if selected.is_none() {
        if monitor_index_fallback < monitors.len() {
            selected = Some((monitor_index_fallback, "--monitor-index fallback".to_owned()));
        }
    }
    match selected {
        Some((idx, reason)) => {
            let bounds = monitors.remove(idx);
            Ok(TargetSelection { bounds, reason })
        },
        None => Err(SelectError::NothingSelected { count: monitors.len(), index: monitor_index_fallback }),
    }
}

} // verus!

verus! {

/// The VDD heuristic ignores ASCII case.
pub proof fn lemma_vdd_ignores_case(adapter_string: Seq<char>, device_name: Seq<char>)
    ensures
        looks_like_vdd_spec(adapter_string, device_name) == looks_like_vdd_spec(
            ascii_lower(adapter_string),
            ascii_lower(device_name),
        ),
{
    crate::text::lemma_ascii_lower_idempotent(adapter_string);
    crate::text::lemma_ascii_lower_idempotent(device_name);
}

/// The VDD heuristic, token by token: a pair looks like a Virtual Display
/// Driver exactly when "virtual", "idd", "vdd", "parsec", "amyuni" or
/// "deskreen" occurs in the lower-cased adapter string or in the lower-cased
/// device name; each token counts in either of the two.
pub proof fn lemma_vdd_tokens(adapter_string: Seq<char>, device_name: Seq<char>)
    ensures
        looks_like_vdd_spec(adapter_string, device_name) <==> {
            let a = ascii_lower(adapter_string);
            let d = ascii_lower(device_name);
            ||| has_substring(a, "virtual"@) || has_substring(d, "virtual"@)
            ||| has_substring(a, "idd"@) || has_substring(d, "idd"@)
            ||| has_substring(a, "vdd"@) || has_substring(d, "vdd"@)
            ||| has_substring(a, "parsec"@) || has_substring(d, "parsec"@)
            ||| has_substring(a, "amyuni"@) || has_substring(d, "amyuni"@)
            ||| has_substring(a, "deskreen"@) || has_substring(d, "deskreen"@)
        },
{
    let t = vdd_tokens();
    let a = ascii_lower(adapter_string);
    let d = ascii_lower(device_name);
    assert(t[0] == "virtual"@ && t[1] == "idd"@ && t[2] == "vdd"@ && t[3] == "parsec"@ && t[4]
        == "amyuni"@ && t[5] == "deskreen"@);
    if looks_like_vdd_spec(adapter_string, device_name) {
        let k = choose|k: int|
            0 <= k < t.len() && (has_substring(a, #[trigger] t[k]) || has_substring(d, t[k]));
        assert(0 <= k < 6);
    } else {
        assert(!(has_substring(a, t[0]) || has_substring(d, t[0])));
        assert(!(has_substring(a, t[1]) || has_substring(d, t[1])));
        assert(!(has_substring(a, t[2]) || has_substring(d, t[2])));
        assert(!(has_substring(a, t[3]) || has_substring(d, t[3])));
        assert(!(has_substring(a, t[4]) || has_substring(d, t[4])));
        assert(!(has_substring(a, t[5]) || has_substring(d, t[5])));
    }
}

proof fn lemma_first_override_match_in_range(ms: Seq<MonitorBounds>, needle_lower: Seq<char>, from: int)
    ensures
        first_override_match(ms, needle_lower, from) matches Some(i) ==> from <= i < ms.len()
            && override_matches(ms[i], needle_lower),
    decreases ms.len() - from,
{
    if 0 <= from < ms.len() && !override_matches(ms[from], needle_lower) {
        lemma_first_override_match_in_range(ms, needle_lower, from + 1);
    }
}

proof fn lemma_first_vdd_match_in_range(ms: Seq<MonitorBounds>, from: int)
    ensures
        first_vdd_match(ms, from) matches Some(i) ==> from <= i < ms.len() && monitor_looks_like_vdd(
            ms[i],
        ),
    decreases ms.len() - from,
{
    if 0 <= from < ms.len() && !monitor_looks_like_vdd(ms[from]) {
        lemma_first_vdd_match_in_range(ms, from + 1);
    }
}

/// Selection picks a monitor that was enumerated, for the rule's reason: one
/// the override matches, one that looks like a VDD, or the fallback index;
/// the override wins over the heuristic, and both win over the fallback; and
/// selection fails only when there is no monitor or the fallback index is
/// out of range.
pub proof fn lemma_selection_rules(
    ms: Seq<MonitorBounds>,
    vdd_override: Option<Seq<char>>,
    monitor_index_fallback: int,
)
    ensures
        selection_spec(ms, vdd_override, monitor_index_fallback) matches Some((i, rule)) ==> {
            &&& 0 <= i < ms.len()
            &&& rule == SelectionRule::EnvOverride ==> override_matches(
                ms[i],
                ascii_lower(trimmed(vdd_override.unwrap())),
            )
            &&& rule == SelectionRule::VddHeuristic ==> monitor_looks_like_vdd(ms[i])
                && override_selection(ms, vdd_override) is None
            &&& rule == SelectionRule::IndexFallback ==> i == monitor_index_fallback
                && override_selection(ms, vdd_override) is None && (forall|j: int|
                0 <= j < ms.len() ==> !monitor_looks_like_vdd(#[trigger] ms[j]))
        },
        override_selection(ms, vdd_override) matches Some(i) ==> selection_spec(
            ms,
            vdd_override,
            monitor_index_fallback,
        ) == Some((i, SelectionRule::EnvOverride)),
        0 <= monitor_index_fallback < ms.len() ==> selection_spec(
            ms,
            vdd_override,
            monitor_index_fallback,
        ) is Some,
{
    lemma_first_vdd_match_in_range(ms, 0);
    if let Some(n) = vdd_override {
        lemma_first_override_match_in_range(ms, ascii_lower(trimmed(n)), 0);
    }
    if first_vdd_match(ms, 0) is None {
        assert forall|j: int| 0 <= j < ms.len() implies !monitor_looks_like_vdd(#[trigger] ms[j]) by {
            lemma_first_vdd_match_none(ms, 0, j);
        }
    }
}

/// Selection takes the first monitor that its rule accepts: with the
/// override, no earlier monitor has the override text in its lower-cased
/// device name or adapter string; with the VDD heuristic, no earlier monitor
/// looks like a Virtual Display Driver and no monitor at all matches a
/// non-blank override.
pub proof fn lemma_selection_first_match(
    ms: Seq<MonitorBounds>,
    vdd_override: Option<Seq<char>>,
    monitor_index_fallback: int,
)
    ensures
        selection_spec(ms, vdd_override, monitor_index_fallback) matches Some((i, rule)) ==> {
            &&& rule == SelectionRule::EnvOverride ==> forall|j: int|
                0 <= j < i ==> !has_substring(
                    ascii_lower((#[trigger] ms[j]).device_name@),
                    ascii_lower(trimmed(vdd_override.unwrap())),
                ) && !has_substring(
                    ascii_lower(ms[j].adapter_string@),
                    ascii_lower(trimmed(vdd_override.unwrap())),
                )
            &&& rule == SelectionRule::VddHeuristic ==> forall|j: int|
                0 <= j < i ==> !monitor_looks_like_vdd(#[trigger] ms[j])
            &&& rule == SelectionRule::VddHeuristic && vdd_override is Some && trimmed(
                vdd_override.unwrap(),
            ).len() > 0 ==> forall|j: int|
                0 <= j < ms.len() ==> !override_matches(
                    #[trigger] ms[j],
                    ascii_lower(trimmed(vdd_override.unwrap())),
                )
        },
{
    lemma_first_vdd_match_is_first(ms, 0);
    if let Some(n) = vdd_override {
        let needle = ascii_lower(trimmed(n));
        lemma_first_override_match_is_first(ms, needle, 0);
        if first_override_match(ms, needle, 0) is None {
            assert forall|j: int| 0 <= j < ms.len() implies !override_matches(
                #[trigger] ms[j],
                needle,
            ) by {
                lemma_first_override_match_none(ms, needle, 0, j);
            }
        }
    }
}

proof fn lemma_first_vdd_match_is_first(ms: Seq<MonitorBounds>, from: int)
    requires
        0 <= from,
    ensures
        first_vdd_match(ms, from) matches Some(i) ==> forall|j: int|
            from <= j < i ==> !monitor_looks_like_vdd(#[trigger] ms[j]),
    decreases ms.len() - from,
{
    if from < ms.len() && !monitor_looks_like_vdd(ms[from]) {
        lemma_first_vdd_match_is_first(ms, from + 1);
    }
}

proof fn lemma_first_override_match_is_first(ms: Seq<MonitorBounds>, needle_lower: Seq<char>, from: int)
    requires
        0 <= from,
    ensures
        first_override_match(ms, needle_lower, from) matches Some(i) ==> forall|j: int|
            from <= j < i ==> !override_matches(#[trigger] ms[j], needle_lower),
    decreases ms.len() - from,
{
    if from < ms.len() && !override_matches(ms[from], needle_lower) {
        lemma_first_override_match_is_first(ms, needle_lower, from + 1);
    }
}

proof fn lemma_first_override_match_none(
    ms: Seq<MonitorBounds>,
    needle_lower: Seq<char>,
    from: int,
    j: int,
)
    requires
        0 <= from <= j < ms.len(),
        first_override_match(ms, needle_lower, from) is None,
    ensures
        !override_matches(ms[j], needle_lower),
    decreases j - from,
{
    if from < j {
        lemma_first_override_match_none(ms, needle_lower, from + 1, j);
    }
}

proof fn lemma_first_vdd_match_none(ms: Seq<MonitorBounds>, from: int, j: int)
    requires
        0 <= from <= j < ms.len(),
        first_vdd_match(ms, from) is None,
    ensures
        !monitor_looks_like_vdd(ms[j]),
    decreases j - from,
{
    if from < j {
        lemma_first_vdd_match_none(ms, from + 1, j);
    }
}

/// A touch packet made of a known type byte and the little-endian bytes of
/// two coordinates decodes to that event at those coordinates.
pub proof fn lemma_touch_packet_roundtrip(touch_type: u8, x_bits: u32, y_bits: u32)
    requires
        touch_type <= TOUCH_UP,
    ensures
        touch_action_spec(
            seq![touch_type] + crate::transport::le_bytes_u32(x_bits) + crate::transport::le_bytes_u32(
                y_bits,
            ),
        ) == (TouchAction::Inject {
            kind: if touch_type == TOUCH_MOVE {
                TouchKind::Move
            } else if touch_type == TOUCH_DOWN {
                TouchKind::Down
            } else {
                TouchKind::Up
            },
            x_bits,
            y_bits,
        }),
{
    lemma_le_u32_of_bytes(x_bits);
    lemma_le_u32_of_bytes(y_bits);
}

proof fn lemma_le_u32_of_bytes(x: u32)
    ensures
        le_u32(
            crate::transport::le_bytes_u32(x)[0],
            crate::transport::le_bytes_u32(x)[1],
            crate::transport::le_bytes_u32(x)[2],
            crate::transport::le_bytes_u32(x)[3],
        ) == x,
{
    assert(x == x % 256 + 256 * ((x / 256) % 256) + 65536 * ((x / 65536) % 256) + 16777216 * ((x
        / 16777216) % 256)) by (nonlinear_arith);
}

} // verus!
