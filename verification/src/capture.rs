//! Choosing the display to capture, and frame pacing.

use crate::text::{ascii_lower, to_ascii_lowercase};
use vstd::prelude::*;

verus! {

/// A captured frame: packed BGRA pixels, `width * height * 4` bytes.
pub struct CapturedFrame {
    pub bgra: Vec<u8>,
    pub width: usize,
    pub height: usize,
}

/// How the captured display was chosen.
#[derive(Debug, Clone, Copy, PartialEq, Eq, Structural)]
pub enum CaptureMatch {
    /// Its device name equals the target device name, ignoring ASCII case.
    DeviceName,
    /// No device name matched; it is the display at the fallback index.
    IndexFallback,
}

/// Why no display could be chosen.
#[derive(Debug, Clone, Copy, PartialEq, Eq, Structural)]
pub enum CaptureError {
    /// There are no displays at all.
    NoDisplays,
    /// No device name matched and the fallback index is out of range.
    NoMatch { total: usize },
}

/// The first display at or after `from` whose device name equals `target_lower`
/// ignoring ASCII case.
pub open spec fn first_name_match(names: Seq<Seq<char>>, target_lower: Seq<char>, from: int) -> Option<int>
    decreases names.len() - from,
{
    if from < 0 || from >= names.len() {
        None
    } else if ascii_lower(names[from]) == target_lower {
        Some(from)
    } else {
        first_name_match(names, target_lower, from + 1)
    }
}

/// Which display is captured: the first whose device name matches the target
/// (an empty target matches none), else the fallback index when in range.
pub open spec fn capture_choice_spec(names: Seq<Seq<char>>, target: Seq<char>, fallback: int) -> Option<(int, CaptureMatch)> {
    let by_name = if ascii_lower(target).len() > 0 {
        first_name_match(names, ascii_lower(target), 0)
    } else {
        None
    };
    if let Some(i) = by_name {
        Some((i, CaptureMatch::DeviceName))
    } else if 0 <= fallback < names.len() {
        Some((fallback, CaptureMatch::IndexFallback))
    } else {
        None
    }
}

/// The views of a list of strings.
pub open spec fn string_views(names: Seq<String>) -> Seq<Seq<char>> {
    names.map_values(|s: String| s@)
}

/// Picks the display to capture by matching `target_device_name` (e.g.
/// `\\.\DISPLAY3`) case-insensitively against each display's device name, so
/// that touch and capture lock to the same physical screen whatever order the
/// displays are enumerated in. Falls back to `monitor_index_fallback` when no
/// device name matches.
pub fn select_capture_display(
    device_names: &Vec<String>,
    target_device_name: &str,
    monitor_index_fallback: usize,
) -> (res: Result<(usize, CaptureMatch), CaptureError>)
    ensures
        match res {
            Ok((i, how)) => device_names.len() > 0 && capture_choice_spec(
                string_views(device_names@),
                target_device_name@,
                monitor_index_fallback as int,
            ) == Some((i as int, how)),
            Err(CaptureError::NoDisplays) => device_names.len() == 0,
            Err(CaptureError::NoMatch { total }) => device_names.len() > 0 && capture_choice_spec(
                string_views(device_names@),
                target_device_name@,
                monitor_index_fallback as int,
            ) is None && total == device_names.len(),
        },
{
    let total = device_names.len();
    if total == 0 {
        return Err(CaptureError::NoDisplays);
    }
    let ghost names = string_views(device_names@);
    let target_lower = to_ascii_lowercase(target_device_name);
    if !target_lower.as_str().is_empty() {
        let mut i: usize = 0;
        while i < total
            invariant
                total == device_names.len(),
                names == string_views(device_names@),
                target_lower@ == ascii_lower(target_device_name@),
                target_lower@.len() > 0,
                i <= total,
                first_name_match(names, target_lower@, 0) == first_name_match(
                    names,
                    target_lower@,
                    i as int,
                ),
            decreases total - i,
        {
            let name_lower = to_ascii_lowercase(device_names[i].as_str());
            assert(names[i as int] == device_names@[i as int]@);
            if name_lower == target_lower {
                return Ok((i, CaptureMatch::DeviceName));
            }
            i = i + 1;
        }
    }
    if monitor_index_fallback < total {
        Ok((monitor_index_fallback, CaptureMatch::IndexFallback))
    } else {
        Err(CaptureError::NoMatch { total })
    }
}

/// Nanoseconds between frames at `target_fps` frames per second.
pub fn frame_interval_nanos(target_fps: u32) -> (nanos: u64)
    requires
        target_fps > 0,
    ensures
        nanos == 1_000_000_000int / (target_fps as int),
{
    1_000_000_000 / (target_fps as u64)
}

/// How long to sleep after a frame that took `elapsed_nanos` so that frames
/// come every `frame_nanos`: the time left, or nothing when the frame took
/// that long or longer.
pub fn pacing_sleep_nanos(elapsed_nanos: u128, frame_nanos: u64) -> (nanos: u64)
    ensures
        nanos == if elapsed_nanos < frame_nanos { frame_nanos - elapsed_nanos } else { 0 },
{
    if elapsed_nanos < frame_nanos as u128 {
        (frame_nanos as u128 - elapsed_nanos) as u64
    } else {
        0
    }
}

} // verus!

verus! {

proof fn lemma_first_name_match_in_range(names: Seq<Seq<char>>, target_lower: Seq<char>, from: int)
    ensures
        first_name_match(names, target_lower, from) matches Some(i) ==> from <= i < names.len()
            && ascii_lower(names[i]) == target_lower,
    decreases names.len() - from,
{
    if 0 <= from < names.len() && ascii_lower(names[from]) != target_lower {
        lemma_first_name_match_in_range(names, target_lower, from + 1);
    }
}

/// The chosen display exists; when chosen by name, its device name equals
/// the target ignoring ASCII case; matching ignores the target's case; and a
/// choice is made whenever the fallback index is in range.
pub proof fn lemma_capture_choice(names: Seq<Seq<char>>, target: Seq<char>, fallback: int)
    ensures
        capture_choice_spec(names, target, fallback) matches Some((i, how)) ==> 0 <= i < names.len()
            && (how == CaptureMatch::DeviceName ==> ascii_lower(names[i]) == ascii_lower(target))
            && (how == CaptureMatch::IndexFallback ==> i == fallback),
        capture_choice_spec(names, target, fallback) == capture_choice_spec(
            names,
            ascii_lower(target),
            fallback,
        ),
        0 <= fallback < names.len() ==> capture_choice_spec(names, target, fallback) is Some,
{
    lemma_first_name_match_in_range(names, ascii_lower(target), 0);
    crate::text::lemma_ascii_lower_idempotent(target);
}

} // verus!
