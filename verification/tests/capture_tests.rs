use wifi_display_server::capture::{frame_interval_nanos, pacing_sleep_nanos, select_capture_display, CaptureError, CaptureMatch};
use wifi_display_server::config::Config;

fn names() -> Vec<String> {
    vec!["\\\\.\\DISPLAY1".to_string(), "\\\\.\\DISPLAY3".to_string()]
}

#[test]
fn display_is_matched_by_device_name_ignoring_case() {
    assert_eq!(select_capture_display(&names(), "\\\\.\\display3", 0), Ok((1, CaptureMatch::DeviceName)));
    assert_eq!(select_capture_display(&names(), "\\\\.\\DISPLAY1", 1), Ok((0, CaptureMatch::DeviceName)));
}

#[test]
fn display_falls_back_to_the_index() {
    assert_eq!(select_capture_display(&names(), "", 1), Ok((1, CaptureMatch::IndexFallback)));
    assert_eq!(select_capture_display(&names(), "\\\\.\\DISPLAY9", 0), Ok((0, CaptureMatch::IndexFallback)));
    assert_eq!(select_capture_display(&names(), "\\\\.\\DISPLAY9", 2), Err(CaptureError::NoMatch { total: 2 }));
}

#[test]
fn no_display_at_all() {
    assert_eq!(select_capture_display(&Vec::new(), "x", 0), Err(CaptureError::NoDisplays));
}

#[test]
fn frame_pacing() {
    assert_eq!(frame_interval_nanos(30), 33_333_333);
    assert_eq!(frame_interval_nanos(60), 16_666_666);
    assert_eq!(frame_interval_nanos(1), 1_000_000_000);
}

#[test]
fn default_settings() {
    let c = Config::default();
    assert_eq!(c.monitor_index, 0);
    assert_eq!(c.video_port, 5000);
    assert_eq!(c.touch_port, 5001);
    assert_eq!(c.bitrate, 3000);
    assert_eq!(c.fps, 30);
    assert_eq!(c.client, None);
    assert_eq!(c.encoder, "openh264");
    assert_eq!(c.ffmpeg_path, None);
}

#[test]
fn pacing_sleeps_for_the_rest_of_the_frame() {
    assert_eq!(pacing_sleep_nanos(10_000_000, 33_333_333), 23_333_333);
    assert_eq!(pacing_sleep_nanos(33_333_333, 33_333_333), 0);
    assert_eq!(pacing_sleep_nanos(u128::MAX, 1), 0);
    assert_eq!(pacing_sleep_nanos(0, u64::MAX), u64::MAX);
}
