//! Server settings.

use vstd::prelude::*;

verus! {

/// Server settings, as given on the command line.
#[derive(Debug, Clone)]
pub struct Config {
    /// Monitor index to capture (0 = primary, 1 = second, etc.)
    pub monitor_index: usize,
    /// UDP port for video stream
    pub video_port: u16,
    /// UDP port for touch input
    pub touch_port: u16,
    /// Video bitrate in kbps
    pub bitrate: u32,
    /// Target frames per second
    pub fps: u32,
    /// Target client IP address (e.g. 192.168.1.50). If omitted, sends to broadcast.
    pub client: Option<String>,
    /// Encoder backend: `openh264` (software) or `hevc-nvenc` (ffmpeg child process).
    pub encoder: String,
    /// Absolute path to ffmpeg.exe; only consulted for `hevc-nvenc`.
    pub ffmpeg_path: Option<String>,
}

impl Default for Config {
    /// The settings used when none are given: monitor 0, video on port 5000,
    /// touch on port 5001, 3000 kbps, 30 fps, broadcast, OpenH264.
    fn default() -> (c: Self)
        ensures
            c.monitor_index == 0,
            c.video_port == 5000,
            c.touch_port == 5001,
            c.bitrate == 3000,
            c.fps == 30,
            c.client is None,
            c.encoder@ == "openh264"@,
            c.ffmpeg_path is None,
    {
        Config {
            monitor_index: 0,
            video_port: 5000,
            touch_port: 5001,
            bitrate: 3000,
            fps: 30,
            client: None,
            encoder: "openh264".to_owned(),
            ffmpeg_path: None,
        }
    }
}

} // verus!
