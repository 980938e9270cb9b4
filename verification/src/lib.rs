//! Verified core of a screen-streaming server: packet framing for the UDP
//! video stream, Annex-B NAL splitting, BGRA to YUV420 conversion, touch
//! packet decoding and target-monitor selection.

pub mod annexb;
pub mod capture;
pub mod config;
pub mod encoder;
pub mod ffmpeg;
pub mod h264_session;
pub mod input;
pub mod text;
pub mod transport;
pub mod yuv;
