use openh264::encoder::{Encoder, EncoderConfig, RateControlMode};
use openh264::OpenH264API;
use wifi_display_server::encoder::{
    backend_ffmpeg_path, nals_from_bitstream, BackendError, EncoderKind, FrameKind, H264Encoder,
};

fn openh264_encoder(bitrate_kbps: u32, fps: u32) -> Encoder {
    let config = EncoderConfig::new()
        .max_frame_rate(fps as f32)
        .rate_control_mode(RateControlMode::Bitrate)
        .set_bitrate_bps(bitrate_kbps * 1000)
        .enable_skip_frame(true);
    Encoder::with_api_config(OpenH264API::from_source(), config).unwrap()
}

#[test]
fn encoder_names_parse_in_any_case() {
    for name in ["openh264", "OpenH264", "h264", "H264", "soft", "SOFT"] {
        assert_eq!(EncoderKind::parse(name), Ok(EncoderKind::OpenH264), "{name}");
    }
    for name in ["hevc-nvenc", "HEVC-NVENC", "nvenc", "NvEnc", "hevc", "Hevc"] {
        assert_eq!(EncoderKind::parse(name), Ok(EncoderKind::HevcNvenc), "{name}");
    }
}

#[test]
fn unknown_encoder_name_is_refused() {
    assert_eq!(
        EncoderKind::parse("x265"),
        Err("unknown encoder 'x265' (expected 'openh264' or 'hevc-nvenc')".to_string())
    );
    assert_eq!(
        EncoderKind::parse("VP9"),
        Err("unknown encoder 'vp9' (expected 'openh264' or 'hevc-nvenc')".to_string())
    );
    assert!(EncoderKind::parse("").is_err());
    assert!(EncoderKind::parse(" hevc").is_err());
}

#[test]
fn encoder_kind_from_str() {
    assert_eq!("HEVC".parse::<EncoderKind>(), Ok(EncoderKind::HevcNvenc));
    assert_eq!("soft".parse::<EncoderKind>(), Ok(EncoderKind::OpenH264));
    assert!("av1".parse::<EncoderKind>().is_err());
}

#[test]
fn bitstream_becomes_at_most_one_nal() {
    assert!(nals_from_bitstream(Vec::new(), true).is_empty());
    let nals = nals_from_bitstream(vec![0, 0, 0, 1, 0x67], true);
    assert_eq!(nals.len(), 1);
    assert_eq!(nals[0].data, vec![0, 0, 0, 1, 0x67]);
    assert!(nals[0].is_keyframe);
    let nals = nals_from_bitstream(vec![1], false);
    assert!(!nals[0].is_keyframe);
}

#[test]
fn convert_frame_gives_the_yuv_frame_and_a_fresh_buffer() {
    let mut enc = H264Encoder::new(openh264_encoder(3000, 30), 2, 2, 30);
    let white = [255u8; 16];
    assert_eq!(enc.convert_frame(&white), vec![255, 255, 255, 255, 128, 128]);
    let red = [0, 0, 255, 255].repeat(4);
    assert_eq!(enc.convert_frame(&red), vec![76, 76, 76, 76, 85, 255]);
}

#[test]
fn keyframe_every_two_seconds_of_frames() {
    let mut enc = H264Encoder::new(openh264_encoder(500, 1), 16, 16, 1);
    let frame = vec![128u8; 16 * 16 * 4];
    let mut due = Vec::new();
    for _ in 0..5 {
        due.push(enc.keyframe_due());
        let nals = enc.encode(&frame, 16, 16).unwrap();
        assert!(nals.len() <= 1);
        for n in &nals {
            assert!(!n.data.is_empty());
        }
    }
    assert_eq!(due, vec![true, false, true, false, true]);
}

#[test]
fn first_encoded_frame_is_a_keyframe() {
    let mut enc = H264Encoder::new(openh264_encoder(3000, 30), 32, 32, 30);
    let frame: Vec<u8> = (0..32 * 32 * 4).map(|i| (i % 251) as u8).collect();
    let nals = enc.encode(&frame, 32, 32).unwrap();
    assert_eq!(nals.len(), 1);
    assert!(nals[0].is_keyframe);
    assert!(nals[0].data.starts_with(&[0, 0, 0, 1]));
}

#[test]
fn oversized_frames_are_refused_by_the_encoder() {
    let mut enc = H264Encoder::new(openh264_encoder(3000, 30), 3842, 2, 30);
    let frame = vec![0u8; 3842 * 2 * 4];
    match enc.encode(&frame, 3842, 2) {
        Err(wifi_display_server::encoder::EncodeError::EncodeFailed(msg)) => {
            assert!(msg.contains("3840"), "{msg}");
        }
        Ok(_) => panic!("an oversized frame was encoded"),
    }
    assert_eq!(enc.frame_count(), 0);
    assert_eq!(enc.keyframe_interval(), 60);
    assert_eq!((enc.width(), enc.height()), (3842, 2));
}

#[test]
fn finishing_an_encode_flags_idr_and_i_frames_as_keyframes() {
    let mut enc = H264Encoder::new(openh264_encoder(3000, 30), 2, 2, 30);
    let cases = [
        (FrameKind::Idr, true),
        (FrameKind::I, true),
        (FrameKind::P, false),
        (FrameKind::Skip, false),
        (FrameKind::IPMixed, false),
        (FrameKind::Invalid, false),
    ];
    for (n, (kind, key)) in cases.into_iter().enumerate() {
        let nals = enc.finish_encode(vec![0, 0, 0, 1, 0x65, n as u8], kind);
        assert_eq!(nals.len(), 1);
        assert_eq!(nals[0].data, vec![0, 0, 0, 1, 0x65, n as u8]);
        assert_eq!(nals[0].is_keyframe, key, "{kind:?}");
        assert_eq!(enc.frame_count(), n as u64 + 1);
    }
    assert!(enc.finish_encode(Vec::new(), FrameKind::Idr).is_empty());
    assert_eq!(enc.frame_count(), 7);
}

#[test]
fn backend_needs_an_ffmpeg_path_only_for_hevc() {
    assert_eq!(backend_ffmpeg_path(EncoderKind::OpenH264, None), Ok(None));
    assert_eq!(backend_ffmpeg_path(EncoderKind::OpenH264, Some("ffmpeg.exe")), Ok(None));
    assert_eq!(
        backend_ffmpeg_path(EncoderKind::HevcNvenc, Some("C:\\ffmpeg\\ffmpeg.exe")),
        Ok(Some("C:\\ffmpeg\\ffmpeg.exe"))
    );
    assert_eq!(
        backend_ffmpeg_path(EncoderKind::HevcNvenc, None),
        Err(BackendError::MissingFfmpegPath)
    );
}
