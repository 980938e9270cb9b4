use wifi_display_server::ffmpeg::ffmpeg_args;

#[test]
fn ffmpeg_arguments() {
    let args = ffmpeg_args(1920, 1080, 3000, 30);
    let expected = [
        "-hide_banner", "-loglevel", "warning", "-f", "rawvideo", "-pix_fmt", "bgra", "-s",
        "1920x1080", "-r", "30", "-i", "pipe:0", "-c:v", "hevc_nvenc", "-preset", "p4", "-tune",
        "ull", "-zerolatency", "1", "-rc", "cbr", "-b:v", "3000000", "-maxrate", "3000000",
        "-bufsize", "3000000", "-g", "60", "-pix_fmt", "yuv420p", "-f", "hevc", "pipe:1",
    ];
    assert_eq!(args, expected.iter().map(|s| s.to_string()).collect::<Vec<_>>());
}

#[test]
fn ffmpeg_arguments_with_zeros() {
    let args = ffmpeg_args(0, 7, 0, 0);
    assert_eq!(args[8], "0x7");
    assert_eq!(args[10], "0");
    assert_eq!(args[24], "0");
    assert_eq!(args[30], "0");
}
