//! The command line of the ffmpeg child process that encodes HEVC on NVENC.

use vstd::prelude::*;
use vstd::string::StringExecFns;

verus! {

/// The decimal digit character for `d` (0..=9).
pub open spec fn digit_char(d: int) -> char {
    ('0' as int + d) as char
}

/// The decimal representation of `n`, without sign or leading zeros.
pub open spec fn decimal(n: nat) -> Seq<char>
    decreases n,
{
    if n < 10 {
        seq![digit_char(n as int)]
    } else {
        decimal(n / 10).push(digit_char((n % 10) as int))
    }
}

/// `u64`'s `Display` (through `ToString::to_string`): the decimal
/// representation of `n`.
#[verifier::external_body]
fn decimal_string(n: u64) -> (s: String)
    ensures
        s@ == decimal(n as nat),
{
    n.to_string()
}

/// The ffmpeg arguments: raw BGRA frames of `width` x `height` at `fps` on
/// stdin, encoded by `hevc_nvenc` (preset p4, ultra-low-latency tuning, no
/// lookahead, constant bitrate of `bitrate_kbps * 1000` bits per second, a
/// keyframe every `2 * fps` frames, YUV 4:2:0) into raw HEVC Annex-B on
/// stdout.
pub open spec fn ffmpeg_args_spec(width: nat, height: nat, bitrate_kbps: nat, fps: nat) -> Seq<Seq<char>> {
    let bitrate = decimal(bitrate_kbps * 1000);
    seq![
        "-hide_banner"@,
        "-loglevel"@,
        "warning"@,
        "-f"@,
        "rawvideo"@,
        "-pix_fmt"@,
        "bgra"@,
        "-s"@,
        decimal(width) + "x"@ + decimal(height),
        "-r"@,
        decimal(fps),
        "-i"@,
        "pipe:0"@,
        "-c:v"@,
        "hevc_nvenc"@,
        "-preset"@,
        "p4"@,
        "-tune"@,
        "ull"@,
        "-zerolatency"@,
        "1"@,
        "-rc"@,
        "cbr"@,
        "-b:v"@,
        bitrate,
        "-maxrate"@,
        bitrate,
        "-bufsize"@,
        bitrate,
        "-g"@,
        decimal(fps * 2),
        "-pix_fmt"@,
        "yuv420p"@,
        "-f"@,
        "hevc"@,
        "pipe:1"@,
    ]
}

/// Builds the ffmpeg command-line arguments for NVENC HEVC encoding.
pub fn ffmpeg_args(width: usize, height: usize, bitrate_kbps: u32, fps: u32) -> (args: Vec<String>)
    requires
        bitrate_kbps * 1000 <= u32::MAX,
        fps * 2 <= u32::MAX,
    ensures
        args@.map_values(|s: String| s@) == ffmpeg_args_spec(
            width as nat,
            height as nat,
            bitrate_kbps as nat,
            fps as nat,
        ),
{
    let bitrate = decimal_string((bitrate_kbps * 1000) as u64);
    let size = decimal_string(width as u64).concat("x").concat(decimal_string(height as u64).as_str());
    let rate = decimal_string(fps as u64);
    let gop = decimal_string((fps * 2) as u64);
    let mut args: Vec<String> = Vec::new();
    args.push("-hide_banner".to_owned());
    args.push("-loglevel".to_owned());
    args.push("warning".to_owned());
    args.push("-f".to_owned());
    args.push("rawvideo".to_owned());
    args.push("-pix_fmt".to_owned());
    args.push("bgra".to_owned());
    args.push("-s".to_owned());
    args.push(size);
    args.push("-r".to_owned());
    args.push(rate);
    args.push("-i".to_owned());
    args.push("pipe:0".to_owned());
    args.push("-c:v".to_owned());
    args.push("hevc_nvenc".to_owned());
    args.push("-preset".to_owned());
    args.push("p4".to_owned());
    args.push("-tune".to_owned());
    args.push("ull".to_owned());
    args.push("-zerolatency".to_owned());
    args.push("1".to_owned());
    args.push("-rc".to_owned());
    args.push("cbr".to_owned());
    args.push("-b:v".to_owned());
    args.push(bitrate.clone());
    args.push("-maxrate".to_owned());
    args.push(bitrate.clone());
    args.push("-bufsize".to_owned());
    args.push(bitrate);
    args.push("-g".to_owned());
    args.push(gop);
    args.push("-pix_fmt".to_owned());
    args.push("yuv420p".to_owned());
    args.push("-f".to_owned());
    args.push("hevc".to_owned());
    args.push("pipe:1".to_owned());
    assert(args@.map_values(|s: String| s@) =~= ffmpeg_args_spec(
        width as nat,
        height as nat,
        bitrate_kbps as nat,
        fps as nat,
    ));
    args
}

} // verus!
