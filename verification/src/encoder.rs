//! Encoded NAL units, encoder selection and the OpenH264 software encoder.

use crate::text::{ascii_lower, str_equals, to_ascii_lowercase};
use crate::yuv::{block_converted, bgra_needed, bgra_to_yuv420_fast, is_block, touches};
use crate::h264_session::EncoderSession;
use openh264::encoder::Encoder;
use openh264::formats::YUVBuffer;
use vstd::prelude::*;
use vstd::string::StringExecFns;

verus! {

/// Encoded NAL unit ready for transport. Codec-agnostic: the transport layer
/// fragments it and the receiver reassembles it whatever the codec.
pub struct EncodedNal {
    pub data: Vec<u8>,
    pub is_keyframe: bool,
}

} // verus!

verus! {

/// Selects which encoder backend to use. `OpenH264` is the software path;
/// `HevcNvenc` routes BGRA frames through an ffmpeg child process for
/// GPU-offloaded HEVC encode.
#[derive(Debug, Clone, Copy, PartialEq, Eq, Structural)]
pub enum EncoderKind {
    OpenH264,
    HevcNvenc,
}

/// The encoder kind that a name selects, ignoring ASCII case.
pub open spec fn encoder_kind_spec(name: Seq<char>) -> Option<EncoderKind> {
    let l = ascii_lower(name);
    if l == "openh264"@ || l == "h264"@ || l == "soft"@ {
        Some(EncoderKind::OpenH264)
    } else if l == "hevc-nvenc"@ || l == "nvenc"@ || l == "hevc"@ {
        Some(EncoderKind::HevcNvenc)
    } else {
        None
    }
}

/// The message for a name that selects no encoder kind.
pub open spec fn unknown_encoder_message(name: Seq<char>) -> Seq<char> {
    "unknown encoder '"@ + ascii_lower(name) + "' (expected 'openh264' or 'hevc-nvenc')"@
}

impl EncoderKind {
    /// Parses an encoder name: `openh264`, `h264` or `soft`, or `hevc-nvenc`,
    /// `nvenc` or `hevc`, in any ASCII case.
    pub fn parse(s: &str) -> (res: Result<EncoderKind, String>)
        ensures
            match res {
                Ok(kind) => encoder_kind_spec(s@) == Some(kind),
                Err(msg) => encoder_kind_spec(s@) is None && msg@ == unknown_encoder_message(s@),
            },
    {
        let lower = to_ascii_lowercase(s);
        let l = lower.as_str();
        if str_equals(l, "openh264") || str_equals(l, "h264") || str_equals(l, "soft") {
            Ok(EncoderKind::OpenH264)
        } else if str_equals(l, "hevc-nvenc") || str_equals(l, "nvenc") || str_equals(l, "hevc") {
            Ok(EncoderKind::HevcNvenc)
        } else {
            Err(
                "unknown encoder '".to_owned().concat(lower.as_str()).concat(
                    "' (expected 'openh264' or 'hevc-nvenc')",
                ),
            )
        }
    }
}

impl std::str::FromStr for EncoderKind {
    type Err = String;

    /// Parses an encoder name as `EncoderKind::parse` does.
    fn from_str(s: &str) -> (res: Result<Self, Self::Err>)
        ensures
            match res {
                Ok(kind) => encoder_kind_spec(s@) == Some(kind),
                Err(msg) => encoder_kind_spec(s@) is None && msg@ == unknown_encoder_message(s@),
            },
    {
        EncoderKind::parse(s)
    }
}

} // verus!

verus! {

#[verifier::external_type_specification]
#[verifier::external_body]
pub struct ExEncoder(openh264::encoder::Encoder);

#[verifier::external_type_specification]
#[verifier::external_body]
pub struct ExYUVBuffer(openh264::formats::YUVBuffer);


/// `YUVBuffer::from_vec`: wraps a planar YUV 4:2:0 frame. The crate asserts
/// even dimensions and a buffer of exactly `3 * (width * height) / 2` bytes;
/// the buffer is opaque to the proofs afterwards.
#[verifier::external_body]
pub(crate) fn yuv_buffer_from_vec(yuv: Vec<u8>, width: usize, height: usize) -> YUVBuffer
    requires
        width % 2 == 0,
        height % 2 == 0,
        3 * (width * height) <= usize::MAX,
        yuv.len() == (3 * (width * height)) / 2,
{
    YUVBuffer::from_vec(yuv, width, height)
}

/// `Encoder::force_intra_frame`: asks for an intra frame (keyframe) next.
/// Nothing is claimed about the encoder's state, which is opaque.
#[verifier::external_body]
pub(crate) fn force_intra_frame(encoder: &mut Encoder) {
    encoder.force_intra_frame();
}

/// The frame type that OpenH264 reports for an encoded frame: one variant
/// for each variant of `openh264::encoder::FrameType`.
#[derive(Debug, Clone, Copy, PartialEq, Eq, Structural)]
pub enum FrameKind {
    /// Encoder not ready or parameters invalid.
    Invalid,
    /// IDR frame.
    Idr,
    /// I frame.
    I,
    /// P frame.
    P,
    /// Skipped frame.
    Skip,
    /// Mixed I and P slices.
    IPMixed,
}

/// Whether a frame of this kind is a keyframe: an IDR or an I frame.
pub open spec fn is_keyframe_kind(kind: FrameKind) -> bool {
    kind == FrameKind::Idr || kind == FrameKind::I
}

/// `Encoder::encode` on a YUV frame, with the bitstream converted to its
/// bytes (`EncodedBitStream::to_vec`), its frame type
/// (`EncodedBitStream::frame_type`) converted variant for variant, and an
/// error converted to its message (`Display` of `openh264::Error`). What the
/// encoder produces depends on its internal state and is not stated.
#[verifier::external_body]
pub(crate) fn encode_frame(encoder: &mut Encoder, yuv: &YUVBuffer) -> Result<(Vec<u8>, FrameKind), String> {
    match encoder.encode(yuv) {
        Ok(bitstream) => {
            let kind = match bitstream.frame_type() {
                openh264::encoder::FrameType::Invalid => FrameKind::Invalid,
                openh264::encoder::FrameType::IDR => FrameKind::Idr,
                openh264::encoder::FrameType::I => FrameKind::I,
                openh264::encoder::FrameType::P => FrameKind::P,
                openh264::encoder::FrameType::Skip => FrameKind::Skip,
                openh264::encoder::FrameType::IPMixed => FrameKind::IPMixed,
            };
            Ok((bitstream.to_vec(), kind))
        },
        Err(e) => Err(e.to_string()),
    }
}

/// Why encoding a frame failed.
#[derive(Debug)]
pub enum EncodeError {
    /// The H.264 encoder reported an error, with its message.
    EncodeFailed(String),
}

/// The NAL units (bytes and keyframe flag) of one encoded frame: none for an
/// empty bitstream, else the whole bitstream as one unit.
pub open spec fn bitstream_nals(data: Seq<u8>, is_keyframe: bool) -> Seq<(Seq<u8>, bool)> {
    if data.len() == 0 {
        Seq::empty()
    } else {
        seq![(data, is_keyframe)]
    }
}

/// The NAL units of one encoded frame: none for an empty bitstream, else the
/// whole bitstream as one unit.
pub fn nals_from_bitstream(data: Vec<u8>, is_keyframe: bool) -> (nals: Vec<EncodedNal>)
    ensures
        nals@.map_values(|n: EncodedNal| crate::annexb::nal_view(n)) == bitstream_nals(
            data@,
            is_keyframe,
        ),
{
    if data.len() == 0 {
        return Vec::new();
    }
    let ghost bytes = data@;
    let mut nals = Vec::new();
    nals.push(EncodedNal { data, is_keyframe });
    assert(nals@.map_values(|n: EncodedNal| crate::annexb::nal_view(n)) =~= bitstream_nals(
        bytes,
        is_keyframe,
    ));
    nals
}

/// Size of the YUV 4:2:0 buffer of a `width` x `height` frame.
pub open spec fn yuv_len(width: int, height: int) -> int {
    width * height + 2 * ((width * height) / 4)
}

/// The zeroed conversion buffer for frames of one size.
struct YuvScratch {
    data: Vec<u8>,
    width: usize,
    height: usize,
}

impl YuvScratch {
    /// The buffer has the frame's YUV size and is all zero.
    #[verifier::type_invariant]
    spec fn zeroed(&self) -> bool {
        &&& self.width * self.height <= usize::MAX
        &&& yuv_len(self.width as int, self.height as int) <= usize::MAX
        &&& self.data@.len() == yuv_len(self.width as int, self.height as int)
        &&& forall|i: int| 0 <= i < self.data@.len() ==> self.data@[i] == 0
    }

    spec fn spec_width(&self) -> usize {
        self.width
    }

    spec fn spec_height(&self) -> usize {
        self.height
    }

    fn new(width: usize, height: usize) -> (s: Self)
        requires
            width * height <= usize::MAX,
            yuv_len(width as int, height as int) <= usize::MAX,
        ensures
            s.spec_width() == width,
            s.spec_height() == height,
    {
        let y_size = width * height;
        let uv_size = y_size / 4;
        let data = vec![0u8; y_size + uv_size * 2];
        YuvScratch { data, width, height }
    }

    fn width(&self) -> (w: usize)
        ensures
            w == self.spec_width(),
    {
        self.width
    }

    fn height(&self) -> (h: usize)
        ensures
            h == self.spec_height(),
    {
        self.height
    }

    /// Converts a BGRA frame into the buffer, and hands the buffer out in
    /// exchange for a fresh zeroed one.
    fn convert(&mut self, bgra: &[u8]) -> (frame: Vec<u8>)
        requires
            bgra.len() >= bgra_needed(old(self).spec_width() as int, old(self).spec_height() as int),
        ensures
            final(self).spec_width() == old(self).spec_width(),
            final(self).spec_height() == old(self).spec_height(),
            converted_frame(frame@, bgra@, old(self).spec_width() as int, old(self).spec_height() as int),
    {
        proof {
            use_type_invariant(&*self);
        }
        let width = self.width;
        let height = self.height;
        proof {
            assert((width * height) / 4 >= (height / 2) * (width / 2)) by (nonlinear_arith)
                requires
                    0 <= width,
                    0 <= height,
            {
                assert(2 * (width / 2) <= width);
                assert(2 * (height / 2) <= height);
                assert((2 * (width / 2)) * (2 * (height / 2)) <= width * height);
            }
        }
        let yuv_len = self.data.len();
        let mut frame = vec![0u8; yuv_len];
        std::mem::swap(&mut frame, &mut self.data);
        bgra_to_yuv420_fast(bgra, frame.as_mut_slice(), width, height);
        frame
    }
}

/// `frame` is the YUV 4:2:0 frame of a `width` x `height` BGRA image: the
/// conversion of every full 2x2 block, and zero in every other byte.
pub open spec fn converted_frame(frame: Seq<u8>, bgra: Seq<u8>, width: int, height: int) -> bool {
    &&& frame.len() == yuv_len(width, height)
    &&& forall|rp: int, cp: int|
        is_block(width, height, rp, cp) ==> #[trigger] block_converted(frame, bgra, width, height, rp, cp)
    &&& forall|i: int|
        0 <= i < frame.len() && !(exists|rp: int, cp: int|
            is_block(width, height, rp, cp) && #[trigger] touches(width, height, rp, cp, i))
            ==> frame[i] == 0
}

/// Whether a keyframe is requested with the frame that follows `frame_count`
/// earlier ones, when one is requested every `interval` frames.
pub open spec fn keyframe_due_spec(frame_count: nat, interval: nat) -> bool {
    frame_count % interval == 0
}

/// Keyframe cadence: with an encoder made for `fps` frames per second (a
/// keyframe interval of `2 * fps`), the first frame requests a keyframe, and
/// from any frame that does, the next request comes exactly `2 * fps` frames
/// later, with none in between.
pub proof fn lemma_keyframe_cadence(fps: nat, k: nat)
    requires
        fps > 0,
        keyframe_due_spec(k, 2 * fps),
    ensures
        keyframe_due_spec(0, 2 * fps),
        keyframe_due_spec(k + 2 * fps, 2 * fps),
        forall|j: nat| k < j < k + 2 * fps ==> !#[trigger] keyframe_due_spec(j, 2 * fps),
{
    let n = 2 * fps;
    vstd::arithmetic::div_mod::lemma_mod_add_multiples_vanish(k as int, n as int);
    assert forall|j: nat| k < j < k + n implies !#[trigger] keyframe_due_spec(j, n) by {
        vstd::arithmetic::div_mod::lemma_fundamental_div_mod(k as int, n as int);
        vstd::arithmetic::div_mod::lemma_fundamental_div_mod(j as int, n as int);
        let q = (k as int) / (n as int);
        if j % n == 0 {
            let r = (j as int) / (n as int);
            assert(k == n * q);
            assert(j == n * r);
            assert(n * q < n * r < n * q + n);
            assert(n * q < n * r < n * (q + 1)) by (nonlinear_arith)
                requires
                    n * q < n * r < n * q + n,
            ;
            assert(q < r < q + 1) by (nonlinear_arith)
                requires
                    n * q < n * r < n * (q + 1),
                    n > 0,
            ;
        }
    }
}

/// OpenH264 software encoder, fed BGRA frames.
pub struct H264Encoder {
    session: EncoderSession,
    yuv: YuvScratch,
    frame_count: u64,
    keyframe_interval: u64,
    /// The bitstream and frame type last turned into NAL units, written in
    /// `finish_encode`.
    last_output: Ghost<(Seq<u8>, FrameKind)>,
}

impl H264Encoder {
    /// The frame width the encoder was made for.
    pub closed spec fn spec_width(&self) -> usize {
        self.yuv.spec_width()
    }

    /// The frame height the encoder was made for.
    pub closed spec fn spec_height(&self) -> usize {
        self.yuv.spec_height()
    }

    /// Number of frames encoded so far.
    pub closed spec fn spec_frame_count(&self) -> u64 {
        self.frame_count
    }

    /// A keyframe is requested every this many frames.
    pub closed spec fn spec_keyframe_interval(&self) -> u64 {
        self.keyframe_interval
    }

    /// The last YUV frame handed to OpenH264, as its session records it.
    pub closed spec fn spec_frame_sent(&self) -> Seq<u8> {
        self.session.spec_frame_sent()
    }

    /// The (width, height) the last frame handed to OpenH264 was wrapped
    /// with, as its session records it.
    pub closed spec fn spec_frame_size_sent(&self) -> (usize, usize) {
        self.session.spec_size_sent()
    }

    /// Whether OpenH264 was asked for a keyframe (intra frame) with the last
    /// frame, as its session records it.
    pub closed spec fn spec_intra_requested(&self) -> bool {
        self.session.spec_intra_sent()
    }

    /// The bitstream and frame type OpenH264 last returned, as its session
    /// records it.
    pub closed spec fn spec_output_received(&self) -> (Seq<u8>, FrameKind) {
        self.session.spec_output()
    }

    /// The bitstream and frame type last turned into NAL units.
    pub closed spec fn spec_last_output(&self) -> (Seq<u8>, FrameKind) {
        self.last_output@
    }

    /// Makes an encoder for `width` x `height` frames at `fps` frames per
    /// second around an OpenH264 encoder, requesting a keyframe every two
    /// seconds (every `2 * fps` frames).
    pub fn new(encoder: Encoder, width: usize, height: usize, fps: u32) -> (enc: Self)
        requires
            width * height <= usize::MAX,
            yuv_len(width as int, height as int) <= usize::MAX,
            fps * 2 <= u32::MAX,
        ensures
            enc.spec_width() == width,
            enc.spec_height() == height,
            enc.spec_frame_count() == 0,
            enc.spec_keyframe_interval() == 2 * fps,
    {
        H264Encoder {
            session: EncoderSession::new(encoder),
            yuv: YuvScratch::new(width, height),
            frame_count: 0,
            keyframe_interval: (fps * 2) as u64,
            last_output: Ghost((Seq::empty(), FrameKind::Invalid)),
        }
    }

    /// The frame width the encoder was made for.
    pub fn width(&self) -> (w: usize)
        ensures
            w == self.spec_width(),
    {
        self.yuv.width()
    }

    /// The frame height the encoder was made for.
    pub fn height(&self) -> (h: usize)
        ensures
            h == self.spec_height(),
    {
        self.yuv.height()
    }

    /// Number of frames encoded so far.
    pub fn frame_count(&self) -> (n: u64)
        ensures
            n == self.spec_frame_count(),
    {
        self.frame_count
    }

    /// A keyframe is requested every this many frames.
    pub fn keyframe_interval(&self) -> (n: u64)
        ensures
            n == self.spec_keyframe_interval(),
    {
        self.keyframe_interval
    }

    /// Whether the next frame is one on which a keyframe is requested.
    pub fn keyframe_due(&self) -> (due: bool)
        requires
            self.spec_keyframe_interval() > 0,
        ensures
            due == keyframe_due_spec(self.spec_frame_count() as nat, self.spec_keyframe_interval() as nat),
    {
        self.frame_count % self.keyframe_interval == 0
    }

    /// Converts a BGRA frame into the YUV 4:2:0 frame handed to the encoder.
    pub fn convert_frame(&mut self, bgra: &[u8]) -> (frame: Vec<u8>)
        requires
            bgra.len() >= bgra_needed(old(self).spec_width() as int, old(self).spec_height() as int),
        ensures
            final(self).spec_width() == old(self).spec_width(),
            final(self).spec_height() == old(self).spec_height(),
            final(self).spec_frame_count() == old(self).spec_frame_count(),
            final(self).spec_keyframe_interval() == old(self).spec_keyframe_interval(),
            final(self).spec_frame_sent() == old(self).spec_frame_sent(),
            final(self).spec_frame_size_sent() == old(self).spec_frame_size_sent(),
            final(self).spec_intra_requested() == old(self).spec_intra_requested(),
            final(self).spec_output_received() == old(self).spec_output_received(),
            final(self).spec_last_output() == old(self).spec_last_output(),
            converted_frame(frame@, bgra@, old(self).spec_width() as int, old(self).spec_height() as int),
    {
        self.yuv.convert(bgra)
    }

    /// Takes what the OpenH264 encoder returned for a frame, counts the frame,
    /// and makes its NAL units: none for an empty bitstream, else one unit
    /// holding the bitstream, flagged as a keyframe for an IDR or I frame.
    pub fn finish_encode(&mut self, data: Vec<u8>, kind: FrameKind) -> (nals: Vec<EncodedNal>)
        requires
            old(self).spec_frame_count() < u64::MAX,
        ensures
            final(self).spec_frame_count() == old(self).spec_frame_count() + 1,
            final(self).spec_width() == old(self).spec_width(),
            final(self).spec_height() == old(self).spec_height(),
            final(self).spec_keyframe_interval() == old(self).spec_keyframe_interval(),
            final(self).spec_frame_sent() == old(self).spec_frame_sent(),
            final(self).spec_frame_size_sent() == old(self).spec_frame_size_sent(),
            final(self).spec_intra_requested() == old(self).spec_intra_requested(),
            final(self).spec_output_received() == old(self).spec_output_received(),
            final(self).spec_last_output() == (data@, kind),
            nals@.map_values(|n: EncodedNal| crate::annexb::nal_view(n)) == bitstream_nals(
                data@,
                is_keyframe_kind(kind),
            ),
    {
        self.frame_count = self.frame_count + 1;
        self.last_output = Ghost((data@, kind));
        let is_keyframe = match kind {
            FrameKind::Idr | FrameKind::I => true,
            _ => false,
        };
        nals_from_bitstream(data, is_keyframe)
    }

    /// Encode a BGRA frame into H.264 NAL units: none when the encoder emits
    /// nothing (skipped frame), else one unit holding the frame's bitstream,
    /// flagged as a keyframe when the encoder reports an IDR or I frame. The
    /// frame handed to the encoder is the YUV 4:2:0 conversion of `bgra`, and
    /// a keyframe is requested with it exactly when the number of frames
    /// encoded so far is a multiple of the keyframe interval.
    pub fn encode(&mut self, bgra: &[u8], width: usize, height: usize) -> (res: Result<
        Vec<EncodedNal>,
        EncodeError,
    >)
        requires
            width == old(self).spec_width(),
            height == old(self).spec_height(),
            width * height * 4 <= usize::MAX,
            bgra.len() == width * height * 4,
            width % 2 == 0,
            height % 2 == 0,
            old(self).spec_keyframe_interval() > 0,
            old(self).spec_frame_count() < u64::MAX,
        ensures
            final(self).spec_width() == old(self).spec_width(),
            final(self).spec_height() == old(self).spec_height(),
            final(self).spec_keyframe_interval() == old(self).spec_keyframe_interval(),
            converted_frame(final(self).spec_frame_sent(), bgra@, width as int, height as int),
            final(self).spec_frame_size_sent() == (width, height),
            final(self).spec_intra_requested() == keyframe_due_spec(
                old(self).spec_frame_count() as nat,
                old(self).spec_keyframe_interval() as nat,
            ),
            match res {
                Ok(nals) => final(self).spec_frame_count() == old(self).spec_frame_count() + 1
                    && final(self).spec_last_output() == final(self).spec_output_received()
                    && nals@.map_values(|n: EncodedNal| crate::annexb::nal_view(n)) == bitstream_nals(
                    final(self).spec_last_output().0,
                    is_keyframe_kind(final(self).spec_last_output().1),
                ),
                Err(_) => final(self).spec_frame_count() == old(self).spec_frame_count(),
            },
    {
        proof {
            lemma_even_frame_sizes(width as int, height as int);
        }
        let frame = self.convert_frame(bgra);
        let due = self.keyframe_due();
        match self.session.encode_frame(frame, width, height, due) {
            Ok((data, kind)) => Ok(self.finish_encode(data, kind)),
            Err(msg) => Err(EncodeError::EncodeFailed(msg)),
        }
    }
}

/// For even dimensions the YUV buffer is 3/2 of the Y plane, and the BGRA
/// frame covers what the conversion reads.
#[verifier::spinoff_prover]
#[verifier::rlimit(30)]
proof fn lemma_even_frame_sizes(width: int, height: int)
    requires
        width >= 0,
        height >= 0,
        width % 2 == 0,
        height % 2 == 0,
        width * height * 4 <= usize::MAX,
    ensures
        yuv_len(width, height) == (3 * (width * height)) / 2,
        3 * (width * height) <= usize::MAX,
        bgra_needed(width, height) <= width * height * 4,
{
    let a = width / 2;
    let b = height / 2;
    assert(width * height == 4 * (a * b)) by (nonlinear_arith)
        requires
            width == 2 * a,
            height == 2 * b,
    ;
    if a > 0 && b > 0 {
        assert(((2 * b - 1) * width + 2 * a - 1) * 4 + 3 <= width * height * 4) by (nonlinear_arith)
            requires
                width == 2 * a,
                height == 2 * b,
                a > 0,
                b > 0,
        ;
    }
}

} // verus!

verus! {

/// Encoder names are case-insensitive: a name selects what its lower-case
/// form selects.
pub proof fn lemma_encoder_kind_ignores_case(name: Seq<char>)
    ensures
        encoder_kind_spec(name) == encoder_kind_spec(ascii_lower(name)),
{
    crate::text::lemma_ascii_lower_idempotent(name);
}

} // verus!

verus! {

/// Number of successful calls in a run of outcomes.
pub open spec fn successes(outcomes: Seq<bool>) -> nat
    decreases outcomes.len(),
{
    if outcomes.len() == 0 {
        0
    } else {
        successes(outcomes.drop_last()) + if outcomes.last() {
            1nat
        } else {
            0nat
        }
    }
}

/// One `encode` call, as its contract describes it: the frame count goes up
/// by one when the call succeeded and stays when it failed, the interval
/// stays, and a keyframe is requested exactly when it is due.
pub open spec fn encode_step(before: H264Encoder, after: H264Encoder, succeeded: bool) -> bool {
    &&& after.spec_frame_count() == before.spec_frame_count() + if succeeded {
        1int
    } else {
        0int
    }
    &&& after.spec_keyframe_interval() == before.spec_keyframe_interval()
    &&& after.spec_intra_requested() == keyframe_due_spec(
        before.spec_frame_count() as nat,
        before.spec_keyframe_interval() as nat,
    )
}

/// Keyframe cadence over a run of encodes: starting from a fresh encoder made
/// for `fps` frames per second, the `i`-th call (counting from one) asks for
/// a keyframe exactly when the number of earlier calls that succeeded is a
/// multiple of `2 * fps`, so the first frame always does; after it the frame
/// count is the number of calls so far that succeeded.
pub proof fn lemma_keyframe_sequence(states: Seq<H264Encoder>, outcomes: Seq<bool>, fps: nat)
    requires
        fps > 0,
        states.len() == outcomes.len() + 1,
        states[0].spec_frame_count() == 0,
        states[0].spec_keyframe_interval() == 2 * fps,
        forall|i: int|
            0 <= i < outcomes.len() ==> encode_step(#[trigger] states[i], states[i + 1], outcomes[i]),
    ensures
        forall|i: int|
            1 <= i < states.len() ==> (#[trigger] states[i]).spec_intra_requested() == (successes(
                outcomes.take(i - 1),
            ) % (2 * fps) == 0) && states[i].spec_frame_count() == successes(outcomes.take(i)),
{
    assert forall|i: int| 0 <= i < states.len() implies (#[trigger] states[i]).spec_frame_count()
        == successes(outcomes.take(i)) && states[i].spec_keyframe_interval() == 2 * fps by {
        lemma_keyframe_sequence_counts(states, outcomes, fps, i);
    }
    assert forall|i: int| 1 <= i < states.len() implies (#[trigger] states[i]).spec_intra_requested()
        == (successes(outcomes.take(i - 1)) % (2 * fps) == 0) && states[i].spec_frame_count()
        == successes(outcomes.take(i)) by {
        assert(encode_step(states[i - 1], states[i], outcomes[i - 1]));
        assert(states[i - 1].spec_frame_count() == successes(outcomes.take(i - 1)));
        assert(states[i - 1].spec_keyframe_interval() == 2 * fps);
    }
}

proof fn lemma_keyframe_sequence_counts(
    states: Seq<H264Encoder>,
    outcomes: Seq<bool>,
    fps: nat,
    i: int,
)
    requires
        0 <= i < states.len(),
        states.len() == outcomes.len() + 1,
        states[0].spec_frame_count() == 0,
        states[0].spec_keyframe_interval() == 2 * fps,
        forall|j: int|
            0 <= j < outcomes.len() ==> encode_step(#[trigger] states[j], states[j + 1], outcomes[j]),
    ensures
        states[i].spec_frame_count() == successes(outcomes.take(i)),
        states[i].spec_keyframe_interval() == 2 * fps,
    decreases i,
{
    if i == 0 {
        assert(outcomes.take(0).len() == 0);
    } else {
        lemma_keyframe_sequence_counts(states, outcomes, fps, i - 1);
        assert(encode_step(states[i - 1], states[i], outcomes[i - 1]));
        assert(outcomes.take(i).drop_last() =~= outcomes.take(i - 1));
        assert(outcomes.take(i).last() == outcomes[i - 1]);
    }
}

} // verus!

verus! {

/// Why an encoder backend cannot be set up.
#[derive(Debug, Clone, Copy, PartialEq, Eq, Structural)]
pub enum BackendError {
    /// `hevc-nvenc` was chosen without a path to ffmpeg.
    MissingFfmpegPath,
}

/// The ffmpeg path that the chosen backend needs: none for OpenH264, the
/// given path for HEVC on NVENC, which cannot do without one.
pub fn backend_ffmpeg_path<'a>(kind: EncoderKind, ffmpeg_path: Option<&'a str>) -> (res: Result<
    Option<&'a str>,
    BackendError,
>)
    ensures
        kind == EncoderKind::OpenH264 ==> res == Ok::<Option<&'a str>, BackendError>(None),
        kind == EncoderKind::HevcNvenc ==> match ffmpeg_path {
            Some(p) => res == Ok::<Option<&'a str>, BackendError>(Some(p)),
            None => res == Err::<Option<&'a str>, BackendError>(BackendError::MissingFfmpegPath),
        },
{
    match kind {
        EncoderKind::OpenH264 => Ok(None),
        EncoderKind::HevcNvenc => match ffmpeg_path {
            Some(p) => Ok(Some(p)),
            None => Err(BackendError::MissingFfmpegPath),
        },
    }
}

} // verus!
