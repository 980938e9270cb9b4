//! The one place that talks to an OpenH264 encoder. It owns the encoder and
//! keeps a record of what it handed over on the last call: the frame bytes,
//! the picture size, and whether an intra frame was asked for with it. The
//! record is written here, next to each call, and nowhere else, so what the
//! rest of the library states about the frames sent rests on these calls.

use crate::encoder::{encode_frame, force_intra_frame, yuv_buffer_from_vec, FrameKind};
use openh264::encoder::Encoder;
use vstd::prelude::*;

verus! {

/// An OpenH264 encoder with the record of what it was last given.
pub struct EncoderSession {
    encoder: Encoder,
    frame_sent: Ghost<Seq<u8>>,
    size_sent: Ghost<(usize, usize)>,
    intra_sent: Ghost<bool>,
    output: Ghost<(Seq<u8>, FrameKind)>,
}

impl EncoderSession {
    /// The planar YUV 4:2:0 bytes wrapped and handed to OpenH264 last.
    pub closed spec fn spec_frame_sent(&self) -> Seq<u8> {
        self.frame_sent@
    }

    /// The (width, height) the last frame was wrapped with.
    pub closed spec fn spec_size_sent(&self) -> (usize, usize) {
        self.size_sent@
    }

    /// Whether OpenH264 was asked for an intra frame right before the last
    /// frame.
    pub closed spec fn spec_intra_sent(&self) -> bool {
        self.intra_sent@
    }

    /// The bitstream and frame type OpenH264 last returned.
    pub closed spec fn spec_output(&self) -> (Seq<u8>, FrameKind) {
        self.output@
    }

    /// Takes ownership of an OpenH264 encoder that has not been given a
    /// frame yet.
    pub fn new(encoder: Encoder) -> (s: Self)
        ensures
            s.spec_frame_sent() == Seq::<u8>::empty(),
            s.spec_size_sent() == (0usize, 0usize),
            !s.spec_intra_sent(),
            s.spec_output() == (Seq::<u8>::empty(), FrameKind::Invalid),
    {
        EncoderSession {
            encoder,
            frame_sent: Ghost(Seq::empty()),
            size_sent: Ghost((0, 0)),
            intra_sent: Ghost(false),
            output: Ghost((Seq::empty(), FrameKind::Invalid)),
        }
    }

    /// Hands one planar YUV 4:2:0 frame of `width` x `height` to OpenH264,
    /// first asking for an intra frame (keyframe) when `intra` is set, and
    /// returns the bitstream and frame type it produced, or its error message.
    pub fn encode_frame(&mut self, frame: Vec<u8>, width: usize, height: usize, intra: bool) -> (res:
        Result<(Vec<u8>, FrameKind), String>)
        requires
            width % 2 == 0,
            height % 2 == 0,
            3 * (width * height) <= usize::MAX,
            frame.len() == (3 * (width * height)) / 2,
        ensures
            final(self).spec_frame_sent() == frame@,
            final(self).spec_size_sent() == (width, height),
            final(self).spec_intra_sent() == intra,
            match res {
                Ok((data, kind)) => final(self).spec_output() == (data@, kind),
                Err(_) => final(self).spec_output() == old(self).spec_output(),
            },
    {
        let ghost bytes = frame@;
        let yuv = yuv_buffer_from_vec(frame, width, height);
        if intra {
            force_intra_frame(&mut self.encoder);
        }
        self.frame_sent = Ghost(bytes);
        self.size_sent = Ghost((width, height));
        self.intra_sent = Ghost(intra);
        let res = encode_frame(&mut self.encoder, &yuv);
        if let Ok((data, kind)) = &res {
            self.output = Ghost((data@, *kind));
        }
        res
    }
}

} // verus!
