//! Decoding of compressed audio files into PCM tracks at the fixed rate.
//!
//! Frames are decoded sequentially; a clean end of the stream finishes the
//! track, and a frame whose sample rate differs from the engine's fixed
//! operating rate is a fatal configuration error — nothing is resampled.
//!
//! What the decoder makes of a byte stream is a function of the bytes alone;
//! it is named, not restated: `mp3_frame_count` frames come out, the k-th
//! carrying `mp3_frame_samples` at `mp3_frame_rate`. The decoded track is the
//! concatenation of those frames, in stream order, and the decode succeeds
//! exactly when every frame carries the fixed rate.

use vstd::prelude::*;

use crate::engine::Track;
use crate::transport::SAMPLE_RATE;

verus! {

/// How many frames the decoder yields for this byte stream before reporting
/// its clean end.
pub uninterp spec fn mp3_frame_count(bytes: Seq<u8>) -> nat;

/// The interleaved samples of the k-th frame the decoder yields for this
/// byte stream.
pub uninterp spec fn mp3_frame_samples(bytes: Seq<u8>, k: int) -> Seq<i16>;

/// The sample rate, in hertz, of the k-th frame the decoder yields for this
/// byte stream.
pub uninterp spec fn mp3_frame_rate(bytes: Seq<u8>, k: int) -> int;

/// The samples of the stream's first `k` frames, in stream order.
pub open spec fn pcm_concat(bytes: Seq<u8>, k: int) -> Seq<i16>
    decreases k,
{
    if k <= 0 {
        Seq::empty()
    } else {
        pcm_concat(bytes, k - 1) + mp3_frame_samples(bytes, k - 1)
    }
}

/// The whole decoded stream: every frame's samples, concatenated in stream
/// order.
pub open spec fn pcm_of(bytes: Seq<u8>) -> Seq<i16> {
    pcm_concat(bytes, mp3_frame_count(bytes) as int)
}

/// Every frame of the stream carries the engine's fixed operating rate.
pub open spec fn decodes_at_fixed_rate(bytes: Seq<u8>) -> bool {
    forall|k: int|
        0 <= k < mp3_frame_count(bytes) ==> #[trigger] mp3_frame_rate(bytes, k) == SAMPLE_RATE
            as int
}

/// The outcome of pulling one frame from the decoder.
pub enum FrameEvent {
    /// A decoded frame: its interleaved samples and its sample rate in hertz.
    Frame { samples: Vec<i16>, sample_rate: i32 },
    /// The clean end of the stream.
    End,
    /// Any other decoder failure. Reading from a byte slice cannot fail, so
    /// for this crate's decoder the event never occurs.
    Failed,
}

/// Why a stream could not be decoded.
#[derive(Clone, Copy, PartialEq, Eq, Structural, Debug)]
pub enum DecodeError {
    /// A frame's sample rate differs from the fixed operating rate.
    SampleRateMismatch,
    /// The decoder failed before the end of the stream was reached. Byte
    /// slices decode through to the end, so the decode of a track never
    /// reports this; it stands for the event mapping's sake.
    DecodeFailed,
}

/// Declares minimp3::Decoder for the verifier: the decoder that carries the
/// reader and the decode state between frame pulls, opaque here.
#[verifier::external_type_specification]
#[verifier::external_body]
#[verifier::reject_recursive_types(R)]
pub struct ExDecoder<R>(minimp3::Decoder<R>);

/// Relies on minimp3::Decoder::new: wraps a byte reader for frame decoding.
#[verifier::external_body]
fn decoder_new<'a>(bytes: &'a [u8]) -> minimp3::Decoder<&'a [u8]> {
    minimp3::Decoder::new(bytes)
}

/// A decoder over one byte stream, together with the stream it reads and how
/// many frames it has yielded so far — what the next pull is about to return.
struct FrameSource<'a> {
    decoder: minimp3::Decoder<&'a [u8]>,
    stream: Ghost<Seq<u8>>,
    yielded: Ghost<int>,
}

/// A decoder at the start of the given stream.
fn frame_source<'a>(bytes: &'a [u8]) -> (r: FrameSource<'a>)
    ensures
        r.stream@ == bytes@,
        r.yielded@ == 0,
{
    FrameSource { decoder: decoder_new(bytes), stream: Ghost(bytes@), yielded: Ghost(0int) }
}

/// Relies on minimp3::Decoder::next_frame, reading from a byte slice: a read
/// from a slice cannot fail, and the decoder's own loop swallows skipped and
/// short data, so each pull yields the stream's next frame — a function of
/// the bytes alone — until the frames run out, and the clean end thereafter.
#[verifier::external_body]
fn next_frame_event(src: &mut FrameSource) -> (r: FrameEvent)
    ensures
        final(src).stream == old(src).stream,
        final(src).yielded@ == old(src).yielded@ + 1,
        match r {
            FrameEvent::Frame { samples, sample_rate } => {
                &&& 0 <= old(src).yielded@ < mp3_frame_count(old(src).stream@)
                &&& samples@ == mp3_frame_samples(old(src).stream@, old(src).yielded@)
                &&& sample_rate as int == mp3_frame_rate(old(src).stream@, old(src).yielded@)
            },
            FrameEvent::End => old(src).yielded@ >= mp3_frame_count(old(src).stream@),
            FrameEvent::Failed => false,
        },
{
    match src.decoder.next_frame() {
        Ok(frame) => FrameEvent::Frame { samples: frame.data, sample_rate: frame.sample_rate },
        Err(minimp3::Error::Eof) => FrameEvent::End,
        Err(minimp3::Error::Io(_)) => FrameEvent::Failed,
        Err(minimp3::Error::InsufficientData) => FrameEvent::Failed,
        Err(minimp3::Error::SkippedData) => FrameEvent::Failed,
    }
}

/// Appends a frame's samples to the track being assembled.
fn append_samples(data: &mut Vec<i16>, samples: &Vec<i16>)
    ensures
        final(data)@ == old(data)@ + samples@,
{
    let ghost data0 = data@;
    let mut i: usize = 0;
    proof {
        assert(data0 + samples@.take(0) =~= data0);
    }
    while i < samples.len()
        invariant
            0 <= i <= samples@.len(),
            data@ == data0 + samples@.take(i as int),
        decreases samples@.len() - i,
    {
        data.push(samples[i]);
        proof {
            assert((data0 + samples@.take(i as int)).push(samples@[i as int]) =~= data0
                + samples@.take(i as int + 1));
        }
        i = i + 1;
    }
    proof {
        assert(samples@.take(samples@.len() as int) =~= samples@);
    }
}

/// Handles one decoded frame: a frame at the fixed rate extends the track,
/// one at any other rate is a fatal configuration error that leaves the
/// track untouched.
fn accumulate_frame(data: &mut Vec<i16>, samples: &Vec<i16>, sample_rate: i32) -> (r: Result<
    (),
    DecodeError,
>)
    ensures
        sample_rate == SAMPLE_RATE as i32 ==> r is Ok && final(data)@ == old(data)@ + samples@,
        sample_rate != SAMPLE_RATE as i32 ==> r == Err::<(), DecodeError>(
            DecodeError::SampleRateMismatch,
        ) && final(data)@ == old(data)@,
{
    if sample_rate != SAMPLE_RATE as i32 {
        return Err(DecodeError::SampleRateMismatch);
    }
    append_samples(data, samples);
    Ok(())
}

impl Track {
    /// Decodes one compressed byte stream into a PCM track: the
    /// concatenation, in stream order, of every decoded frame's samples. The
    /// decode succeeds exactly when every frame carries the fixed operating
    /// rate; the first frame at any other rate aborts it.
    pub fn decode_mp3(bytes: &[u8]) -> (r: Result<Track, DecodeError>)
        ensures
            match r {
                Ok(t) => decodes_at_fixed_rate(bytes@) && t@ == pcm_of(bytes@),
                Err(e) => !decodes_at_fixed_rate(bytes@) && e == DecodeError::SampleRateMismatch,
            },
    {
        let ghost stream = bytes@;
        let mut src = frame_source(bytes);
        let mut data: Vec<i16> = Vec::new();
        loop
            invariant
                stream == bytes@,
                src.stream@ == stream,
                0 <= src.yielded@ <= mp3_frame_count(stream),
                data@ == pcm_concat(stream, src.yielded@),
                forall|k: int|
                    0 <= k < src.yielded@ ==> #[trigger] mp3_frame_rate(stream, k) == SAMPLE_RATE
                        as int,
            decreases mp3_frame_count(stream) - src.yielded@,
        {
            let ghost y = src.yielded@;
            match next_frame_event(&mut src) {
                FrameEvent::Frame { samples, sample_rate } => {
                    match accumulate_frame(&mut data, &samples, sample_rate) {
                        Ok(_) => {
                            proof {
                                assert(data@ == pcm_concat(stream, y) + mp3_frame_samples(
                                    stream,
                                    y,
                                ));
                                assert(data@ == pcm_concat(stream, y + 1));
                            }
                        },
                        Err(e) => {
                            proof {
                                assert(mp3_frame_rate(stream, y) != SAMPLE_RATE as int);
                                assert(!decodes_at_fixed_rate(stream));
                            }
                            return Err(e);
                        },
                    }
                },
                FrameEvent::End => {
                    proof {
                        assert(y == mp3_frame_count(stream));
                        assert(data@ == pcm_of(stream));
                    }
                    return Ok(Track { data });
                },
                FrameEvent::Failed => {
                    // A byte slice decodes through to its end: the pull's
                    // contract rules this event out.
                    return Err(DecodeError::DecodeFailed);
                },
            }
        }
    }
}

} // verus!
