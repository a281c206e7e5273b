//! Decoding animated GIF and WebP files into frames, their repeat count and
//! the time at which each frame ends.
use std::io::Cursor;
use image::codecs::gif::GifDecoder;
use image::codecs::webp::WebPDecoder;
use image::metadata::LoopCount;
use image::{AnimationDecoder, ImageError, ImageFormat};
use vstd::prelude::*;

verus! {

/// The error the image crate reports for a file it cannot read.
#[verifier::external_type_specification]
#[verifier::external_body]
pub struct ExImageError(ImageError);

/// What the image crate takes a file for, as far as animations care.
#[derive(Clone, Copy, Debug, PartialEq, Eq, Structural)]
pub enum ImageKind {
    Gif,
    WebP,
    Other,
}

/// How often an animation file asks to be played.
#[derive(Clone, Copy, Debug, PartialEq, Eq, Structural)]
pub enum LoopModel {
    /// Forever.
    Infinite,
    /// The file's repeat count (never 0).
    Finite(u32),
}

/// A frame as the decoder hands it out: its size, RGBA pixels and delay as
/// the fraction `delay_numer_ms / delay_denom_ms` milliseconds.
#[derive(Debug)]
pub struct RawFrame {
    pub width: u32,
    pub height: u32,
    pub rgba: Vec<u8>,
    pub delay_numer_ms: u32,
    pub delay_denom_ms: u32,
}

/// The plain values of a decoded frame.
pub struct RawFrameView {
    pub width: u32,
    pub height: u32,
    pub rgba: Seq<u8>,
    pub delay_numer_ms: u32,
    pub delay_denom_ms: u32,
}

impl View for RawFrame {
    type V = RawFrameView;

    open spec fn view(&self) -> RawFrameView {
        RawFrameView {
            width: self.width,
            height: self.height,
            rgba: self.rgba@,
            delay_numer_ms: self.delay_numer_ms,
            delay_denom_ms: self.delay_denom_ms,
        }
    }
}

/// The views of a run of raw frames.
pub open spec fn raw_views(fs: Seq<RawFrame>) -> Seq<RawFrameView> {
    fs.map_values(|f: RawFrame| f@)
}

/// What `image::guess_format` takes the bytes for (`None` when it knows no
/// format for them).
pub uninterp spec fn guessed_image_kind(bytes: Seq<u8>) -> Option<ImageKind>;

/// The loop count and frames `GifDecoder` gives for the bytes (`None` when it
/// reports an error).
pub uninterp spec fn gif_decoding(bytes: Seq<u8>) -> Option<(LoopModel, Seq<RawFrameView>)>;

/// The loop count and frames `WebPDecoder` gives for the bytes (`None` when it
/// reports an error).
pub uninterp spec fn webp_decoding(bytes: Seq<u8>) -> Option<(LoopModel, Seq<RawFrameView>)>;

/// The facts the image crate's source gives of every decoding: a finite loop
/// count is a `NonZeroU32`, and every delay is a fraction built by
/// `Ratio::new`, which refuses a zero denominator.
pub open spec fn decoding_well_formed(l: LoopModel, fs: Seq<RawFrame>) -> bool {
    &&& (l matches LoopModel::Finite(n) ==> n > 0)
    &&& forall|i: int| 0 <= i < fs.len() ==> (#[trigger] fs[i]).delay_denom_ms > 0
}

/// The bytes start with a GIF signature, `GIF89a` or `GIF87a`.
pub open spec fn starts_as_gif(bytes: Seq<u8>) -> bool {
    bytes.len() >= 6 && (bytes.take(6) == seq![0x47u8, 0x49, 0x46, 0x38, 0x39, 0x61]
        || bytes.take(6) == seq![0x47u8, 0x49, 0x46, 0x38, 0x37, 0x61])
}

/// The bytes start with a WebP signature: `RIFF`, four bytes of length, `WEBP`.
pub open spec fn starts_as_webp(bytes: Seq<u8>) -> bool {
    bytes.len() >= 12 && bytes.take(4) == seq![0x52u8, 0x49, 0x46, 0x46]
        && bytes.subrange(8, 12) == seq![0x57u8, 0x45, 0x42, 0x50]
}

/// Calls `image::guess_format`; the contract claims that the format it
/// reports (GIF, WebP or another) is the one named by `guessed_image_kind`
/// for these bytes, that it fails exactly where that name is `None`, and, as
/// its table of signatures shows (no signature before those of GIF and WebP
/// matches bytes that start like them), that GIF and WebP signatures are
/// recognised.
#[verifier::external_body]
fn guess_image_kind(bytes: &[u8]) -> (res: Result<ImageKind, ImageError>)
    ensures
        match res {
            Ok(k) => guessed_image_kind(bytes@) == Some(k),
            Err(_) => guessed_image_kind(bytes@) is None,
        },
        starts_as_gif(bytes@) ==> res matches Ok(ImageKind::Gif),
        starts_as_webp(bytes@) ==> res matches Ok(ImageKind::WebP),
{
    match image::guess_format(bytes)? {
        ImageFormat::Gif => Ok(ImageKind::Gif),
        ImageFormat::WebP => Ok(ImageKind::WebP),
        _ => Ok(ImageKind::Other),
    }
}

/// Decodes GIF bytes with `GifDecoder` (`new`, `loop_count`, `into_frames`,
/// `collect_frames`) and takes each frame apart (`Frame::delay`,
/// `Delay::numer_denom_ms`, `Frame::into_buffer`); the contract claims the
/// result is the one named by `gif_decoding`, and the facts of
/// `decoding_well_formed`.
#[verifier::external_body]
fn decode_gif(bytes: &[u8]) -> (res: Result<(LoopModel, Vec<RawFrame>), ImageError>)
    ensures
        match res {
            Ok((l, fs)) => gif_decoding(bytes@) == Some((l, raw_views(fs@))) && decoding_well_formed(l, fs@),
            Err(_) => gif_decoding(bytes@) is None,
        },
{
    let decoder = GifDecoder::new(Cursor::new(bytes))?;
    let loops = match decoder.loop_count() {
        LoopCount::Infinite => LoopModel::Infinite,
        LoopCount::Finite(n) => LoopModel::Finite(n.get()),
    };
    let mut frames = Vec::new();
    for frame in decoder.into_frames().collect_frames()? {
        let (delay_numer_ms, delay_denom_ms) = frame.delay().numer_denom_ms();
        let buffer = frame.into_buffer();
        let (width, height) = buffer.dimensions();
        frames.push(RawFrame { width, height, rgba: buffer.into_raw(), delay_numer_ms, delay_denom_ms });
    }
    Ok((loops, frames))
}

/// Decodes WebP bytes with `WebPDecoder` (`new`, `loop_count`, `into_frames`,
/// `collect_frames`) and takes each frame apart as `decode_gif` does; the
/// contract claims the result is the one named by `webp_decoding`, and the
/// facts of `decoding_well_formed`.
#[verifier::external_body]
fn decode_webp(bytes: &[u8]) -> (res: Result<(LoopModel, Vec<RawFrame>), ImageError>)
    ensures
        match res {
            Ok((l, fs)) => webp_decoding(bytes@) == Some((l, raw_views(fs@))) && decoding_well_formed(l, fs@),
            Err(_) => webp_decoding(bytes@) is None,
        },
{
    let decoder = WebPDecoder::new(Cursor::new(bytes))?;
    let loops = match decoder.loop_count() {
        LoopCount::Infinite => LoopModel::Infinite,
        LoopCount::Finite(n) => LoopModel::Finite(n.get()),
    };
    let mut frames = Vec::new();
    for frame in decoder.into_frames().collect_frames()? {
        let (delay_numer_ms, delay_denom_ms) = frame.delay().numer_denom_ms();
        let buffer = frame.into_buffer();
        let (width, height) = buffer.dimensions();
        frames.push(RawFrame { width, height, rgba: buffer.into_raw(), delay_numer_ms, delay_denom_ms });
    }
    Ok((loops, frames))
}

/// A frame ready to be shown: its size, RGBA pixels and how long it shows,
/// in nanoseconds.
#[derive(Debug)]
pub struct DecodedFrame {
    pub width: u32,
    pub height: u32,
    pub rgba: Vec<u8>,
    pub delay_nanos: u64,
}

/// A decoded animation: the file's raw repeat count, `None` when it repeats
/// forever (a GIF that plays 5 loops in all has 4), and its frames.
#[derive(Debug)]
pub struct DecodedAnimation {
    pub times: Option<u32>,
    pub frames: Vec<DecodedFrame>,
}

/// Why a file gives no animation.
#[derive(Debug)]
pub enum AnimationFailure {
    /// A format other than GIF or WebP.
    UnsupportedFormat,
    /// The image crate could not recognise or decode the bytes.
    Image(ImageError),
}

/// The repeat count of an animation: none for an endless one.
pub open spec fn spec_times(l: LoopModel) -> Option<u32> {
    match l {
        LoopModel::Infinite => None,
        LoopModel::Finite(n) => Some(n),
    }
}

/// The nanoseconds of a delay of `numer / denom` milliseconds, as the image
/// crate's `From<Delay> for Duration` rounds it: whole milliseconds, plus the
/// remainder's nanoseconds rounded down.
pub open spec fn delay_nanos(numer: u32, denom: u32) -> int {
    (numer / denom) * 1_000_000 + ((numer % denom) * 1_000_000) / (denom as int)
}

/// The decoded frame shows the raw frame.
pub open spec fn frame_matches(d: DecodedFrame, f: RawFrameView) -> bool {
    &&& d.width == f.width
    &&& d.height == f.height
    &&& d.rgba@ == f.rgba
    &&& d.delay_nanos == delay_nanos(f.delay_numer_ms, f.delay_denom_ms)
}

/// The animation is the decoder's loop count and frames.
pub open spec fn animation_matches(a: DecodedAnimation, l: LoopModel, fs: Seq<RawFrameView>) -> bool {
    &&& a.times == spec_times(l)
    &&& a.frames@.len() == fs.len()
    &&& forall|i: int| 0 <= i < fs.len() ==> #[trigger] frame_matches(a.frames@[i], fs[i])
}

/// The outcome of decoding with a decoder whose result is `d`.
pub open spec fn decoding_outcome(
    res: Result<DecodedAnimation, AnimationFailure>,
    d: Option<(LoopModel, Seq<RawFrameView>)>,
) -> bool {
    match d {
        None => res matches Err(AnimationFailure::Image(_)),
        Some((l, fs)) => res matches Ok(a) && animation_matches(a, l, fs),
    }
}

/// The repeat count of an animation: none for an endless one.
pub fn times_of(l: LoopModel) -> (res: Option<u32>)
    ensures
        res == spec_times(l),
{
    match l {
        LoopModel::Infinite => None,
        LoopModel::Finite(n) => Some(n),
    }
}

/// The nanoseconds a frame with a delay of `numer / denom` milliseconds shows.
pub fn frame_delay_nanos(numer: u32, denom: u32) -> (res: u64)
    requires
        denom > 0,
    ensures
        res == delay_nanos(numer, denom),
{
    let ms = (numer / denom) as u64;
    let rest = (numer % denom) as u64;
    assert(rest * 1_000_000 <= 0xffff_ffff * 1_000_000) by (nonlinear_arith)
        requires rest <= 0xffff_ffff;
    let big = rest * 1_000_000;
    let d = denom as u64;
    let sub = big / d;
    assert(ms * 1_000_000 <= 0xffff_ffff * 1_000_000) by (nonlinear_arith)
        requires ms <= 0xffff_ffff;
    assert(sub <= big) by (nonlinear_arith)
        requires sub == big / d, d >= 1;
    ms * 1_000_000 + sub
}

/// Turns the decoder's loop count and frames into an animation.
pub fn assemble_animation(l: LoopModel, raws: Vec<RawFrame>) -> (res: DecodedAnimation)
    requires
        decoding_well_formed(l, raws@),
    ensures
        animation_matches(res, l, raw_views(raws@)),
{
    let ghost r0 = raws@;
    let mut raws = raws;
    let mut frames: Vec<DecodedFrame> = Vec::new();
    while raws.len() > 0
        invariant
            frames@.len() + raws@.len() == r0.len(),
            raws@ == r0.skip(frames@.len() as int),
            forall|i: int| 0 <= i < r0.len() ==> (#[trigger] r0[i]).delay_denom_ms > 0,
            forall|i: int| 0 <= i < frames@.len() ==> #[trigger] frame_matches(frames@[i], r0[i]@),
        decreases raws@.len(),
    {
        let ghost k = frames@.len() as int;
        let f = raws.remove(0);
        proof {
            assert(f == r0[k]);
            assert(raws@ =~= r0.skip(k + 1));
        }
        let delay = frame_delay_nanos(f.delay_numer_ms, f.delay_denom_ms);
        frames.push(DecodedFrame { width: f.width, height: f.height, rgba: f.rgba, delay_nanos: delay });
    }
    let res = DecodedAnimation { times: times_of(l), frames };
    proof {
        assert forall|i: int| 0 <= i < raw_views(r0).len() implies #[trigger] frame_matches(
            res.frames@[i],
            raw_views(r0)[i],
        ) by {
            assert(raw_views(r0)[i] == r0[i]@);
        }
    }
    res
}

/// Decodes an animated image: GIF and WebP files are decoded frame by frame,
/// any other recognised format is refused, and bytes the image crate cannot
/// read fail with its error.
pub fn load_animation(bytes: &[u8]) -> (res: Result<DecodedAnimation, AnimationFailure>)
    ensures
        match guessed_image_kind(bytes@) {
            None => res matches Err(AnimationFailure::Image(_)),
            Some(ImageKind::Other) => res matches Err(AnimationFailure::UnsupportedFormat),
            Some(ImageKind::Gif) => decoding_outcome(res, gif_decoding(bytes@)),
            Some(ImageKind::WebP) => decoding_outcome(res, webp_decoding(bytes@)),
        },
        starts_as_gif(bytes@) ==> decoding_outcome(res, gif_decoding(bytes@)),
        starts_as_webp(bytes@) ==> decoding_outcome(res, webp_decoding(bytes@)),
{
    let kind = match guess_image_kind(bytes) {
        Ok(k) => k,
        Err(e) => return Err(AnimationFailure::Image(e)),
    };
    let decoded = match kind {
        ImageKind::Gif => decode_gif(bytes),
        ImageKind::WebP => decode_webp(bytes),
        ImageKind::Other => return Err(AnimationFailure::UnsupportedFormat),
    };
    match decoded {
        Ok((l, raws)) => Ok(assemble_animation(l, raws)),
        Err(e) => Err(AnimationFailure::Image(e)),
    }
}

/// The nanoseconds of the first `n` frames.
pub open spec fn delay_sum(frames: Seq<DecodedFrame>, n: int) -> int
    decreases n,
{
    if n <= 0 {
        0
    } else {
        delay_sum(frames, n - 1) + frames[n - 1].delay_nanos
    }
}

/// The time, in nanoseconds from the start of a loop, at which each frame ends.
pub fn frame_ends(frames: &Vec<DecodedFrame>) -> (ends: Vec<u128>)
    ensures
        ends@.len() == frames@.len(),
        forall|i: int| 0 <= i < ends@.len() ==> ends@[i] == delay_sum(frames@, i + 1),
{
    let mut ends: Vec<u128> = Vec::new();
    let mut acc: u128 = 0;
    let mut i: usize = 0;
    while i < frames.len()
        invariant
            i <= frames@.len(),
            ends@.len() == i,
            acc == delay_sum(frames@, i as int),
            acc <= (i as int) * 0xffff_ffff_ffff_ffff,
            forall|j: int| 0 <= j < i ==> ends@[j] == delay_sum(frames@, j + 1),
        decreases frames@.len() - i,
    {
        let d = frames[i].delay_nanos;
        assert((i as int) * 0xffff_ffff_ffff_ffff + 0xffff_ffff_ffff_ffff <= 0xffff_ffff_ffff_ffff_ffff_ffff_ffff_ffff) by (nonlinear_arith)
            requires i <= 0xffff_ffff_ffff_ffff;
        assert(((i + 1) as int) * 0xffff_ffff_ffff_ffff == (i as int) * 0xffff_ffff_ffff_ffff + 0xffff_ffff_ffff_ffff) by (nonlinear_arith);
        acc = acc + d as u128;
        ends.push(acc);
        i += 1;
    }
    ends
}

/// The frame shown `now` nanoseconds into a loop: the first one that ends
/// after `now`, or the first frame when all have ended.
pub fn frame_at(ends: &Vec<u128>, now: u128) -> (res: usize)
    ensures
        (exists|i: int| 0 <= i < ends@.len() && ends@[i] > now) ==> {
            &&& res < ends@.len()
            &&& ends@[res as int] > now
            &&& forall|j: int| 0 <= j < res ==> ends@[j] <= now
        },
        !(exists|i: int| 0 <= i < ends@.len() && ends@[i] > now) ==> res == 0,
{
    let mut i: usize = 0;
    while i < ends.len()
        invariant
            i <= ends@.len(),
            forall|j: int| 0 <= j < i ==> ends@[j] <= now,
        decreases ends@.len() - i,
    {
        if ends[i] > now {
            return i;
        }
        i += 1;
    }
    0
}

/// Law: a frame's delay in nanoseconds is its exact delay, `numer / denom`
/// milliseconds, rounded down to a whole nanosecond.
pub proof fn lemma_delay_nanos_rounds_down(numer: u32, denom: u32)
    requires
        denom > 0,
    ensures
        delay_nanos(numer, denom) == (numer * 1_000_000) / (denom as int),
        delay_nanos(numer, denom) * denom <= numer * 1_000_000 < (delay_nanos(numer, denom) + 1) * denom,
{
    let n = numer as int;
    let d = denom as int;
    let q = n / d;
    let r = n % d;
    let t = (r * 1_000_000) / d;
    assert(n == q * d + r && 0 <= r < d) by (nonlinear_arith)
        requires d > 0, q == n / d, r == n % d;
    assert(t * d <= r * 1_000_000 < (t + 1) * d) by (nonlinear_arith)
        requires d > 0, r >= 0, t == (r * 1_000_000) / d;
    assert(n * 1_000_000 == (q * 1_000_000) * d + r * 1_000_000) by (nonlinear_arith)
        requires n == q * d + r;
    assert((q * 1_000_000 + t) * d <= n * 1_000_000 < (q * 1_000_000 + t + 1) * d) by (nonlinear_arith)
        requires
            t * d <= r * 1_000_000 < (t + 1) * d,
            n * 1_000_000 == (q * 1_000_000) * d + r * 1_000_000;
    assert((n * 1_000_000) / d == q * 1_000_000 + t) by (nonlinear_arith)
        requires
            d > 0,
            (q * 1_000_000 + t) * d <= n * 1_000_000 < (q * 1_000_000 + t + 1) * d;
}

} // verus!
