//! The capture-loop state machine: the decisions the loop takes between
//! scrolls and captures, and the batch path that thins video-extracted
//! frames before stitching. All waiting, key injection and screen access
//! happen outside the library; the session is fed plain values and answers
//! with decisions.

use vstd::prelude::*;

use crate::compare::{identical, rasters_identical, similar_holds};
use crate::errors::CaptureError;
use crate::raster::{Raster, RasterView};
use crate::stitch::{equal_dims, frames_wf, stitch_post, stitched_height, views};
use crate::ScreenCapture;

verus! {

/// Character equality up to ASCII case, against a lower-case reference.
pub open spec fn char_eq_ci(c: char, low: char) -> bool {
    c == low || ('A' <= c && c <= 'Z' && c as u32 + 32 == low as u32)
}

/// String equality up to ASCII case, against a lower-case reference.
pub open spec fn str_eq_ci(s: Seq<char>, low: Seq<char>) -> bool {
    s.len() == low.len() && forall|i: int| 0 <= i < s.len() ==> char_eq_ci(#[trigger] s[i], low[i])
}

fn eq_ignore_ascii_case(s: &str, low: &str) -> (r: bool)
    ensures
        r == str_eq_ci(s@, low@),
{
    let n = s.unicode_len();
    if n != low.unicode_len() {
        return false;
    }
    let mut i: usize = 0;
    while i < n
        invariant
            n == s@.len(),
            n == low@.len(),
            0 <= i <= n,
            forall|j: int| 0 <= j < i ==> char_eq_ci(#[trigger] s@[j], low@[j]),
        decreases n - i,
    {
        let a = s.get_char(i);
        let b = low.get_char(i);
        let ok = a == b || ('A' <= a && a <= 'Z' && (a as u32) + 32 == (b as u32));
        if !ok {
            return false;
        }
        i = i + 1;
    }
    true
}

/// The key pressed to advance the document one step.
#[derive(Clone, Copy, Debug, PartialEq, Eq, Structural)]
pub enum ScrollKey {
    Space,
    Down,
    PageDown,
}

impl ScrollKey {
    /// The symbol naming this key on the command line.
    pub open spec fn spec_name(self) -> Seq<char> {
        match self {
            ScrollKey::Space => "space"@,
            ScrollKey::Down => "down"@,
            ScrollKey::PageDown => "pagedown"@,
        }
    }

    pub fn as_str(&self) -> (r: &'static str)
        ensures
            r@ == self.spec_name(),
    {
        match self {
            ScrollKey::Space => "space",
            ScrollKey::Down => "down",
            ScrollKey::PageDown => "pagedown",
        }
    }

    /// Which key a symbol selects: "down" and "pagedown", ASCII case blind;
    /// any other symbol falls back to the space key.
    pub open spec fn spec_from_name(s: Seq<char>) -> ScrollKey {
        if str_eq_ci(s, "down"@) {
            ScrollKey::Down
        } else if str_eq_ci(s, "pagedown"@) {
            ScrollKey::PageDown
        } else {
            ScrollKey::Space
        }
    }

    pub fn from_name(name: &str) -> (k: ScrollKey)
        ensures
            k == ScrollKey::spec_from_name(name@),
    {
        if eq_ignore_ascii_case(name, "down") {
            ScrollKey::Down
        } else if eq_ignore_ascii_case(name, "pagedown") {
            ScrollKey::PageDown
        } else {
            ScrollKey::Space
        }
    }
}

/// Where a capture session stands.
#[derive(Clone, Copy, Debug, PartialEq, Eq, Structural)]
pub enum SessionState {
    /// Acquiring: the loop may scroll and capture again.
    Capturing,
    /// Acquisition over; the frames are ready to stitch.
    Stitching,
    /// The caller asked for a stop; the session yields no image.
    Cancelled,
}

/// Decision taken at the top of an iteration, before any scroll.
#[derive(Clone, Copy, Debug, PartialEq, Eq, Structural)]
pub enum ScrollDecision {
    /// Scroll once, wait the settle delay, capture again.
    Proceed,
    /// The configured scroll budget is used up; stitch what was gathered.
    StopMaxReached,
    /// The cancellation flag was observed set; yield no image.
    StopCancelled,
}

/// What a freshly captured frame means for the loop.
#[derive(Clone, Copy, Debug, PartialEq, Eq, Structural)]
pub enum CaptureOutcome {
    /// The capture equals the previous frame pixel for pixel: the scroll
    /// produced no new content, acquisition ends.
    EndOfContent,
    /// New content: the frame joins the sequence and one scroll is counted.
    Continue,
}

/// One capture run: the accumulated frames and the loop bookkeeping. The
/// session is fed observations — the cancellation flag, fresh captures —
/// and decides; it never waits or touches a device itself.
pub struct CaptureSession {
    overlap: u32,
    max_scrolls: Option<usize>,
    frames: Vec<Raster>,
    scroll_count: usize,
    state: SessionState,
}

impl CaptureSession {
    pub closed spec fn spec_overlap(self) -> nat {
        self.overlap as nat
    }

    pub closed spec fn spec_max_scrolls(self) -> Option<usize> {
        self.max_scrolls
    }

    /// The views of the accumulated frames, capture order first to last.
    pub closed spec fn spec_frames(self) -> Seq<RasterView> {
        views(self.frames@)
    }

    pub closed spec fn spec_scroll_count(self) -> nat {
        self.scroll_count as nat
    }

    pub closed spec fn spec_state(self) -> SessionState {
        self.state
    }

    /// Internal consistency: the seed frame is there, every frame is well
    /// formed, and exactly one scroll was counted per frame after the seed.
    pub open spec fn inv(self) -> bool {
        &&& self.spec_frames().len() >= 1
        &&& frames_wf(self.spec_frames())
        &&& self.spec_scroll_count() + 1 == self.spec_frames().len()
    }

    /// Begin a session around its seed capture. No scroll has happened yet.
    pub fn new(overlap: u32, max_scrolls: Option<usize>, first: Raster) -> (s: CaptureSession)
        requires
            first@.wf(),
        ensures
            s.inv(),
            s.spec_overlap() == overlap as nat,
            s.spec_max_scrolls() == max_scrolls,
            s.spec_frames() =~= seq![first@],
            s.spec_scroll_count() == 0,
            s.spec_state() == SessionState::Capturing,
    {
        let mut frames: Vec<Raster> = Vec::new();
        frames.push(first);
        let s = CaptureSession {
            overlap,
            max_scrolls,
            frames,
            scroll_count: 0,
            state: SessionState::Capturing,
        };
        proof {
            assert(s.spec_frames() =~= seq![first@]);
        }
        s
    }

    pub fn overlap(&self) -> (o: u32)
        ensures
            o as nat == self.spec_overlap(),
    {
        self.overlap
    }

    pub fn max_scrolls(&self) -> (m: Option<usize>)
        ensures
            m == self.spec_max_scrolls(),
    {
        self.max_scrolls
    }

    pub fn scroll_count(&self) -> (c: usize)
        ensures
            c as nat == self.spec_scroll_count(),
    {
        self.scroll_count
    }

    pub fn frame_count(&self) -> (c: usize)
        ensures
            c as nat == self.spec_frames().len(),
    {
        self.frames.len()
    }

    pub fn state(&self) -> (st: SessionState)
        ensures
            st == self.spec_state(),
    {
        self.state
    }

    /// What the pre-scroll check must answer: the cancellation flag wins,
    /// then the scroll budget, otherwise the loop goes on.
    pub open spec fn spec_scroll_decision(self, cancelled: bool) -> ScrollDecision {
        if cancelled {
            ScrollDecision::StopCancelled
        } else {
            match self.spec_max_scrolls() {
                Some(m) => if self.spec_scroll_count() >= m {
                    ScrollDecision::StopMaxReached
                } else {
                    ScrollDecision::Proceed
                },
                None => ScrollDecision::Proceed,
            }
        }
    }

    /// Observe the cancellation flag and the scroll budget at the top of an
    /// iteration, before any scroll. A set flag moves the session to
    /// `Cancelled`; an exhausted budget moves it to `Stitching`; otherwise
    /// it stays `Capturing`. Frames and count never change here.
    pub fn check_before_scroll(&mut self, cancelled: bool) -> (d: ScrollDecision)
        requires
            old(self).inv(),
            old(self).spec_state() == SessionState::Capturing,
        ensures
            final(self).inv(),
            d == old(self).spec_scroll_decision(cancelled),
            final(self).spec_frames() == old(self).spec_frames(),
            final(self).spec_scroll_count() == old(self).spec_scroll_count(),
            final(self).spec_overlap() == old(self).spec_overlap(),
            final(self).spec_max_scrolls() == old(self).spec_max_scrolls(),
            final(self).spec_state() == (match d {
                ScrollDecision::StopCancelled => SessionState::Cancelled,
                ScrollDecision::StopMaxReached => SessionState::Stitching,
                ScrollDecision::Proceed => SessionState::Capturing,
            }),
    {
        if cancelled {
            self.state = SessionState::Cancelled;
            return ScrollDecision::StopCancelled;
        }
        let stop = match self.max_scrolls {
            Some(m) => self.scroll_count >= m,
            None => false,
        };
        if stop {
            self.state = SessionState::Stitching;
            ScrollDecision::StopMaxReached
        } else {
            ScrollDecision::Proceed
        }
    }

    /// Judge a fresh capture against the last frame. An identical capture
    /// means the scroll produced no new content: acquisition ends, the
    /// duplicate is dropped, and the scroll count stays untouched. Anything
    /// else joins the sequence and counts one scroll.
    pub fn on_capture(&mut self, capture: Raster) -> (o: CaptureOutcome)
        requires
            old(self).inv(),
            old(self).spec_state() == SessionState::Capturing,
            capture@.wf(),
        ensures
            final(self).inv(),
            final(self).spec_overlap() == old(self).spec_overlap(),
            final(self).spec_max_scrolls() == old(self).spec_max_scrolls(),
            o == (if identical(old(self).spec_frames().last(), capture@) {
                CaptureOutcome::EndOfContent
            } else {
                CaptureOutcome::Continue
            }),
            o == CaptureOutcome::EndOfContent ==> final(self).spec_state()
                == SessionState::Stitching && final(self).spec_frames() == old(self).spec_frames()
                && final(self).spec_scroll_count() == old(self).spec_scroll_count(),
            o == CaptureOutcome::Continue ==> final(self).spec_state() == SessionState::Capturing
                && final(self).spec_frames() =~= old(self).spec_frames().push(capture@)
                && final(self).spec_scroll_count() == old(self).spec_scroll_count() + 1,
    {
        let last_idx = self.frames.len() - 1;
        proof {
            assert(self.spec_frames()[last_idx as int] == self.frames@[last_idx as int]@);
            assert(self.spec_frames().last() == self.frames@[last_idx as int]@);
        }
        let same = rasters_identical(&self.frames[last_idx], &capture);
        if same {
            self.state = SessionState::Stitching;
            CaptureOutcome::EndOfContent
        } else {
            let ghost before = self.spec_frames();
            self.frames.push(capture);
            self.scroll_count = self.scroll_count + 1;
            proof {
                assert(self.spec_frames() =~= before.push(capture@));
            }
            CaptureOutcome::Continue
        }
    }

    /// Close the session and stitch what it gathered. A cancelled session
    /// yields the typed cancellation, never an image; otherwise the frames
    /// go to the stitcher after the machine-limit checks, and only frames
    /// of one shared size make an image.
    pub fn into_image(self) -> (r: Result<Raster, CaptureError>)
        requires
            self.inv(),
        ensures
            self.spec_state() == SessionState::Cancelled <==> r == Err::<
                Raster,
                CaptureError,
            >(CaptureError::Cancelled),
            self.spec_state() != SessionState::Cancelled ==> {
                &&& (r is Ok <==> stitchable(self.spec_frames(), self.spec_overlap()))
                &&& (r matches Ok(out) ==> stitch_post(self.spec_frames(), self.spec_overlap(), out@))
                &&& (r is Err ==> r == Err::<Raster, CaptureError>(CaptureError::FrameSizeMismatch))
            },
    {
        match self.state {
            SessionState::Cancelled => Err(CaptureError::Cancelled),
            _ => stitch_checked(self.frames, self.overlap),
        }
    }
}

/// Frames a stitch call can take: one shared size and, once a second frame
/// makes a seam, an overlap no taller than a frame and an output within the
/// machine's limits. A lone frame is always stitchable, whatever the
/// overlap value: it comes back unchanged.
pub open spec fn stitchable(fs: Seq<RasterView>, o: nat) -> bool {
    &&& fs.len() >= 1
    &&& equal_dims(fs)
    &&& (fs.len() >= 2 ==> o <= fs[0].height)
    &&& (fs.len() >= 2 ==> stitched_height(fs.len() as int, fs[0].height as int, o as int)
        <= u32::MAX as int)
    &&& (fs.len() >= 2 ==> fs[0].width as int * stitched_height(
        fs.len() as int,
        fs[0].height as int,
        o as int,
    ) * 4 <= usize::MAX as int)
}

/// Run the machine-limit checks the stitcher's contract asks for, then
/// stitch. Used by the session and by the video batch path.
fn stitch_checked(frames: Vec<Raster>, overlap: u32) -> (r: Result<Raster, CaptureError>)
    requires
        frames_wf(views(frames@)),
        frames@.len() >= 1,
    ensures
        r is Ok <==> stitchable(views(frames@), overlap as nat),
        r matches Ok(out) ==> stitch_post(views(frames@), overlap as nat, out@),
        r is Err ==> r == Err::<Raster, CaptureError>(CaptureError::FrameSizeMismatch),
{
    let ghost fsv = views(frames@);
    proof {
        assert(fsv[0] == frames@[0]@);
    }
    let n = frames.len();
    let w = frames[0].width();
    let h = frames[0].height();
    if n >= 2 {
        if overlap > h {
            return Err(CaptureError::FrameSizeMismatch);
        }
        proof {
            assert(((n - 1) as int) * ((h - overlap) as int) <= usize::MAX as int * 0xffff_ffff)
                by (nonlinear_arith)
                requires
                    0 <= (n - 1) as int <= usize::MAX as int,
                    0 <= (h - overlap) as int <= 0xffff_ffff,
            ;
        }
        let ext: u128 = ((n - 1) as u128) * ((h - overlap) as u128);
        let total_height: u128 = (h as u128) + ext;
        if total_height > (u32::MAX as u128) {
            proof {
                assert(!stitchable(fsv, overlap as nat));
            }
            return Err(CaptureError::FrameSizeMismatch);
        }
        proof {
            assert(w as int * (total_height as int) <= 0xffff_ffff * 0xffff_ffff) by (nonlinear_arith)
                requires
                    0 <= w as int <= 0xffff_ffff,
                    0 <= total_height as int <= 0xffff_ffff,
            ;
        }
        if (w as u128) * total_height * 4 > (usize::MAX as u128) {
            proof {
                assert(!stitchable(fsv, overlap as nat));
            }
            return Err(CaptureError::FrameSizeMismatch);
        }
    }
    let engine = ScreenCapture::new();
    let r = engine.stitch_images(frames, overlap);
    proof {
        if r is Ok {
            assert(equal_dims(fsv));
            assert(stitchable(fsv, overlap as nat));
        }
    }
    r
}

/// The frames that continue the stitching seam: a later frame stays exactly
/// when the overlap-similarity test accepts it against the last kept frame —
/// its top rows carry on where that frame's bottom rows end. A frame that
/// does not advance the seam shows nothing the sequence needs and is dropped
/// as redundant.
pub open spec fn dedup_rest(
    last: RasterView,
    rest: Seq<RasterView>,
    o: nat,
    num: nat,
    den: nat,
) -> Seq<RasterView>
    decreases rest.len(),
{
    if rest.len() == 0 {
        Seq::empty()
    } else if similar_holds(last, rest[0], o, num, den) {
        seq![rest[0]] + dedup_rest(rest[0], rest.drop_first(), o, num, den)
    } else {
        dedup_rest(last, rest.drop_first(), o, num, den)
    }
}

/// See [`dedup_rest`]; an empty batch stays empty.
pub open spec fn dedup_spec(fs: Seq<RasterView>, o: nat, num: nat, den: nat) -> Seq<RasterView> {
    if fs.len() == 0 {
        Seq::empty()
    } else {
        seq![fs[0]] + dedup_rest(fs[0], fs.drop_first(), o, num, den)
    }
}

impl ScreenCapture {
    /// Thin a batch of video-extracted frames: keep the first, then keep
    /// each later frame exactly when its top `overlap` rows continue the
    /// last kept frame's bottom `overlap` rows up to the threshold fraction
    /// — the seam the stitcher will cut at. Frames that do not advance the
    /// seam are redundant and dropped. Order is kept.
    pub fn dedup_frames(
        &self,
        frames: &Vec<Raster>,
        overlap: u32,
        threshold_num: u32,
        threshold_den: u32,
    ) -> (r: Vec<Raster>)
        requires
            frames_wf(views(frames@)),
            threshold_den > 0,
            threshold_num <= threshold_den,
        ensures
            views(r@) == dedup_spec(
                views(frames@),
                overlap as nat,
                threshold_num as nat,
                threshold_den as nat,
            ),
    {
        let ghost fsv = views(frames@);
        let ghost o = overlap as nat;
        let ghost num = threshold_num as nat;
        let ghost den = threshold_den as nat;
        let n = frames.len();
        let mut out: Vec<Raster> = Vec::new();
        if n == 0 {
            proof {
                assert(views(out@) =~= dedup_spec(fsv, o, num, den));
            }
            return out;
        }
        proof {
            assert(fsv[0] == frames@[0]@);
        }
        out.push(frames[0].dup());
        let mut last: usize = 0;
        let mut i: usize = 1;
        proof {
            assert(views(out@) =~= seq![fsv[0]]);
            assert(fsv.subrange(1, 1) =~= Seq::<RasterView>::empty());
        }
        while i < n
            invariant
                fsv == views(frames@),
                frames_wf(fsv),
                n == frames@.len(),
                num == threshold_num as nat,
                den == threshold_den as nat,
                o == overlap as nat,
                0 < den,
                num <= den,
                1 <= i <= n,
                0 <= last < i,
                views(out@).len() >= 1,
                views(out@).last() == fsv[last as int],
                views(out@) + dedup_rest(fsv[last as int], fsv.subrange(i as int, n as int), o, num, den)
                    == dedup_spec(fsv, o, num, den),
            decreases n - i,
        {
            proof {
                assert(fsv[i as int] == frames@[i as int]@);
                assert(fsv[last as int] == frames@[last as int]@);
                assert(fsv.subrange(i as int, n as int)[0] == fsv[i as int]);
                assert(fsv.subrange(i as int, n as int).drop_first() =~= fsv.subrange(
                    i as int + 1,
                    n as int,
                ));
            }
            let seam_ok = self.images_are_similar(
                &frames[last],
                &frames[i],
                overlap,
                threshold_num,
                threshold_den,
            );
            if seam_ok.similar {
                let ghost out_before = views(out@);
                out.push(frames[i].dup());
                last = i;
                proof {
                    assert(views(out@) =~= out_before.push(fsv[i as int]));
                    assert(out_before + (seq![fsv[i as int]] + dedup_rest(
                        fsv[i as int],
                        fsv.subrange(i as int + 1, n as int),
                        o,
                        num,
                        den,
                    )) =~= views(out@) + dedup_rest(
                        fsv[i as int],
                        fsv.subrange(i as int + 1, n as int),
                        o,
                        num,
                        den,
                    ));
                }
            }
            i = i + 1;
        }
        proof {
            assert(fsv.subrange(n as int, n as int) =~= Seq::<RasterView>::empty());
            assert(views(out@) + Seq::<RasterView>::empty() =~= views(out@));
        }
        out
    }

    /// The video-mode assembly phase: thin the extracted frames with the
    /// overlap-similarity test, then stitch what is left. An empty batch is
    /// a logic error upstream and is answered with `NoFramesProduced`; the
    /// kept frames must share one size and fit the machine's limits, else
    /// `FrameSizeMismatch`.
    pub fn assemble_video_frames(
        &self,
        frames: &Vec<Raster>,
        overlap: u32,
        threshold_num: u32,
        threshold_den: u32,
    ) -> (r: Result<Raster, CaptureError>)
        requires
            frames_wf(views(frames@)),
            threshold_den > 0,
            threshold_num <= threshold_den,
        ensures
            frames@.len() == 0 <==> r == Err::<Raster, CaptureError>(CaptureError::NoFramesProduced),
            frames@.len() > 0 ==> {
                let kept = dedup_spec(
                    views(frames@),
                    overlap as nat,
                    threshold_num as nat,
                    threshold_den as nat,
                );
                &&& (r is Ok <==> stitchable(kept, overlap as nat))
                &&& (r matches Ok(out) ==> stitch_post(kept, overlap as nat, out@))
                &&& (r is Err ==> r == Err::<Raster, CaptureError>(CaptureError::FrameSizeMismatch))
            },
    {
        if frames.len() == 0 {
            return Err(CaptureError::NoFramesProduced);
        }
        let kept = self.dedup_frames(frames, overlap, threshold_num, threshold_den);
        proof {
            assert(views(kept@).len() >= 1);
            assert(frames_wf(views(kept@))) by {
                assert forall|j: int| 0 <= j < views(kept@).len() implies (#[trigger] views(
                    kept@,
                )[j]).wf() by {
                    lemma_dedup_frames_wf(
                        views(frames@),
                        overlap as nat,
                        threshold_num as nat,
                        threshold_den as nat,
                    );
                }
            }
        }
        stitch_checked(kept, overlap)
    }
}

/// Every frame the thinning keeps comes from the batch, so it is as well
/// formed as the batch.
proof fn lemma_dedup_rest_wf(last: RasterView, rest: Seq<RasterView>, o: nat, num: nat, den: nat)
    requires
        frames_wf(rest),
    ensures
        frames_wf(dedup_rest(last, rest, o, num, den)),
    decreases rest.len(),
{
    if rest.len() > 0 {
        assert(frames_wf(rest.drop_first())) by {
            assert(forall|j: int|
                0 <= j < rest.drop_first().len() ==> rest.drop_first()[j] == rest[j + 1]);
        }
        if similar_holds(last, rest[0], o, num, den) {
            lemma_dedup_rest_wf(rest[0], rest.drop_first(), o, num, den);
            let d = seq![rest[0]] + dedup_rest(rest[0], rest.drop_first(), o, num, den);
            assert(forall|j: int| 1 <= j < d.len() ==> d[j] == dedup_rest(
                rest[0],
                rest.drop_first(),
                o,
                num,
                den,
            )[j - 1]);
        } else {
            lemma_dedup_rest_wf(last, rest.drop_first(), o, num, den);
        }
    }
}

/// See [`lemma_dedup_rest_wf`], for the whole batch.
proof fn lemma_dedup_frames_wf(fs: Seq<RasterView>, o: nat, num: nat, den: nat)
    requires
        frames_wf(fs),
    ensures
        frames_wf(dedup_spec(fs, o, num, den)),
{
    if fs.len() > 0 {
        assert(frames_wf(fs.drop_first())) by {
            assert(forall|j: int| 0 <= j < fs.drop_first().len() ==> fs.drop_first()[j] == fs[j
                + 1]);
        }
        lemma_dedup_rest_wf(fs[0], fs.drop_first(), o, num, den);
        let d = seq![fs[0]] + dedup_rest(fs[0], fs.drop_first(), o, num, den);
        assert(forall|j: int| 1 <= j < d.len() ==> d[j] == dedup_rest(
            fs[0],
            fs.drop_first(),
            o,
            num,
            den,
        )[j - 1]);
    }
}

} // verus!
