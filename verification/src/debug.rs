//! Frame-time bookkeeping for the debug overlay: one pending frame is
//! opened per redraw and filled in phase by phase; finished frames are kept
//! in a bounded history over which the minimum, maximum and average frame
//! times are computed. Durations are measured in nanoseconds; how long a
//! phase takes is up to the machine, so the contracts pin the structure of
//! the history, never the measured values.

use std::collections::VecDeque;
use std::time::Instant;
use vstd::prelude::*;

verus! {

/// How many finished frames the history keeps.
pub const MAX_FRAMES: usize = 360;

/// `std::time::Instant`, declared so that frames can carry their start
/// timestamp; the core reads nothing out of it.
#[verifier::external_type_specification]
#[verifier::external_body]
pub struct ExInstant(Instant);

/// Relies on `std::time::Instant::now`: an opaque monotonic timestamp.
/// Nothing is promised of the value.
#[verifier::external_body]
fn instant_now() -> (r: Instant) {
    Instant::now()
}

/// Relies on `Instant::saturating_duration_since` (zero when `earlier` is
/// the later one) and `Duration::as_nanos`; the count is truncated to 64
/// bits. The measured value depends on the clock, so nothing is promised
/// of it.
#[verifier::external_body]
fn nanos_between(earlier: &Instant, later: &Instant) -> (r: u64) {
    later.saturating_duration_since(*earlier).as_nanos() as u64
}

/// The saturating sum of two nanosecond counts.
pub open spec fn sat_add(a: u64, b: u64) -> u64 {
    if a + b > u64::MAX {
        u64::MAX
    } else {
        (a + b) as u64
    }
}

/// A frame still being filled in: the phases measured so far.
pub struct PendingFrame {
    pub start: Instant,
    pub duration_elements: Option<u64>,
    pub duration_render: Option<u64>,
    pub duration_screencopy: Option<u64>,
    pub duration_displayed: Option<u64>,
}

/// A finished frame: how long each redraw phase took, in nanoseconds.
pub struct Frame {
    pub start: Instant,
    pub duration_elements: u64,
    pub duration_render: u64,
    pub duration_screencopy: Option<u64>,
    pub duration_displayed: u64,
}

impl Frame {
    /// The time the frame took to produce: elements, render and (when one
    /// was taken) screencopy, saturating on overflow.
    pub open spec fn spec_frame_time(self) -> u64 {
        sat_add(
            sat_add(self.duration_elements, self.duration_render),
            match self.duration_screencopy {
                Some(d) => d,
                None => 0u64,
            },
        )
    }

    /// The time from the frame's start until it was displayed.
    pub open spec fn spec_time_to_display(self) -> u64 {
        sat_add(self.spec_frame_time(), self.duration_displayed)
    }

    /// The time the frame took to produce.
    pub fn frame_time(&self) -> (r: u64)
        ensures
            r == self.spec_frame_time(),
    {
        let sc = match self.duration_screencopy {
            Some(d) => d,
            None => 0,
        };
        self.duration_elements.saturating_add(self.duration_render).saturating_add(sc)
    }

    /// The time from the frame's start until it was displayed.
    pub fn time_to_display(&self) -> (r: u64)
        ensures
            r == self.spec_time_to_display(),
    {
        self.frame_time().saturating_add(self.duration_displayed)
    }
}

/// The finished frame a pending one becomes: unmeasured phases count as
/// zero, except the optional screencopy phase, which stays optional;
/// `displayed` is the displayed-phase measurement.
pub open spec fn spec_finish_frame(p: PendingFrame, displayed: u64) -> Frame {
    Frame {
        start: p.start,
        duration_elements: match p.duration_elements {
            Some(d) => d,
            None => 0u64,
        },
        duration_render: match p.duration_render {
            Some(d) => d,
            None => 0u64,
        },
        duration_screencopy: p.duration_screencopy,
        duration_displayed: displayed,
    }
}

/// The saturating sum of the frame times of a history.
pub open spec fn spec_frame_time_sum(s: Seq<Frame>) -> u64
    decreases s.len(),
{
    if s.len() == 0 {
        0u64
    } else {
        sat_add(s[0].spec_frame_time(), spec_frame_time_sum(s.drop_first()))
    }
}

/// The frame-time tracker: at most one pending frame, plus the bounded
/// history of finished frames.
pub struct Fps {
    pub current_frame: Option<PendingFrame>,
    pub frames: VecDeque<Frame>,
}

impl Default for Fps {
    /// No pending frame, empty history.
    fn default() -> (r: Self)
        ensures
            r.current_frame is None,
            r.frames@ == Seq::<Frame>::empty(),
    {
        Fps { current_frame: None, frames: VecDeque::new() }
    }
}

impl Fps {
    /// Open a new pending frame, timestamped now; a frame already pending
    /// is discarded. No phase is measured yet.
    pub fn start(&mut self)
        ensures
            final(self).frames@ == old(self).frames@,
            final(self).current_frame matches Some(p) && p.duration_elements is None
                && p.duration_render is None && p.duration_screencopy is None
                && p.duration_displayed is None,
    {
        self.current_frame = Some(
            PendingFrame {
                start: instant_now(),
                duration_elements: None,
                duration_render: None,
                duration_screencopy: None,
                duration_displayed: None,
            },
        );
    }

    /// Record the element-gathering phase of the pending frame as the time
    /// since the frame started; without a pending frame, do nothing.
    pub fn elements(&mut self)
        ensures
            final(self).frames@ == old(self).frames@,
            old(self).current_frame is None ==> final(self).current_frame
                == old(self).current_frame,
            old(self).current_frame matches Some(p) ==> final(self).current_frame matches Some(q)
                && q.start == p.start && q.duration_elements is Some && q.duration_render
                == p.duration_render && q.duration_screencopy == p.duration_screencopy
                && q.duration_displayed == p.duration_displayed,
    {
        if let Some(frame) = &mut self.current_frame {
            let d = nanos_between(&frame.start, &instant_now());
            frame.duration_elements = Some(d);
        }
    }

    /// Record the render phase: the time since the frame started, less
    /// what the elements phase already took; without a pending frame, do
    /// nothing.
    pub fn render(&mut self)
        ensures
            final(self).frames@ == old(self).frames@,
            old(self).current_frame is None ==> final(self).current_frame
                == old(self).current_frame,
            old(self).current_frame matches Some(p) ==> final(self).current_frame matches Some(q)
                && q.start == p.start && q.duration_elements == p.duration_elements
                && q.duration_render is Some && q.duration_screencopy == p.duration_screencopy
                && q.duration_displayed == p.duration_displayed,
    {
        if let Some(frame) = &mut self.current_frame {
            let elapsed = nanos_between(&frame.start, &instant_now());
            let prior = match frame.duration_elements {
                Some(d) => d,
                None => 0,
            };
            frame.duration_render = Some(elapsed.saturating_sub(prior));
        }
    }

    /// Record the screencopy phase: the time since the frame started, less
    /// the phases already measured; without a pending frame, do nothing.
    pub fn screencopy(&mut self)
        ensures
            final(self).frames@ == old(self).frames@,
            old(self).current_frame is None ==> final(self).current_frame
                == old(self).current_frame,
            old(self).current_frame matches Some(p) ==> final(self).current_frame matches Some(q)
                && q.start == p.start && q.duration_elements == p.duration_elements
                && q.duration_render == p.duration_render && q.duration_screencopy is Some
                && q.duration_displayed == p.duration_displayed,
    {
        if let Some(frame) = &mut self.current_frame {
            let elapsed = nanos_between(&frame.start, &instant_now());
            let prior_elements = match frame.duration_elements {
                Some(d) => d,
                None => 0,
            };
            let prior_render = match frame.duration_render {
                Some(d) => d,
                None => 0,
            };
            frame.duration_screencopy = Some(
                elapsed.saturating_sub(prior_elements).saturating_sub(prior_render),
            );
        }
    }

    /// Close the pending frame: measure the displayed phase, append the
    /// finished frame to the history, and drop the oldest frames so that at
    /// most `MAX_FRAMES` remain. Without a pending frame, do nothing.
    pub fn displayed(&mut self)
        ensures
            old(self).current_frame is None ==> final(self).current_frame
                == old(self).current_frame && final(self).frames@ == old(self).frames@,
            old(self).current_frame matches Some(p) ==> final(self).current_frame is None
                && exists|d: u64|
                {
                    let pushed = old(self).frames@.push(#[trigger] spec_finish_frame(p, d));
                    final(self).frames@ == if pushed.len() > MAX_FRAMES as int {
                        pushed.skip(pushed.len() - MAX_FRAMES as int)
                    } else {
                        pushed
                    }
                },
    {
        let mut taken: Option<PendingFrame> = None;
        core::mem::swap(&mut self.current_frame, &mut taken);
        match taken {
            None => {},
            Some(p) => {
                let elapsed = nanos_between(&p.start, &instant_now());
                let prior_elements = match p.duration_elements {
                    Some(d) => d,
                    None => 0,
                };
                let prior_render = match p.duration_render {
                    Some(d) => d,
                    None => 0,
                };
                let prior_screencopy = match p.duration_screencopy {
                    Some(d) => d,
                    None => 0,
                };
                let displayed_d = elapsed.saturating_sub(prior_elements).saturating_sub(
                    prior_render,
                ).saturating_sub(prior_screencopy);
                let frame = Frame {
                    start: p.start,
                    duration_elements: prior_elements,
                    duration_render: prior_render,
                    duration_screencopy: p.duration_screencopy,
                    duration_displayed: displayed_d,
                };
                proof {
                    assert(frame == spec_finish_frame(p, displayed_d));
                }
                self.frames.push_back(frame);
                let ghost pushed = self.frames@;
                while self.frames.len() > MAX_FRAMES
                    invariant
                        self.current_frame is None,
                        self.frames@ == pushed.skip(pushed.len() - self.frames@.len()),
                        self.frames@.len() <= pushed.len(),
                        pushed.len() > MAX_FRAMES as int ==> self.frames@.len()
                            >= MAX_FRAMES as int,
                        pushed.len() <= MAX_FRAMES as int ==> self.frames@.len() == pushed.len(),
                    decreases self.frames@.len(),
                {
                    proof {
                        let k = pushed.len() - self.frames@.len();
                        assert(pushed.skip(k).drop_first() =~= pushed.skip(k + 1));
                    }
                    self.frames.pop_front();
                }
                proof {
                    assert(self.current_frame is None);
                    if pushed.len() > MAX_FRAMES as int {
                        assert(self.frames@.len() == MAX_FRAMES as int);
                    } else {
                        assert(self.frames@ =~= pushed);
                    }
                    assert(exists|d: u64|
                        final(self).frames@ == {
                            let pu = old(self).frames@.push(#[trigger] spec_finish_frame(p, d));
                            if pu.len() > MAX_FRAMES as int {
                                pu.skip(pu.len() - MAX_FRAMES as int)
                            } else {
                                pu
                            }
                        }) by {
                        assert(final(self).frames@ == {
                            let pu = old(self).frames@.push(spec_finish_frame(p, displayed_d));
                            if pu.len() > MAX_FRAMES as int {
                                pu.skip(pu.len() - MAX_FRAMES as int)
                            } else {
                                pu
                            }
                        });
                    }
                }
            },
        }
    }

    /// The largest frame time of the history, zero when it is empty.
    pub fn max_frametime(&self) -> (r: u64)
        ensures
            self.frames@.len() == 0 ==> r == 0,
            forall|i: int| 0 <= i < self.frames@.len()
                ==> r >= (#[trigger] self.frames@[i]).spec_frame_time(),
            self.frames@.len() > 0 ==> exists|i: int| 0 <= i < self.frames@.len()
                && r == (#[trigger] self.frames@[i]).spec_frame_time(),
    {
        let mut best: u64 = 0;
        let mut k: usize = 0;
        while k < self.frames.len()
            invariant
                0 <= k <= self.frames@.len(),
                k == 0 ==> best == 0,
                forall|i: int| 0 <= i < k ==> best >= (#[trigger] self.frames@[i]).spec_frame_time(),
                k > 0 ==> exists|i: int| 0 <= i < k
                    && best == (#[trigger] self.frames@[i]).spec_frame_time(),
            decreases self.frames@.len() - k,
        {
            let t = self.frames[k].frame_time();
            if k == 0 || t > best {
                best = t;
            }
            k = k + 1;
        }
        best
    }

    /// The smallest frame time of the history, zero when it is empty.
    pub fn min_frametime(&self) -> (r: u64)
        ensures
            self.frames@.len() == 0 ==> r == 0,
            forall|i: int| 0 <= i < self.frames@.len()
                ==> r <= (#[trigger] self.frames@[i]).spec_frame_time(),
            self.frames@.len() > 0 ==> exists|i: int| 0 <= i < self.frames@.len()
                && r == (#[trigger] self.frames@[i]).spec_frame_time(),
    {
        let mut best: u64 = 0;
        let mut k: usize = 0;
        while k < self.frames.len()
            invariant
                0 <= k <= self.frames@.len(),
                k == 0 ==> best == 0,
                forall|i: int| 0 <= i < k ==> best <= (#[trigger] self.frames@[i]).spec_frame_time(),
                k > 0 ==> exists|i: int| 0 <= i < k
                    && best == (#[trigger] self.frames@[i]).spec_frame_time(),
            decreases self.frames@.len() - k,
        {
            let t = self.frames[k].frame_time();
            if k == 0 || t < best {
                best = t;
            }
            k = k + 1;
        }
        best
    }

    /// The average frame time of the history (saturating sum divided by
    /// the frame count), zero when it is empty.
    pub fn avg_frametime(&self) -> (r: u64)
        ensures
            self.frames@.len() == 0 ==> r == 0,
            self.frames@.len() > 0 ==> r == spec_frame_time_sum(self.frames@) as int
                / self.frames@.len() as int,
    {
        if self.frames.len() == 0 {
            return 0;
        }
        let ghost all = self.frames@;
        let mut sum: u64 = 0;
        let mut k: usize = 0;
        proof {
            assert(all.skip(0) =~= all);
        }
        while k < self.frames.len()
            invariant
                0 <= k <= all.len(),
                self.frames@ == all,
                all.len() > 0,
                spec_frame_time_sum(all) == sat_add(sum, spec_frame_time_sum(all.skip(k as int))),
            decreases all.len() - k,
        {
            proof {
                assert(all.skip(k as int)[0] == all[k as int]);
                assert(all.skip(k as int).drop_first() =~= all.skip(k as int + 1));
            }
            sum = sum.saturating_add(self.frames[k].frame_time());
            k = k + 1;
        }
        proof {
            assert(all.skip(k as int).len() == 0);
        }
        sum / (self.frames.len() as u64)
    }
}

} // verus!
