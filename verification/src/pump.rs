//! The pull-driven frame pump: on each demand signal from the downstream
//! sink it derives the frame's timestamp, composites the acquired source
//! frame into a fresh destination buffer, and advances the frame counter.
//!
//! Acquisition itself — talking to the capture collaborator — happens
//! outside; the pump takes the acquisition's outcome as an argument and
//! decides from it alone. When several outputs intersect the target, only
//! the first acquired source frame is composited: a capture spanning
//! several outputs deliberately degrades to the first output's content.

use vstd::prelude::*;

use crate::StreamError;
use crate::compositor::{SourceFrame, composite_into, source_fits};

verus! {

/// Where the pump stands between demand signals. `Producing` is transient
/// inside one call; between calls the pump is idle or terminated.
#[derive(Clone, Copy, PartialEq, Eq, Structural, Debug)]
pub enum PumpPhase {
    Idle,
    Terminated,
}

/// One finished frame, handed by value to the sink and not reused.
pub struct CompositeFrame {
    pub data: Vec<u8>,
    pub width: usize,
    pub height: usize,
    pub stride: usize,
    pub timestamp_ms: u64,
}

/// Per-session pump state: the negotiated frame geometry, the fixed frame
/// duration, and the monotonic frame counter.
pub struct PumpState {
    pub phase: PumpPhase,
    pub frame_index: u64,
    pub frame_duration_ms: u64,
    pub width: usize,
    pub height: usize,
    pub stride: usize,
}

impl PumpState {
    /// The geometry invariant: positive dimensions, rows of at least
    /// `4 * width` bytes, and a destination buffer size that fits.
    pub open spec fn wf(self) -> bool {
        &&& self.width > 0
        &&& self.height > 0
        &&& 4 * self.width <= self.stride
        &&& (self.height as int) * (self.stride as int) <= usize::MAX
    }

    /// A fresh pump: idle, counting from frame zero.
    pub fn new(width: usize, height: usize, stride: usize, frame_duration_ms: u64) -> (r:
        PumpState)
        requires
            width > 0,
            height > 0,
            4 * width <= stride,
            (height as int) * (stride as int) <= usize::MAX,
        ensures
            r.wf(),
            r.phase == PumpPhase::Idle,
            r.frame_index == 0,
            r.frame_duration_ms == frame_duration_ms,
            r.width == width,
            r.height == height,
            r.stride == stride,
    {
        PumpState {
            phase: PumpPhase::Idle,
            frame_index: 0,
            frame_duration_ms,
            width,
            height,
            stride,
        }
    }

    /// Answer one demand signal from the sink.
    ///
    /// `acquisition` is what the capture step delivered: the source frames
    /// for the intersecting outputs in enumeration order, or `None` when
    /// the collaborator failed. On success the pump returns a composite
    /// frame stamped `frame_index * frame_duration_ms` and increments the
    /// counter; on any acquisition failure it terminates and delivers no
    /// frame for the cycle.
    pub fn produce_frame(&mut self, acquisition: Option<Vec<SourceFrame>>) -> (r: Result<
        CompositeFrame,
        StreamError,
    >)
        requires
            old(self).wf(),
            old(self).phase == PumpPhase::Idle,
            old(self).frame_index < u64::MAX,
            (old(self).frame_index as int) * (old(self).frame_duration_ms as int) <= u64::MAX,
        ensures
            final(self).wf(),
            final(self).width == old(self).width,
            final(self).height == old(self).height,
            final(self).stride == old(self).stride,
            final(self).frame_duration_ms == old(self).frame_duration_ms,
            match acquisition {
                Some(srcs) => {
                    if srcs@.len() > 0 && source_fits(
                        &srcs@[0],
                        old(self).width as int,
                        old(self).height as int,
                    ) {
                        &&& final(self).phase == PumpPhase::Idle
                        &&& final(self).frame_index == old(self).frame_index + 1
                        &&& (r matches Ok(f) && {
                            &&& f.width == old(self).width
                            &&& f.height == old(self).height
                            &&& f.stride == old(self).stride
                            &&& f.timestamp_ms == old(self).frame_index * old(
                                self,
                            ).frame_duration_ms
                            &&& f.data@.len() == (old(self).height as int) * (old(
                                self,
                            ).stride as int)
                            &&& (forall|rr: int, k: int|
                                #![trigger rr * (old(self).stride as int) + k]
                                0 <= rr < old(self).height && 0 <= k < 4 * old(self).width
                                    ==> f.data@[rr * (old(self).stride as int) + k]
                                    == srcs@[0].data@[rr * (srcs@[0].stride as int) + k])
                            &&& (forall|i: int|
                                0 <= i < f.data@.len() && i % (old(self).stride as int) >= 4 * old(
                                    self,
                                ).width ==> f.data@[i] == 0)
                        })
                    } else {
                        &&& final(self).phase == PumpPhase::Terminated
                        &&& final(self).frame_index == old(self).frame_index
                        &&& r == Err::<CompositeFrame, StreamError>(StreamError::CaptureFailure)
                    }
                },
                None => {
                    &&& final(self).phase == PumpPhase::Terminated
                    &&& final(self).frame_index == old(self).frame_index
                    &&& r == Err::<CompositeFrame, StreamError>(StreamError::CaptureFailure)
                },
            },
    {
        match acquisition {
            None => {
                self.phase = PumpPhase::Terminated;
                Err(StreamError::CaptureFailure)
            },
            Some(srcs) => {
                if srcs.len() == 0 {
                    self.phase = PumpPhase::Terminated;
                    return Err(StreamError::CaptureFailure);
                }
                let w4 = 4 * self.width;
                let fits = {
                    let first = &srcs[0];
                    let flen = first.data.len();
                    if first.stride < w4 || first.height < self.height {
                        false
                    } else {
                        match (self.height - 1).checked_mul(first.stride) {
                            None => false,
                            Some(rows) => match rows.checked_add(w4) {
                                None => false,
                                Some(need) => need <= flen,
                            },
                        }
                    }
                };
                if !fits {
                    self.phase = PumpPhase::Terminated;
                    return Err(StreamError::CaptureFailure);
                }
                proof {
                    assert(source_fits(&srcs@[0], self.width as int, self.height as int));
                }
                let size = self.height * self.stride;
                let mut data: Vec<u8> = Vec::new();
                while data.len() < size
                    invariant
                        data@.len() <= size,
                        forall|i: int| 0 <= i < data@.len() ==> data@[i] == 0,
                    decreases size - data@.len(),
                {
                    data.push(0u8);
                }
                proof {
                    assert((self.height - 1) * (self.stride as int) + 4 * self.width <= (
                    self.height as int) * (self.stride as int)) by (nonlinear_arith)
                        requires
                            self.height >= 1,
                            4 * self.width <= self.stride,
                    ;
                }
                composite_into(
                    &mut data,
                    self.stride,
                    srcs[0].data.as_slice(),
                    srcs[0].stride,
                    self.width,
                    self.height,
                );
                let ts = self.frame_index * self.frame_duration_ms;
                self.frame_index = self.frame_index + 1;
                Ok(
                    CompositeFrame {
                        data,
                        width: self.width,
                        height: self.height,
                        stride: self.stride,
                        timestamp_ms: ts,
                    },
                )
            },
        }
    }
}

/// Law: with a positive frame duration, later frames carry strictly later
/// timestamps; the timestamp of frame `i` is `i * d` throughout.
pub proof fn lemma_timestamps_strictly_increase(i: u64, j: u64, d: u64)
    requires
        i < j,
        d > 0,
        (j as int) * (d as int) <= u64::MAX,
    ensures
        (i as int) * (d as int) < (j as int) * (d as int),
{
    vstd::arithmetic::mul::lemma_mul_strict_inequality(i as int, j as int, d as int);
}

} // verus!
