//! An exon: a genomic interval with an optional coding part.
use vstd::prelude::*;
use crate::frame::{Frame, frame_of};
use crate::text::{append_number, decimal, owned};

verus! {

/// An exon, 1-based and inclusive, with an optional coding sub-interval
/// and the reading-frame offset at its coding start.
#[derive(Debug, PartialEq, Eq, Structural)]
pub struct Exon {
    start: u32,
    end: u32,
    cds_start: Option<u32>,
    cds_end: Option<u32>,
    frame_offset: Frame,
}

/// Bounds that make a well-formed exon: `start <= end`, the coding bounds
/// both present or both absent, and if present
/// `start <= cds_start <= cds_end <= end`.
pub open spec fn valid_bounds(start: u32, end: u32, cds_start: Option<u32>, cds_end: Option<u32>) -> bool {
    &&& start <= end
    &&& cds_start.is_some() == cds_end.is_some()
    &&& cds_start.is_some() ==> {
        &&& start <= cds_start.unwrap()
        &&& cds_start.unwrap() <= cds_end.unwrap()
        &&& cds_end.unwrap() <= end
    }
}

impl Exon {
    pub closed spec fn spec_start(&self) -> u32 {
        self.start
    }

    pub closed spec fn spec_end(&self) -> u32 {
        self.end
    }

    pub closed spec fn spec_cds_start(&self) -> Option<u32> {
        self.cds_start
    }

    pub closed spec fn spec_cds_end(&self) -> Option<u32> {
        self.cds_end
    }

    pub closed spec fn spec_frame(&self) -> Frame {
        self.frame_offset
    }

    /// A well-formed exon.
    pub open spec fn wf(&self) -> bool {
        valid_bounds(self.spec_start(), self.spec_end(), self.spec_cds_start(), self.spec_cds_end())
    }

    pub open spec fn spec_is_coding(&self) -> bool {
        self.spec_cds_start().is_some()
    }

    /// The coding bounds are both present and ordered, and the count of
    /// coding bases fits in a `u32`.
    pub open spec fn has_cds(&self) -> bool {
        &&& self.spec_cds_start().is_some()
        &&& self.spec_cds_end().is_some()
        &&& self.spec_cds_start().unwrap() <= self.spec_cds_end().unwrap()
        &&& self.spec_cds_end().unwrap() - self.spec_cds_start().unwrap() < u32::MAX
    }

    /// The number of coding bases.
    pub open spec fn spec_coding_len(&self) -> int {
        if self.spec_is_coding() {
            self.spec_cds_end().unwrap() - self.spec_cds_start().unwrap() + 1
        } else {
            0
        }
    }

    /// The frame at the first base after this exon's coding part.
    pub open spec fn spec_downstream_frame(&self) -> Option<Frame> {
        if self.spec_is_coding() {
            self.spec_frame().sum(frame_of((3 - self.spec_coding_len() % 3) % 3))
        } else {
            None
        }
    }

    pub fn new(
        start: u32,
        end: u32,
        cds_start: Option<u32>,
        cds_end: Option<u32>,
        frame_offset: Frame,
    ) -> (r: Exon)
        ensures
            r.spec_start() == start,
            r.spec_end() == end,
            r.spec_cds_start() == cds_start,
            r.spec_cds_end() == cds_end,
            r.spec_frame() == frame_offset,
            r.wf() == valid_bounds(start, end, cds_start, cds_end),
    {
        Exon { start, end, cds_start, cds_end, frame_offset }
    }

    pub fn start(&self) -> (r: u32)
        ensures
            r == self.spec_start(),
    {
        self.start
    }

    pub fn start_mut(&mut self) -> (r: &mut u32)
        ensures
            *r == old(self).spec_start(),
            final(self).spec_start() == *final(r),
            final(self).spec_end() == old(self).spec_end(),
            final(self).spec_cds_start() == old(self).spec_cds_start(),
            final(self).spec_cds_end() == old(self).spec_cds_end(),
            final(self).spec_frame() == old(self).spec_frame(),
    {
        &mut self.start
    }

    pub fn end(&self) -> (r: u32)
        ensures
            r == self.spec_end(),
    {
        self.end
    }

    pub fn end_mut(&mut self) -> (r: &mut u32)
        ensures
            *r == old(self).spec_end(),
            final(self).spec_end() == *final(r),
            final(self).spec_start() == old(self).spec_start(),
            final(self).spec_cds_start() == old(self).spec_cds_start(),
            final(self).spec_cds_end() == old(self).spec_cds_end(),
            final(self).spec_frame() == old(self).spec_frame(),
    {
        &mut self.end
    }

    pub fn cds_start(&self) -> (r: &Option<u32>)
        ensures
            *r == self.spec_cds_start(),
    {
        &self.cds_start
    }

    pub fn cds_start_mut(&mut self) -> (r: &mut Option<u32>)
        ensures
            *r == old(self).spec_cds_start(),
            final(self).spec_cds_start() == *final(r),
            final(self).spec_start() == old(self).spec_start(),
            final(self).spec_end() == old(self).spec_end(),
            final(self).spec_cds_end() == old(self).spec_cds_end(),
            final(self).spec_frame() == old(self).spec_frame(),
    {
        &mut self.cds_start
    }

    pub fn cds_end(&self) -> (r: &Option<u32>)
        ensures
            *r == self.spec_cds_end(),
    {
        &self.cds_end
    }

    pub fn cds_end_mut(&mut self) -> (r: &mut Option<u32>)
        ensures
            *r == old(self).spec_cds_end(),
            final(self).spec_cds_end() == *final(r),
            final(self).spec_start() == old(self).spec_start(),
            final(self).spec_end() == old(self).spec_end(),
            final(self).spec_cds_start() == old(self).spec_cds_start(),
            final(self).spec_frame() == old(self).spec_frame(),
    {
        &mut self.cds_end
    }

    pub fn frame_offset(&self) -> (r: &Frame)
        ensures
            *r == self.spec_frame(),
    {
        &self.frame_offset
    }

    pub fn frame_offset_mut(&mut self) -> (r: &mut Frame)
        ensures
            *r == old(self).spec_frame(),
            final(self).spec_frame() == *final(r),
            final(self).spec_start() == old(self).spec_start(),
            final(self).spec_end() == old(self).spec_end(),
            final(self).spec_cds_start() == old(self).spec_cds_start(),
            final(self).spec_cds_end() == old(self).spec_cds_end(),
    {
        &mut self.frame_offset
    }

    /// `true` if the exon has a coding part.
    pub fn is_coding(&self) -> (r: bool)
        ensures
            r == self.spec_is_coding(),
    {
        self.cds_start.is_some()
    }

    /// The number of bases, the first one included.
    pub fn len(&self) -> (r: u32)
        requires
            self.spec_start() <= self.spec_end(),
            self.spec_end() - self.spec_start() < u32::MAX,
        ensures
            r == self.spec_end() - self.spec_start() + 1,
    {
        self.end - self.start + 1
    }

    /// An exon always holds at least one base.
    pub fn is_empty(&self) -> (r: bool)
        ensures
            !r,
    {
        false
    }

    /// The number of coding bases, 0 for a non-coding exon.
    pub fn coding_len(&self) -> (r: u32)
        requires
            self.spec_is_coding() ==> self.has_cds(),
        ensures
            r == self.spec_coding_len(),
    {
        match (self.cds_start, self.cds_end) {
            (Some(s), Some(e)) => e - s + 1,
            _ => 0,
        }
    }

    /// The frame offset at the coding base that follows this exon, or
    /// `None` for a non-coding exon or one without a known frame.
    pub fn downstream_frame(&self) -> (r: Option<Frame>)
        requires
            self.spec_is_coding() ==> self.has_cds(),
        ensures
            r == self.spec_downstream_frame(),
    {
        if !self.is_coding() {
            return None;
        }
        let frame = (3 - (self.coding_len() % 3)) % 3;
        let step = match Frame::from_int(frame) {
            Ok(f) => f,
            Err(_) => Frame::Zero,
        };
        match self.frame_offset.add(step) {
            Ok(x) => Some(x),
            Err(_) => None,
        }
    }

    /// `Exon (start-end) [cds_start-cds_end]`, with 0 for absent coding
    /// bounds.
    pub fn to_string(&self) -> (r: String)
        ensures
            r@ == "Exon ("@ + decimal(self.spec_start() as nat) + "-"@ + decimal(
                self.spec_end() as nat,
            ) + ") ["@ + decimal(self.spec_cds_start().unwrap_or(0) as nat) + "-"@ + decimal(
                self.spec_cds_end().unwrap_or(0) as nat,
            ) + "]"@,
    {
        let s = append_number(owned("Exon ("), self.start as u64);
        let s = append_number(s.concat("-"), self.end as u64);
        let cs = match self.cds_start {
            Some(x) => x,
            None => 0,
        };
        let ce = match self.cds_end {
            Some(x) => x,
            None => 0,
        };
        let s = append_number(s.concat(") ["), cs as u64);
        let s = append_number(s.concat("-"), ce as u64);
        s.concat("]")
    }

    pub fn set_frame(&mut self, frame: Frame)
        ensures
            final(self).spec_frame() == frame,
            final(self).spec_start() == old(self).spec_start(),
            final(self).spec_end() == old(self).spec_end(),
            final(self).spec_cds_start() == old(self).spec_cds_start(),
            final(self).spec_cds_end() == old(self).spec_cds_end(),
    {
        self.frame_offset = frame;
    }
}

} // verus!
