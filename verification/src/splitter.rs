//! A frame that splits its area into consecutive slices, one per entry.
use vstd::prelude::*;
use crate::frame::{Frame, FrameId, UIRect};
use crate::window::UiEvent;

verus! {

/// A slice: a frame with a fixed length, or a frame that takes the rest.
#[derive(Debug, Clone, Copy, PartialEq, Eq, Structural)]
pub enum SplitterEntry {
    Static(FrameId, u32),
    Dynamic(FrameId),
}

/// Where the slice after the entries starts: the lengths of the fixed slices
/// summed, each read as a 32-bit signed number.
pub open spec fn split_offset(entries: Seq<SplitterEntry>) -> int
    decreases entries.len(),
{
    if entries.len() == 0 {
        0
    } else {
        split_offset(entries.drop_last()) + match entries.last() {
            SplitterEntry::Static(_, length) => (length as i32) as int,
            SplitterEntry::Dynamic(_) => 0,
        }
    }
}

/// The rectangle of an entry whose slice starts at `d`, in an area of `size`.
pub open spec fn slice_rect(e: SplitterEntry, is_vert: bool, size: UIRect, d: i32) -> (UIRect, FrameId) {
    match e {
        SplitterEntry::Static(id, length) => if is_vert {
            (UIRect { x: 0, y: d, w: size.w, h: length }, id)
        } else {
            (UIRect { x: d, y: 0, w: length, h: size.h }, id)
        },
        SplitterEntry::Dynamic(id) => if is_vert {
            (UIRect { x: 0, y: d, w: size.w, h: (size.h - (d as u32)) as u32 }, id)
        } else {
            (UIRect { x: d, y: 0, w: (size.w - (d as u32)) as u32, h: size.h }, id)
        },
    }
}

/// Whether laying out the entries stays in the range of the integer types:
/// every start of a slice fits 32 bits, and a slice that takes the rest starts
/// inside the area.
pub open spec fn split_in_range(entries: Seq<SplitterEntry>, is_vert: bool, size: UIRect) -> bool {
    &&& forall|i: int| 0 <= i <= entries.len() ==> i32::MIN <= #[trigger] split_offset(entries.take(i)) <= i32::MAX
    &&& forall|i: int|
        0 <= i < entries.len() && #[trigger] entries[i] is Dynamic ==> (if is_vert {
            size.h >= (split_offset(entries.take(i)) as i32) as u32
        } else {
            size.w >= (split_offset(entries.take(i)) as i32) as u32
        })
}

/// Splits its area along one axis.
#[derive(Debug)]
pub struct Splitter {
    pub entries: Vec<SplitterEntry>,
    pub is_vert: bool,
    pub depth: u32,
}

impl Splitter {
    /// A horizontal splitter of depth 100 over the entries.
    pub fn new(entries: Vec<SplitterEntry>) -> (r: Self)
        ensures
            r.entries@ == entries@,
            !r.is_vert,
            r.depth == 100,
    {
        Splitter { entries: entries, is_vert: false, depth: 100 }
    }

    /// The rectangle of each entry inside an area of `size`, in order: slices
    /// follow each other from the origin along the axis, a fixed one as long as
    /// its length, one that takes the rest up to the end of the area.
    pub fn render(&mut self, size: UIRect) -> (r: Vec<(UIRect, FrameId)>)
        requires
            split_in_range(old(self).entries@, old(self).is_vert, size),
        ensures
            *final(self) == *old(self),
            r@.len() == old(self).entries@.len(),
            forall|i: int|
                0 <= i < r@.len() ==> #[trigger] r@[i] == slice_rect(
                    old(self).entries@[i],
                    old(self).is_vert,
                    size,
                    split_offset(old(self).entries@.take(i)) as i32,
                ),
    {
        let mut distance: i32 = 0;
        let is_vert = self.is_vert;
        let mut ret: Vec<(UIRect, FrameId)> = Vec::new();
        let mut i: usize = 0;
        assert(self.entries@.take(0) =~= Seq::<SplitterEntry>::empty());
        while i < self.entries.len()
            invariant
                i <= self.entries@.len(),
                is_vert == self.is_vert,
                *self == *old(self),
                split_in_range(self.entries@, is_vert, size),
                distance as int == split_offset(self.entries@.take(i as int)),
                ret@.len() == i,
                forall|j: int|
                    0 <= j < i ==> #[trigger] ret@[j] == slice_rect(
                        self.entries@[j],
                        is_vert,
                        size,
                        split_offset(self.entries@.take(j)) as i32,
                    ),
            decreases self.entries@.len() - i,
        {
            let entry = self.entries[i];
            assert(self.entries@.take(i + 1).drop_last() =~= self.entries@.take(i as int));
            assert(i32::MIN <= split_offset(self.entries@.take(i + 1)) <= i32::MAX);
            match entry {
                SplitterEntry::Static(frame_id, length) => {
                    let rect = if is_vert {
                        UIRect::new(0, distance, size.w, length)
                    } else {
                        UIRect::new(distance, 0, length, size.h)
                    };
                    distance = distance + length as i32;
                    ret.push((rect, frame_id));
                },
                SplitterEntry::Dynamic(frame_id) => {
                    assert(self.entries@[i as int] is Dynamic);
                    let rect = if is_vert {
                        UIRect::new(0, distance, size.w, size.h - distance as u32)
                    } else {
                        UIRect::new(distance, 0, size.w - distance as u32, size.h)
                    };
                    ret.push((rect, frame_id));
                },
            }
            i = i + 1;
        }
        ret
    }
}

impl Splitter {
    /// Whether laying out the entries in an area of `size` stays in range
    /// (see `split_in_range`).
    pub fn fits_in(&self, size: UIRect) -> (r: bool)
        ensures
            r == split_in_range(self.entries@, self.is_vert, size),
    {
        let mut d: i64 = 0;
        let mut i: usize = 0;
        assert(self.entries@.take(0) =~= Seq::<SplitterEntry>::empty());
        while i < self.entries.len()
            invariant
                i <= self.entries@.len(),
                d as int == split_offset(self.entries@.take(i as int)),
                forall|j: int| 0 <= j <= i ==> i32::MIN <= #[trigger] split_offset(self.entries@.take(j)) <= i32::MAX,
                forall|j: int|
                    0 <= j < i && #[trigger] self.entries@[j] is Dynamic ==> (if self.is_vert {
                        size.h >= (split_offset(self.entries@.take(j)) as i32) as u32
                    } else {
                        size.w >= (split_offset(self.entries@.take(j)) as i32) as u32
                    }),
            decreases self.entries@.len() - i,
        {
            assert(self.entries@.take(i + 1).drop_last() =~= self.entries@.take(i as int));
            match self.entries[i] {
                SplitterEntry::Static(_, length) => {
                    let nd: i64 = d + (length as i32) as i64;
                    assert(split_offset(self.entries@.take(i + 1)) == nd);
                    if nd < i32::MIN as i64 || nd > i32::MAX as i64 {
                        return false;
                    }
                    d = nd;
                },
                SplitterEntry::Dynamic(_) => {
                    let room = if self.is_vert { size.h } else { size.w };
                    if room < (d as i32) as u32 {
                        assert(self.entries@[i as int] is Dynamic);
                        return false;
                    }
                },
            }
            i = i + 1;
        }
        assert(self.entries@.take(i as int) =~= self.entries@);
        true
    }
}

/// Where a rectangle starts along the axis of a splitter.
pub open spec fn start_along(r: UIRect, is_vert: bool) -> i32 {
    if is_vert { r.y } else { r.x }
}

/// How long a rectangle is along the axis of a splitter.
pub open spec fn length_along(r: UIRect, is_vert: bool) -> u32 {
    if is_vert { r.h } else { r.w }
}

/// The slices of a splitter that can be laid out in `size` follow each other
/// along its axis from the origin: the first starts at 0, and each next one
/// starts where the one before it ends, a slice that takes the rest moving it
/// by nothing. Each slice is its entry's frame, spans the whole area across
/// the axis, and is as long as its length when fixed, or reaches the end of
/// the area when it takes the rest.
pub proof fn lemma_splitter_slices(s: Splitter, size: UIRect)
    requires
        s.can_render(size),
    ensures
        s.layout(size).len() == s.entries@.len(),
        s.entries@.len() > 0 ==> start_along(s.layout(size)[0].0, s.is_vert) == 0,
        forall|i: int|
            0 <= i < s.entries@.len() - 1 ==> start_along(#[trigger] s.layout(size)[i + 1].0, s.is_vert) == start_along(
                s.layout(size)[i].0,
                s.is_vert,
            ) + match s.entries@[i] {
                SplitterEntry::Static(_, length) => (length as i32) as int,
                SplitterEntry::Dynamic(_) => 0int,
            },
        forall|i: int|
            0 <= i < s.entries@.len() ==> {
                let (r, id) = #[trigger] s.layout(size)[i];
                &&& (if s.is_vert { r.x == 0 && r.w == size.w } else { r.y == 0 && r.h == size.h })
                &&& match s.entries@[i] {
                    SplitterEntry::Static(f, length) => id == f && length_along(r, s.is_vert) == length,
                    SplitterEntry::Dynamic(f) => id == f && length_along(r, s.is_vert) == (length_along(
                        size,
                        s.is_vert,
                    ) - (start_along(r, s.is_vert) as u32)) as u32,
                }
            },
{
    let es = s.entries@;
    assert(es.take(0) =~= Seq::<SplitterEntry>::empty());
    assert forall|i: int| 0 <= i < es.len() - 1 implies start_along(#[trigger] s.layout(size)[i + 1].0, s.is_vert)
        == start_along(s.layout(size)[i].0, s.is_vert) + match es[i] {
        SplitterEntry::Static(_, length) => (length as i32) as int,
        SplitterEntry::Dynamic(_) => 0int,
    } by {
        assert(es.take(i + 1).drop_last() =~= es.take(i));
        assert(es.take(i + 1).last() == es[i]);
        assert(i32::MIN <= split_offset(es.take(i)) <= i32::MAX);
        assert(i32::MIN <= split_offset(es.take(i + 1)) <= i32::MAX);
    }
    assert forall|i: int| 0 <= i < es.len() implies {
        let (r, id) = #[trigger] s.layout(size)[i];
        &&& (if s.is_vert { r.x == 0 && r.w == size.w } else { r.y == 0 && r.h == size.h })
        &&& match es[i] {
            SplitterEntry::Static(f, length) => id == f && length_along(r, s.is_vert) == length,
            SplitterEntry::Dynamic(f) => id == f && length_along(r, s.is_vert) == (length_along(size, s.is_vert) - (
            start_along(r, s.is_vert) as u32)) as u32,
        }
    } by {
        assert(i32::MIN <= split_offset(es.take(i)) <= i32::MAX);
    }
}

impl Frame for Splitter {
    open spec fn can_render(&self, size: UIRect) -> bool {
        split_in_range(self.entries@, self.is_vert, size)
    }

    /// Each entry's slice, in order (see `slice_rect`).
    open spec fn layout(&self, size: UIRect) -> Seq<(UIRect, FrameId)> {
        Seq::new(
            self.entries@.len(),
            |i: int| slice_rect(self.entries@[i], self.is_vert, size, split_offset(self.entries@.take(i)) as i32),
        )
    }

    /// A splitter takes every event, and nothing changes.
    open spec fn accepts(&self, ev: UiEvent) -> bool {
        true
    }

    open spec fn after_event(&self, ev: UiEvent) -> Splitter {
        *self
    }

    fn takes(&self, ev: UiEvent) -> (r: bool) {
        true
    }

    fn handle_event(&mut self, ev: UiEvent) {
    }

    fn fits(&self, size: UIRect) -> (r: bool) {
        self.fits_in(size)
    }

    /// See `Splitter::render`.
    fn render(&mut self, size: UIRect) -> (r: Vec<(UIRect, FrameId)>)
        ensures
            *final(self) == *old(self),
            r@.len() == old(self).entries@.len(),
    {
        let r = Splitter::render(self, size);
        assert(r@ =~= self.layout(size));
        r
    }
}

} // verus!
