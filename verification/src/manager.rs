//! The registry of the frames of the user interface: each frame gets an id
//! when it is registered, and is found, borrowed or taken out by it.
use vstd::prelude::*;
use crate::frame::{FrameId, UIRect};
use crate::window::{Window, WindowId};

verus! {

/// A registered frame: its id once it has one, the part of the screen it was
/// last shown in, and the frame itself.
pub struct RenderRegion<F> {
    pub id: Option<FrameId>,
    pub viewport: Option<UIRect>,
    pub frame: F,
}

impl<F> RenderRegion<F> {
    /// A frame not registered yet.
    pub fn new(frame: F) -> (r: Self)
        ensures
            r.id is None,
            r.viewport is None,
            r.frame == frame,
    {
        RenderRegion { id: None, viewport: None, frame: frame }
    }
}

/// The index of the first region with id `id`.
pub open spec fn first_with_frame_id<F>(frames: Seq<RenderRegion<F>>, id: FrameId) -> Option<int> {
    if exists|i: int| 0 <= i < frames.len() && frames[i].id == Some(id) {
        Some(
            choose|i: int|
                0 <= i < frames.len() && frames[i].id == Some(id) && forall|j: int|
                    0 <= j < i ==> frames[j].id != Some(id),
        )
    } else {
        None
    }
}

/// Below a frame with id `id` at `k` there is a first frame with that id.
proof fn lemma_first_frame_exists<F>(frames: Seq<RenderRegion<F>>, id: FrameId, k: int)
    requires
        0 <= k < frames.len(),
        frames[k].id == Some(id),
    ensures
        exists|i: int|
            0 <= i < frames.len() && frames[i].id == Some(id) && forall|j: int| 0 <= j < i ==> frames[j].id != Some(id),
    decreases k,
{
    if exists|j: int| 0 <= j < k && frames[j].id == Some(id) {
        let j = choose|j: int| 0 <= j < k && frames[j].id == Some(id);
        lemma_first_frame_exists(frames, id, j);
    } else {
        assert(forall|j: int| 0 <= j < k ==> frames[j].id != Some(id));
    }
}

/// The first frame with id `id`, where there is one, has that id.
pub proof fn lemma_first_with_frame_id<F>(frames: Seq<RenderRegion<F>>, id: FrameId)
    ensures
        first_with_frame_id(frames, id) matches Some(i) ==> 0 <= i < frames.len() && frames[i].id == Some(id),
{
    if exists|i: int| 0 <= i < frames.len() && frames[i].id == Some(id) {
        let k = choose|i: int| 0 <= i < frames.len() && frames[i].id == Some(id);
        lemma_first_frame_exists(frames, id, k);
    }
}

/// The ids of the frames that have one, in order.
pub open spec fn registered_ids<F>(frames: Seq<RenderRegion<F>>) -> Seq<FrameId>
    decreases frames.len(),
{
    if frames.len() == 0 {
        Seq::empty()
    } else {
        registered_ids(frames.drop_last()) + match frames.last().id {
            Some(id) => seq![id],
            None => Seq::<FrameId>::empty(),
        }
    }
}

/// Where frames are registered.
pub trait Manager<F> {
    /// Whether a frame without an id can still be given one.
    spec fn can_number(&self) -> bool;

    fn push_frame(&mut self, frame: RenderRegion<F>) -> FrameId
        requires
            frame.id is Some || old(self).can_number(),
    ;

    fn borrow_frame_by_id(&mut self, id: FrameId) -> Option<&mut RenderRegion<F>>;

    fn take_frame_by_id(&mut self, id: FrameId) -> Option<RenderRegion<F>>;
}

/// The registry of the frames of the interface, with the next ids to give out.
pub struct RootManager<F> {
    frames: Vec<RenderRegion<F>>,
    next_frame_id: FrameId,
    next_window_id: WindowId,
}

/// The regions after the one at `i` is taken out, the last one taking its place.
pub open spec fn swap_removed<F>(frames: Seq<RenderRegion<F>>, i: int) -> Seq<RenderRegion<F>> {
    frames.update(i, frames.last()).drop_last()
}

impl<F> RootManager<F> {
    pub closed spec fn frames(&self) -> Seq<RenderRegion<F>> {
        self.frames@
    }

    /// The id the next frame without one gets.
    pub closed spec fn next_id(&self) -> FrameId {
        self.next_frame_id
    }

    /// The id the next window gets.
    pub closed spec fn next_window(&self) -> WindowId {
        self.next_window_id
    }

    /// An empty registry; ids start from 0.
    pub fn new() -> (r: Self)
        ensures
            r.frames() == Seq::<RenderRegion<F>>::empty(),
            r.next_id() == 0,
            r.next_window() == 0,
    {
        RootManager { frames: Vec::new(), next_frame_id: 0, next_window_id: 0 }
    }

    /// The id the next frame without one gets.
    pub fn next_frame_id(&self) -> (r: FrameId)
        ensures
            r == self.next_id(),
    {
        self.next_frame_id
    }

    /// The ids of the registered frames, in order (see `registered_ids`).
    pub fn frame_ids(&self) -> (r: Vec<FrameId>)
        ensures
            r@ == registered_ids(self.frames()),
    {
        let mut r: Vec<FrameId> = Vec::new();
        let mut i: usize = 0;
        while i < self.frames.len()
            invariant
                i <= self.frames@.len(),
                r@ == registered_ids(self.frames@.take(i as int)),
            decreases self.frames@.len() - i,
        {
            assert(self.frames@.take(i + 1).drop_last() =~= self.frames@.take(i as int));
            match self.frames[i].id {
                Some(id) => {
                    r.push(id);
                },
                None => {},
            }
            assert(r@ =~= registered_ids(self.frames@.take(i + 1)));
            i = i + 1;
        }
        assert(self.frames@.take(i as int) =~= self.frames@);
        r
    }

    /// The id the next window gets.
    pub fn next_window_id(&self) -> (r: WindowId)
        ensures
            r == self.next_window(),
    {
        self.next_window_id
    }

    /// Registers `frame`; one without an id gets the next id. Returns its id.
    pub fn push_frame(&mut self, frame: RenderRegion<F>) -> (r: FrameId)
        requires
            frame.id is None ==> old(self).next_id() < usize::MAX,
        ensures
            r == (match frame.id {
                Some(id) => id,
                None => old(self).next_id(),
            }),
            final(self).next_id() == (if frame.id is None {
                (old(self).next_id() + 1) as usize
            } else {
                old(self).next_id()
            }),
            final(self).next_window() == old(self).next_window(),
            final(self).frames() == old(self).frames().push(
                RenderRegion { id: Some(r), viewport: frame.viewport, frame: frame.frame },
            ),
    {
        let mut frame = frame;
        let needs_id = frame.id.is_none();
        let ret = if needs_id {
            frame.id = Some(self.next_frame_id);
            self.next_frame_id = self.next_frame_id + 1;
            self.next_frame_id - 1
        } else {
            frame.id.unwrap()
        };
        self.frames.push(frame);
        ret
    }

    /// The index of the first frame with id `id`.
    fn find_frame(&self, id: FrameId) -> (r: Option<usize>)
        ensures
            r matches Some(i) ==> first_with_frame_id(self.frames@, id) == Some(i as int) && i < self.frames@.len(),
            r is None ==> first_with_frame_id(self.frames@, id) is None,
    {
        let mut i: usize = 0;
        while i < self.frames.len()
            invariant
                i <= self.frames@.len(),
                forall|j: int| 0 <= j < i ==> self.frames@[j].id != Some(id),
            decreases self.frames@.len() - i,
        {
            if self.frames[i].id == Some(id) {
                proof {
                    let c = choose|c: int|
                        0 <= c < self.frames@.len() && self.frames@[c].id == Some(id) && forall|j: int|
                            0 <= j < c ==> self.frames@[j].id != Some(id);
                    assert(c == i) by {
                        if c < i {
                            assert(self.frames@[c].id != Some(id));
                        }
                        if c > i {
                            assert(self.frames@[i as int].id == Some(id));
                        }
                    }
                }
                return Some(i);
            }
            i = i + 1;
        }
        None
    }

    /// The first frame with id `id`.
    pub fn frame_by_id(&self, id: FrameId) -> (r: Option<&RenderRegion<F>>)
        ensures
            match first_with_frame_id(self.frames(), id) {
                Some(i) => r == Some(&self.frames()[i]),
                None => r is None,
            },
    {
        match self.find_frame(id) {
            Some(i) => Some(&self.frames[i]),
            None => None,
        }
    }

    /// The first frame with id `id`, for change in place.
    pub fn borrow_frame_by_id(&mut self, id: FrameId) -> (r: Option<&mut RenderRegion<F>>)
        ensures
            final(self).next_id() == old(self).next_id(),
            final(self).next_window() == old(self).next_window(),
            match first_with_frame_id(old(self).frames(), id) {
                Some(i) => r matches Some(m) && *m == old(self).frames()[i] && final(self).frames()
                    == old(self).frames().update(i, *final(m)),
                None => r is None && final(self).frames() == old(self).frames(),
            },
    {
        match self.find_frame(id) {
            Some(i) => Some(&mut self.frames[i]),
            None => None,
        }
    }

    /// Takes the first frame with id `id` out; the last frame takes its place.
    pub fn take_frame_by_id(&mut self, id: FrameId) -> (r: Option<RenderRegion<F>>)
        ensures
            final(self).next_id() == old(self).next_id(),
            final(self).next_window() == old(self).next_window(),
            match first_with_frame_id(old(self).frames(), id) {
                Some(i) => r == Some(old(self).frames()[i]) && final(self).frames() == swap_removed(
                    old(self).frames(),
                    i,
                ),
                None => r is None && final(self).frames() == old(self).frames(),
            },
    {
        match self.find_frame(id) {
            Some(i) => {
                let f = self.frames.swap_remove(i);
                assert(self.frames@ =~= swap_removed(old(self).frames(), i as int));
                Some(f)
            },
            None => None,
        }
    }

    /// Registers `frame` as the content of a new window, and makes the window.
    pub fn create_window(&mut self, frame: F) -> (r: Window)
        requires
            old(self).next_id() < usize::MAX,
            old(self).next_window() < i32::MAX,
        ensures
            r.id == old(self).next_window(),
            r.content == old(self).next_id(),
            !r.no_border,
            r.size == (UIRect { x: 30, y: 30, w: 380, h: 175 }),
            final(self).next_id() == old(self).next_id() + 1,
            final(self).next_window() == old(self).next_window() + 1,
            final(self).frames() == old(self).frames().push(
                RenderRegion { id: Some(old(self).next_id()), viewport: None, frame: frame },
            ),
    {
        let frame_id = self.push_frame(RenderRegion::new(frame));
        self.next_window_id = self.next_window_id + 1;
        Window::new(self.next_window_id - 1, frame_id)
    }
}

impl<F> Manager<F> for RootManager<F> {
    open spec fn can_number(&self) -> bool {
        self.next_id() < usize::MAX
    }

    /// See `RootManager::push_frame`.
    fn push_frame(&mut self, frame: RenderRegion<F>) -> (r: FrameId)
        ensures
            r == (match frame.id {
                Some(id) => id,
                None => old(self).next_id(),
            }),
            final(self).next_id() == (if frame.id is None {
                (old(self).next_id() + 1) as usize
            } else {
                old(self).next_id()
            }),
            final(self).next_window() == old(self).next_window(),
            final(self).frames() == old(self).frames().push(
                RenderRegion { id: Some(r), viewport: frame.viewport, frame: frame.frame },
            ),
    {
        RootManager::push_frame(self, frame)
    }

    /// See `RootManager::borrow_frame_by_id`.
    fn borrow_frame_by_id(&mut self, id: FrameId) -> (r: Option<&mut RenderRegion<F>>)
        ensures
            final(self).next_id() == old(self).next_id(),
            final(self).next_window() == old(self).next_window(),
            match first_with_frame_id(old(self).frames(), id) {
                Some(i) => r matches Some(m) && *m == old(self).frames()[i] && final(self).frames()
                    == old(self).frames().update(i, *final(m)),
                None => r is None && final(self).frames() == old(self).frames(),
            },
    {
        RootManager::borrow_frame_by_id(self, id)
    }

    /// See `RootManager::take_frame_by_id`.
    fn take_frame_by_id(&mut self, id: FrameId) -> (r: Option<RenderRegion<F>>)
        ensures
            final(self).next_id() == old(self).next_id(),
            final(self).next_window() == old(self).next_window(),
            match first_with_frame_id(old(self).frames(), id) {
                Some(i) => r == Some(old(self).frames()[i]) && final(self).frames() == swap_removed(
                    old(self).frames(),
                    i,
                ),
                None => r is None && final(self).frames() == old(self).frames(),
            },
    {
        RootManager::take_frame_by_id(self, id)
    }
}


/// A frame registered under an id that no other frame has is the one that
/// taking out that id gives back, and taking it out leaves the registry as it
/// was before.
pub proof fn lemma_take_after_push<F>(frames: Seq<RenderRegion<F>>, region: RenderRegion<F>, id: FrameId)
    requires
        forall|i: int| 0 <= i < frames.len() ==> frames[i].id != Some(id),
        region.id == Some(id),
    ensures
        first_with_frame_id(frames.push(region), id) == Some(frames.len() as int),
        swap_removed(frames.push(region), frames.len() as int) == frames,
{
    let s = frames.push(region);
    assert(s[frames.len() as int].id == Some(id));
    let c = choose|c: int| 0 <= c < s.len() && s[c].id == Some(id) && forall|j: int| 0 <= j < c ==> s[j].id != Some(id);
    assert(c == frames.len()) by {
        if c < frames.len() {
            assert(s[c] == frames[c]);
        }
    }
    assert(swap_removed(s, frames.len() as int) =~= frames);
}


} // verus!
