//! Routes mouse events to the window under the pointer, or to the root frame;
//! a focus lock, while set, sends every event to one frame.
use vstd::prelude::*;
use crate::window::{UiEvent, window_contains};
use crate::ui_old::windowframe::{Windowframe, frame_rect, frame_ok};

verus! {

/// What an event does to the focus.
#[derive(Debug, Clone, Copy, PartialEq, Eq, Structural)]
enum FocusState {
    Apply,
    ApplyAndLock,
    Release,
    Nothing,
}

/// Whether an event is routed by position, and what it does to the focus.
#[derive(Debug, Clone, Copy, PartialEq, Eq, Structural)]
enum FocusMutation {
    Ignore,
    Calculate { apply: FocusState },
}

/// A frame of the window manager: a window by its index, the root frame, or none.
#[derive(Debug, Clone, Copy, PartialEq, Eq, Structural)]
pub enum FrameOption {
    SomeWindow(usize),
    SomeRoot,
    Nothing,
}

/// The index of the first window in `frames` that covers `(x, y)`.
pub open spec fn first_hit(frames: Seq<((u32, u32), (u32, u32))>, x: u32, y: u32) -> Option<int>
    decreases frames.len(),
{
    if frames.len() == 0 {
        None
    } else {
        match first_hit(frames.drop_last(), x, y) {
            Some(i) => Some(i),
            None => if window_contains(frame_rect(frames.last().0, frames.last().1), x, y) {
                Some(frames.len() - 1)
            } else {
                None
            },
        }
    }
}

/// The frame an event at `(x, y)` goes to: the locked frame while the lock is
/// set; else the first window that covers the point; else the root frame.
pub open spec fn locked_target(lock: FrameOption, frames: Seq<((u32, u32), (u32, u32))>, x: u32, y: u32) -> FrameOption {
    if !(lock is Nothing) {
        lock
    } else {
        match first_hit(frames, x, y) {
            Some(i) => FrameOption::SomeWindow(i as usize),
            None => FrameOption::SomeRoot,
        }
    }
}

/// The lock after an event routed to `target` with the given effect on focus:
/// a lock request locks the target, a release clears the lock.
spec fn lock_after(lock: FrameOption, target: FrameOption, apply: FocusState) -> FrameOption {
    match apply {
        FocusState::ApplyAndLock => match target {
            FrameOption::SomeWindow(i) => target,
            _ => FrameOption::SomeRoot,
        },
        FocusState::Release => FrameOption::Nothing,
        _ => lock,
    }
}

/// Where the window manager sends an event, and the lock after it: a press
/// is routed by position, a release is routed by position and clears the lock,
/// a motion is routed by position; other events go nowhere.
pub open spec fn event_outcome(lock: FrameOption, frames: Seq<((u32, u32), (u32, u32))>, ev: UiEvent) -> (FrameOption, FrameOption) {
    match ev {
        UiEvent::MouseButtonDown { x, y, .. } => (locked_target(lock, frames, x as u32, y as u32), lock),
        UiEvent::MouseButtonUp { x, y } => (locked_target(lock, frames, x as u32, y as u32), FrameOption::Nothing),
        UiEvent::MouseMotion { x, y, .. } => (locked_target(lock, frames, x as u32, y as u32), lock),
        _ => (FrameOption::Nothing, lock),
    }
}

/// The root frame, the windows over it, and the focus lock.
pub struct WindowManager<C> {
    root: Windowframe<C>,
    windows: Vec<Windowframe<C>>,
    focus_lock: FrameOption,
}

impl<C> WindowManager<C> {
    /// Where each window stands and the size of its content area, in order.
    pub closed spec fn frames(&self) -> Seq<((u32, u32), (u32, u32))> {
        self.windows@.map_values(|w: Windowframe<C>| (w.position, w.inner_size))
    }

    /// The frame under the windows.
    pub closed spec fn root(&self) -> Windowframe<C> {
        self.root
    }

    /// The focus lock.
    pub closed spec fn locked(&self) -> FrameOption {
        self.focus_lock
    }

    /// A locked window is one of the windows.
    pub closed spec fn wf(&self) -> bool {
        self.focus_lock matches FrameOption::SomeWindow(i) ==> i < self.windows@.len()
    }

    /// The sums computed to find the window under a point stay in range.
    pub open spec fn frames_ok(&self) -> bool {
        forall|i: int| 0 <= i < self.frames().len() ==> frame_ok(#[trigger] self.frames()[i].0, self.frames()[i].1)
    }

    /// A window manager over `root`, shown without border, with no window and no lock.
    pub fn new(root: C) -> (r: Self)
        ensures
            r.wf(),
            r.frames() == Seq::<((u32, u32), (u32, u32))>::empty(),
            r.locked() == FrameOption::Nothing,
    {
        let mut root = Windowframe::new(root);
        root.no_border = true;
        let r = WindowManager { root: root, windows: Vec::new(), focus_lock: FrameOption::Nothing };
        assert(r.frames() =~= Seq::<((u32, u32), (u32, u32))>::empty());
        r
    }

    /// Adds a window on top of the others.
    pub fn push_window(&mut self, window: Windowframe<C>)
        requires
            old(self).wf(),
        ensures
            final(self).wf(),
            final(self).frames() == old(self).frames().push((window.position, window.inner_size)),
            final(self).locked() == old(self).locked(),
    {
        let ghost pair = (window.position, window.inner_size);
        self.windows.push(window);
        assert(self.frames() =~= old(self).frames().push(pair));
    }

    /// The number of windows.
    pub fn window_count(&self) -> (r: usize)
        ensures
            r == self.frames().len(),
    {
        self.windows.len()
    }

    /// The root frame.
    pub fn root_mut(&mut self) -> (r: &mut Windowframe<C>)
        ensures
            *r == old(self).root(),
            final(self).root() == *final(r),
            final(self).frames() == old(self).frames(),
            final(self).locked() == old(self).locked(),
            final(self).wf() == old(self).wf(),
    {
        &mut self.root
    }

    /// The window at index `i`, if there is one.
    pub fn window(&self, i: usize) -> (r: Option<&Windowframe<C>>)
        ensures
            r is Some <==> i < self.frames().len(),
            r matches Some(w) ==> (w.position, w.inner_size) == self.frames()[i as int],
    {
        if i < self.windows.len() {
            Some(&self.windows[i])
        } else {
            None
        }
    }

    /// The frame an event at `(x, y)` goes to.
    fn get_locked(&self, x: u32, y: u32) -> (r: FrameOption)
        requires
            self.frames_ok(),
        ensures
            r == locked_target(self.locked(), self.frames(), x, y),
    {
        match self.focus_lock {
            FrameOption::Nothing => {},
            _ => {
                return self.focus_lock;
            },
        }
        let mut i: usize = 0;
        while i < self.windows.len()
            invariant
                i <= self.windows@.len(),
                self.frames_ok(),
                self.frames().len() == self.windows@.len(),
                first_hit(self.frames().take(i as int), x, y) is None,
                self.locked() is Nothing,
            decreases self.windows@.len() - i,
        {
            proof {
                assert(self.frames().take(i as int + 1).drop_last() =~= self.frames().take(i as int));
                assert(self.frames()[i as int] == (self.windows@[i as int].position, self.windows@[i as int].inner_size));
                assert(frame_ok(self.frames()[i as int].0, self.frames()[i as int].1));
            }
            if self.windows[i].contains(x, y) {
                proof {
                    lemma_first_hit_prefix(self.frames(), i as int + 1, x, y);
                }
                return FrameOption::SomeWindow(i);
            }
            i = i + 1;
        }
        assert(self.frames().take(i as int) =~= self.frames());
        FrameOption::SomeRoot
    }

    /// Sends an event to its frame and applies its effect on the focus; returns the frame.
    fn push_event(&mut self, x: i32, y: i32, focus: FocusMutation) -> (r: FrameOption)
        requires
            old(self).wf(),
            old(self).frames_ok(),
        ensures
            final(self).wf(),
            final(self).frames() == old(self).frames(),
            match focus {
                FocusMutation::Ignore => r == FrameOption::SomeRoot && final(self).locked() == old(self).locked(),
                FocusMutation::Calculate { apply } => {
                    let by_coords = locked_target(old(self).locked(), old(self).frames(), x as u32, y as u32);
                    &&& r == (if by_coords is SomeWindow { by_coords } else { FrameOption::SomeRoot })
                    &&& final(self).locked() == lock_after(old(self).locked(), by_coords, apply)
                },
            },
    {
        match focus {
            FocusMutation::Ignore => FrameOption::SomeRoot,
            FocusMutation::Calculate { apply } => {
                let by_coords = self.get_locked(x as u32, y as u32);
                match by_coords {
                    FrameOption::SomeWindow(window_i) => {
                        proof {
                            if !(old(self).locked() is Nothing) {
                                assert(window_i < self.windows@.len());
                            } else {
                                lemma_first_hit_bound(self.frames(), x as u32, y as u32);
                            }
                        }
                        match apply {
                            FocusState::Apply => {
                                self.focus(window_i);
                            },
                            FocusState::ApplyAndLock => {
                                self.focus(window_i);
                                self.lock(by_coords);
                            },
                            FocusState::Release => {
                                self.unlock();
                            },
                            FocusState::Nothing => {},
                        }
                        by_coords
                    },
                    _ => {
                        match apply {
                            FocusState::ApplyAndLock => {
                                self.lock(FrameOption::SomeRoot);
                            },
                            FocusState::Release => {
                                self.unlock();
                            },
                            _ => {},
                        }
                        FrameOption::SomeRoot
                    },
                }
            },
        }
    }

    /// Gives the focus to a window; windows hold no focus state, so nothing changes.
    fn focus(&mut self, window_i: usize)
        ensures
            *final(self) == *old(self),
    {
    }

    fn lock(&mut self, locked: FrameOption)
        requires
            old(self).wf(),
            locked matches FrameOption::SomeWindow(i) ==> i < old(self).windows@.len(),
        ensures
            final(self).wf(),
            final(self).frames() == old(self).frames(),
            final(self).locked() == locked,
    {
        self.focus_lock = locked;
    }

    fn unlock(&mut self)
        requires
            old(self).wf(),
        ensures
            final(self).wf(),
            final(self).frames() == old(self).frames(),
            final(self).locked() == FrameOption::Nothing,
    {
        self.focus_lock = FrameOption::Nothing;
    }

    /// Routes a mouse event: a press, a release or a motion goes to the frame
    /// under the pointer (or the locked one), and a release clears the lock.
    /// Returns the frame the event went to; `Nothing` for other events.
    pub fn handle_event(&mut self, ev: UiEvent) -> (r: FrameOption)
        requires
            old(self).wf(),
            old(self).frames_ok(),
        ensures
            final(self).wf(),
            final(self).frames() == old(self).frames(),
            ({
                let (t, l) = event_outcome(old(self).locked(), old(self).frames(), ev);
                &&& r == (if t is SomeWindow || t is Nothing { t } else { FrameOption::SomeRoot })
                &&& final(self).locked() == l
            }),
    {
        match ev {
            UiEvent::MouseButtonDown { x, y, .. } => self.push_event(
                x,
                y,
                FocusMutation::Calculate { apply: FocusState::Apply },
            ),
            UiEvent::MouseButtonUp { x, y } => self.push_event(
                x,
                y,
                FocusMutation::Calculate { apply: FocusState::Release },
            ),
            UiEvent::MouseMotion { x, y, .. } => self.push_event(
                x,
                y,
                FocusMutation::Calculate { apply: FocusState::Nothing },
            ),
            _ => FrameOption::Nothing,
        }
    }
}

/// A hit found in a prefix is the first hit of the whole.
proof fn lemma_first_hit_prefix(frames: Seq<((u32, u32), (u32, u32))>, n: int, x: u32, y: u32)
    requires
        0 < n <= frames.len(),
        first_hit(frames.take(n - 1), x, y) is None,
        window_contains(frame_rect(frames[n - 1].0, frames[n - 1].1), x, y),
    ensures
        first_hit(frames, x, y) == Some(n - 1),
    decreases frames.len(),
{
    assert(frames.take(n).drop_last() =~= frames.take(n - 1));
    assert(first_hit(frames.take(n), x, y) == Some(n - 1));
    if n < frames.len() {
        assert(frames.drop_last().take(n) =~= frames.take(n));
        assert(frames.drop_last().take(n - 1) =~= frames.take(n - 1));
        lemma_first_hit_prefix(frames.drop_last(), n, x, y);
    } else {
        assert(frames.take(n) =~= frames);
    }
}

/// The first hit is the index of a window.
proof fn lemma_first_hit_bound(frames: Seq<((u32, u32), (u32, u32))>, x: u32, y: u32)
    ensures
        first_hit(frames, x, y) matches Some(i) ==> 0 <= i < frames.len(),
    decreases frames.len(),
{
    if frames.len() > 0 {
        lemma_first_hit_bound(frames.drop_last(), x, y);
    }
}


/// While the lock is set, every mouse event goes to the locked frame, wherever
/// the pointer is.
pub proof fn lemma_lock_holds_events(lock: FrameOption, frames: Seq<((u32, u32), (u32, u32))>, ev: UiEvent)
    requires
        !(lock is Nothing),
        ev is MouseButtonDown || ev is MouseButtonUp || ev is MouseMotion,
    ensures
        event_outcome(lock, frames, ev).0 == lock,
{
}

/// Releasing a mouse button clears the lock, whatever it was.
pub proof fn lemma_release_unlocks(lock: FrameOption, frames: Seq<((u32, u32), (u32, u32))>, x: i32, y: i32)
    ensures
        event_outcome(lock, frames, UiEvent::MouseButtonUp { x, y }).1 == FrameOption::Nothing,
{
}

} // verus!
