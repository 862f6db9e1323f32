//! A menu of buttons in a row or a column, with spacers between them.
use vstd::prelude::*;
use crate::frame::{FrameId, UIRect};
use crate::manager::{RootManager, RenderRegion};

verus! {

/// A button of a menu: not registered yet, registered as a frame, or none.
pub enum StoredButton<F> {
    Button(F),
    Frame(FrameId),
    Nothing,
}

/// An entry of a menu: a button, or a gap of some length.
pub enum ButtonKind<F> {
    Button(StoredButton<F>),
    Spacer(u32),
}

/// A menu: its background color and its entries, in order.
pub struct ButtonMenu<F> {
    pub background: (u8, u8, u8),
    pub buttons: Vec<ButtonKind<F>>,
}

/// The rectangles of registered buttons laid out from `offset` along the menu:
/// each button is a square as wide as the menu (in a column) or as high (in a
/// row); a spacer moves the next one on by its length; a missing button takes
/// no room. Offsets are 32-bit numbers.
pub open spec fn menu_rects<F>(entries: Seq<ButtonKind<F>>, is_vert: bool, size: UIRect, offset: int) -> Seq<
    (UIRect, FrameId),
>
    decreases entries.len(),
{
    if entries.len() == 0 {
        Seq::empty()
    } else {
        let rest = entries.drop_first();
        match entries[0] {
            ButtonKind::Spacer(space) => menu_rects(rest, is_vert, size, offset + (space as i32)),
            ButtonKind::Button(StoredButton::Frame(id)) => {
                let rect = if is_vert {
                    UIRect { x: 0, y: offset as i32, w: size.w, h: size.w }
                } else {
                    UIRect { x: offset as i32, y: 0, w: size.h, h: size.h }
                };
                seq![(rect, id)] + menu_rects(rest, is_vert, size, offset + (rect.w as i32))
            },
            ButtonKind::Button(_) => menu_rects(rest, is_vert, size, offset),
        }
    }
}

/// The offset reached after laying out the entries from `offset`.
pub open spec fn menu_end<F>(entries: Seq<ButtonKind<F>>, is_vert: bool, size: UIRect, offset: int) -> int
    decreases entries.len(),
{
    if entries.len() == 0 {
        offset
    } else {
        let rest = entries.drop_first();
        match entries[0] {
            ButtonKind::Spacer(space) => menu_end(rest, is_vert, size, offset + (space as i32)),
            ButtonKind::Button(StoredButton::Frame(id)) => menu_end(
                rest,
                is_vert,
                size,
                offset + ((if is_vert { size.w } else { size.h }) as i32),
            ),
            ButtonKind::Button(_) => menu_end(rest, is_vert, size, offset),
        }
    }
}

/// The frames that registering the buttons of `entries` adds, in order: the
/// `k`-th button not registered yet gets id `first + k`.
pub open spec fn new_regions<F>(entries: Seq<ButtonKind<F>>, first: int) -> Seq<RenderRegion<F>>
    decreases entries.len(),
{
    if entries.len() == 0 {
        Seq::empty()
    } else {
        let prev = new_regions(entries.drop_last(), first);
        match entries.last() {
            ButtonKind::Button(StoredButton::Button(f)) => prev.push(
                RenderRegion {
                    id: Some((first + unregistered(entries.drop_last())) as usize),
                    viewport: None,
                    frame: f,
                },
            ),
            _ => prev,
        }
    }
}

/// Laying out two runs of entries one after the other.
pub proof fn lemma_menu_concat<F>(a: Seq<ButtonKind<F>>, b: Seq<ButtonKind<F>>, is_vert: bool, size: UIRect, offset: int)
    ensures
        menu_rects(a + b, is_vert, size, offset) == menu_rects(a, is_vert, size, offset) + menu_rects(
            b,
            is_vert,
            size,
            menu_end(a, is_vert, size, offset),
        ),
        menu_end(a + b, is_vert, size, offset) == menu_end(b, is_vert, size, menu_end(a, is_vert, size, offset)),
    decreases a.len(),
{
    if a.len() == 0 {
        assert(a + b =~= b);
        assert(Seq::<(UIRect, FrameId)>::empty() + menu_rects(b, is_vert, size, offset) =~= menu_rects(
            b,
            is_vert,
            size,
            offset,
        ));
    } else {
        assert((a + b).drop_first() =~= a.drop_first() + b);
        assert((a + b)[0] == a[0]);
        match a[0] {
            ButtonKind::Spacer(space) => {
                lemma_menu_concat(a.drop_first(), b, is_vert, size, offset + (space as i32));
            },
            ButtonKind::Button(StoredButton::Frame(id)) => {
                let rect = if is_vert {
                    UIRect { x: 0, y: offset as i32, w: size.w, h: size.w }
                } else {
                    UIRect { x: offset as i32, y: 0, w: size.h, h: size.h }
                };
                lemma_menu_concat(a.drop_first(), b, is_vert, size, offset + (rect.w as i32));
                let x = menu_rects(a.drop_first(), is_vert, size, offset + (rect.w as i32));
                let y = menu_rects(b, is_vert, size, menu_end(a, is_vert, size, offset));
                assert(seq![(rect, id)] + (x + y) =~= (seq![(rect, id)] + x) + y);
            },
            ButtonKind::Button(_) => {
                lemma_menu_concat(a.drop_first(), b, is_vert, size, offset);
            },
        }
    }
}

/// Whether every offset reached while laying out the entries from `offset` is
/// a 32-bit number.
pub open spec fn menu_in_range<F>(entries: Seq<ButtonKind<F>>, is_vert: bool, size: UIRect, offset: int) -> bool
    decreases entries.len(),
{
    if entries.len() == 0 {
        true
    } else {
        let rest = entries.drop_first();
        let step: int = match entries[0] {
            ButtonKind::Spacer(space) => space as i32 as int,
            ButtonKind::Button(StoredButton::Nothing) => 0,
            ButtonKind::Button(_) => (if is_vert { size.w } else { size.h }) as i32 as int,
        };
        &&& i32::MIN <= offset + step <= i32::MAX
        &&& menu_in_range(rest, is_vert, size, offset + step)
    }
}

/// How many entries are buttons not registered yet.
pub open spec fn unregistered<F>(entries: Seq<ButtonKind<F>>) -> nat
    decreases entries.len(),
{
    if entries.len() == 0 {
        0
    } else {
        (if entries.last() matches ButtonKind::Button(StoredButton::Button(_)) { 1nat } else { 0nat })
            + unregistered(entries.drop_last())
    }
}

/// The entries after registration: the `k`-th button not registered yet, in
/// order, becomes the frame with id `first + k`; the others stay.
pub open spec fn registered<F>(old_e: ButtonKind<F>, new_e: ButtonKind<F>, id: FrameId) -> bool {
    match old_e {
        ButtonKind::Button(StoredButton::Button(_)) => new_e == ButtonKind::<F>::Button(StoredButton::Frame(id)),
        _ => new_e == old_e,
    }
}

impl<F> ButtonMenu<F> {
    /// A menu of the given entries on a light red background.
    pub fn new(buttons: Vec<ButtonKind<F>>) -> (r: Self)
        ensures
            r.background == (255u8, 100u8, 100u8),
            r.buttons@ == buttons@,
    {
        ButtonMenu { background: (255, 100, 100), buttons: buttons }
    }

    /// Lays the menu out in `size`: registers each button not registered yet
    /// with `manager`, in order, and returns the rectangle of each registered
    /// button with its frame id. A menu higher than wide is a column, else a row.
    pub fn render(&mut self, manager: &mut RootManager<F>, size: UIRect) -> (r: Vec<(UIRect, FrameId)>)
        requires
            old(manager).next_id() + unregistered(old(self).buttons@) <= usize::MAX,
            menu_in_range(old(self).buttons@, size.w < size.h, size, 0),
        ensures
            final(self).background == old(self).background,
            final(self).buttons@.len() == old(self).buttons@.len(),
            forall|i: int|
                0 <= i < old(self).buttons@.len() ==> registered(
                    #[trigger] old(self).buttons@[i],
                    final(self).buttons@[i],
                    (old(manager).next_id() + unregistered(old(self).buttons@.take(i))) as FrameId,
                ),
            final(manager).next_id() == old(manager).next_id() + unregistered(old(self).buttons@),
            final(manager).next_window() == old(manager).next_window(),
            final(manager).frames() == old(manager).frames() + new_regions(
                old(self).buttons@,
                old(manager).next_id() as int,
            ),
            r@ == menu_rects(final(self).buttons@, size.w < size.h, size, 0),
    {
        let is_vert = size.w < size.h;
        let mut offset: i32 = 0;
        let mut ret: Vec<(UIRect, FrameId)> = Vec::new();
        let mut buttons: Vec<ButtonKind<F>> = Vec::new();
        std::mem::swap(&mut buttons, &mut self.buttons);
        let ghost old_buttons = buttons@;
        let ghost first = manager.next_id() as int;
        let ghost frames0 = manager.frames();
        let mut done: Vec<ButtonKind<F>> = Vec::new();
        let mut i: usize = 0;
        let n = buttons.len();
        proof {
            assert(old_buttons.take(0) =~= Seq::<ButtonKind<F>>::empty());
            assert(old_buttons.skip(0) =~= old_buttons);
            assert(frames0 + new_regions(old_buttons.take(0), first) =~= frames0);
        }
        while i < n
            invariant
                n == old_buttons.len(),
                i <= n,
                buttons@ == old_buttons.skip(i as int),
                done@.len() == i,
                manager.next_id() == first + unregistered(old_buttons.take(i as int)),
                manager.next_window() == old(manager).next_window(),
                manager.frames() == frames0 + new_regions(old_buttons.take(i as int), first),
                first + unregistered(old_buttons) <= usize::MAX,
                forall|j: int|
                    0 <= j < i ==> registered(
                        #[trigger] old_buttons[j],
                        done@[j],
                        (first + unregistered(old_buttons.take(j))) as FrameId,
                    ),
                offset as int == menu_end(done@, is_vert, size, 0),
                ret@ == menu_rects(done@, is_vert, size, 0),
                menu_in_range(old_buttons.skip(i as int), is_vert, size, offset as int),
                is_vert == (size.w < size.h),
            decreases n - i,
        {
            let e = buttons.remove(0);
            let ghost before_done = done@;
            let ghost before_offset = offset as int;
            proof {
                assert(old_buttons.skip(i as int)[0] == old_buttons[i as int]);
                assert(old_buttons.skip(i as int).drop_first() =~= old_buttons.skip(i + 1));
                lemma_regions_step(old_buttons, i as int, first);
                lemma_unregistered_mono(old_buttons, i + 1, n as int);
            }
            let entry = match e {
                ButtonKind::Spacer(space) => {
                    offset = offset + space as i32;
                    ButtonKind::Spacer(space)
                },
                ButtonKind::Button(sb) => {
                    let sb2 = match sb {
                        StoredButton::Button(f) => {
                            let id = manager.push_frame(RenderRegion::new(f));
                            StoredButton::Frame(id)
                        },
                        StoredButton::Frame(id) => StoredButton::Frame(id),
                        StoredButton::Nothing => StoredButton::Nothing,
                    };
                    match sb2 {
                        StoredButton::Frame(frame_id) => {
                            let rect = if is_vert {
                                UIRect::new(0, offset, size.w, size.w)
                            } else {
                                UIRect::new(offset, 0, size.h, size.h)
                            };
                            offset = offset + rect.w as i32;
                            ret.push((rect, frame_id));
                        },
                        _ => {},
                    }
                    ButtonKind::Button(sb2)
                },
            };
            done.push(entry);
            proof {
                lemma_menu_push(before_done, done@[i as int], is_vert, size);
                assert(before_done.push(done@[i as int]) =~= done@);
                assert(manager.frames() =~= frames0 + new_regions(old_buttons.take(i + 1), first));
            }
            i = i + 1;
        }
        proof {
            assert(old_buttons.take(n as int) =~= old_buttons);
        }
        self.buttons = done;
        ret
    }
}

/// The buttons not registered yet in a prefix are at most those of a longer prefix.
proof fn lemma_unregistered_mono<F>(s: Seq<ButtonKind<F>>, j: int, k: int)
    requires
        0 <= j <= k <= s.len(),
    ensures
        unregistered(s.take(j)) <= unregistered(s.take(k)),
        k == s.len() ==> unregistered(s.take(k)) == unregistered(s),
    decreases k - j,
{
    if k == s.len() {
        assert(s.take(k) =~= s);
    }
    if j < k {
        lemma_unregistered_mono(s, j, k - 1);
        assert(s.take(k).drop_last() =~= s.take(k - 1));
    }
}

/// The room an entry takes in a laid-out menu.
pub open spec fn entry_step<F>(e: ButtonKind<F>, is_vert: bool, size: UIRect) -> int {
    match e {
        ButtonKind::Spacer(space) => space as i32 as int,
        ButtonKind::Button(StoredButton::Frame(_)) => (if is_vert { size.w } else { size.h }) as i32 as int,
        ButtonKind::Button(_) => 0,
    }
}

/// The rectangles an entry gives when laid out at `offset`.
pub open spec fn entry_rects<F>(e: ButtonKind<F>, is_vert: bool, size: UIRect, offset: int) -> Seq<(UIRect, FrameId)> {
    match e {
        ButtonKind::Button(StoredButton::Frame(id)) => seq![
            (if is_vert {
                UIRect { x: 0, y: offset as i32, w: size.w, h: size.w }
            } else {
                UIRect { x: offset as i32, y: 0, w: size.h, h: size.h }
            }, id),
        ],
        _ => Seq::empty(),
    }
}

/// Laying out one more entry at the end.
proof fn lemma_menu_push<F>(a: Seq<ButtonKind<F>>, e: ButtonKind<F>, is_vert: bool, size: UIRect)
    ensures
        menu_end(a.push(e), is_vert, size, 0) == menu_end(a, is_vert, size, 0) + entry_step(e, is_vert, size),
        menu_rects(a.push(e), is_vert, size, 0) == menu_rects(a, is_vert, size, 0) + entry_rects(
            e,
            is_vert,
            size,
            menu_end(a, is_vert, size, 0),
        ),
{
    let single = seq![e];
    lemma_menu_concat(a, single, is_vert, size, 0);
    assert(a + single =~= a.push(e));
    assert(single.drop_first() =~= Seq::<ButtonKind<F>>::empty());
    let o = menu_end(a, is_vert, size, 0);
    reveal_with_fuel(menu_rects, 2);
    reveal_with_fuel(menu_end, 2);
    assert(menu_rects(single, is_vert, size, o) =~= entry_rects(e, is_vert, size, o));
}

/// How many entries are registered buttons.
pub open spec fn button_count<F>(es: Seq<ButtonKind<F>>) -> nat
    decreases es.len(),
{
    if es.len() == 0 {
        0
    } else {
        button_count(es.drop_last()) + (if es.last() matches ButtonKind::Button(StoredButton::Frame(_)) {
            1nat
        } else {
            0nat
        })
    }
}

/// The room the entries take along the menu, summed: a spacer its length, a
/// registered button the menu's width in a column or its height in a row
/// (each read as a 32-bit signed number), a missing button none.
pub open spec fn menu_room<F>(es: Seq<ButtonKind<F>>, is_vert: bool, size: UIRect) -> int
    decreases es.len(),
{
    if es.len() == 0 {
        0
    } else {
        menu_room(es.drop_last(), is_vert, size) + match es.last() {
            ButtonKind::Spacer(space) => space as i32 as int,
            ButtonKind::Button(StoredButton::Frame(_)) => if is_vert {
                size.w as i32 as int
            } else {
                size.h as i32 as int
            },
            ButtonKind::Button(_) => 0int,
        }
    }
}

/// The frame of an entry that is a registered button.
pub open spec fn frame_of<F>(e: ButtonKind<F>) -> Option<FrameId> {
    match e {
        ButtonKind::Button(StoredButton::Frame(id)) => Some(id),
        _ => None,
    }
}

/// Where a rectangle starts along a menu.
pub open spec fn menu_start(r: UIRect, is_vert: bool) -> i32 {
    if is_vert { r.y } else { r.x }
}

/// A prefix holds at most the registered buttons of a longer one, and one
/// more for a registered button where it is one entry longer.
proof fn lemma_button_count_mono<F>(es: Seq<ButtonKind<F>>, j: int, k: int)
    requires
        0 <= j <= k <= es.len(),
    ensures
        button_count(es.take(j)) <= button_count(es.take(k)),
        j < k && frame_of(es[j]) is Some ==> button_count(es.take(j)) + 1 <= button_count(es.take(k)),
        k == es.len() ==> es.take(k) =~= es,
    decreases k - j,
{
    if j < k {
        lemma_button_count_mono(es, j, k - 1);
        assert(es.take(k).drop_last() =~= es.take(k - 1));
        assert(es.take(k).last() == es[k - 1]);
        if j == k - 1 && frame_of(es[j]) is Some {
            assert(es[j] matches ButtonKind::Button(StoredButton::Frame(_)));
        }
    }
}

/// Button `j` of a prefix of `n` entries is laid out after the room the
/// entries before it take.
spec fn placed_in_prefix<F>(es: Seq<ButtonKind<F>>, is_vert: bool, size: UIRect, n: int, j: int) -> bool {
    &&& button_count(es.take(j)) < button_count(es.take(n))
    &&& menu_rects(es.take(n), is_vert, size, 0)[button_count(es.take(j)) as int] == (if is_vert {
        UIRect { x: 0, y: menu_room(es.take(j), is_vert, size) as i32, w: size.w, h: size.w }
    } else {
        UIRect { x: menu_room(es.take(j), is_vert, size) as i32, y: 0, w: size.h, h: size.h }
    }, frame_of(es[j])->0)
}

/// The layout of a prefix of the entries.
proof fn lemma_menu_prefix<F>(es: Seq<ButtonKind<F>>, is_vert: bool, size: UIRect, n: int)
    requires
        0 <= n <= es.len(),
    ensures
        menu_end(es.take(n), is_vert, size, 0) == menu_room(es.take(n), is_vert, size),
        menu_rects(es.take(n), is_vert, size, 0).len() == button_count(es.take(n)),
        forall|j: int|
            0 <= j < n && frame_of(es[j]) is Some ==> #[trigger] placed_in_prefix(es, is_vert, size, n, j),
    decreases n,
{
    if n == 0 {
        assert(es.take(0) =~= Seq::<ButtonKind<F>>::empty());
    } else {
        lemma_menu_prefix(es, is_vert, size, n - 1);
        let a = es.take(n - 1);
        let e = es[n - 1];
        assert(a.push(e) =~= es.take(n));
        assert(es.take(n).drop_last() =~= a);
        lemma_menu_push(a, e, is_vert, size);
        let old_r = menu_rects(a, is_vert, size, 0);
        let new_r = menu_rects(es.take(n), is_vert, size, 0);
        assert forall|j: int|
            0 <= j < n && frame_of(es[j]) is Some implies #[trigger] placed_in_prefix(es, is_vert, size, n, j) by {
            lemma_button_count_mono(es, j, n);
            assert(new_r == old_r + entry_rects(e, is_vert, size, menu_end(a, is_vert, size, 0)));
            if j < n - 1 {
                assert(placed_in_prefix(es, is_vert, size, n - 1, j));
                assert(new_r[button_count(es.take(j)) as int] == old_r[button_count(es.take(j)) as int]);
            } else {
                assert(es.take(j) =~= a);
                assert(e matches ButtonKind::Button(StoredButton::Frame(_)));
            }
        }
    }
}

/// A menu lays its registered buttons out in order, each a square as wide as
/// the menu (in a column) or as high (in a row), across it from its edge:
/// button `j` starts after the room that the entries before it take (see
/// `menu_room`), so a button starts where the one before it ends, moved on
/// by the spacers between them. Where those starts fit 32 bits, the next
/// button starts at the start of the one before plus its side.
pub proof fn lemma_menu_layout<F>(es: Seq<ButtonKind<F>>, is_vert: bool, size: UIRect)
    ensures
        menu_rects(es, is_vert, size, 0).len() == button_count(es),
        forall|j: int|
            0 <= j < es.len() && frame_of(es[j]) is Some ==> #[trigger] menu_rects(
                es,
                is_vert,
                size,
                0,
            )[button_count(es.take(j)) as int] == (if is_vert {
                UIRect { x: 0, y: menu_room(es.take(j), is_vert, size) as i32, w: size.w, h: size.w }
            } else {
                UIRect { x: menu_room(es.take(j), is_vert, size) as i32, y: 0, w: size.h, h: size.h }
            }, frame_of(es[j])->0),
        forall|j: int|
            #![trigger button_count(es.take(j))]
            0 <= j < es.len() - 1 && frame_of(es[j]) is Some && frame_of(es[j + 1]) is Some && i32::MIN <= menu_room(es.take(j), is_vert, size) <= i32::MAX
                && i32::MIN <= menu_room(es.take(j + 1), is_vert, size) <= i32::MAX ==> {
                (button_count(es.take(j)) as int) + 1 < menu_rects(es, is_vert, size, 0).len()
                && menu_start(menu_rects(es, is_vert, size, 0)[button_count(es.take(j)) + 1int].0, is_vert) == menu_start(
                    menu_rects(es, is_vert, size, 0)[button_count(es.take(j)) as int].0,
                    is_vert,
                ) + (menu_rects(es, is_vert, size, 0)[button_count(es.take(j)) as int].0.w as i32)
            },
{
    lemma_menu_prefix(es, is_vert, size, es.len() as int);
    assert(es.take(es.len() as int) =~= es);
    assert forall|j: int| 0 <= j < es.len() && frame_of(es[j]) is Some implies #[trigger] menu_rects(
        es,
        is_vert,
        size,
        0,
    )[button_count(es.take(j)) as int] == (if is_vert {
        UIRect { x: 0, y: menu_room(es.take(j), is_vert, size) as i32, w: size.w, h: size.w }
    } else {
        UIRect { x: menu_room(es.take(j), is_vert, size) as i32, y: 0, w: size.h, h: size.h }
    }, frame_of(es[j])->0) by {
        assert(placed_in_prefix(es, is_vert, size, es.len() as int, j));
    }
    assert forall|j: int|
        #![trigger button_count(es.take(j))]
        0 <= j < es.len() - 1 && frame_of(es[j]) is Some && frame_of(es[j + 1]) is Some && i32::MIN <= menu_room(es.take(j), is_vert, size) <= i32::MAX
            && i32::MIN <= menu_room(es.take(j + 1), is_vert, size) <= i32::MAX implies (
            (button_count(es.take(j)) as int) + 1 < menu_rects(es, is_vert, size, 0).len()
            && menu_start(menu_rects(es, is_vert, size, 0)[button_count(es.take(j)) + 1int].0, is_vert) == menu_start(
                menu_rects(es, is_vert, size, 0)[button_count(es.take(j)) as int].0,
                is_vert,
            ) + (menu_rects(es, is_vert, size, 0)[button_count(es.take(j)) as int].0.w as i32)
        ) by {
        let r = menu_rects(es, is_vert, size, 0);
        lemma_button_count_mono(es, j + 1, es.len() as int);
        assert(placed_in_prefix(es, is_vert, size, es.len() as int, j));
        assert(placed_in_prefix(es, is_vert, size, es.len() as int, j + 1));
        assert(es.take(j + 1).drop_last() =~= es.take(j));
        assert(es.take(j + 1).last() == es[j]);
        assert(button_count(es.take(j + 1)) == button_count(es.take(j)) + 1);
        assert(r[button_count(es.take(j)) as int].0 == (if is_vert {
            UIRect { x: 0, y: menu_room(es.take(j), is_vert, size) as i32, w: size.w, h: size.w }
        } else {
            UIRect { x: menu_room(es.take(j), is_vert, size) as i32, y: 0, w: size.h, h: size.h }
        }));
        assert(r[button_count(es.take(j + 1)) as int].0 == (if is_vert {
            UIRect { x: 0, y: menu_room(es.take(j + 1), is_vert, size) as i32, w: size.w, h: size.w }
        } else {
            UIRect { x: menu_room(es.take(j + 1), is_vert, size) as i32, y: 0, w: size.h, h: size.h }
        }));
    }
}

/// Registering one more entry adds its frame, if it is a button not registered yet.
proof fn lemma_regions_step<F>(old_b: Seq<ButtonKind<F>>, i: int, first: int)
    requires
        0 <= i < old_b.len(),
    ensures
        new_regions(old_b.take(i + 1), first) == (match old_b[i] {
            ButtonKind::Button(StoredButton::Button(f)) => new_regions(old_b.take(i), first).push(
                RenderRegion { id: Some((first + unregistered(old_b.take(i))) as usize), viewport: None, frame: f },
            ),
            _ => new_regions(old_b.take(i), first),
        }),
        unregistered(old_b.take(i + 1)) == unregistered(old_b.take(i)) + (if old_b[i] matches ButtonKind::Button(
            StoredButton::Button(_),
        ) {
            1int
        } else {
            0int
        }),
{
    assert(old_b.take(i + 1).drop_last() =~= old_b.take(i));
    assert(old_b.take(i + 1).last() == old_b[i]);
}

} // verus!
