//! Pointer hit-testing: which regions the pointer is over, and which of them
//! a press or a held button activates.
use vstd::prelude::*;

use crate::tools::Tools;
use crate::util::Palette;

verus! {

/// What a clickable region stands for.
#[derive(Clone, Copy, Debug)]
pub enum ButtonId {
    Tool(Tools),
    Grid(isize, isize),
    QuickTile(usize),
    QuickColor(Palette),
    Custom(&'static str),
}

/// A rectangle on screen that can be hovered and clicked. `(x, y)` is its
/// bottom-left corner; it covers `w` pixels to the right and `h` upwards.
#[derive(Clone, Copy, Debug)]
pub struct Clickable {
    pub x: i128,
    pub y: i128,
    pub w: i128,
    pub h: i128,
    pub id: ButtonId,
    /// Whether holding the left button over the region activates it, not
    /// only the press itself.
    pub hover_click: bool,
}

/// A clickable region with what the hit-tester remembers of it.
#[derive(Clone, Copy, Debug)]
pub struct Button {
    pub clickable: Clickable,
    /// Whether the pointer was over the region at the last pass.
    pub hover: bool,
    /// Whether the region was activated and the left button has not been
    /// released since.
    pub already_clicked: bool,
}

/// The pointer at one frame.
#[derive(Clone, Copy, Debug)]
pub struct Pointer {
    /// Where the pointer is, in the space of the regions; `None` while it is
    /// outside the window.
    pub position: Option<(i128, i128)>,
    pub just_pressed_left: bool,
    pub just_pressed_right: bool,
    pub pressed_left: bool,
    pub just_released_left: bool,
}

/// The notification that a region was activated: the region's identifier,
/// and whether it was the right button that was pressed.
#[derive(Clone, Copy, Debug)]
pub struct Clicked(pub ButtonId, pub bool);

/// Whether `p` lies among the `len` positions that start at `start`.
pub open spec fn spec_within(start: int, len: int, p: int) -> bool {
    start <= p < start + len
}

fn within(start: i128, len: i128, p: i128) -> (inside: bool)
    ensures
        inside == spec_within(start as int, len as int, p as int),
{
    if p < start || len <= 0 {
        false
    } else if start < 0 {
        p < start + len
    } else {
        p - start < len
    }
}

impl Clickable {
    /// Whether a position lies in the region. The left and bottom edges
    /// belong to the region, the right and top edges to its neighbours.
    pub open spec fn spec_hovered(&self, px: int, py: int) -> bool {
        spec_within(self.x as int, self.w as int, px) && spec_within(
            self.y as int,
            self.h as int,
            py,
        )
    }

    /// Whether a position lies in the region.
    pub fn hovered(&self, px: i128, py: i128) -> (over: bool)
        ensures
            over == self.spec_hovered(px as int, py as int),
    {
        within(self.x, self.w, px) && within(self.y, self.h, py)
    }
}

impl Pointer {
    /// Whether the pointer is over a region.
    pub open spec fn over(&self, region: Clickable) -> bool {
        match self.position {
            Some((px, py)) => region.spec_hovered(px as int, py as int),
            None => false,
        }
    }

    /// Whether a button went down at this frame.
    pub open spec fn press_edge(&self) -> bool {
        self.just_pressed_left || self.just_pressed_right
    }
}

impl Button {
    /// A region that nothing has happened to yet.
    pub fn new(clickable: Clickable) -> (button: Button)
        ensures
            button == (Button { clickable, hover: false, already_clicked: false }),
    {
        Button { clickable, hover: false, already_clicked: false }
    }

    /// Whether the region is activated at this frame: the pointer is over
    /// it, it is not waiting for a release, and either a button went down
    /// or the region asks to be activated while the left button is held,
    /// and it is.
    pub open spec fn activates(&self, pointer: Pointer) -> bool {
        &&& pointer.over(self.clickable)
        &&& !self.already_clicked
        &&& (pointer.press_edge() || (pointer.pressed_left && self.clickable.hover_click))
    }

    /// The region after the frame: hovered if the pointer is over it;
    /// waiting for a release if it was activated now or was waiting already,
    /// unless the left button was released at this frame.
    pub open spec fn step(&self, pointer: Pointer) -> Button {
        Button {
            clickable: self.clickable,
            hover: pointer.over(self.clickable),
            already_clicked: !pointer.just_released_left && (self.already_clicked
                || self.activates(pointer)),
        }
    }

    /// The notification that the region sends at this frame, if it is
    /// activated.
    pub open spec fn notification(&self, pointer: Pointer) -> Option<Clicked> {
        if self.activates(pointer) {
            Some(Clicked(self.clickable.id, pointer.just_pressed_right))
        } else {
            None
        }
    }

    /// Takes the region through one frame and returns its notification.
    pub fn advance(&mut self, pointer: &Pointer) -> (sent: Option<Clicked>)
        ensures
            *final(self) == old(self).step(*pointer),
            sent == old(self).notification(*pointer),
    {
        let over = match pointer.position {
            Some((px, py)) => self.clickable.hovered(px, py),
            None => false,
        };
        let activated = over && !self.already_clicked && (pointer.just_pressed_left
            || pointer.just_pressed_right || (pointer.pressed_left && self.clickable.hover_click));
        self.hover = over;
        self.already_clicked = !pointer.just_released_left && (self.already_clicked || activated);
        if activated {
            Some(Clicked(self.clickable.id, pointer.just_pressed_right))
        } else {
            None
        }
    }
}

/// The notifications of one frame: one for each region that is activated,
/// in the order of the regions.
pub open spec fn clicks(buttons: Seq<Button>, pointer: Pointer) -> Seq<Clicked>
    decreases buttons.len(),
{
    if buttons.len() == 0 {
        Seq::empty()
    } else {
        let before = clicks(buttons.drop_last(), pointer);
        match buttons.last().notification(pointer) {
            Some(clicked) => before.push(clicked),
            None => before,
        }
    }
}

/// One pass of the hit-tester: every region is taken through the frame, and
/// the notifications of those that are activated are returned. Regions that
/// overlap are each activated on their own.
pub fn update(buttons: &mut Vec<Button>, pointer: &Pointer) -> (sent: Vec<Clicked>)
    ensures
        final(buttons)@.len() == old(buttons)@.len(),
        forall|i: int|
            0 <= i < old(buttons)@.len() ==> #[trigger] final(buttons)@[i] == old(buttons)@[i].step(
                *pointer,
            ),
        sent@ == clicks(old(buttons)@, *pointer),
{
    let mut sent: Vec<Clicked> = Vec::new();
    let mut i: usize = 0;
    while i < buttons.len()
        invariant
            0 <= i <= buttons@.len(),
            buttons@.len() == old(buttons)@.len(),
            forall|j: int| 0 <= j < i ==> #[trigger] buttons@[j] == old(buttons)@[j].step(*pointer),
            forall|j: int| i <= j < buttons@.len() ==> #[trigger] buttons@[j] == old(buttons)@[j],
            sent@ == clicks(old(buttons)@.take(i as int), *pointer),
        decreases buttons@.len() - i,
    {
        let mut button = buttons[i];
        let clicked = button.advance(pointer);
        buttons.set(i, button);
        proof {
            let upto = old(buttons)@.take(i as int + 1);
            assert(upto.drop_last() =~= old(buttons)@.take(i as int));
            assert(upto.last() == old(buttons)@[i as int]);
        }
        match clicked {
            Some(c) => {
                sent.push(c);
            },
            None => {},
        }
        i = i + 1;
    }
    proof {
        assert(old(buttons)@.take(i as int) =~= old(buttons)@);
    }
    sent
}

/// A frame sends at most one notification for each region.
pub proof fn lemma_at_most_one_click_each(buttons: Seq<Button>, pointer: Pointer)
    ensures
        clicks(buttons, pointer).len() <= buttons.len(),
    decreases buttons.len(),
{
    if buttons.len() > 0 {
        lemma_at_most_one_click_each(buttons.drop_last(), pointer);
    }
}

/// A region that is activated while the button is held: at a frame at which
/// the pointer is over it and the left button is down, it sends exactly one
/// notification if it is not waiting for a release, and none if it is; and
/// it sends none as soon as the pointer is elsewhere, or no button went down
/// and the left button is up.
pub proof fn lemma_held_region(button: Button, pointer: Pointer)
    requires
        button.clickable.hover_click,
    ensures
        pointer.over(button.clickable) && pointer.pressed_left && !button.already_clicked
            ==> clicks(seq![button], pointer).len() == 1,
        pointer.over(button.clickable) && pointer.pressed_left && !button.already_clicked
            ==> button.notification(pointer) == Some(
            Clicked(button.clickable.id, pointer.just_pressed_right),
        ),
        button.already_clicked ==> clicks(seq![button], pointer).len() == 0,
        !pointer.over(button.clickable) ==> clicks(seq![button], pointer).len() == 0,
        !pointer.pressed_left && !pointer.press_edge() ==> clicks(seq![button], pointer).len() == 0,
{
    let one = seq![button];
    assert(one.drop_last() =~= Seq::<Button>::empty());
    assert(one.last() == button);
    assert(clicks(one.drop_last(), pointer) =~= Seq::<Clicked>::empty());
}

/// A region that is activated by the press only: at a frame at which the
/// pointer is over it and a button goes down, it sends exactly one
/// notification if it is not waiting for a release; at a frame at which no
/// button goes down it sends none, however long the left button is held
/// over it.
pub proof fn lemma_edge_region(button: Button, pointer: Pointer)
    requires
        !button.clickable.hover_click,
    ensures
        pointer.over(button.clickable) && pointer.press_edge() && !button.already_clicked
            ==> clicks(seq![button], pointer).len() == 1,
        !pointer.press_edge() ==> clicks(seq![button], pointer).len() == 0,
        button.already_clicked ==> clicks(seq![button], pointer).len() == 0,
{
    let one = seq![button];
    assert(one.drop_last() =~= Seq::<Button>::empty());
    assert(one.last() == button);
    assert(clicks(one.drop_last(), pointer) =~= Seq::<Clicked>::empty());
}

/// Debouncing: a region that was activated at one frame sends nothing at the
/// next unless the left button was released at the first; and a release
/// ends the waiting wherever the pointer is.
pub proof fn lemma_debounce(button: Button, first: Pointer, second: Pointer)
    ensures
        button.activates(first) && !first.just_released_left ==> !button.step(first).activates(
            second,
        ),
        button.already_clicked && !first.just_released_left ==> button.step(
            first,
        ).already_clicked,
        first.just_released_left ==> !button.step(first).already_clicked,
{
}

} // verus!
