//! The controls that the overlay shows.
use crate::config::ZoomMovement;
use crate::menu::{
    increment_items, increment_menu, law_movement_menu_marks_current, movement_items,
    movement_menu, Anchor, Choice, MenuItem,
};
use crate::message::ZoomMessage;
use crate::scalar::{Arith, Scalar};
use vstd::prelude::*;

verus! {

/// The step widths that are always offered, in percent.
pub open spec fn preset_increments() -> Seq<u32> {
    seq![25, 50, 100, 150, 200]
}

/// Whether each number is smaller than the ones after it.
pub open spec fn ascending(list: Seq<u32>) -> bool {
    forall|i: int, j: int| 0 <= i < j < list.len() ==> list[i] < list[j]
}

/// Whether `list` offers, in order and once each, the preset step widths and `custom`.
pub open spec fn offers(list: Seq<u32>, custom: u32) -> bool {
    &&& ascending(list)
    &&& forall|value: u32| #[trigger]
        list.contains(value) <==> preset_increments().contains(value) || value == custom
}

/// What the overlay shows.
pub struct ProgramView<S> {
    /// The zoom level.
    pub level: S,
    /// The step widths on offer, in percent.
    pub increments: Seq<u32>,
    /// Which of them is in effect.
    pub increment_idx: int,
    /// The movement in effect.
    pub movement: ZoomMovement,
}

impl<S> ProgramView<S> {
    /// The step width in effect.
    pub open spec fn increment(self) -> u32 {
        self.increments[self.increment_idx]
    }

    /// Whether a step width on offer is in effect, and all that has to be on offer is.
    pub open spec fn valid(self) -> bool {
        &&& 0 <= self.increment_idx < self.increments.len()
        &&& exists|custom: u32| #[trigger] offers(self.increments, custom)
    }
}

impl<S> ProgramView<S> {
    /// What is asked for on a message. A menu takes a seat that is known.
    pub open spec fn asked(self, message: ZoomMessage<S>, seat_known: bool) -> Asked {
        match message {
            ZoomMessage::Decrease => Asked::Step(Direction::Out),
            ZoomMessage::Increase => Asked::Step(Direction::In),
            ZoomMessage::More => if seat_known {
                Asked::Menu { items: movement_items(self.movement), anchor: Anchor::Beside }
            } else {
                Asked::Nothing
            },
            ZoomMessage::Increment => if seat_known {
                Asked::Menu {
                    items: increment_items(self.increments, self.increment_idx),
                    anchor: Anchor::Over,
                }
            } else {
                Asked::Nothing
            },
            ZoomMessage::Close => Asked::Hide,
            ZoomMessage::Update { .. } => Asked::Nothing,
        }
    }

    /// Whether `next` shows what this does once a message has been seen to.
    pub open spec fn leads_to(self, message: ZoomMessage<S>, next: Self) -> bool {
        match message {
            ZoomMessage::Update { level, increment, movement } => {
                &&& next.level == level
                &&& next.movement == movement
                &&& next.increment() == increment
                &&& if self.increments.contains(increment) {
                    next.increments == self.increments
                } else {
                    offers(next.increments, increment)
                }
            },
            _ => next == self,
        }
    }
}

/// The state behind the overlay's controls.
pub struct ZoomProgram<S> {
    level: S,
    increments: Vec<u32>,
    increment_idx: usize,
    movement: ZoomMovement,
}

impl<S> View for ZoomProgram<S> {
    type V = ProgramView<S>;

    closed spec fn view(&self) -> ProgramView<S> {
        ProgramView {
            level: self.level,
            increments: self.increments@,
            increment_idx: self.increment_idx as int,
            movement: self.movement,
        }
    }
}

/// Which way a step changes the zoom level.
#[derive(Clone, Copy, Debug, PartialEq, Eq, Structural)]
pub enum Direction {
    Out,
    In,
}

/// What the overlay asks of the compositor.
#[derive(Debug, PartialEq, Eq)]
pub enum ZoomRequest {
    Nothing,
    /// Change the zoom level by one step.
    Step(Direction),
    /// Open a menu of these items.
    OpenMenu { items: Vec<MenuItem>, anchor: Anchor },
    /// Hide the overlay.
    HideOverlay,
}

/// What a request asks for.
pub enum Asked {
    Nothing,
    Step(Direction),
    Menu { items: Seq<MenuItem>, anchor: Anchor },
    Hide,
}

impl View for ZoomRequest {
    type V = Asked;

    open spec fn view(&self) -> Asked {
        match self {
            ZoomRequest::Nothing => Asked::Nothing,
            ZoomRequest::Step(direction) => Asked::Step(*direction),
            ZoomRequest::OpenMenu { items, anchor } => Asked::Menu {
                items: items@,
                anchor: *anchor,
            },
            ZoomRequest::HideOverlay => Asked::Hide,
        }
    }
}

/// The picture on a button.
#[derive(Clone, Copy, Debug, PartialEq, Eq, Structural)]
pub enum Icon {
    ListRemove,
    ListAdd,
    PanDown,
    ViewMore,
    WindowClose,
}

impl Icon {
    /// The name of the picture in an icon theme.
    pub fn name(self) -> (result: &'static str)
        ensures
            match self {
                Icon::ListRemove => result@ == "list-remove-symbolic"@,
                Icon::ListAdd => result@ == "list-add-symbolic"@,
                Icon::PanDown => result@ == "pan-down-symbolic"@,
                Icon::ViewMore => result@ == "view-more-symbolic"@,
                Icon::WindowClose => result@ == "window-close-symbolic"@,
            },
    {
        match self {
            Icon::ListRemove => "list-remove-symbolic",
            Icon::ListAdd => "list-add-symbolic",
            Icon::PanDown => "pan-down-symbolic",
            Icon::ViewMore => "view-more-symbolic",
            Icon::WindowClose => "window-close-symbolic",
        }
    }
}

/// One of the controls, which stand side by side.
#[derive(Debug, PartialEq)]
pub enum Control<S> {
    /// A button with a picture, and the message that a press sends.
    IconButton { icon: Icon, message: ZoomMessage<S> },
    /// A text that shows a percentage.
    Percent(S),
    /// A button that shows a percentage, followed by a picture, and the message that a press
    /// sends.
    PercentButton { percent: u32, icon: Icon, message: ZoomMessage<S> },
    /// A line between groups of controls.
    Divider,
}

/// The controls that show a state.
pub open spec fn controls_of<S: Scalar>(shown: ProgramView<S>) -> Seq<Control<S>> {
    seq![
        Control::IconButton { icon: Icon::ListRemove, message: ZoomMessage::Decrease },
        Control::Percent(shown.level.times(S::whole(100)).nearest()),
        Control::IconButton { icon: Icon::ListAdd, message: ZoomMessage::Increase },
        Control::Divider,
        Control::PercentButton {
            percent: shown.increment(),
            icon: Icon::PanDown,
            message: ZoomMessage::Increment,
        },
        Control::IconButton { icon: Icon::ViewMore, message: ZoomMessage::More },
        Control::Divider,
        Control::IconButton { icon: Icon::WindowClose, message: ZoomMessage::Close },
    ]
}

/// By how much a step of `increment` percent changes the zoom level.
pub open spec fn step_of<A: Arith>(direction: Direction, increment: u32) -> A {
    let step = A::whole(increment as i64).over(A::whole(100));
    match direction {
        Direction::Out => step.negated(),
        Direction::In => step,
    }
}

/// By how much a step of `increment` percent changes the zoom level.
pub fn zoom_step<S: Scalar>(direction: Direction, increment: u32) -> (result: S)
    ensures
        result == step_of::<S>(direction, increment),
{
    let step = S::from_int(increment as i64).div(S::from_int(100));
    match direction {
        Direction::Out => step.neg(),
        Direction::In => step,
    }
}

fn position(list: &Vec<u32>, value: u32) -> (result: Option<usize>)
    ensures
        match result {
            Some(i) => i < list.len() && list[i as int] == value && !list@.take(
                i as int,
            ).contains(value),
            None => !list@.contains(value),
        },
{
    for i in 0..list.len()
        invariant
            !list@.take(i as int).contains(value),
    {
        if list[i] == value {
            return Some(i);
        }
        assert(list@.take(i + 1) =~= list@.take(i as int).push(list[i as int]));
    }
    assert(list@.take(list.len() as int) =~= list@);
    None
}

/// The step widths to offer when `custom` is in effect, and its place among them.
fn offer(custom: u32) -> (result: (Vec<u32>, usize))
    ensures
        offers(result.0@, custom),
        result.1 < result.0.len(),
        result.0[result.1 as int] == custom,
{
    let mut list: Vec<u32> = vec![25, 50, 100, 150, 200];
    if let Some(i) = position(&list, custom) {
        assert(list@ =~= preset_increments());
        return (list, i);
    }
    let mut place: usize = 0;
    while place < list.len() && list[place] < custom
        invariant
            list@ == preset_increments(),
            !list@.contains(custom),
            place <= list.len(),
            forall|i: int| 0 <= i < place ==> list[i] < custom,
        decreases list.len() - place,
    {
        place = place + 1;
    }
    let ghost presets = list@;
    list.insert(place, custom);
    proof {
        let inserted = list@;
        assert forall|value: u32| #[trigger] inserted.contains(value) <==> presets.contains(value)
            || value == custom by {
            if presets.contains(value) {
                let i = presets.index_of(value);
                assert(inserted[if i < place { i } else { i + 1 }] == value);
            }
            if value == custom {
                assert(inserted[place as int] == value);
            }
            if inserted.contains(value) {
                let i = inserted.index_of(value);
                if i < place {
                    assert(presets[i] == value);
                } else if i > place {
                    assert(presets[i - 1] == value);
                }
            }
        }
    }
    (list, place)
}

impl<S> ZoomProgram<S> {
    #[verifier::type_invariant]
    spec fn inv(self) -> bool {
        self@.valid()
    }
}

impl<S: Scalar> ZoomProgram<S> {
    /// The controls for a state; a step width that is not among the presets is offered too.
    pub fn new(level: S, movement: ZoomMovement, increment: u32) -> (result: Self)
        ensures
            result@.valid(),
            result@.level == level,
            result@.movement == movement,
            offers(result@.increments, increment),
            result@.increment() == increment,
    {
        let (increments, increment_idx) = offer(increment);
        ZoomProgram { level, increments, increment_idx, movement }
    }

    /// The controls to show, from left to right.
    pub fn controls(&self) -> (result: Vec<Control<S>>)
        ensures
            self@.valid(),
            result@ == controls_of(self@),
    {
        proof {
            use_type_invariant(self);
        }
        let mut controls: Vec<Control<S>> = Vec::new();
        controls.push(
            Control::IconButton { icon: Icon::ListRemove, message: ZoomMessage::Decrease },
        );
        controls.push(Control::Percent(self.level.mul(S::from_int(100)).round()));
        controls.push(Control::IconButton { icon: Icon::ListAdd, message: ZoomMessage::Increase });
        controls.push(Control::Divider);
        controls.push(
            Control::PercentButton {
                percent: self.increments[self.increment_idx],
                icon: Icon::PanDown,
                message: ZoomMessage::Increment,
            },
        );
        controls.push(Control::IconButton { icon: Icon::ViewMore, message: ZoomMessage::More });
        controls.push(Control::Divider);
        controls.push(Control::IconButton { icon: Icon::WindowClose, message: ZoomMessage::Close });
        assert(controls@ =~= controls_of(self@));
        controls
    }

    /// Reacts to a message. A menu is opened only where a seat is known to have pressed the
    /// control, which `seat_known` says.
    pub fn update(&mut self, message: ZoomMessage<S>, seat_known: bool) -> (result: ZoomRequest)
        ensures
            old(self)@.valid(),
            final(self)@.valid(),
            result@ == old(self)@.asked(message, seat_known),
            old(self)@.leads_to(message, final(self)@),
            !(message is Update) ==> *final(self) == *old(self),
            match message {
                ZoomMessage::Decrease => result == ZoomRequest::Step(Direction::Out),
                ZoomMessage::Increase => result == ZoomRequest::Step(Direction::In),
                ZoomMessage::More => if seat_known {
                    result matches ZoomRequest::OpenMenu { items, anchor } && items@
                        == movement_items(old(self)@.movement) && anchor == Anchor::Beside
                } else {
                    result is Nothing
                },
                ZoomMessage::Increment => if seat_known {
                    result matches ZoomRequest::OpenMenu { items, anchor } && items@
                        == increment_items(old(self)@.increments, old(self)@.increment_idx)
                        && anchor == Anchor::Over
                } else {
                    result is Nothing
                },
                ZoomMessage::Close => result is HideOverlay,
                ZoomMessage::Update { level, increment, movement } => {
                    &&& result is Nothing
                    &&& final(self)@.level == level
                    &&& final(self)@.movement == movement
                    &&& final(self)@.increment() == increment
                    &&& if old(self)@.increments.contains(increment) {
                        final(self)@.increments == old(self)@.increments
                    } else {
                        offers(final(self)@.increments, increment)
                    }
                },
            },
    {
        proof {
            use_type_invariant(&*self);
        }
        match message {
            ZoomMessage::Decrease => ZoomRequest::Step(Direction::Out),
            ZoomMessage::Increase => ZoomRequest::Step(Direction::In),
            ZoomMessage::More => if seat_known {
                ZoomRequest::OpenMenu {
                    items: movement_menu(self.movement),
                    anchor: Anchor::Beside,
                }
            } else {
                ZoomRequest::Nothing
            },
            ZoomMessage::Increment => if seat_known {
                ZoomRequest::OpenMenu {
                    items: increment_menu(&self.increments, self.increment_idx),
                    anchor: Anchor::Over,
                }
            } else {
                ZoomRequest::Nothing
            },
            ZoomMessage::Close => ZoomRequest::HideOverlay,
            ZoomMessage::Update { level, increment, movement } => {
                self.level = level;
                self.movement = movement;
                if let Some(i) = position(&self.increments, increment) {
                    self.increment_idx = i;
                } else {
                    *self = ZoomProgram::new(level, movement, increment);
                }
                ZoomRequest::Nothing
            },
        }
    }
}

proof fn lemma_same_prefix(a: Seq<u32>, b: Seq<u32>, k: int)
    requires
        ascending(a),
        ascending(b),
        forall|value: u32| #[trigger] a.contains(value) ==> b.contains(value),
        forall|value: u32| #[trigger] b.contains(value) ==> a.contains(value),
        0 <= k <= a.len(),
    ensures
        k <= b.len(),
        a.take(k) == b.take(k),
    decreases k,
{
    if k > 0 {
        lemma_same_prefix(a, b, k - 1);
        let i = k - 1;
        assert(a.contains(a[i]));
        let j = b.index_of(a[i]);
        if j < i {
            assert(a.take(i)[j] == b.take(i)[j]);
        }
        assert(b.contains(b[i]));
        let m = a.index_of(b[i]);
        if m < i {
            assert(a.take(i)[m] == b.take(i)[m]);
        }
        assert(a[i] == b[i]);
        assert(a.take(k) =~= a.take(i).push(a[i]));
        assert(b.take(k) =~= b.take(i).push(b[i]));
    }
}

/// What is on offer is determined by the step width in effect.
pub proof fn law_offer_is_unique(a: Seq<u32>, b: Seq<u32>, custom: u32)
    requires
        offers(a, custom),
        offers(b, custom),
    ensures
        a == b,
{
    lemma_same_prefix(a, b, a.len() as int);
    lemma_same_prefix(b, a, b.len() as int);
    assert(a.take(a.len() as int) =~= a);
    assert(b.take(b.len() as int) =~= b);
}

/// With a preset step width in effect, the presets alone are on offer.
pub proof fn law_presets_suffice(list: Seq<u32>, custom: u32)
    requires
        offers(list, custom),
        preset_increments().contains(custom),
    ensures
        list == preset_increments(),
{
    law_offer_is_unique(list, preset_increments(), custom);
}

/// Whatever is in effect, every preset step width can be chosen, and at most one other.
pub proof fn law_presets_stay_on_offer<S>(shown: ProgramView<S>)
    requires
        shown.valid(),
    ensures
        forall|value: u32| #[trigger]
            preset_increments().contains(value) ==> shown.increments.contains(value),
        forall|i: int, j: int|
            0 <= i < shown.increments.len() && 0 <= j < shown.increments.len()
                && !preset_increments().contains(#[trigger] shown.increments[i])
                && !preset_increments().contains(#[trigger] shown.increments[j]) ==> i == j,
{
    let custom = choose|custom: u32| #[trigger] offers(shown.increments, custom);
    assert forall|value: u32| #[trigger] preset_increments().contains(value) implies
        shown.increments.contains(value) by {
        assert(offers(shown.increments, custom));
    }
    assert forall|i: int, j: int|
        0 <= i < shown.increments.len() && 0 <= j < shown.increments.len()
            && !preset_increments().contains(#[trigger] shown.increments[i])
            && !preset_increments().contains(#[trigger] shown.increments[j]) implies i == j by {
        assert(shown.increments.contains(shown.increments[i]));
        assert(shown.increments.contains(shown.increments[j]));
    }
}

/// The menu of step widths marks one entry: the step width in effect.
pub proof fn law_increment_menu_marks_current<S>(shown: ProgramView<S>, i: int)
    requires
        shown.valid(),
        0 <= i < shown.increments.len(),
    ensures
        increment_items(shown.increments, shown.increment_idx)[i] == (MenuItem::Entry {
            choice: Choice::SetIncrement(shown.increments[i]),
            toggled: shown.increments[i] == shown.increment(),
        }),
{
}

/// The presets are a quarter, a half, one, one and a half and two, in percent.
pub proof fn law_presets(value: u32)
    ensures
        preset_increments().contains(value) <==> value == 25 || value == 50 || value == 100
            || value == 150 || value == 200,
{
    let presets = preset_increments();
    assert(presets[0] == 25 && presets[1] == 50 && presets[2] == 100 && presets[3] == 150
        && presets[4] == 200);
}

/// A step in adds as many hundredths as the step width has percent, and a step out takes off as
/// many.
pub proof fn law_step(increment: u32)
    ensures
        real::whole(100) * step_of::<real>(Direction::In, increment) == increment as int as real,
        step_of::<real>(Direction::Out, increment) + step_of::<real>(Direction::In, increment)
            == 0real,
        increment > 0 ==> step_of::<real>(Direction::Out, increment) < 0real
            < step_of::<real>(Direction::In, increment),
{
    let percent = increment as int as real;
    assert((percent / 100real) * 100real == percent) by (nonlinear_arith);
    assert(100real * (percent / 100real) == (percent / 100real) * 100real) by (nonlinear_arith);
    assert(percent > 0real ==> percent / 100real > 0real) by (nonlinear_arith);
}

/// From the left, the controls zoom out, show the level, zoom in, open the menu of step widths
/// under the one in effect, open the menu of movements, and close the overlay; lines stand behind
/// the third and the last but one.
pub proof fn law_controls<S: Scalar>(shown: ProgramView<S>, seat_known: bool)
    ensures
        ({
            let controls = controls_of(shown);
            &&& controls.len() == 8
            &&& controls[0] matches Control::IconButton { icon, message } && icon is ListRemove
                && message is Decrease && shown.asked(message, seat_known)
                == Asked::Step(Direction::Out)
            &&& controls[1] matches Control::Percent(percent) && percent == shown.level.times(
                S::whole(100),
            ).nearest()
            &&& controls[2] matches Control::IconButton { icon, message } && icon is ListAdd
                && message is Increase && shown.asked(message, seat_known)
                == Asked::Step(Direction::In)
            &&& controls[3] is Divider
            &&& controls[4] matches Control::PercentButton { percent, icon, message } && percent
                == shown.increments[shown.increment_idx] && icon is PanDown && message is Increment
                && (seat_known <==> shown.asked(message, seat_known) is Menu)
            &&& controls[5] matches Control::IconButton { icon, message } && icon is ViewMore
                && message is More && (seat_known <==> shown.asked(message, seat_known) is Menu)
            &&& controls[6] is Divider
            &&& controls[7] matches Control::IconButton { icon, message } && icon is WindowClose
                && message is Close && shown.asked(message, seat_known) is Hide
        }),
{
}

/// A menu is opened only where a seat is known, and it is the one that was called for: that of
/// movements beside the overlay with the present one marked, that of step widths over the one in
/// effect. Other messages open none, and an update asks for nothing.
pub proof fn law_asked<S>(shown: ProgramView<S>, message: ZoomMessage<S>, seat_known: bool)
    ensures
        ({
            let asked = shown.asked(message, seat_known);
            &&& asked is Menu <==> seat_known && (message is More || message is Increment)
            &&& asked matches Asked::Menu { items, anchor } ==> if message is More {
                anchor is Beside && items == movement_items(shown.movement)
            } else {
                anchor is Over && items == increment_items(shown.increments, shown.increment_idx)
            }
            &&& asked is Hide <==> message is Close
            &&& asked is Step <==> message is Increase || message is Decrease
            &&& message is Increase ==> asked == Asked::Step(Direction::In)
            &&& message is Decrease ==> asked == Asked::Step(Direction::Out)
            &&& message is Update ==> asked is Nothing
        }),
{
}

/// What an update says is what is shown from then on: the level, the step width on its button and
/// in its menu, and the movement in the other menu. The step widths on offer change only if
/// the new one is not among them, and then to it and the presets. No other message changes what
/// is shown.
pub proof fn law_update_is_shown<S: Scalar>(
    shown: ProgramView<S>,
    next: ProgramView<S>,
    message: ZoomMessage<S>,
    value: u32,
)
    requires
        shown.leads_to(message, next),
    ensures
        !(message is Update) ==> next == shown,
        message matches ZoomMessage::Update { level, increment, movement } ==> {
            &&& next.level == level
            &&& controls_of(next)[1] == Control::<S>::Percent(level.times(S::whole(100)).nearest())
            &&& controls_of(next)[4] matches Control::PercentButton { percent, .. } && percent
                == increment
            &&& movement_items(next.movement).contains(
                MenuItem::Entry { choice: Choice::SetMovement(movement), toggled: true },
            )
            &&& shown.increments.contains(increment) ==> next.increments == shown.increments
            &&& !shown.increments.contains(increment) ==> (next.increments.contains(value)
                <==> value == increment || value == 25 || value == 50 || value == 100 || value
                == 150 || value == 200)
        },
{
    law_presets(value);
    if message is Update {
        law_movement_menu_marks_current(next.movement, 0);
    }
}

/// A list that offers step widths counts up, and holds the presets and one more at most.
pub proof fn law_offers(list: Seq<u32>, custom: u32, value: u32, i: int, j: int)
    requires
        offers(list, custom),
        0 <= i < j < list.len(),
    ensures
        list[i] < list[j],
        list.contains(value) <==> value == custom || value == 25 || value == 50 || value == 100
            || value == 150 || value == 200,
{
    law_presets(value);
}

} // verus!
