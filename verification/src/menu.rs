//! The menus that the overlay opens, and what their entries do.
use crate::config::{ZoomConfig, ZoomMovement};
use crate::geometry::{point, Global, Local, Output, Point, Size};
use crate::label::{percent_label, percentage};
use crate::output_zoom::{overlay_area, overlay_scale, overlay_scale_of, OutputZoomState};
use crate::scalar::Scalar;
use vstd::prelude::*;

verus! {

/// What an entry of a menu does when it is chosen.
#[derive(Clone, Copy, Debug, PartialEq, Eq, Structural)]
pub enum Choice {
    SetMovement(ZoomMovement),
    SetIncrement(u32),
    OpenSettings,
}

/// An item of a menu.
#[derive(Clone, Copy, Debug, PartialEq, Eq, Structural)]
pub enum MenuItem {
    Entry { choice: Choice, toggled: bool },
    Separator,
}

/// The text of an entry.
#[derive(Debug, PartialEq, Eq)]
pub enum Title {
    /// The identifier of a text in the user's language.
    Translated(&'static str),
    /// The text itself.
    Literal(String),
}

/// In which order changed settings are stored and put into effect.
#[derive(Clone, Copy, Debug, PartialEq, Eq, Structural)]
pub enum Commit {
    StoreThenApply,
    ApplyThenStore,
}

/// What follows from a choice.
#[derive(Clone, Copy, Debug, PartialEq, Eq)]
pub enum Outcome {
    /// The settings are to be these.
    Configure { config: ZoomConfig, commit: Commit },
    /// A program is to be started with this command line.
    Spawn(&'static str),
}

/// Which point of the overlay a menu opens from.
#[derive(Clone, Copy, Debug, PartialEq, Eq, Structural)]
pub enum Anchor {
    /// Beside the overlay, centred on the pointer.
    Beside,
    /// On the overlay, over the entry in effect.
    Over,
}

/// How a menu is laid out around its position.
#[derive(Clone, Copy, Debug, PartialEq, Eq, Structural)]
pub enum Alignment {
    /// Centred horizontally, and this far above or below the position.
    HorizontallyCentered { offset: u32 },
    /// Centred on the position where there is room for it.
    PreferCentered,
}

/// Where and how large a menu is opened.
#[derive(Debug)]
pub struct MenuPlacement<S> {
    pub position: Point<i32, Global>,
    pub alignment: Alignment,
    pub scale: S,
}

/// The items of the menu of movements and settings, with the movement in effect marked.
pub open spec fn movement_items(current: ZoomMovement) -> Seq<MenuItem> {
    seq![
        MenuItem::Entry {
            choice: Choice::SetMovement(ZoomMovement::Continuously),
            toggled: current == ZoomMovement::Continuously,
        },
        MenuItem::Entry {
            choice: Choice::SetMovement(ZoomMovement::OnEdge),
            toggled: current == ZoomMovement::OnEdge,
        },
        MenuItem::Entry {
            choice: Choice::SetMovement(ZoomMovement::Centered),
            toggled: current == ZoomMovement::Centered,
        },
        MenuItem::Separator,
        MenuItem::Entry { choice: Choice::OpenSettings, toggled: false },
    ]
}

/// The items of the menu of step widths, with the one in effect marked.
pub open spec fn increment_items(increments: Seq<u32>, current: int) -> Seq<MenuItem> {
    Seq::new(
        increments.len(),
        |i: int|
            MenuItem::Entry { choice: Choice::SetIncrement(increments[i]), toggled: i == current },
    )
}

/// Builds the menu of movements and settings.
pub fn movement_menu(current: ZoomMovement) -> (result: Vec<MenuItem>)
    ensures
        result@ == movement_items(current),
{
    let movements = ZoomMovement::all();
    let mut items: Vec<MenuItem> = Vec::new();
    for i in 0..movements.len()
        invariant
            movements@ == seq![
                ZoomMovement::Continuously,
                ZoomMovement::OnEdge,
                ZoomMovement::Centered,
            ],
            items@ == movement_items(current).take(i as int),
    {
        let movement = movements[i];
        items.push(
            MenuItem::Entry {
                choice: Choice::SetMovement(movement),
                toggled: current == movement,
            },
        );
        assert(items@ =~= movement_items(current).take(i + 1));
    }
    items.push(MenuItem::Separator);
    items.push(MenuItem::Entry { choice: Choice::OpenSettings, toggled: false });
    assert(items@ =~= movement_items(current));
    items
}

/// Builds the menu of step widths.
pub fn increment_menu(increments: &Vec<u32>, current: usize) -> (result: Vec<MenuItem>)
    ensures
        result@ == increment_items(increments@, current as int),
{
    let mut items: Vec<MenuItem> = Vec::new();
    for i in 0..increments.len()
        invariant
            items@ == increment_items(increments@, current as int).take(i as int),
    {
        items.push(
            MenuItem::Entry { choice: Choice::SetIncrement(increments[i]), toggled: i == current },
        );
        assert(items@ =~= increment_items(increments@, current as int).take(i + 1));
    }
    assert(items@ =~= increment_items(increments@, current as int));
    items
}

/// The settings with the overlay hidden.
pub open spec fn hidden(config: ZoomConfig) -> ZoomConfig {
    ZoomConfig { show_overlay: false, ..config }
}

/// Hides the overlay.
pub fn hide_overlay(config: &ZoomConfig) -> (result: (ZoomConfig, Commit))
    ensures
        result.0 == hidden(*config),
        result.0 == (ZoomConfig { show_overlay: false, ..*config }),
        result.1 == Commit::StoreThenApply,
{
    let mut hidden = *config;
    hidden.show_overlay = false;
    (hidden, Commit::StoreThenApply)
}

impl Choice {
    /// The settings after this choice.
    pub open spec fn configured(self, config: ZoomConfig) -> ZoomConfig {
        match self {
            Choice::SetMovement(movement) => ZoomConfig { view_moves: movement, ..config },
            Choice::SetIncrement(value) => ZoomConfig { increment: value, ..config },
            Choice::OpenSettings => config,
        }
    }

    /// The settings that follow from this choice and in which order they are stored and put
    /// into effect, if it changes settings.
    pub open spec fn changes(self, config: ZoomConfig) -> Option<(ZoomConfig, Commit)> {
        match self {
            Choice::SetMovement(_) => Some((self.configured(config), Commit::StoreThenApply)),
            Choice::SetIncrement(_) => Some((self.configured(config), Commit::ApplyThenStore)),
            Choice::OpenSettings => None,
        }
    }

    /// The text of the entry for this choice.
    pub fn title(self) -> (result: Title)
        ensures
            match self {
                Choice::SetMovement(ZoomMovement::Continuously) => result matches Title::Translated(id)
                    && id@ == "a11y-zoom-move-continuously"@,
                Choice::SetMovement(ZoomMovement::OnEdge) => result matches Title::Translated(id)
                    && id@ == "a11y-zoom-move-onedge"@,
                Choice::SetMovement(ZoomMovement::Centered) => result matches Title::Translated(id)
                    && id@ == "a11y-zoom-move-centered"@,
                Choice::SetIncrement(value) => result matches Title::Literal(text) && text@
                    == percentage(value as nat),
                Choice::OpenSettings => result matches Title::Translated(id) && id@
                    == "a11y-zoom-settings"@,
            },
    {
        match self {
            Choice::SetMovement(ZoomMovement::Continuously) => Title::Translated(
                "a11y-zoom-move-continuously",
            ),
            Choice::SetMovement(ZoomMovement::OnEdge) => Title::Translated("a11y-zoom-move-onedge"),
            Choice::SetMovement(ZoomMovement::Centered) => Title::Translated(
                "a11y-zoom-move-centered",
            ),
            Choice::SetIncrement(value) => Title::Literal(percent_label(value)),
            Choice::OpenSettings => Title::Translated("a11y-zoom-settings"),
        }
    }

    /// What follows from this choice under the present settings.
    pub fn apply(self, config: &ZoomConfig) -> (result: Outcome)
        ensures
            match self.changes(*config) {
                Some((changed, commit)) => result == (Outcome::Configure {
                    config: changed,
                    commit,
                }),
                None => result is Spawn,
            },
            match self {
                Choice::SetMovement(_) => result == (Outcome::Configure {
                    config: self.configured(*config),
                    commit: Commit::StoreThenApply,
                }),
                Choice::SetIncrement(_) => result == (Outcome::Configure {
                    config: self.configured(*config),
                    commit: Commit::ApplyThenStore,
                }),
                Choice::OpenSettings => result matches Outcome::Spawn(command) && command@
                    == "cosmic-settings accessibility-magnifier"@,
            },
    {
        let mut changed = *config;
        match self {
            Choice::SetMovement(movement) => {
                changed.view_moves = movement;
                Outcome::Configure { config: changed, commit: Commit::StoreThenApply }
            },
            Choice::SetIncrement(value) => {
                changed.increment = value;
                Outcome::Configure { config: changed, commit: Commit::ApplyThenStore }
            },
            Choice::OpenSettings => Outcome::Spawn("cosmic-settings accessibility-magnifier"),
        }
    }
}

/// The placement of a menu that was called for at the global point `start`: level with the
/// middle of the overlay, at the pointer's place on the screen.
pub open spec fn placement<S: Scalar>(
    zoom: OutputZoomState<S>,
    output: Output,
    overlay_size: Size<i32, Local>,
    start: Point<S, Global>,
    anchor: Anchor,
    now: u64,
) -> MenuPlacement<S> {
    let overlay = overlay_area::<S>(output, overlay_size);
    let half = overlay.size.h.over(S::whole(2));
    let p = output.globalized(
        point(zoom.on_screen(start, output, now).x, overlay.loc.y.plus(half)),
    );
    MenuPlacement {
        position: point(p.x.nearest().integer(), p.y.nearest().integer()),
        alignment: match anchor {
            Anchor::Beside => Alignment::HorizontallyCentered { offset: half.nearest().natural() },
            Anchor::Over => Alignment::PreferCentered,
        },
        scale: overlay_scale_of(zoom.level),
    }
}

/// The placement of a menu, if one is opened.
pub open spec fn opened<S: Scalar>(
    zoom: Option<(OutputZoomState<S>, Size<i32, Local>)>,
    output: Output,
    start: Option<Point<S, Global>>,
    anchor: Anchor,
    now: u64,
) -> Option<MenuPlacement<S>> {
    match (zoom, start) {
        (Some((state, overlay_size)), Some(start)) => Some(
            placement(state, output, overlay_size, start, anchor, now),
        ),
        _ => None,
    }
}

/// Decides whether a menu is opened, and where: it takes an input to hold on to, which began
/// at `start`, and an output that is being magnified, with an overlay of a known size.
pub fn place_menu<S: Scalar>(
    zoom: Option<(&OutputZoomState<S>, Size<i32, Local>)>,
    output: &Output,
    start: Option<Point<S, Global>>,
    anchor: Anchor,
    now: u64,
) -> (result: Option<MenuPlacement<S>>)
    ensures
        result == opened(
            match zoom {
                Some((state, overlay_size)) => Some((*state, overlay_size)),
                None => None,
            },
            *output,
            start,
            anchor,
            now,
        ),
        match (zoom, start) {
            (Some((state, overlay_size)), Some(start)) => result == Some(
                placement(*state, *output, overlay_size, start, anchor, now),
            ),
            _ => result is None,
        },
{
    match (zoom, start) {
        (Some((state, overlay_size)), Some(start)) => {
            let location = state.global_pos_to_screen_space(start, output, now);
            let overlay = state.overlay_rect(output, overlay_size);
            let half = overlay.size.h.div(S::from_int(2));
            let position: Point<S, Local> = Point::new(location.x, overlay.loc.y.add(half));
            Some(
                MenuPlacement {
                    position: output.to_global(position).to_i32_round(),
                    alignment: match anchor {
                        Anchor::Beside => Alignment::HorizontallyCentered {
                            offset: half.round().to_u32(),
                        },
                        Anchor::Over => Alignment::PreferCentered,
                    },
                    scale: overlay_scale(state.target_level()),
                },
            )
        },
        _ => None,
    }
}

/// The menu of movements marks one entry: the movement in effect.
pub proof fn law_movement_menu_marks_current(current: ZoomMovement, i: int)
    requires
        0 <= i < movement_items(current).len(),
    ensures
        movement_items(current)[i] matches MenuItem::Entry { choice, toggled } ==> (toggled
            <==> choice == Choice::SetMovement(current)),
        movement_items(current).contains(
            MenuItem::Entry { choice: Choice::SetMovement(current), toggled: true },
        ),
{
    let place: int = match current {
        ZoomMovement::Continuously => 0,
        ZoomMovement::OnEdge => 1,
        ZoomMovement::Centered => 2,
    };
    assert(movement_items(current)[place] == (MenuItem::Entry {
        choice: Choice::SetMovement(current),
        toggled: true,
    }));
}

/// To choose what is in effect changes nothing, and a choice that is made twice is made once.
pub proof fn law_choice_settles(choice: Choice, config: ZoomConfig)
    ensures
        Choice::SetMovement(config.view_moves).configured(config) == config,
        Choice::SetIncrement(config.increment).configured(config) == config,
        choice.configured(choice.configured(config)) == choice.configured(config),
{
}

/// A movement that is chosen is the one in the settings from then on, and a step width likewise,
/// whatever was there before; the other settings are kept. Opening the settings changes none.
pub proof fn law_choice_takes_effect(movement: ZoomMovement, value: u32, config: ZoomConfig)
    ensures
        Choice::SetMovement(movement).changes(config) matches Some((changed, commit))
            && changed.view_moves == movement && changed.increment == config.increment
            && changed.show_overlay == config.show_overlay && commit is StoreThenApply,
        Choice::SetIncrement(value).changes(config) matches Some((changed, commit))
            && changed.increment == value && changed.view_moves == config.view_moves
            && changed.show_overlay == config.show_overlay && commit is ApplyThenStore,
        Choice::OpenSettings.changes(config) is None,
        Choice::SetMovement(movement).configured(config).view_moves == movement,
        Choice::SetIncrement(value).configured(config).increment == value,
        Choice::OpenSettings.configured(config) == config,
{
}

/// Hiding the overlay turns it off in the settings and keeps the others.
pub proof fn law_hidden(config: ZoomConfig)
    ensures
        !hidden(config).show_overlay,
        hidden(config).increment == config.increment,
        hidden(config).view_moves == config.view_moves,
{
}

/// The menu of movements offers each movement once, and the settings behind a separator.
pub proof fn law_movement_menu_offers_all(current: ZoomMovement, movement: ZoomMovement, i: int)
    requires
        0 <= i < 5,
    ensures
        ({
            let items = movement_items(current);
            let place: int = match movement {
                ZoomMovement::Continuously => 0,
                ZoomMovement::OnEdge => 1,
                ZoomMovement::Centered => 2,
            };
            &&& items.len() == 5
            &&& i == 3 <==> items[i] is Separator
            &&& i == 4 <==> (items[i] matches MenuItem::Entry { choice, .. } && choice
                is OpenSettings)
            &&& i < 3 <==> (items[i] matches MenuItem::Entry { choice, .. } && choice
                is SetMovement)
            &&& i == place <==> (items[i] matches MenuItem::Entry { choice, .. } && choice
                == Choice::SetMovement(movement))
        }),
{
}

/// An entry for a movement that is chosen is the one that the menu marks when it is opened
/// again.
pub proof fn law_chosen_movement_is_marked(config: ZoomConfig, i: int, k: int)
    requires
        0 <= i < 3,
        0 <= k < 5,
    ensures
        movement_items(config.view_moves)[i] matches MenuItem::Entry { choice, .. } && (
        choice.changes(config) matches Some((changed, _)) && (k == i <==> (movement_items(
            changed.view_moves,
        )[k] matches MenuItem::Entry { toggled, .. } && toggled))),
{
}

/// The menu of step widths has an entry for each, in their order.
pub proof fn law_increment_menu_offers_all(increments: Seq<u32>, current: int, i: int)
    requires
        0 <= i < increments.len(),
    ensures
        increment_items(increments, current).len() == increments.len(),
        increment_items(increments, current)[i] matches MenuItem::Entry { choice, toggled }
            && choice == Choice::SetIncrement(increments[i]) && (toggled <==> i == current),
{
}

/// A menu is opened where an output is magnified and an input began. It opens at the place of the
/// input on the screen, level with the middle of the overlay wherever the input began, and is
/// drawn as large as the overlay at the target level.
pub proof fn law_menu_opens<S: Scalar>(
    zoom: OutputZoomState<S>,
    size: Size<i32, Local>,
    output: Output,
    start: Point<S, Global>,
    anchor: Anchor,
    now: u64,
)
    ensures
        opened(None, output, Some(start), anchor, now) is None,
        opened(Some((zoom, size)), output, None, anchor, now) is None,
        ({
            let overlay = overlay_area::<S>(output, size);
            let half = S::whole(size.h as i64).over(S::whole(2));
            let x = zoom.on_screen(start, output, now).x.plus(S::whole(output.loc.x as i64));
            let y = overlay.loc.y.plus(half).plus(S::whole(output.loc.y as i64));
            &&& opened(Some((zoom, size)), output, Some(start), anchor, now) matches Some(menu)
            &&& menu.position.x == x.nearest().integer()
            &&& menu.position.y == y.nearest().integer()
            &&& menu.scale == overlay_scale_of(zoom.level)
            &&& anchor is Beside <==> menu.alignment is HorizontallyCentered
            &&& anchor is Over <==> menu.alignment is PreferCentered
            &&& menu.alignment matches Alignment::HorizontallyCentered { offset } ==> offset
                == half.nearest().natural()
        }),
{
}

} // verus!
