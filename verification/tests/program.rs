//! The overlay's controls and menus.
use cosmic_zoom::config::{ZoomConfig, ZoomMovement};
use cosmic_zoom::double::Double;
use cosmic_zoom::label::percent_label;
use cosmic_zoom::menu::{hide_overlay, Anchor, Choice, Commit, MenuItem, Outcome, Title};
use cosmic_zoom::message::{MenuMessage, ZoomMessage};
use cosmic_zoom::program::{Control, Direction, Icon, ZoomProgram, ZoomRequest};

fn number(value: f64) -> Double {
    Double::from_bits(value.to_bits())
}

fn program(increment: u32) -> ZoomProgram<Double> {
    ZoomProgram::new(number(1.0), ZoomMovement::OnEdge, increment)
}

fn offered(program: &mut ZoomProgram<Double>) -> Vec<(u32, bool)> {
    let mut list = Vec::new();
    if let ZoomRequest::OpenMenu { items, anchor } = program.update(ZoomMessage::Increment, true) {
        assert_eq!(anchor, Anchor::Over);
        for item in items {
            match item {
                MenuItem::Entry { choice: Choice::SetIncrement(value), toggled } => {
                    list.push((value, toggled))
                }
                other => panic!("{:?}", other),
            }
        }
    }
    list
}

#[test]
fn presets_are_offered() {
    assert_eq!(
        offered(&mut program(100)),
        vec![(25, false), (50, false), (100, true), (150, false), (200, false)]
    );
}

#[test]
fn another_step_width_is_offered_in_its_place() {
    assert_eq!(
        offered(&mut program(75)),
        vec![(25, false), (50, false), (75, true), (100, false), (150, false), (200, false)]
    );
    assert_eq!(offered(&mut program(1))[0], (1, true));
    assert_eq!(offered(&mut program(u32::MAX))[5], (u32::MAX, true));
}

#[test]
fn an_update_keeps_a_list_that_has_the_step_width() {
    let mut p = program(75);
    let update = ZoomMessage::Update {
        level: number(2.0),
        increment: 150,
        movement: ZoomMovement::Centered,
    };
    assert_eq!(p.update(update, false), ZoomRequest::Nothing);
    assert_eq!(
        offered(&mut p),
        vec![(25, false), (50, false), (75, false), (100, false), (150, true), (200, false)]
    );
    assert_eq!(p.controls()[1], Control::Percent(number(200.0)));
}

#[test]
fn an_update_replaces_a_list_that_lacks_the_step_width() {
    let mut p = program(75);
    let update = ZoomMessage::Update {
        level: number(1.0),
        increment: 30,
        movement: ZoomMovement::Centered,
    };
    p.update(update, true);
    assert_eq!(
        offered(&mut p),
        vec![(25, false), (30, true), (50, false), (100, false), (150, false), (200, false)]
    );
}

#[test]
fn steps_are_requested() {
    let mut p = program(50);
    assert_eq!(p.update(ZoomMessage::Decrease, false), ZoomRequest::Step(Direction::Out));
    assert_eq!(p.update(ZoomMessage::Increase, false), ZoomRequest::Step(Direction::In));
    assert_eq!(p.update(ZoomMessage::Close, false), ZoomRequest::HideOverlay);
}

#[test]
fn menus_need_a_seat() {
    let mut p = program(50);
    assert_eq!(p.update(ZoomMessage::More, false), ZoomRequest::Nothing);
    assert_eq!(p.update(ZoomMessage::Increment, false), ZoomRequest::Nothing);
}

#[test]
fn movements_and_settings_are_offered() {
    let entry = |choice, toggled| MenuItem::Entry { choice, toggled };
    assert_eq!(
        program(50).update(ZoomMessage::More, true),
        ZoomRequest::OpenMenu {
            items: vec![
                entry(Choice::SetMovement(ZoomMovement::Continuously), false),
                entry(Choice::SetMovement(ZoomMovement::OnEdge), true),
                entry(Choice::SetMovement(ZoomMovement::Centered), false),
                MenuItem::Separator,
                entry(Choice::OpenSettings, false),
            ],
            anchor: Anchor::Beside,
        }
    );
}

#[test]
fn controls_stand_in_order() {
    let controls = program(50).controls();
    let button = |icon, message| Control::IconButton { icon, message };
    assert_eq!(
        controls,
        vec![
            button(Icon::ListRemove, ZoomMessage::Decrease),
            Control::Percent(number(100.0)),
            button(Icon::ListAdd, ZoomMessage::Increase),
            Control::Divider,
            Control::PercentButton {
                percent: 50,
                icon: Icon::PanDown,
                message: ZoomMessage::Increment,
            },
            button(Icon::ViewMore, ZoomMessage::More),
            Control::Divider,
            button(Icon::WindowClose, ZoomMessage::Close),
        ]
    );
}

#[test]
fn icons_have_names() {
    assert_eq!(Icon::ListRemove.name(), "list-remove-symbolic");
    assert_eq!(Icon::ListAdd.name(), "list-add-symbolic");
    assert_eq!(Icon::PanDown.name(), "pan-down-symbolic");
    assert_eq!(Icon::ViewMore.name(), "view-more-symbolic");
    assert_eq!(Icon::WindowClose.name(), "window-close-symbolic");
}

#[test]
fn entries_have_titles() {
    let movement = |m| Choice::SetMovement(m).title();
    assert_eq!(
        movement(ZoomMovement::Continuously),
        Title::Translated("a11y-zoom-move-continuously")
    );
    assert_eq!(movement(ZoomMovement::OnEdge), Title::Translated("a11y-zoom-move-onedge"));
    assert_eq!(movement(ZoomMovement::Centered), Title::Translated("a11y-zoom-move-centered"));
    assert_eq!(Choice::SetIncrement(150).title(), Title::Literal(String::from("150%")));
    assert_eq!(Choice::OpenSettings.title(), Title::Translated("a11y-zoom-settings"));
}

#[test]
fn percentages_are_written_in_decimal() {
    for value in [0, 7, 10, 42, 99, 100, 1_000_000, u32::MAX] {
        assert_eq!(percent_label(value), format!("{}%", value));
    }
}

#[test]
fn choices_change_the_settings() {
    let config =
        ZoomConfig { show_overlay: true, increment: 50, view_moves: ZoomMovement::OnEdge };
    assert_eq!(
        Choice::SetMovement(ZoomMovement::Centered).apply(&config),
        Outcome::Configure {
            config: ZoomConfig { view_moves: ZoomMovement::Centered, ..config },
            commit: Commit::StoreThenApply,
        }
    );
    assert_eq!(
        Choice::SetIncrement(75).apply(&config),
        Outcome::Configure {
            config: ZoomConfig { increment: 75, ..config },
            commit: Commit::ApplyThenStore,
        }
    );
    assert_eq!(
        Choice::OpenSettings.apply(&config),
        Outcome::Spawn("cosmic-settings accessibility-magnifier")
    );
    assert_eq!(
        hide_overlay(&config),
        (ZoomConfig { show_overlay: false, ..config }, Commit::StoreThenApply)
    );
}

#[test]
fn choosing_what_is_in_effect_changes_nothing() {
    let config =
        ZoomConfig { show_overlay: true, increment: 50, view_moves: ZoomMovement::OnEdge };
    for choice in [Choice::SetMovement(ZoomMovement::OnEdge), Choice::SetIncrement(50)] {
        match choice.apply(&config) {
            Outcome::Configure { config: changed, .. } => assert_eq!(changed, config),
            other => panic!("{:?}", other),
        }
    }
}

#[test]
fn menu_messages_differ() {
    assert_ne!(MenuMessage::ViewCentered, MenuMessage::ViewContinuously);
    assert_ne!(MenuMessage::ViewOnEdge, MenuMessage::OpenSettings);
}
