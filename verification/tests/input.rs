use cubic::input::{FrameInput, InputState, KeyCode, KeySet};

#[test]
fn key_edges_are_reported_once_per_frame() {
    let mut input = InputState::new();
    input.key_down(KeyCode::A);
    let frame = input.begin_frame();
    assert!(frame.pressed(KeyCode::A));
    assert!(frame.released.is_empty());

    let next = input.begin_frame();
    assert!(!next.pressed(KeyCode::A));
}

#[test]
fn held_key_is_down_but_not_pressed_again() {
    let mut input = InputState::new();
    input.key_down(KeyCode::Left);
    input.begin_frame();
    assert!(input.is_down(KeyCode::Left));

    input.key_down(KeyCode::Left);
    let frame = input.begin_frame();
    assert!(!frame.pressed(KeyCode::Left));
    assert!(input.is_down(KeyCode::Left));
}

#[test]
fn release_reports_edge_and_clears_held_state() {
    let mut input = InputState::new();
    input.key_down(KeyCode::Enter);
    input.begin_frame();
    input.key_up(KeyCode::Enter);
    let frame = input.begin_frame();
    assert!(frame.released.contains(&KeyCode::Enter));
    assert!(!input.is_down(KeyCode::Enter));
}

#[test]
fn key_code_from_name_maps_browser_and_desktop_names() {
    assert_eq!(KeyCode::from_name("a"), Some(KeyCode::A));
    assert_eq!(KeyCode::from_name("ArrowRight"), Some(KeyCode::Right));
    assert_eq!(KeyCode::from_name("["), Some(KeyCode::BracketLeft));
    assert_eq!(KeyCode::from_name("Space"), None);
}

#[test]
fn every_key_name_maps_to_its_key() {
    let names = [
        ("a", KeyCode::A),
        ("A", KeyCode::A),
        ("d", KeyCode::D),
        ("D", KeyCode::D),
        ("x", KeyCode::X),
        ("X", KeyCode::X),
        ("c", KeyCode::C),
        ("C", KeyCode::C),
        ("ArrowLeft", KeyCode::Left),
        ("ArrowRight", KeyCode::Right),
        ("ArrowUp", KeyCode::Up),
        ("ArrowDown", KeyCode::Down),
        ("[", KeyCode::BracketLeft),
        ("]", KeyCode::BracketRight),
        ("Enter", KeyCode::Enter),
        ("Escape", KeyCode::Escape),
    ];
    for (name, key) in names {
        assert_eq!(KeyCode::from_name(name), Some(key), "name {name}");
    }
}

#[test]
fn unknown_or_near_miss_names_map_to_nothing() {
    for name in ["", "b", "arrowleft", "ArrowLeftX", "Arrow", "enter", "ESCAPE", "[[", " a", "é"] {
        assert_eq!(KeyCode::from_name(name), None, "name {name:?}");
    }
}

#[test]
fn key_up_of_a_key_not_held_changes_nothing() {
    let mut input = InputState::new();
    input.key_up(KeyCode::X);
    let frame = input.begin_frame();
    assert!(frame.released.is_empty());
    assert!(frame.pressed.is_empty());
    assert!(!input.is_down(KeyCode::X));
}

#[test]
fn press_and_release_within_one_frame_reports_both_edges() {
    let mut input = InputState::new();
    input.key_down(KeyCode::C);
    input.key_up(KeyCode::C);
    let frame = input.begin_frame();
    assert!(frame.pressed(KeyCode::C));
    assert!(frame.released.contains(&KeyCode::C));
    assert!(!input.is_down(KeyCode::C));
}

#[test]
fn begin_frame_keeps_held_keys_and_clears_edges() {
    let mut input = InputState::default();
    input.key_down(KeyCode::Up);
    input.key_down(KeyCode::Down);
    input.key_up(KeyCode::Down);
    let first = input.begin_frame();
    assert!(first.pressed(KeyCode::Up));
    assert!(first.pressed(KeyCode::Down));
    assert!(first.released.contains(&KeyCode::Down));
    assert!(input.is_down(KeyCode::Up));
    let second = input.begin_frame();
    assert!(second.pressed.is_empty());
    assert!(second.released.is_empty());
    assert!(input.is_down(KeyCode::Up));
}

#[test]
fn key_set_insert_remove_contains() {
    let mut set = KeySet::new();
    assert!(set.is_empty());
    assert!(set.insert(KeyCode::Escape));
    assert!(!set.insert(KeyCode::Escape));
    assert!(set.contains(&KeyCode::Escape));
    assert!(!set.contains(&KeyCode::Enter));
    assert!(!set.is_empty());
    assert!(set.remove(&KeyCode::Escape));
    assert!(!set.remove(&KeyCode::Escape));
    assert!(set.is_empty());
    let empty = FrameInput::default();
    assert!(empty.pressed.is_empty() && empty.released.is_empty());
    assert!(KeySet::default().is_empty());
}

use cubic::input::InputEvent;
use cubic::input::InputEvent::{BeginFrame, KeyDown, KeyUp};

fn feed(input: &mut InputState, events: &[InputEvent]) {
    for event in events {
        match *event {
            InputEvent::KeyDown(k) => input.key_down(k),
            InputEvent::KeyUp(k) => input.key_up(k),
            InputEvent::BeginFrame => {
                input.begin_frame();
            }
        }
    }
}

#[test]
fn held_state_follows_the_last_event_of_each_key() {
    let mut input = InputState::new();
    feed(
        &mut input,
        &[
            KeyDown(KeyCode::A),
            KeyDown(KeyCode::D),
            BeginFrame,
            KeyUp(KeyCode::A),
            KeyDown(KeyCode::X),
            KeyUp(KeyCode::X),
            BeginFrame,
            KeyDown(KeyCode::A),
            KeyUp(KeyCode::C),
            BeginFrame,
        ],
    );
    assert!(input.is_down(KeyCode::A));
    assert!(input.is_down(KeyCode::D));
    assert!(!input.is_down(KeyCode::X));
    assert!(!input.is_down(KeyCode::C));
    assert!(!input.is_down(KeyCode::Enter));
}
