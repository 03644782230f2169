use caevern::input::{CursorAction, InputState, Key, MENU_CLOSED, MENU_CLOSING, MENU_OPEN, MENU_OPENING};

#[test]
fn movement_keys_are_held_and_released() {
    let mut s = InputState::new();
    assert_eq!(s.key_pressed(Key::W, false), vec![]);
    assert_eq!(s.key_pressed(Key::Space, false), vec![]);
    assert_eq!(s.keys, [true, false, false, false, true, false]);
    s.key_released(Key::W);
    assert_eq!(s.keys, [false, false, false, false, true, false]);
    s.key_pressed(Key::D, false);
    s.key_released(Key::Other);
    assert_eq!(s.keys, [false, false, false, true, true, false]);
}

#[test]
fn first_click_captures_the_mouse() {
    let mut s = InputState::new();
    assert!(s.lock_attempt_for_click());
    assert_eq!(s.left_clicked(true), vec![CursorAction::Hide]);
    assert!(s.mouse_locked);
    assert!(!s.use_confined);
    assert!(!s.lock_attempt_for_click());
    assert_eq!(s.left_clicked(false), vec![]);
}

#[test]
fn refused_lock_falls_back_to_confinement() {
    let mut s = InputState::new();
    assert_eq!(s.left_clicked(false), vec![CursorAction::Confine, CursorAction::Center, CursorAction::Hide]);
    assert!(s.mouse_locked && s.use_confined);
    assert_eq!(s.recenter_after_motion((800, 600)), None);
}

#[test]
fn escape_opens_and_closes_the_tablet() {
    let mut s = InputState::new();
    s.left_clicked(true);
    assert!(!s.lock_attempt_for_key(Key::Escape));
    assert_eq!(s.key_pressed(Key::Escape, false), vec![CursorAction::Release, CursorAction::Show]);
    assert_eq!(s.menu_tablet_state, MENU_OPENING);
    assert!(!s.mouse_locked);
    // pressing escape again before the frame is drawn does nothing
    assert_eq!(s.key_pressed(Key::Escape, false), vec![]);
    s.frame_drawn();
    assert_eq!(s.menu_tablet_state, MENU_OPEN);
    assert!(s.lock_attempt_for_key(Key::Escape));
    assert_eq!(s.key_pressed(Key::Escape, true), vec![CursorAction::Hide]);
    assert_eq!(s.menu_tablet_state, MENU_CLOSING);
    assert!(s.mouse_locked);
    s.frame_drawn();
    assert_eq!(s.menu_tablet_state, MENU_CLOSED);
    s.frame_drawn();
    assert_eq!(s.menu_tablet_state, MENU_CLOSED);
}

#[test]
fn closing_the_tablet_when_the_lock_is_refused() {
    let mut s = InputState::new();
    s.key_pressed(Key::Escape, true);
    s.frame_drawn();
    assert_eq!(
        s.key_pressed(Key::Escape, false),
        vec![CursorAction::Confine, CursorAction::Center, CursorAction::Hide]
    );
    assert!(s.use_confined);
    s.frame_drawn();
    // once confined, later closings confine without a lock attempt
    s.key_pressed(Key::Escape, true);
    s.frame_drawn();
    assert!(!s.lock_attempt_for_key(Key::Escape));
    assert_eq!(
        s.key_pressed(Key::Escape, true),
        vec![CursorAction::Confine, CursorAction::Center, CursorAction::Hide]
    );
}

#[test]
fn super_key_frees_the_cursor_without_changing_state() {
    let mut s = InputState::new();
    s.left_clicked(true);
    assert_eq!(s.key_pressed(Key::SuperLeft, false), vec![CursorAction::Release, CursorAction::Show]);
    assert_eq!(s.key_pressed(Key::SuperRight, false), vec![CursorAction::Release, CursorAction::Show]);
    assert!(s.mouse_locked);
    assert_eq!(s.menu_tablet_state, MENU_CLOSED);
}

#[test]
fn motion_recenters_a_locked_cursor() {
    let mut s = InputState::new();
    assert!(!s.turns_camera());
    assert_eq!(s.recenter_after_motion((801, 600)), None);
    s.left_clicked(true);
    assert!(s.turns_camera());
    assert_eq!(s.recenter_after_motion((801, 600)), Some((400, 300)));
}
