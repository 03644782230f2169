//! The window's input state: which movement keys are held, whether the mouse
//! is captured, and the state of the menu tablet.
//!
//! The menu tablet has four states: `0` closed, `1` open, `2` opening and
//! `3` closing. Escape starts opening a closed tablet or closing an open one;
//! the next drawn frame completes the change.
//!
//! Capturing the mouse first tries to lock the cursor. Where the platform
//! refuses, the window confines the cursor instead, centres it, and from then
//! on keeps confining it. The caller makes the lock attempt when
//! `lock_attempt_for_*` says so, and passes its outcome in.

use vstd::prelude::*;

verus! {

/// The keys that the window reacts to.
#[derive(Clone, Copy, Debug, PartialEq, Eq, Structural)]
pub enum Key {
    W,
    A,
    S,
    D,
    Space,
    SuperLeft,
    SuperRight,
    Escape,
    Other,
}

/// What the window does to the cursor.
#[derive(Clone, Copy, Debug, PartialEq, Eq, Structural)]
pub enum CursorAction {
    /// Release any grab of the cursor.
    Release,
    /// Confine the cursor to the window.
    Confine,
    /// Move the cursor to the centre of the window.
    Center,
    /// Show the cursor.
    Show,
    /// Hide the cursor.
    Hide,
}

/// The menu tablet is closed.
pub const MENU_CLOSED: usize = 0usize;

/// The menu tablet is open.
pub const MENU_OPEN: usize = 1usize;

/// The menu tablet opens at the next frame.
pub const MENU_OPENING: usize = 2usize;

/// The menu tablet closes at the next frame.
pub const MENU_CLOSING: usize = 3usize;

/// The window's input state.
#[derive(Clone, Copy, Debug)]
pub struct InputState {
    /// Held keys: W, A, S, D, Space, and one unused slot.
    pub keys: [bool; 6],
    pub mouse_locked: bool,
    pub use_confined: bool,
    pub menu_tablet_state: usize,
}

/// The input state as values.
pub struct InputModel {
    pub keys: Seq<bool>,
    pub mouse_locked: bool,
    pub use_confined: bool,
    pub menu: nat,
}

impl View for InputState {
    type V = InputModel;

    open spec fn view(&self) -> InputModel {
        InputModel {
            keys: self.keys@,
            mouse_locked: self.mouse_locked,
            use_confined: self.use_confined,
            menu: self.menu_tablet_state as nat,
        }
    }
}

/// The slot of a movement key.
pub open spec fn key_slot(key: Key) -> Option<int> {
    match key {
        Key::W => Some(0),
        Key::A => Some(1),
        Key::S => Some(2),
        Key::D => Some(3),
        Key::Space => Some(4),
        _ => None,
    }
}

/// Whether pressing `key` makes the window try to lock the cursor.
pub open spec fn spec_lock_attempt_for_key(s: InputModel, key: Key) -> bool {
    key == Key::Escape && s.menu == MENU_OPEN && !s.use_confined
}

/// The state and the cursor actions after pressing `key`; `locked` is the
/// outcome of the lock attempt, when one was made.
pub open spec fn spec_press(s: InputModel, key: Key, locked: bool) -> (InputModel, Seq<CursorAction>) {
    match key_slot(key) {
        Some(i) => (InputModel { keys: s.keys.update(i, true), ..s }, seq![]),
        None => match key {
            Key::SuperLeft | Key::SuperRight => (s, seq![CursorAction::Release, CursorAction::Show]),
            Key::Escape => if s.menu == MENU_CLOSED {
                (
                    InputModel { menu: MENU_OPENING as nat, mouse_locked: false, ..s },
                    seq![CursorAction::Release, CursorAction::Show],
                )
            } else if s.menu == MENU_OPEN {
                let s1 = InputModel { menu: MENU_CLOSING as nat, mouse_locked: true, ..s };
                if !s.use_confined && locked {
                    (s1, seq![CursorAction::Hide])
                } else {
                    (
                        InputModel { use_confined: true, ..s1 },
                        seq![CursorAction::Confine, CursorAction::Center, CursorAction::Hide],
                    )
                }
            } else {
                (s, seq![])
            },
            _ => (s, seq![]),
        },
    }
}

/// The state after releasing `key`.
pub open spec fn spec_release(s: InputModel, key: Key) -> InputModel {
    match key_slot(key) {
        Some(i) => InputModel { keys: s.keys.update(i, false), ..s },
        None => s,
    }
}

/// Whether a left click makes the window try to lock the cursor.
pub open spec fn spec_lock_attempt_for_click(s: InputModel) -> bool {
    !s.mouse_locked
}

/// The state and the cursor actions after a left click; `locked` is the
/// outcome of the lock attempt, when one was made.
pub open spec fn spec_left_click(s: InputModel, locked: bool) -> (InputModel, Seq<CursorAction>) {
    if s.mouse_locked {
        (s, seq![])
    } else if locked {
        (InputModel { mouse_locked: true, ..s }, seq![CursorAction::Hide])
    } else {
        (
            InputModel { mouse_locked: true, use_confined: true, ..s },
            seq![CursorAction::Confine, CursorAction::Center, CursorAction::Hide],
        )
    }
}

/// The state after a frame is drawn: an opening tablet is open, a closing one closed.
pub open spec fn spec_frame_drawn(s: InputModel) -> InputModel {
    if s.menu == MENU_OPENING {
        InputModel { menu: MENU_OPEN as nat, ..s }
    } else if s.menu == MENU_CLOSING {
        InputModel { menu: MENU_CLOSED as nat, ..s }
    } else {
        s
    }
}

/// The input state is well formed: the tablet is in one of its four states.
pub open spec fn spec_wf(s: InputModel) -> bool {
    s.menu <= 3 && s.keys.len() == 6
}

impl InputState {
    /// No key held, mouse free, tablet closed.
    pub fn new() -> (r: InputState)
        ensures
            r@.keys == seq![false, false, false, false, false, false],
            !r.mouse_locked,
            !r.use_confined,
            r.menu_tablet_state == MENU_CLOSED,
    {
        let r = InputState { keys: [false; 6], mouse_locked: false, use_confined: false, menu_tablet_state: 0 };
        assert(r@.keys =~= seq![false, false, false, false, false, false]);
        r
    }

    /// Sets the held flag of the key slot `i`.
    fn set_key(&mut self, i: usize, held: bool)
        requires
            i < 6,
        ensures
            final(self)@ == (InputModel { keys: old(self)@.keys.update(i as int, held), ..old(self)@ }),
    {
        self.keys[i] = held;
    }

    /// Whether pressing `key` makes the window try to lock the cursor.
    pub fn lock_attempt_for_key(&self, key: Key) -> (r: bool)
        ensures
            r == spec_lock_attempt_for_key(self@, key),
    {
        key == Key::Escape && self.menu_tablet_state == MENU_OPEN && !self.use_confined
    }

    /// Presses `key`; `locked` is the outcome of the lock attempt, when
    /// `lock_attempt_for_key` asked for one. Returns what to do to the cursor.
    pub fn key_pressed(&mut self, key: Key, locked: bool) -> (actions: Vec<CursorAction>)
        ensures
            final(self)@ == spec_press(old(self)@, key, locked).0,
            actions@ == spec_press(old(self)@, key, locked).1,
    {
        let mut actions: Vec<CursorAction> = Vec::new();
        match key {
            Key::W => self.set_key(0, true),
            Key::A => self.set_key(1, true),
            Key::S => self.set_key(2, true),
            Key::D => self.set_key(3, true),
            Key::Space => self.set_key(4, true),
            Key::SuperLeft | Key::SuperRight => {
                actions.push(CursorAction::Release);
                actions.push(CursorAction::Show);
            },
            Key::Escape => {
                if self.menu_tablet_state == MENU_CLOSED {
                    self.menu_tablet_state = MENU_OPENING;
                    self.mouse_locked = false;
                    actions.push(CursorAction::Release);
                    actions.push(CursorAction::Show);
                } else if self.menu_tablet_state == MENU_OPEN {
                    self.menu_tablet_state = MENU_CLOSING;
                    self.mouse_locked = true;
                    if self.use_confined || !locked {
                        self.use_confined = true;
                        actions.push(CursorAction::Confine);
                        actions.push(CursorAction::Center);
                    }
                    actions.push(CursorAction::Hide);
                }
            },
            Key::Other => {},
        }
        proof {
            assert(actions@ =~= spec_press(old(self)@, key, locked).1);
        }
        actions
    }

    /// Releases `key`.
    pub fn key_released(&mut self, key: Key)
        ensures
            final(self)@ == spec_release(old(self)@, key),
    {
        match key {
            Key::W => self.set_key(0, false),
            Key::A => self.set_key(1, false),
            Key::S => self.set_key(2, false),
            Key::D => self.set_key(3, false),
            Key::Space => self.set_key(4, false),
            _ => {},
        }
    }

    /// Whether a left click makes the window try to lock the cursor.
    pub fn lock_attempt_for_click(&self) -> (r: bool)
        ensures
            r == spec_lock_attempt_for_click(self@),
    {
        !self.mouse_locked
    }

    /// A left click; `locked` is the outcome of the lock attempt, when
    /// `lock_attempt_for_click` asked for one. Returns what to do to the cursor.
    pub fn left_clicked(&mut self, locked: bool) -> (actions: Vec<CursorAction>)
        ensures
            final(self)@ == spec_left_click(old(self)@, locked).0,
            actions@ == spec_left_click(old(self)@, locked).1,
    {
        let mut actions: Vec<CursorAction> = Vec::new();
        if !self.mouse_locked {
            if !locked {
                self.use_confined = true;
                actions.push(CursorAction::Confine);
                actions.push(CursorAction::Center);
            }
            actions.push(CursorAction::Hide);
            self.mouse_locked = true;
        }
        proof {
            assert(actions@ =~= spec_left_click(old(self)@, locked).1);
        }
        actions
    }

    /// A frame was drawn: an opening tablet is now open, a closing one closed.
    pub fn frame_drawn(&mut self)
        ensures
            final(self)@ == spec_frame_drawn(old(self)@),
    {
        if self.menu_tablet_state == MENU_OPENING {
            self.menu_tablet_state = MENU_OPEN;
        } else if self.menu_tablet_state == MENU_CLOSING {
            self.menu_tablet_state = MENU_CLOSED;
        }
    }

    /// Whether mouse motion turns the camera (the mouse is captured).
    pub fn turns_camera(&self) -> (r: bool)
        ensures
            r == self.mouse_locked,
    {
        self.mouse_locked
    }

    /// Where to put the cursor back after mouse motion, in logical pixels:
    /// the centre of the window while the cursor is captured by a lock.
    pub fn recenter_after_motion(&self, window_size: (u32, u32)) -> (r: Option<(u32, u32)>)
        ensures
            self.mouse_locked && !self.use_confined ==> r == Some((window_size.0 / 2, window_size.1 / 2)),
            !(self.mouse_locked && !self.use_confined) ==> r is None,
    {
        if self.mouse_locked && !self.use_confined {
            Some((window_size.0 / 2, window_size.1 / 2))
        } else {
            None
        }
    }
}

/// Every input event keeps the state well formed (the tablet in one of its
/// four states, six key slots).
pub proof fn lemma_events_keep_wf(s: InputModel, key: Key, locked: bool)
    requires
        spec_wf(s),
    ensures
        spec_wf(spec_press(s, key, locked).0),
        spec_wf(spec_release(s, key)),
        spec_wf(spec_left_click(s, locked).0),
        spec_wf(spec_frame_drawn(s)),
{
}

/// Once the window confines the cursor it keeps doing so: no event clears
/// `use_confined`.
pub proof fn lemma_confinement_sticks(s: InputModel, key: Key, locked: bool)
    requires
        s.use_confined,
    ensures
        spec_press(s, key, locked).0.use_confined,
        spec_release(s, key).use_confined,
        spec_left_click(s, locked).0.use_confined,
        spec_frame_drawn(s).use_confined,
{
}

/// Escape, a frame, Escape and a frame take a closed tablet through opening,
/// open and closing back to closed, with the mouse captured again, whatever
/// the lock attempts gave; the held keys do not change.
pub proof fn lemma_menu_round_trip(s: InputModel, locked: bool)
    requires
        s.menu == MENU_CLOSED,
    ensures
        ({
            let s1 = spec_press(s, Key::Escape, locked).0;
            let s2 = spec_frame_drawn(s1);
            let s3 = spec_press(s2, Key::Escape, locked).0;
            let s4 = spec_frame_drawn(s3);
            &&& s1.menu == MENU_OPENING && !s1.mouse_locked
            &&& s2.menu == MENU_OPEN
            &&& s3.menu == MENU_CLOSING
            &&& s4.menu == MENU_CLOSED && s4.mouse_locked
            &&& s4.keys == s.keys
        }),
{
}

/// Pressing a movement key marks it held; releasing it marks it free; other
/// slots keep their state.
pub proof fn lemma_press_release(s: InputModel, key: Key, locked: bool)
    requires
        key_slot(key) is Some,
        s.keys.len() == 6,
    ensures
        ({
            let i = key_slot(key).unwrap();
            let pressed = spec_press(s, key, locked).0;
            let released = spec_release(pressed, key);
            &&& pressed.keys[i]
            &&& !released.keys[i]
            &&& forall|j: int| 0 <= j < 6 && j != i ==> released.keys[j] == s.keys[j]
            &&& released.menu == s.menu && released.mouse_locked == s.mouse_locked
        }),
{
}

/// Each movement key has its own slot: pressing W, A, S, D or Space holds
/// slot 0, 1, 2, 3 or 4 and changes nothing else; releasing it frees that
/// slot and changes nothing else; other keys leave the slots as they are.
pub proof fn lemma_key_slots(s: InputModel, locked: bool)
    ensures
        spec_press(s, Key::W, locked) == (InputModel { keys: s.keys.update(0, true), ..s }, Seq::<CursorAction>::empty()),
        spec_press(s, Key::A, locked) == (InputModel { keys: s.keys.update(1, true), ..s }, Seq::<CursorAction>::empty()),
        spec_press(s, Key::S, locked) == (InputModel { keys: s.keys.update(2, true), ..s }, Seq::<CursorAction>::empty()),
        spec_press(s, Key::D, locked) == (InputModel { keys: s.keys.update(3, true), ..s }, Seq::<CursorAction>::empty()),
        spec_press(s, Key::Space, locked) == (InputModel { keys: s.keys.update(4, true), ..s }, Seq::<CursorAction>::empty()),
        spec_release(s, Key::W) == (InputModel { keys: s.keys.update(0, false), ..s }),
        spec_release(s, Key::A) == (InputModel { keys: s.keys.update(1, false), ..s }),
        spec_release(s, Key::S) == (InputModel { keys: s.keys.update(2, false), ..s }),
        spec_release(s, Key::D) == (InputModel { keys: s.keys.update(3, false), ..s }),
        spec_release(s, Key::Space) == (InputModel { keys: s.keys.update(4, false), ..s }),
        spec_press(s, Key::Escape, locked).0.keys == s.keys,
        spec_press(s, Key::SuperLeft, locked).0.keys == s.keys,
        spec_press(s, Key::SuperRight, locked).0.keys == s.keys,
        spec_press(s, Key::Other, locked) == (s, Seq::<CursorAction>::empty()),
        spec_release(s, Key::Escape) == s,
        spec_release(s, Key::SuperLeft) == s,
        spec_release(s, Key::SuperRight) == s,
        spec_release(s, Key::Other) == s,
{
}

} // verus!
