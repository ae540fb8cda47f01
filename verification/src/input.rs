//! Window input: which movement keys are held, whether the left mouse button is down,
//! the framebuffer size, and what the renderer has to do after each event; and the
//! camera steps that the held keys ask for.
use crate::cells::lemma_add_contains;
use vstd::prelude::*;

verus! {

/// The keys that move the camera; every other key is `Other`.
#[derive(PartialEq, Eq, Structural, Debug, Clone, Copy)]
pub enum Key {
    W,
    A,
    S,
    D,
    Space,
    Other,
}

/// What happened to a key or a mouse button.
#[derive(PartialEq, Eq, Structural, Debug, Clone, Copy)]
pub enum KeyAction {
    Press,
    Release,
    Repeat,
}

/// A window event, as far as the simulation looks at it.
#[derive(PartialEq, Eq, Structural, Debug, Clone, Copy)]
pub enum InputEvent {
    /// The framebuffer now has this width and height.
    FramebufferSize(i32, i32),
    /// A key changed.
    Key(Key, KeyAction),
    /// The cursor moved.
    CursorPos,
    /// A mouse button changed; `left` is whether it is the first (left) button.
    MouseButton(bool, KeyAction),
    /// Anything else.
    Other,
}

/// What the renderer has to do after an event.
#[derive(PartialEq, Eq, Structural, Debug, Clone, Copy)]
pub enum InputAction {
    /// Nothing.
    Nothing,
    /// Recreate the offscreen targets at the new framebuffer size.
    RecreateTargets,
    /// Record the new cursor position; rotate the camera by the motion if `true`.
    MoveCursor(bool),
}

/// One step of the camera along one of its axes.
#[derive(PartialEq, Eq, Structural, Debug, Clone, Copy)]
pub enum CameraMove {
    /// Along `-w`.
    Forward,
    /// Along `-u`.
    Left,
    /// Along `+w`.
    Backward,
    /// Along `+u`.
    Right,
    /// Along world `+y`.
    Up,
}

/// The input state that the simulation keeps between frames.
#[derive(Debug, Clone, Copy)]
pub struct InputState {
    /// Framebuffer width and height.
    pub frame_dims: (i32, i32),
    /// Whether W, A, S, D and Space are held, in that order.
    pub wasdsp_pressed: [bool; 5],
    /// Whether the left mouse button is held.
    pub left_click: bool,
}

/// An `InputState` with the held keys as a sequence.
pub struct InputStateView {
    pub frame_dims: (i32, i32),
    pub pressed: Seq<bool>,
    pub left_click: bool,
}

impl View for InputState {
    type V = InputStateView;

    open spec fn view(&self) -> InputStateView {
        InputStateView {
            frame_dims: self.frame_dims,
            pressed: self.wasdsp_pressed@,
            left_click: self.left_click,
        }
    }
}

/// The slot of a movement key in `wasdsp_pressed`, or `-1` for any other key.
pub open spec fn key_slot(k: Key) -> int {
    match k {
        Key::W => 0,
        Key::A => 1,
        Key::S => 2,
        Key::D => 3,
        Key::Space => 4,
        Key::Other => -1,
    }
}

/// The state after an event.
pub open spec fn next_state(s: InputStateView, ev: InputEvent) -> InputStateView {
    match ev {
        InputEvent::FramebufferSize(x, y) => InputStateView { frame_dims: (x, y), ..s },
        InputEvent::Key(k, KeyAction::Press) => if key_slot(k) >= 0 {
            InputStateView { pressed: s.pressed.update(key_slot(k), true), ..s }
        } else {
            s
        },
        InputEvent::Key(k, KeyAction::Release) => if key_slot(k) >= 0 {
            InputStateView { pressed: s.pressed.update(key_slot(k), false), ..s }
        } else {
            s
        },
        InputEvent::MouseButton(true, KeyAction::Press) => InputStateView { left_click: true, ..s },
        InputEvent::MouseButton(true, KeyAction::Release) => InputStateView { left_click: false, ..s },
        _ => s,
    }
}

/// What the renderer has to do after an event in state `s`.
pub open spec fn event_action(s: InputStateView, ev: InputEvent) -> InputAction {
    match ev {
        InputEvent::FramebufferSize(_, _) => InputAction::RecreateTargets,
        InputEvent::CursorPos => InputAction::MoveCursor(s.left_click),
        _ => InputAction::Nothing,
    }
}

/// The camera steps that the held keys ask for, in the order W, A, S, D, Space.
pub open spec fn camera_moves_spec(pressed: Seq<bool>) -> Seq<CameraMove> {
    let w = if pressed[0] { seq![CameraMove::Forward] } else { Seq::empty() };
    let a = if pressed[1] { seq![CameraMove::Left] } else { Seq::empty() };
    let s = if pressed[2] { seq![CameraMove::Backward] } else { Seq::empty() };
    let d = if pressed[3] { seq![CameraMove::Right] } else { Seq::empty() };
    let up = if pressed[4] { seq![CameraMove::Up] } else { Seq::empty() };
    w + a + s + d + up
}

impl InputState {
    /// A window of `frame_dims` with nothing held.
    pub fn new(frame_dims: (i32, i32)) -> (s: InputState)
        ensures
            s.frame_dims == frame_dims,
            s.wasdsp_pressed@ == seq![false, false, false, false, false],
            !s.left_click,
    {
        let s = InputState { frame_dims, wasdsp_pressed: [false; 5], left_click: false };
        assert(s.wasdsp_pressed@ =~= seq![false, false, false, false, false]);
        s
    }

    /// Takes one window event: updates the held keys, the left button and the framebuffer
    /// size, and says what the renderer has to do.
    pub fn handle_event(&mut self, ev: InputEvent) -> (r: InputAction)
        ensures
            final(self)@ == next_state(old(self)@, ev),
            r == event_action(old(self)@, ev),
            ev matches InputEvent::MouseButton(false, _) ==> final(self)@ == old(self)@,
            ev == InputEvent::MouseButton(true, KeyAction::Press) ==> final(self).left_click,
            ev == InputEvent::MouseButton(true, KeyAction::Release) ==> !final(self).left_click,
            ev == InputEvent::CursorPos ==> r == InputAction::MoveCursor(old(self).left_click),
    {
        match ev {
            InputEvent::FramebufferSize(x, y) => {
                self.frame_dims = (x, y);
                InputAction::RecreateTargets
            },
            InputEvent::Key(k, action) => {
                let slot: usize = match k {
                    Key::W => 0,
                    Key::A => 1,
                    Key::S => 2,
                    Key::D => 3,
                    Key::Space => 4,
                    Key::Other => 5,
                };
                if slot < 5 {
                    match action {
                        KeyAction::Press => {
                            self.wasdsp_pressed[slot] = true;
                        },
                        KeyAction::Release => {
                            self.wasdsp_pressed[slot] = false;
                        },
                        KeyAction::Repeat => {},
                    }
                }
                InputAction::Nothing
            },
            InputEvent::CursorPos => InputAction::MoveCursor(self.left_click),
            InputEvent::MouseButton(left, action) => {
                if left {
                    match action {
                        KeyAction::Press => {
                            self.left_click = true;
                        },
                        KeyAction::Release => {
                            self.left_click = false;
                        },
                        KeyAction::Repeat => {},
                    }
                }
                InputAction::Nothing
            },
            InputEvent::Other => InputAction::Nothing,
        }
    }

    /// The camera steps that the held keys ask for this frame, in the order W, A, S, D,
    /// Space.
    pub fn camera_moves(&self) -> (moves: Vec<CameraMove>)
        ensures
            moves@ == camera_moves_spec(self.wasdsp_pressed@),
    {
        let mut moves: Vec<CameraMove> = Vec::new();
        if self.wasdsp_pressed[0] {
            moves.push(CameraMove::Forward);
        }
        if self.wasdsp_pressed[1] {
            moves.push(CameraMove::Left);
        }
        if self.wasdsp_pressed[2] {
            moves.push(CameraMove::Backward);
        }
        if self.wasdsp_pressed[3] {
            moves.push(CameraMove::Right);
        }
        if self.wasdsp_pressed[4] {
            moves.push(CameraMove::Up);
        }
        assert(moves@ =~= camera_moves_spec(self.wasdsp_pressed@));
        moves
    }
}


/// Pressing a movement key that is not held and then releasing it leaves the state as it
/// was; and a key event touches no slot but its own key's.
pub proof fn lemma_press_release(s: InputStateView, k: Key, action: KeyAction)
    requires
        s.pressed.len() == 5,
        key_slot(k) >= 0,
    ensures
        !s.pressed[key_slot(k)] ==> next_state(
            next_state(s, InputEvent::Key(k, KeyAction::Press)),
            InputEvent::Key(k, KeyAction::Release),
        ) == s,
        next_state(s, InputEvent::Key(k, action)).pressed.len() == 5,
        forall|m: int|
            0 <= m < 5 && m != key_slot(k) ==> #[trigger] next_state(s, InputEvent::Key(k, action)).pressed[m]
                == s.pressed[m],
        next_state(s, InputEvent::Key(k, action)).frame_dims == s.frame_dims,
        next_state(s, InputEvent::Key(k, action)).left_click == s.left_click,
{
    if !s.pressed[key_slot(k)] {
        let t = next_state(next_state(s, InputEvent::Key(k, KeyAction::Press)), InputEvent::Key(k, KeyAction::Release));
        assert(t.pressed =~= s.pressed);
    }
}

/// The camera takes a step for a key exactly when that key is held, one step per key.
pub proof fn lemma_camera_moves(pressed: Seq<bool>)
    requires
        pressed.len() == 5,
    ensures
        camera_moves_spec(pressed).contains(CameraMove::Forward) <==> pressed[0],
        camera_moves_spec(pressed).contains(CameraMove::Left) <==> pressed[1],
        camera_moves_spec(pressed).contains(CameraMove::Backward) <==> pressed[2],
        camera_moves_spec(pressed).contains(CameraMove::Right) <==> pressed[3],
        camera_moves_spec(pressed).contains(CameraMove::Up) <==> pressed[4],
        camera_moves_spec(pressed).no_duplicates(),
{
    let m = camera_moves_spec(pressed);
    assert forall|mv: CameraMove| #[trigger] m.contains(mv) <==> (match mv {
        CameraMove::Forward => pressed[0],
        CameraMove::Left => pressed[1],
        CameraMove::Backward => pressed[2],
        CameraMove::Right => pressed[3],
        CameraMove::Up => pressed[4],
    }) by {
        let w = if pressed[0] { seq![CameraMove::Forward] } else { Seq::<CameraMove>::empty() };
        let a = if pressed[1] { seq![CameraMove::Left] } else { Seq::<CameraMove>::empty() };
        let s = if pressed[2] { seq![CameraMove::Backward] } else { Seq::<CameraMove>::empty() };
        let d = if pressed[3] { seq![CameraMove::Right] } else { Seq::<CameraMove>::empty() };
        let up = if pressed[4] { seq![CameraMove::Up] } else { Seq::<CameraMove>::empty() };
        lemma_add_contains(w, a, mv);
        lemma_add_contains(w + a, s, mv);
        lemma_add_contains(w + a + s, d, mv);
        lemma_add_contains(w + a + s + d, up, mv);
        lemma_single_contains(CameraMove::Forward, mv);
        lemma_single_contains(CameraMove::Left, mv);
        lemma_single_contains(CameraMove::Backward, mv);
        lemma_single_contains(CameraMove::Right, mv);
        lemma_single_contains(CameraMove::Up, mv);
    }
    assert(m.contains(CameraMove::Forward) <==> pressed[0]);
    assert(m.contains(CameraMove::Left) <==> pressed[1]);
    assert(m.contains(CameraMove::Backward) <==> pressed[2]);
    assert(m.contains(CameraMove::Right) <==> pressed[3]);
    assert(m.contains(CameraMove::Up) <==> pressed[4]);
    assert forall|x: int, y: int| 0 <= x < m.len() && 0 <= y < m.len() && x != y implies m[x] != m[y] by {
        assert(camera_rank(m[x]) < camera_rank(m[y]) || camera_rank(m[y]) < camera_rank(m[x])) by {
            lemma_moves_sorted(pressed);
        }
    }
}

spec fn camera_rank(m: CameraMove) -> int {
    match m {
        CameraMove::Forward => 0,
        CameraMove::Left => 1,
        CameraMove::Backward => 2,
        CameraMove::Right => 3,
        CameraMove::Up => 4,
    }
}

proof fn lemma_moves_sorted(pressed: Seq<bool>)
    ensures
        forall|x: int, y: int|
            0 <= x < y < camera_moves_spec(pressed).len() ==> camera_rank(
                #[trigger] camera_moves_spec(pressed)[x],
            ) < camera_rank(#[trigger] camera_moves_spec(pressed)[y]),
{
    let w = if pressed[0] { seq![CameraMove::Forward] } else { Seq::<CameraMove>::empty() };
    let a = if pressed[1] { seq![CameraMove::Left] } else { Seq::<CameraMove>::empty() };
    let s = if pressed[2] { seq![CameraMove::Backward] } else { Seq::<CameraMove>::empty() };
    let d = if pressed[3] { seq![CameraMove::Right] } else { Seq::<CameraMove>::empty() };
    let up = if pressed[4] { seq![CameraMove::Up] } else { Seq::<CameraMove>::empty() };
    let m = w + a + s + d + up;
    // Position of each block in the concatenation.
    let lw = w.len() as int;
    let la = a.len() as int;
    let ls = s.len() as int;
    let ld = d.len() as int;
    assert forall|x: int| 0 <= x < m.len() implies #[trigger] camera_rank(m[x]) == if x < lw {
        0int
    } else if x < lw + la {
        1
    } else if x < lw + la + ls {
        2
    } else if x < lw + la + ls + ld {
        3
    } else {
        4
    } by {
        if x < lw {
            assert(m[x] == w[x]);
        } else if x < lw + la {
            assert(m[x] == a[x - lw]);
        } else if x < lw + la + ls {
            assert(m[x] == s[x - lw - la]);
        } else if x < lw + la + ls + ld {
            assert(m[x] == d[x - lw - la - ls]);
        } else {
            assert(m[x] == up[x - lw - la - ls - ld]);
        }
    }
}

proof fn lemma_single_contains(a: CameraMove, b: CameraMove)
    ensures
        seq![a].contains(b) <==> a == b,
{
    if a == b {
        assert(seq![a][0] == b);
    }
}


/// Only the left button rotates the camera: another button changes nothing; pressing the
/// left button holds it and releasing it lets go, with keys and framebuffer size kept;
/// a repeat changes nothing; and a cursor motion rotates exactly while the left button is
/// held, changing no state.
pub proof fn lemma_mouse_buttons(s: InputStateView, left: bool, a: KeyAction)
    ensures
        !left ==> next_state(s, InputEvent::MouseButton(left, a)) == s,
        a == KeyAction::Repeat ==> next_state(s, InputEvent::MouseButton(left, a)) == s,
        left && a == KeyAction::Press ==> next_state(s, InputEvent::MouseButton(left, a)).left_click,
        left && a == KeyAction::Release ==> !next_state(s, InputEvent::MouseButton(left, a)).left_click,
        next_state(s, InputEvent::MouseButton(left, a)).pressed == s.pressed,
        next_state(s, InputEvent::MouseButton(left, a)).frame_dims == s.frame_dims,
        next_state(s, InputEvent::CursorPos) == s,
        event_action(s, InputEvent::CursorPos) == InputAction::MoveCursor(s.left_click),
        event_action(s, InputEvent::MouseButton(left, a)) == InputAction::Nothing,
{
}

/// A framebuffer resize records the new size, keeps keys and button, and asks for the
/// offscreen targets to be recreated; any other event keeps the size.
pub proof fn lemma_resize(s: InputStateView, ev: InputEvent)
    ensures
        ev matches InputEvent::FramebufferSize(x, y) ==> next_state(s, ev).frame_dims == (x, y)
            && next_state(s, ev).pressed == s.pressed && next_state(s, ev).left_click == s.left_click
            && event_action(s, ev) == InputAction::RecreateTargets,
        !(ev is FramebufferSize) ==> next_state(s, ev).frame_dims == s.frame_dims
            && event_action(s, ev) != InputAction::RecreateTargets,
{
}

/// A movement key press holds exactly that key's slot (W, A, S, D, Space in that order),
/// a release lets go of it, and any other key changes nothing.
pub proof fn lemma_key_slots(s: InputStateView, k: Key, a: KeyAction)
    requires
        s.pressed.len() == 5,
    ensures
        k == Key::W && a == KeyAction::Press ==> next_state(s, InputEvent::Key(k, a)).pressed[0],
        k == Key::A && a == KeyAction::Press ==> next_state(s, InputEvent::Key(k, a)).pressed[1],
        k == Key::S && a == KeyAction::Press ==> next_state(s, InputEvent::Key(k, a)).pressed[2],
        k == Key::D && a == KeyAction::Press ==> next_state(s, InputEvent::Key(k, a)).pressed[3],
        k == Key::Space && a == KeyAction::Press ==> next_state(s, InputEvent::Key(k, a)).pressed[4],
        k == Key::W && a == KeyAction::Release ==> !next_state(s, InputEvent::Key(k, a)).pressed[0],
        k == Key::A && a == KeyAction::Release ==> !next_state(s, InputEvent::Key(k, a)).pressed[1],
        k == Key::S && a == KeyAction::Release ==> !next_state(s, InputEvent::Key(k, a)).pressed[2],
        k == Key::D && a == KeyAction::Release ==> !next_state(s, InputEvent::Key(k, a)).pressed[3],
        k == Key::Space && a == KeyAction::Release ==> !next_state(s, InputEvent::Key(k, a)).pressed[4],
        (k == Key::Other || a == KeyAction::Repeat) ==> next_state(s, InputEvent::Key(k, a)) == s,
        event_action(s, InputEvent::Key(k, a)) == InputAction::Nothing,
{
}

} // verus!
