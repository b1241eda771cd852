//! The keyboard state of the viewer and the decisions taken on it: which
//! keys are held, what a key press changes, and what each frame does with
//! the held keys.
use vstd::prelude::*;

verus! {

/// Which of the viewer's keys are held down.
pub struct InputController {
    pub key_d_down: bool,
    pub key_w_down: bool,
    pub key_a_down: bool,
    pub key_s_down: bool,
    pub key_q_down: bool,
    pub key_e_down: bool,
    pub key_1_down: bool,
    pub key_2_down: bool,
}

/// Why a frame could not be updated.
#[derive(Debug)]
pub enum UpdateResult {
    UpdateError,
}

/// A key as the viewer tells keys apart.
#[derive(Debug, Clone, Copy, PartialEq, Eq)]
pub enum ControlKey {
    KeyD,
    KeyA,
    KeyW,
    KeyS,
    KeyQ,
    KeyE,
    Escape,
    Other,
}

/// What the viewer does after a key event.
#[derive(Debug, Clone, Copy, PartialEq, Eq)]
pub enum KeyOutcome {
    Continue,
    Exit,
}

/// A move of the camera by its speed along one axis: `Left` and `Right`
/// along x, `Back` and `Forward` along z.
#[derive(Debug, Clone, Copy, PartialEq, Eq)]
pub enum CameraMove {
    Left,
    Right,
    Back,
    Forward,
}

/// What a frame does with the held keys: the camera moves, in order, and the
/// animations to start, each as (model, model instance, animation).
pub struct InputActions {
    pub camera_moves: Vec<CameraMove>,
    pub animations: Vec<(usize, usize, usize)>,
}

/// The camera moves of a frame: left for A, right for D, back for S and
/// forward for W, in that order.
pub open spec fn camera_moves_of(c: InputController) -> Seq<CameraMove> {
    let a = if c.key_a_down {
        seq![CameraMove::Left]
    } else {
        seq![]
    };
    let d = if c.key_d_down {
        seq![CameraMove::Right]
    } else {
        seq![]
    };
    let s = if c.key_s_down {
        seq![CameraMove::Back]
    } else {
        seq![]
    };
    let w = if c.key_w_down {
        seq![CameraMove::Forward]
    } else {
        seq![]
    };
    a + d + s + w
}

/// The animations that a frame starts: animation 0 of the first instance of
/// the first model for key 1, animation 1 for key 2, in that order.
pub open spec fn animations_of(c: InputController) -> Seq<(usize, usize, usize)> {
    let one = if c.key_1_down {
        seq![(0usize, 0usize, 0usize)]
    } else {
        seq![]
    };
    let two = if c.key_2_down {
        seq![(0usize, 0usize, 1usize)]
    } else {
        seq![]
    };
    one + two
}

/// Each movement key moves the camera its own way, once per frame while it
/// is held: A moves it left, D right, S back and W forward, and no move comes
/// without its key.
pub proof fn lemma_camera_moves(c: InputController)
    ensures
        camera_moves_of(c).contains(CameraMove::Left) <==> c.key_a_down,
        camera_moves_of(c).contains(CameraMove::Right) <==> c.key_d_down,
        camera_moves_of(c).contains(CameraMove::Back) <==> c.key_s_down,
        camera_moves_of(c).contains(CameraMove::Forward) <==> c.key_w_down,
        camera_moves_of(c).no_duplicates(),
        camera_moves_of(c).len() == (if c.key_a_down {
            1int
        } else {
            0
        }) + (if c.key_d_down {
            1int
        } else {
            0
        }) + (if c.key_s_down {
            1int
        } else {
            0
        }) + (if c.key_w_down {
            1int
        } else {
            0
        }),
{
    let m = camera_moves_of(c);
    let a = if c.key_a_down { seq![CameraMove::Left] } else { seq![] };
    let d = if c.key_d_down { seq![CameraMove::Right] } else { seq![] };
    let s = if c.key_s_down { seq![CameraMove::Back] } else { seq![] };
    let w = if c.key_w_down { seq![CameraMove::Forward] } else { seq![] };
    assert(m == a + d + s + w);
    if c.key_a_down {
        assert(m[0] == CameraMove::Left);
    }
    if c.key_d_down {
        assert(m[a.len() as int] == CameraMove::Right);
    }
    if c.key_s_down {
        assert(m[(a.len() + d.len()) as int] == CameraMove::Back);
    }
    if c.key_w_down {
        assert(m[(a.len() + d.len() + s.len()) as int] == CameraMove::Forward);
    }
    assert forall|i: int| 0 <= i < m.len() implies (m[i] == CameraMove::Left ==> c.key_a_down) && (
    m[i] == CameraMove::Right ==> c.key_d_down) && (m[i] == CameraMove::Back ==> c.key_s_down) && (
    m[i] == CameraMove::Forward ==> c.key_w_down) && (forall|j: int| 0 <= j < m.len() && j != i ==> m[j] != m[i]) by {
        if i < a.len() {
            assert(m[i] == CameraMove::Left);
        } else if i < a.len() + d.len() {
            assert(m[i] == d[i - a.len()]);
        } else if i < a.len() + d.len() + s.len() {
            assert(m[i] == s[i - a.len() - d.len()]);
        } else {
            assert(m[i] == w[i - a.len() - d.len() - s.len()]);
        }
        assert forall|j: int| 0 <= j < m.len() && j != i implies m[j] != m[i] by {
            if j < a.len() {
                assert(m[j] == CameraMove::Left);
            } else if j < a.len() + d.len() {
                assert(m[j] == d[j - a.len()]);
            } else if j < a.len() + d.len() + s.len() {
                assert(m[j] == s[j - a.len() - d.len()]);
            } else {
                assert(m[j] == w[j - a.len() - d.len() - s.len()]);
            }
        }
    }
}

impl InputController {
    /// No key held.
    pub fn new() -> (r: Self)
        ensures
            !r.key_d_down && !r.key_w_down && !r.key_a_down && !r.key_s_down && !r.key_q_down
                && !r.key_e_down && !r.key_1_down && !r.key_2_down,
    {
        Self {
            key_a_down: false,
            key_d_down: false,
            key_s_down: false,
            key_w_down: false,
            key_q_down: false,
            key_e_down: false,
            key_1_down: false,
            key_2_down: false,
        }
    }

    /// A key was pressed or released: a movement key is held exactly while
    /// pressed, Escape ends the viewer, any other key changes nothing.
    pub fn process_keypress(&mut self, keycode: ControlKey, is_pressed: bool) -> (r: KeyOutcome)
        ensures
            final(self).key_d_down == (if keycode == ControlKey::KeyD {
                is_pressed
            } else {
                old(self).key_d_down
            }),
            final(self).key_a_down == (if keycode == ControlKey::KeyA {
                is_pressed
            } else {
                old(self).key_a_down
            }),
            final(self).key_w_down == (if keycode == ControlKey::KeyW {
                is_pressed
            } else {
                old(self).key_w_down
            }),
            final(self).key_s_down == (if keycode == ControlKey::KeyS {
                is_pressed
            } else {
                old(self).key_s_down
            }),
            final(self).key_q_down == (if keycode == ControlKey::KeyQ {
                is_pressed
            } else {
                old(self).key_q_down
            }),
            final(self).key_e_down == (if keycode == ControlKey::KeyE {
                is_pressed
            } else {
                old(self).key_e_down
            }),
            final(self).key_1_down == old(self).key_1_down,
            final(self).key_2_down == old(self).key_2_down,
            r == (if keycode == ControlKey::Escape {
                KeyOutcome::Exit
            } else {
                KeyOutcome::Continue
            }),
    {
        match keycode {
            ControlKey::KeyD => {
                self.key_d_down = is_pressed;
            },
            ControlKey::KeyA => {
                self.key_a_down = is_pressed;
            },
            ControlKey::KeyW => {
                self.key_w_down = is_pressed;
            },
            ControlKey::KeyS => {
                self.key_s_down = is_pressed;
            },
            ControlKey::KeyQ => {
                self.key_q_down = is_pressed;
            },
            ControlKey::KeyE => {
                self.key_e_down = is_pressed;
            },
            ControlKey::Escape => {
                return KeyOutcome::Exit;
            },
            ControlKey::Other => {},
        }
        KeyOutcome::Continue
    }

    /// What this frame does with the held keys; keys 1 and 2 start their
    /// animation once and are then released.
    pub fn process_input(&mut self) -> (r: InputActions)
        ensures
            r.camera_moves@ == camera_moves_of(*old(self)),
            r.camera_moves@.contains(CameraMove::Left) <==> old(self).key_a_down,
            r.camera_moves@.contains(CameraMove::Right) <==> old(self).key_d_down,
            r.camera_moves@.contains(CameraMove::Back) <==> old(self).key_s_down,
            r.camera_moves@.contains(CameraMove::Forward) <==> old(self).key_w_down,
            r.camera_moves@.no_duplicates(),
            r.animations@ == animations_of(*old(self)),
            !final(self).key_1_down && !final(self).key_2_down,
            final(self).key_d_down == old(self).key_d_down,
            final(self).key_a_down == old(self).key_a_down,
            final(self).key_w_down == old(self).key_w_down,
            final(self).key_s_down == old(self).key_s_down,
            final(self).key_q_down == old(self).key_q_down,
            final(self).key_e_down == old(self).key_e_down,
    {
        let mut camera_moves: Vec<CameraMove> = Vec::new();
        let mut animations: Vec<(usize, usize, usize)> = Vec::new();
        if self.key_a_down {
            camera_moves.push(CameraMove::Left);
        }
        if self.key_d_down {
            camera_moves.push(CameraMove::Right);
        }
        if self.key_s_down {
            camera_moves.push(CameraMove::Back);
        }
        if self.key_w_down {
            camera_moves.push(CameraMove::Forward);
        }
        if self.key_1_down {
            animations.push((0, 0, 0));
            self.key_1_down = false;
        }
        if self.key_2_down {
            animations.push((0, 0, 1));
            self.key_2_down = false;
        }
        proof {
            assert(camera_moves@ =~= camera_moves_of(*old(self)));
            lemma_camera_moves(*old(self));
            assert(animations@ =~= animations_of(*old(self)));
        }
        InputActions { camera_moves, animations }
    }
}

} // verus!
