use std::collections::HashSet;

use vstd::prelude::*;

verus! {

broadcast use vstd::std_specs::hash::group_hash_axioms;

/// A player command bound to a key.
#[derive(Clone, Copy, PartialEq, Eq, Hash, Debug, Structural)]
pub enum PlayerInput {
    RollCW,
    RollCCW,
    ThrustUp,
    ThrustDown,
    ThrustLeft,
    ThrustRight,
    ThrustForward,
    ThrustBackward,
    Damping,
}

/// Keyboard scancodes (USB HID usage numbers, as SDL reports them).
pub const SCANCODE_A: i32 = 4;
pub const SCANCODE_D: i32 = 7;
pub const SCANCODE_E: i32 = 8;
pub const SCANCODE_Q: i32 = 20;
pub const SCANCODE_S: i32 = 22;
pub const SCANCODE_W: i32 = 26;
pub const SCANCODE_TAB: i32 = 43;
pub const SCANCODE_SPACE: i32 = 44;
pub const SCANCODE_LSHIFT: i32 = 225;

/// The key bindings: Q/E roll, W/S up/down, A/D left/right,
/// LShift/Space forward/backward, Tab damping.
pub open spec fn scancode_binding(scancode: i32) -> Option<PlayerInput> {
    if scancode == SCANCODE_Q {
        Some(PlayerInput::RollCCW)
    } else if scancode == SCANCODE_E {
        Some(PlayerInput::RollCW)
    } else if scancode == SCANCODE_W {
        Some(PlayerInput::ThrustUp)
    } else if scancode == SCANCODE_S {
        Some(PlayerInput::ThrustDown)
    } else if scancode == SCANCODE_A {
        Some(PlayerInput::ThrustLeft)
    } else if scancode == SCANCODE_D {
        Some(PlayerInput::ThrustRight)
    } else if scancode == SCANCODE_LSHIFT {
        Some(PlayerInput::ThrustForward)
    } else if scancode == SCANCODE_SPACE {
        Some(PlayerInput::ThrustBackward)
    } else if scancode == SCANCODE_TAB {
        Some(PlayerInput::Damping)
    } else {
        None
    }
}

/// The nine keys the controls bind: Q, E, W, S, A, D, LShift, Space, Tab.
pub open spec fn is_bound_scancode(scancode: i32) -> bool {
    scancode == SCANCODE_Q || scancode == SCANCODE_E || scancode == SCANCODE_W || scancode
        == SCANCODE_S || scancode == SCANCODE_A || scancode == SCANCODE_D || scancode
        == SCANCODE_LSHIFT || scancode == SCANCODE_SPACE || scancode == SCANCODE_TAB
}

/// Only the nine bound keys give an input; every other key does nothing.
pub proof fn law_unbound_keys_do_nothing(scancode: i32)
    ensures
        scancode_binding(scancode) is Some <==> is_bound_scancode(scancode),
{
}

/// Distinct bound keys give distinct inputs, and every input has a key.
pub proof fn law_binding_one_to_one(s1: i32, s2: i32, p: PlayerInput)
    ensures
        scancode_binding(s1) is Some && scancode_binding(s1) == scancode_binding(s2) ==> s1 == s2,
        exists|s: i32| is_bound_scancode(s) && #[trigger] scancode_binding(s) == Some(p),
{
    match p {
        PlayerInput::RollCW => assert(scancode_binding(SCANCODE_E) == Some(p)),
        PlayerInput::RollCCW => assert(scancode_binding(SCANCODE_Q) == Some(p)),
        PlayerInput::ThrustUp => assert(scancode_binding(SCANCODE_W) == Some(p)),
        PlayerInput::ThrustDown => assert(scancode_binding(SCANCODE_S) == Some(p)),
        PlayerInput::ThrustLeft => assert(scancode_binding(SCANCODE_A) == Some(p)),
        PlayerInput::ThrustRight => assert(scancode_binding(SCANCODE_D) == Some(p)),
        PlayerInput::ThrustForward => assert(scancode_binding(SCANCODE_LSHIFT) == Some(p)),
        PlayerInput::ThrustBackward => assert(scancode_binding(SCANCODE_SPACE) == Some(p)),
        PlayerInput::Damping => assert(scancode_binding(SCANCODE_TAB) == Some(p)),
    }
}

/// A small number per input, distinct for distinct inputs.
pub open spec fn input_code(p: PlayerInput) -> u8 {
    match p {
        PlayerInput::RollCW => 0,
        PlayerInput::RollCCW => 1,
        PlayerInput::ThrustUp => 2,
        PlayerInput::ThrustDown => 3,
        PlayerInput::ThrustLeft => 4,
        PlayerInput::ThrustRight => 5,
        PlayerInput::ThrustForward => 6,
        PlayerInput::ThrustBackward => 7,
        PlayerInput::Damping => 8,
    }
}

impl PlayerInput {
    /// The input bound to the key with this scancode, if any.
    pub fn from_scancode(scancode: i32) -> (r: Option<PlayerInput>)
        ensures
            r == scancode_binding(scancode),
            r is Some <==> is_bound_scancode(scancode),
            scancode == SCANCODE_Q ==> r == Some(PlayerInput::RollCCW),
            scancode == SCANCODE_E ==> r == Some(PlayerInput::RollCW),
            scancode == SCANCODE_W ==> r == Some(PlayerInput::ThrustUp),
            scancode == SCANCODE_S ==> r == Some(PlayerInput::ThrustDown),
            scancode == SCANCODE_A ==> r == Some(PlayerInput::ThrustLeft),
            scancode == SCANCODE_D ==> r == Some(PlayerInput::ThrustRight),
            scancode == SCANCODE_LSHIFT ==> r == Some(PlayerInput::ThrustForward),
            scancode == SCANCODE_SPACE ==> r == Some(PlayerInput::ThrustBackward),
            scancode == SCANCODE_TAB ==> r == Some(PlayerInput::Damping),
    {
        if scancode == SCANCODE_Q {
            Some(PlayerInput::RollCCW)
        } else if scancode == SCANCODE_E {
            Some(PlayerInput::RollCW)
        } else if scancode == SCANCODE_W {
            Some(PlayerInput::ThrustUp)
        } else if scancode == SCANCODE_S {
            Some(PlayerInput::ThrustDown)
        } else if scancode == SCANCODE_A {
            Some(PlayerInput::ThrustLeft)
        } else if scancode == SCANCODE_D {
            Some(PlayerInput::ThrustRight)
        } else if scancode == SCANCODE_LSHIFT {
            Some(PlayerInput::ThrustForward)
        } else if scancode == SCANCODE_SPACE {
            Some(PlayerInput::ThrustBackward)
        } else if scancode == SCANCODE_TAB {
            Some(PlayerInput::Damping)
        } else {
            None
        }
    }

    fn code(self) -> (c: u8)
        ensures
            c == input_code(self),
    {
        match self {
            PlayerInput::RollCW => 0,
            PlayerInput::RollCCW => 1,
            PlayerInput::ThrustUp => 2,
            PlayerInput::ThrustDown => 3,
            PlayerInput::ThrustLeft => 4,
            PlayerInput::ThrustRight => 5,
            PlayerInput::ThrustForward => 6,
            PlayerInput::ThrustBackward => 7,
            PlayerInput::Damping => 8,
        }
    }
}

/// The set of inputs whose key is currently held.
pub struct InputSet {
    codes: HashSet<u8>,
}

impl View for InputSet {
    type V = Set<PlayerInput>;

    closed spec fn view(&self) -> Set<PlayerInput> {
        Set::new(|p: PlayerInput| self.codes@.contains(input_code(p)))
    }
}

impl InputSet {
    /// No input held.
    pub fn new() -> (s: InputSet)
        ensures
            s@ == Set::<PlayerInput>::empty(),
    {
        let s = InputSet { codes: HashSet::new() };
        assert(s@ =~= Set::<PlayerInput>::empty());
        s
    }

    /// Whether `p` is held.
    pub fn contains(&self, p: PlayerInput) -> (b: bool)
        ensures
            b == self@.contains(p),
    {
        let c = p.code();
        self.codes.contains(&c)
    }

    /// Marks `p` as held; returns whether it was not held before.
    pub fn insert(&mut self, p: PlayerInput) -> (fresh: bool)
        ensures
            final(self)@ == old(self)@.insert(p),
            fresh == !old(self)@.contains(p),
    {
        let c = p.code();
        let fresh = self.codes.insert(c);
        assert(self@ =~= old(self)@.insert(p));
        fresh
    }

    /// Marks `p` as released; returns whether it was held.
    pub fn remove(&mut self, p: PlayerInput) -> (was: bool)
        ensures
            final(self)@ == old(self)@.remove(p),
            was == old(self)@.contains(p),
    {
        let c = p.code();
        let was = self.codes.remove(&c);
        assert(self@ =~= old(self)@.remove(p));
        was
    }
}

} // verus!
