use vstd::prelude::*;

use crate::input::{InputSet, PlayerInput};

verus! {

/// 1 when `p` is held, 0 otherwise.
pub open spec fn held(inputs: Set<PlayerInput>, p: PlayerInput) -> int {
    if inputs.contains(p) {
        1
    } else {
        0
    }
}

/// The signed value of a key pair on one axis.
pub open spec fn axis_value(inputs: Set<PlayerInput>, pos: PlayerInput, neg: PlayerInput) -> int {
    held(inputs, pos) - held(inputs, neg)
}

/// +1 when only `pos` is held, -1 when only `neg` is held, 0 when both or
/// neither are held.
pub fn axis(inputs: &InputSet, pos: PlayerInput, neg: PlayerInput) -> (a: i32)
    ensures
        a == axis_value(inputs@, pos, neg),
{
    let p: i32 = if inputs.contains(pos) {
        1
    } else {
        0
    };
    let n: i32 = if inputs.contains(neg) {
        1
    } else {
        0
    };
    p - n
}

/// The body-space translation direction requested by the keys, before
/// normalisation: D/A on x, W/S on y, Space/LShift on z (body -Z is the
/// nose, so forward thrust is -Z).
pub fn translation_axes(inputs: &InputSet) -> (v: (i32, i32, i32))
    ensures
        v.0 == axis_value(inputs@, PlayerInput::ThrustRight, PlayerInput::ThrustLeft),
        v.1 == axis_value(inputs@, PlayerInput::ThrustUp, PlayerInput::ThrustDown),
        v.2 == axis_value(inputs@, PlayerInput::ThrustBackward, PlayerInput::ThrustForward),
{
    (
        axis(inputs, PlayerInput::ThrustRight, PlayerInput::ThrustLeft),
        axis(inputs, PlayerInput::ThrustUp, PlayerInput::ThrustDown),
        axis(inputs, PlayerInput::ThrustBackward, PlayerInput::ThrustForward),
    )
}

/// Holding both keys of a pair commands nothing on that axis.
pub proof fn law_opposite_keys_cancel(inputs: Set<PlayerInput>, pos: PlayerInput, neg: PlayerInput)
    requires
        inputs.contains(pos),
        inputs.contains(neg),
    ensures
        axis_value(inputs, pos, neg) == 0,
{
}

/// An axis value is always -1, 0 or 1, and its sign follows the held key.
pub proof fn law_axis_unit(inputs: Set<PlayerInput>, pos: PlayerInput, neg: PlayerInput)
    requires
        pos != neg,
    ensures
        -1 <= axis_value(inputs, pos, neg) <= 1,
        axis_value(inputs, pos, neg) == 1 <==> inputs.contains(pos) && !inputs.contains(neg),
        axis_value(inputs, pos, neg) == -1 <==> inputs.contains(neg) && !inputs.contains(pos),
        axis_value(inputs, pos, neg) == -axis_value(inputs, neg, pos),
{
}

} // verus!
