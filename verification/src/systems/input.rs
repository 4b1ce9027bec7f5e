//! Turning the pilot's keys into the player ship's intent.

use vstd::prelude::*;

verus! {

/// Which of the pilot's keys are held this frame.
#[derive(Clone, Copy, Debug, PartialEq, Eq, Structural)]
pub struct ControlKeys {
    pub a: bool,
    pub left: bool,
    pub d: bool,
    pub right: bool,
    pub w: bool,
    pub up: bool,
    pub space: bool,
}

/// What the player's ship is told to do this frame.
#[derive(Clone, Copy, Debug, PartialEq, Eq, Structural)]
pub struct PilotCommand {
    /// -1 turns left, 1 turns right, 0 holds the heading.
    pub rotation: i8,
    pub thrusting: bool,
    pub firing: bool,
    /// The engine has just been lit, so the camera starts shaking.
    pub start_shake: bool,
}

/// The command for `keys`, given whether the ship was thrusting before:
/// A or Left turns left, D or Right turns right (both cancel out), W or Up
/// thrusts, Space fires, and lighting the engine starts a camera shake.
pub open spec fn command_for(keys: ControlKeys, was_thrusting: bool) -> PilotCommand {
    let thrusting = keys.w || keys.up;
    PilotCommand {
        rotation: ((if keys.d || keys.right { 1int } else { 0int }) - (if keys.a || keys.left {
            1int
        } else {
            0int
        })) as i8,
        thrusting,
        firing: keys.space,
        start_shake: !was_thrusting && thrusting,
    }
}

/// Reads the pilot's keys into a command for the player's ship.
pub fn pilot_command(keys: &ControlKeys, was_thrusting: bool) -> (command: PilotCommand)
    ensures
        command == command_for(*keys, was_thrusting),
{
    let mut rotation: i8 = 0;
    if keys.a || keys.left {
        rotation = rotation - 1;
    }
    if keys.d || keys.right {
        rotation = rotation + 1;
    }
    let thrusting = keys.w || keys.up;
    PilotCommand {
        rotation,
        thrusting,
        firing: keys.space,
        start_shake: !was_thrusting && thrusting,
    }
}

/// The ship turns by at most one step a frame, and only while a turn key is
/// held.
pub proof fn law_rotation_is_a_unit_step(keys: ControlKeys, was_thrusting: bool)
    ensures
        -1 <= command_for(keys, was_thrusting).rotation <= 1,
        !(keys.a || keys.left || keys.d || keys.right) ==> command_for(keys, was_thrusting).rotation == 0,
{
}

/// Holding the thrust key shakes the camera once, on the first frame: the
/// frame after a command that thrusts never starts a shake.
pub proof fn law_shake_once_per_burn(first: ControlKeys, second: ControlKeys, was_thrusting: bool)
    ensures
        !command_for(second, command_for(first, was_thrusting).thrusting).start_shake
            || !command_for(first, was_thrusting).thrusting,
        command_for(first, was_thrusting).start_shake ==> command_for(first, was_thrusting).thrusting,
{
}

/// Each key does its own job: a left key alone (A or Left) turns left, a
/// right key alone (D or Right) turns right, a key on each side holds the
/// heading; W or Up thrusts, Space fires, and the shake starts exactly when
/// thrust begins.
pub proof fn law_each_key_does_its_job(keys: ControlKeys, was_thrusting: bool)
    ensures
        (keys.a || keys.left) && !(keys.d || keys.right) ==> command_for(keys, was_thrusting).rotation == -1,
        (keys.d || keys.right) && !(keys.a || keys.left) ==> command_for(keys, was_thrusting).rotation == 1,
        (keys.a || keys.left) && (keys.d || keys.right) ==> command_for(keys, was_thrusting).rotation == 0,
        command_for(keys, was_thrusting).thrusting <==> (keys.w || keys.up),
        command_for(keys, was_thrusting).firing <==> keys.space,
        command_for(keys, was_thrusting).start_shake <==> (!was_thrusting && (keys.w || keys.up)),
{
}

} // verus!
