//! In-game modes and the server's custom mode variants.
use vstd::prelude::*;

verus! {

/// A custom, server-side implemented mode.
#[derive(Clone, Copy, PartialEq, Eq, Structural, Debug)]
pub enum CustomMode {
    VANILLA,
    RELAX,
    AUTOPILOT,
}

/// The custom mode that a wire value names; anything unknown is vanilla.
pub open spec fn custom_mode_from_u8(i: u8) -> CustomMode {
    match i {
        1 => CustomMode::RELAX,
        2 => CustomMode::AUTOPILOT,
        _ => CustomMode::VANILLA,
    }
}

impl From<u8> for CustomMode {
    fn from(i: u8) -> (m: CustomMode)
        ensures
            m == custom_mode_from_u8(i),
    {
        match i {
            1 => CustomMode::RELAX,
            2 => CustomMode::AUTOPILOT,
            _ => CustomMode::VANILLA,
        }
    }
}

impl vstd::std_specs::convert::FromSpecImpl<u8> for CustomMode {
    open spec fn obeys_from_spec() -> bool {
        true
    }

    open spec fn from_spec(i: u8) -> CustomMode {
        custom_mode_from_u8(i)
    }
}

/// An in-game mode.
#[derive(Clone, Copy, PartialEq, Eq, Structural, Debug)]
pub enum Mode {
    STANDARD,
    TAIKO,
    CATCH,
    MANIA,
}

/// The mode that a wire value names; anything unknown is standard.
pub open spec fn mode_from_u8(i: u8) -> Mode {
    match i {
        1 => Mode::TAIKO,
        2 => Mode::CATCH,
        3 => Mode::MANIA,
        _ => Mode::STANDARD,
    }
}

impl From<u8> for Mode {
    fn from(i: u8) -> (m: Mode)
        ensures
            m == mode_from_u8(i),
    {
        match i {
            1 => Mode::TAIKO,
            2 => Mode::CATCH,
            3 => Mode::MANIA,
            _ => Mode::STANDARD,
        }
    }
}

impl vstd::std_specs::convert::FromSpecImpl<u8> for Mode {
    open spec fn obeys_from_spec() -> bool {
        true
    }

    open spec fn from_spec(i: u8) -> Mode {
        mode_from_u8(i)
    }
}

} // verus!
