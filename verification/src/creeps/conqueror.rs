//! Conquerors: go to the room to claim and claim its controller.
use crate::bounded::{name_as_str, name_chars};
use crate::rooms::world_position::{room_coords, room_name, room_name_overflows};
use crate::rooms::WorldPosition;
use vstd::prelude::*;

verus! {

/// What a conqueror does next.
#[derive(Debug, Clone, Copy, PartialEq, Eq)]
pub enum ClaimStep {
    /// Move to the centre of this room.
    MoveTo(WorldPosition),
    /// Claim the controller of the room it is in.
    Claim,
}

/// Why a conqueror cannot proceed.
#[derive(Debug, Clone, Copy, PartialEq, Eq)]
pub enum ClaimError {
    /// No room to claim is set.
    NoTarget,
    /// The room to claim has a name that does not parse; the parse error.
    InvalidTarget(&'static str),
}

/// What a conqueror in room `current` with target room `target` (if set)
/// does: claim when it is in the room of that name, else move to it.
pub fn plan_claim(target: Option<&String>, current: WorldPosition) -> (r: Result<ClaimStep, ClaimError>)
    requires
        -10000 <= current.0[0] <= 10000,
        -10000 <= current.0[1] <= 10000,
        target matches Some(t) ==> !room_name_overflows(t@),
    ensures
        match target {
            None => r == Err::<ClaimStep, ClaimError>(ClaimError::NoTarget),
            Some(t) => if t@ == room_name(current.coords().0, current.coords().1) {
                r == Ok::<ClaimStep, ClaimError>(ClaimStep::Claim)
            } else {
                match room_coords(t@) {
                    Some(c) => (r matches Ok(ClaimStep::MoveTo(p)) && p.coords() == c),
                    None => (r matches Err(ClaimError::InvalidTarget(m)) && m@
                        == "Failed to parse coordinates"@),
                }
            },
        },
{
    let t = match target {
        Some(t) => t,
        None => return Err(ClaimError::NoTarget),
    };
    let here = current.to_string();
    let here = name_as_str(&here).to_owned();
    if here == *t {
        return Ok(ClaimStep::Claim);
    }
    match WorldPosition::parse_name(t.as_str()) {
        Ok(p) => Ok(ClaimStep::MoveTo(p)),
        Err(e) => Err(ClaimError::InvalidTarget(e)),
    }
}

/// What claiming a controller gave.
#[derive(Debug, Clone, Copy, PartialEq, Eq, Structural)]
pub enum ClaimOutcome {
    /// The controller is being claimed.
    Claimed,
    /// The controller is out of reach.
    NotInRange,
    /// Any other refusal.
    Refused,
}

/// What follows a claim.
#[derive(Debug, Clone, Copy, PartialEq, Eq, Structural)]
pub enum ClaimFollowup {
    /// Done for this tick.
    Done,
    /// Move to the controller.
    Approach,
    /// The claim failed.
    Failed,
}

/// What follows a claim with the given outcome.
pub fn after_claim(outcome: ClaimOutcome) -> (f: ClaimFollowup)
    ensures
        f == match outcome {
            ClaimOutcome::Claimed => ClaimFollowup::Done,
            ClaimOutcome::NotInRange => ClaimFollowup::Approach,
            ClaimOutcome::Refused => ClaimFollowup::Failed,
        },
{
    match outcome {
        ClaimOutcome::Claimed => ClaimFollowup::Done,
        ClaimOutcome::NotInRange => ClaimFollowup::Approach,
        ClaimOutcome::Refused => ClaimFollowup::Failed,
    }
}

} // verus!
