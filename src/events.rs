use crate::status::RegionStatus;
use vstd::prelude::*;

verus! {

/// The id of the tile an entity stands for.
#[derive(Clone, Copy, PartialEq, Eq, Structural, Debug)]
pub struct RegionId(pub u64);

/// The player clicked a tile.
#[derive(Clone, Copy, PartialEq, Eq, Structural, Debug)]
pub struct RegionClickEvent(pub u64);

/// The pointer is over a tile.
#[derive(Clone, Copy, PartialEq, Eq, Structural, Debug)]
pub struct MouseOverRegionEvent(pub u64);

/// The pointer is over no tile.
#[derive(Clone, Copy, PartialEq, Eq, Structural, Debug)]
pub struct MouseOverEmpty;

/// A sound to play.
#[derive(Clone, Copy, PartialEq, Eq, Structural, Debug)]
pub enum AudioSound {
    Click,
    Dao5,
}

/// A request to play a sound.
#[derive(Clone, Copy, PartialEq, Eq, Structural, Debug)]
pub struct PlayAudioEvent(pub AudioSound);

/// The player attacks the monster of a tile with the next ready skill.
#[derive(Clone, Copy, PartialEq, Eq, Structural, Debug)]
pub struct AtkMonsterWithPlayerSkill(pub u64);

/// A change of the health of the monster of a tile.
#[derive(Clone, Copy, PartialEq, Eq, Structural, Debug)]
pub struct ChangeEnemyHpEvent(pub u64, pub i64);

/// The tile the pointer rests on, if it is one the player can act on.
#[derive(Clone, Copy, PartialEq, Eq, Structural, Debug)]
pub enum CurrentOverRegion {
    Nothing,
    Region(u64),
}

/// The hovered tile after the pointer moves over the tile `id` in status `status`:
/// that tile when it is found, else none.
pub open spec fn hovered(status: RegionStatus, id: u64) -> CurrentOverRegion {
    if status == RegionStatus::Found {
        CurrentOverRegion::Region(id)
    } else {
        CurrentOverRegion::Nothing
    }
}

impl Default for CurrentOverRegion {
    /// Nothing is hovered at first.
    fn default() -> (r: Self)
        ensures
            r == CurrentOverRegion::Nothing,
    {
        CurrentOverRegion::Nothing
    }
}

impl CurrentOverRegion {
    /// The hovered tile after the pointer moves over `id`, whose status is `status`.
    pub fn mouse_over_region(&self, event: MouseOverRegionEvent, status: RegionStatus) -> (r:
        CurrentOverRegion)
        ensures
            r == hovered(status, event.0),
    {
        let MouseOverRegionEvent(id) = event;
        match status {
            RegionStatus::Found => CurrentOverRegion::Region(id),
            _ => CurrentOverRegion::Nothing,
        }
    }

    /// The hovered tile after the pointer leaves every tile: none.
    pub fn mouse_over_empty(&self, event: MouseOverEmpty) -> (r: CurrentOverRegion)
        ensures
            r == CurrentOverRegion::Nothing,
    {
        CurrentOverRegion::Nothing
    }
}

} // verus!
