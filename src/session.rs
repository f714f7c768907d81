use crate::creatures::{clamp, EnemyLabel, EnemyStatus, Monster};
use crate::events::{AtkMonsterWithPlayerSkill, AudioSound, ChangeEnemyHpEvent, PlayAudioEvent, RegionClickEvent};
use crate::geometry::PlaneOrientation;
use crate::player::{amount_of, applied_all, fresh_player, PlayerStatus};
use crate::values::drawn_from;
use crate::pool::{Pool, Weight};
use crate::geometry::{in_scope_spec, Point};
use crate::regions::{keeps, walk_shaped, Regions, SCOPE_LIMIT};
use crate::rng::RNG;
use crate::skills::{settles, strike, struck, used, PlayerSkills, Skill};
use crate::status::{
    after_visit, initial_status_of, neighbours_of, visit_changes, ChangeRegionStatusEvent, Exploration,
    RegionStatus,
};
use crate::tile::{tile_type_of, TileType};
use crate::values::Value;
use std::collections::HashMap;
use vstd::prelude::*;

verus! {

/// How many placements a session attempts after the start tile.
pub const GEN_REGION_ITEMS: u64 = 1024;

/// What a tile holds.
pub enum TileContent {
    Empty,
    Hostile(EnemyStatus, EnemyLabel),
    Reward(Value),
}

/// The tile `id` holds a monster.
pub open spec fn is_hostile(contents: Map<u64, TileContent>, id: u64) -> bool {
    contents.contains_key(id) && contents[id] is Hostile
}

/// The tile `id` is in status `s`.
pub open spec fn status_is(statuses: Map<u64, RegionStatus>, id: u64, s: RegionStatus) -> bool {
    statuses.contains_key(id) && statuses[id] == s
}

/// The monster of a tile is fresh from `m`: full health, and `m`'s name and
/// pictures.
pub open spec fn enemy_of(e: EnemyStatus, l: EnemyLabel, m: Monster) -> bool {
    &&& e.name@ == m.name@
    &&& e.atk == m.atk
    &&& e.def == m.def
    &&& e.max_hp == m.hp
    &&& e.cur_hp == m.hp as i64
    &&& l.name@ == m.name@
    &&& l.intro@ == m.intro@
    &&& l.image_label@ == m.image_label@
    &&& l.icon@ == m.icon@
}

/// The two reward blocks are alike in every field.
pub open spec fn same_reward(a: Value, b: Value) -> bool {
    &&& a.name@ == b.name@
    &&& a.intro@ == b.intro@
    &&& a.image_label@ == b.image_label@
    &&& a.values@ == b.values@
}

/// The content is empty, or made from some monster of `monsters`, or a copy of some
/// reward of `values`.
pub open spec fn content_from(
    c: TileContent,
    monsters: Seq<Weight<Monster>>,
    values: Seq<Weight<Value>>,
) -> bool {
    match c {
        TileContent::Empty => true,
        TileContent::Hostile(e, l) => exists|i: int|
            0 <= i < monsters.len() && enemy_of(e, l, #[trigger] monsters[i].0),
        TileContent::Reward(v) => exists|i: int|
            0 <= i < values.len() && same_reward(v, #[trigger] values[i].0),
    }
}

/// What a click on a tile set off.
pub struct ClickOutcome {
    /// The attack on the tile's monster that a click on a found tile requests.
    pub attack: Option<AtkMonsterWithPlayerSkill>,
    /// The status changes: the visit of a found tile without a monster.
    pub changes: Vec<ChangeRegionStatusEvent>,
    /// The amounts drawn for the reward of a found tile, in effect order.
    pub reward: Vec<i64>,
    /// The sounds to play.
    pub sounds: Vec<PlayAudioEvent>,
}

/// One session: the map, the discovery state, the content of every tile and the
/// player.
pub struct Session {
    pub regions: Regions,
    pub exploration: Exploration,
    pub contents: HashMap<u64, TileContent>,
    pub player: PlayerStatus,
    pub skills: PlayerSkills,
}

impl Session {
    /// The map is well formed and the player has a skill.
    pub open spec fn wf(&self) -> bool {
        &&& self.regions.wf()
        &&& self.skills.skills@.len() > 0
    }

    /// A fresh session on `regions`: every tile in its initial status, no content and
    /// a fresh player.
    pub fn new(regions: Regions) -> (r: Session)
        requires
            regions.wf(),
        ensures
            r.wf(),
            r.regions == regions,
            r.contents@ == Map::<u64, TileContent>::empty(),
            r.player == fresh_player(),
            r.exploration.statuses@.dom() == regions.tiles@.dom(),
            forall|id: u64| #[trigger]
                r.exploration.statuses@.contains_key(id) ==> r.exploration.statuses@[id]
                    == initial_status_of(tile_type_of(regions.tiles@[id].shape@)),
    {
        let exploration = Exploration::new(&regions);
        Session {
            regions,
            exploration,
            contents: HashMap::new(),
            player: PlayerStatus::default(),
            skills: PlayerSkills::default(),
        }
    }

    /// Generates the map of a session on a cleared `regions` (see
    /// `Regions::random_generate_tiles`), then fills every room: with a monster of
    /// `monsters` seven times in ten, else with a reward of `values`. Other tiles stay
    /// empty.
    pub fn generate(
        regions: Regions,
        times: u64,
        step_pool: &Pool<Vec<PlaneOrientation>>,
        monsters: &Pool<Monster>,
        values: &Pool<Value>,
        rng: &mut RNG,
    ) -> (r: Session)
        requires
            regions.wf(),
            regions.inc_id + times + 1 <= u64::MAX,
            regions.scope.0 <= SCOPE_LIMIT,
            regions.scope.1 <= SCOPE_LIMIT,
            step_pool.wf(),
            times > 0 ==> step_pool.0@.len() > 0,
            forall|i: int|
                0 <= i < step_pool.0@.len() ==> (#[trigger] step_pool.0@[i]).0@.len() <= SCOPE_LIMIT,
            monsters.wf(),
            monsters.0@.len() > 0,
            values.wf(),
            values.0@.len() > 0,
        ensures
            r.wf(),
            r.regions.scope == regions.scope,
            r.regions.tiles@.dom() == r.exploration.statuses@.dom(),
            r.contents@.dom() == r.regions.tiles@.dom(),
            forall|id: u64| #[trigger]
                r.exploration.statuses@.contains_key(id) ==> r.exploration.statuses@[id]
                    == initial_status_of(tile_type_of(r.regions.tiles@[id].shape@)),
            forall|id: u64| #[trigger]
                r.contents@.contains_key(id) ==> ((r.contents@[id] is Empty) <==> tile_type_of(
                    r.regions.tiles@[id].shape@,
                ) != TileType::Room),
            r.player == fresh_player(),
            final(rng)@.0 == old(rng)@.0,
            r.regions.inc_id == regions.inc_id + times + 1,
            keeps(regions, r.regions),
            regions.tile_map@ == Map::<Point, u64>::empty() && in_scope_spec(Point(0, 0), regions.scope)
                ==> r.regions.tiles@.contains_key((regions.inc_id + 1) as u64)
                && r.regions.tiles@[(regions.inc_id + 1) as u64].shape@ == seq![Point(0, 0)]
                && r.exploration.statuses@[(regions.inc_id + 1) as u64] == RegionStatus::Found,
            forall|id: u64| #[trigger]
                r.regions.tiles@.contains_key(id) && !regions.tiles@.contains_key(id) && id != (
                regions.inc_id + 1) as u64 ==> exists|i: int|
                    0 <= i < step_pool.0@.len() && walk_shaped(
                        r.regions.tiles@[id].shape@,
                        (#[trigger] step_pool.0@[i]).0@,
                    ),
            forall|id: u64| #[trigger]
                r.contents@.contains_key(id) ==> content_from(r.contents@[id], monsters.0@, values.0@),
    {
        let ghost given = regions;
        let mut regions = regions;
        regions.random_generate_tiles(times, step_pool, rng);
        let mut session = Session::new(regions);
        let ghost generated = session.regions;
        proof {
            let first = (given.inc_id + 1) as u64;
            if given.tile_map@ == Map::<Point, u64>::empty() && in_scope_spec(Point(0, 0), given.scope) {
                let s = generated.tiles@[first].shape@;
                assert(tile_type_of(s) == TileType::Started);
            }
        }
        let ids = session.regions.tile_ids();
        let mut i: usize = 0;
        while i < ids.len()
            invariant
                0 <= i <= ids@.len(),
                session.wf(),
                monsters.wf(),
                monsters.0@.len() > 0,
                values.wf(),
                values.0@.len() > 0,
                ids@.no_duplicates(),
                forall|id: u64| #[trigger] ids@.contains(id) <==> session.regions.tiles@.contains_key(id),
                forall|id: u64| #[trigger]
                    session.contents@.contains_key(id) <==> exists|j: int| 0 <= j < i && ids@[j] == id,
                forall|id: u64| #[trigger]
                    session.contents@.contains_key(id) ==> ((session.contents@[id] is Empty) <==> tile_type_of(
                        session.regions.tiles@[id].shape@,
                    ) != TileType::Room),
                session.regions.scope == regions.scope,
                session.regions.tiles@.dom() == session.exploration.statuses@.dom(),
                forall|id: u64| #[trigger]
                    session.exploration.statuses@.contains_key(id) ==> session.exploration.statuses@[id]
                        == initial_status_of(tile_type_of(session.regions.tiles@[id].shape@)),
                session.player == fresh_player(),
                rng@.0 == old(rng)@.0,
                session.regions == generated,
                forall|id: u64| #[trigger]
                    session.contents@.contains_key(id) ==> content_from(
                        session.contents@[id],
                        monsters.0@,
                        values.0@,
                    ),
            decreases ids@.len() - i,
        {
            let id = ids[i];
            assert(ids@.contains(id));
            let kind = match session.regions.tiles.get(&id) {
                Some(tile) => tile.to_tile_type(),
                None => TileType::Obstacle,
            };
            let content = if kind == TileType::Room {
                if rng.random_val_boolean(7, 10) {
                    let monster = monsters.fetch_item(rng);
                    let c = TileContent::Hostile(monster.to_enemy_status(), monster.to_enemy_label());
                    proof {
                        let k = choose|k: int|
                            0 <= k < monsters.0@.len() && monster == &(#[trigger] monsters.0@[k]).0;
                        assert(enemy_of(c->Hostile_0, c->Hostile_1, monsters.0@[k].0));
                    }
                    c
                } else {
                    let value = values.fetch_item(rng);
                    let c = TileContent::Reward(value.duplicate());
                    proof {
                        let k = choose|k: int|
                            0 <= k < values.0@.len() && value == &(#[trigger] values.0@[k]).0;
                        assert(same_reward(c->Reward_0, values.0@[k].0));
                    }
                    c
                }
            } else {
                TileContent::Empty
            };
            assert(!(exists|j: int| 0 <= j < i && ids@[j] == id)) by {
                if exists|j: int| 0 <= j < i && ids@[j] == id {
                    let j = choose|j: int| 0 <= j < i && ids@[j] == id;
                    assert(ids@[j] == ids@[i as int]);
                }
            }
            session.contents.insert(id, content);
            proof {
                assert forall|x: u64| #[trigger]
                    session.contents@.contains_key(x) <==> exists|j: int| 0 <= j < i + 1 && ids@[j] == x by {
                    if x == id {
                        assert(ids@[i as int] == x);
                    }
                    if exists|j: int| 0 <= j < i + 1 && ids@[j] == x {
                        let j = choose|j: int| 0 <= j < i + 1 && ids@[j] == x;
                        if j < i {
                            assert(exists|j: int| 0 <= j < i && ids@[j] == x);
                        }
                    }
                }
            }
            i = i + 1;
        }
        proof {
            assert forall|id: u64| #[trigger] session.contents@.contains_key(id) <==> session.regions.tiles@.contains_key(
                id,
            ) by {
                if session.regions.tiles@.contains_key(id) {
                    assert(ids@.contains(id));
                    let j = choose|j: int| 0 <= j < ids@.len() && ids@[j] == id;
                    assert(0 <= j < i && ids@[j] == id);
                }
                if session.contents@.contains_key(id) {
                    let j = choose|j: int| 0 <= j < i && ids@[j] == id;
                    assert(ids@.contains(id));
                }
            }
            assert(session.contents@.dom() =~= session.regions.tiles@.dom());
        }
        session
    }

    /// Answers an attack request on the tile `event.0` with the next skill due (see
    /// `PlayerSkills::update_player_skills_order`): against the tile's monster, its health
    /// change is returned and the player is struck back; without one, only the skills
    /// turn. The skill's sound comes with it either way.
    pub fn attack(&mut self, event: AtkMonsterWithPlayerSkill) -> (r: (
        Option<ChangeEnemyHpEvent>,
        PlayAudioEvent,
    ))
        requires
            old(self).wf(),
        ensures
            final(self).wf(),
            final(self).regions == old(self).regions,
            final(self).exploration == old(self).exploration,
            final(self).contents@ == old(self).contents@,
            final(self).skills.skills@.len() == old(self).skills.skills@.len(),
            ({
                let id = event.0;
                let hostile = is_hostile(old(self).contents@, id);
                let enemy = old(self).contents@[id]->Hostile_0;
                &&& exists|q: Seq<Skill>|
                    #[trigger] settles(old(self).skills.skills@, q) && q.len() > 0 && settles(
                        used(q),
                        final(self).skills.skills@,
                    ) && r.0 == (if hostile {
                        Some(ChangeEnemyHpEvent(id, strike(q[0].event, old(self).player.atk, enemy.def)))
                    } else {
                        None
                    })
                &&& r.1 == PlayAudioEvent(AudioSound::Dao5)
                &&& final(self).player == (if hostile {
                    struck(old(self).player, enemy.atk)
                } else {
                    old(self).player
                })
            }),
    {
        let AtkMonsterWithPlayerSkill(id) = event;
        let enemy = match self.contents.get(&id) {
            Some(TileContent::Hostile(e, _)) => Some(e),
            _ => None,
        };
        self.skills.update_player_skills_order(id, &mut self.player, enemy)
    }

    /// A click on the tile `event.0`. When the tile is found: an attack on its monster
    /// is requested; a tile without a monster is visited (status changes, a click
    /// sound); a reward is collected. A click on any other tile sets off nothing.
    pub fn click(&mut self, event: RegionClickEvent, rng: &mut RNG) -> (r: ClickOutcome)
        requires
            old(self).wf(),
        ensures
            final(self).wf(),
            final(self).regions == old(self).regions,
            final(self).contents@ == old(self).contents@,
            final(rng)@.0 == old(rng)@.0,
            ({
                let id = event.0;
                let found = status_is(old(self).exploration.statuses@, id, RegionStatus::Found);
                let hostile = is_hostile(old(self).contents@, id);
                &&& r.attack == (if found {
                    Some(AtkMonsterWithPlayerSkill(id))
                } else {
                    None
                })
                &&& found && !hostile ==> final(self).exploration.statuses@ == after_visit(
                    old(self).exploration.statuses@,
                    neighbours_of(old(self).regions, id),
                    id,
                ) && visit_changes(
                    old(self).exploration.statuses@,
                    neighbours_of(old(self).regions, id),
                    id,
                    r.changes@,
                ) && r.sounds@ == seq![PlayAudioEvent(AudioSound::Click)]
                &&& !(found && !hostile) ==> final(self).exploration.statuses@ == old(
                    self,
                ).exploration.statuses@ && r.changes@.len() == 0 && r.sounds@.len() == 0
                &&& (found && old(self).contents@.contains_key(id) && old(self).contents@[id] is Reward)
                    ==> r.reward@.len() == old(self).contents@[id]->Reward_0.values@.len()
                    && final(self).player == applied_all(
                    old(self).player,
                    old(self).contents@[id]->Reward_0.values@,
                    r.reward@,
                ) && forall|j: int|
                    0 <= j < r.reward@.len() ==> drawn_from(
                        amount_of(old(self).contents@[id]->Reward_0.values@[j]),
                        #[trigger] r.reward@[j],
                    )
                &&& !(found && old(self).contents@.contains_key(id) && old(self).contents@[id] is Reward)
                    ==> final(self).player == old(self).player && r.reward@.len() == 0
            }),
    {
        let RegionClickEvent(id) = event;
        let found = match self.exploration.status(id) {
            Some(s) => s == RegionStatus::Found,
            None => false,
        };
        if !found {
            return ClickOutcome { attack: None, changes: Vec::new(), reward: Vec::new(), sounds: Vec::new() };
        }
        let mut reward: Vec<i64> = Vec::new();
        let mut hostile = false;
        match self.contents.get(&id) {
            Some(TileContent::Hostile(_, _)) => {
                hostile = true;
            },
            Some(TileContent::Reward(value)) => {
                reward = self.player.apply_reward(value, rng);
            },
            _ => {},
        }
        let mut changes: Vec<ChangeRegionStatusEvent> = Vec::new();
        let mut sounds: Vec<PlayAudioEvent> = Vec::new();
        if !hostile {
            changes = self.exploration.visit(&self.regions, id);
            sounds.push(PlayAudioEvent(AudioSound::Click));
        }
        ClickOutcome { attack: Some(AtkMonsterWithPlayerSkill(id)), changes, reward, sounds }
    }

    /// Changes the health of the monster of the tile `event.0` by `event.1`. When that
    /// defeats it, the tile is visited; the changes and a click sound are returned.
    /// A tile without a living monster is left as it is.
    pub fn damage(&mut self, event: ChangeEnemyHpEvent) -> (r: (Vec<ChangeRegionStatusEvent>, Vec<PlayAudioEvent>))
        requires
            old(self).wf(),
        ensures
            final(self).wf(),
            final(self).regions == old(self).regions,
            final(self).player == old(self).player,
            final(self).contents@.dom() == old(self).contents@.dom(),
            ({
                let id = event.0;
                let before = old(self).contents@;
                let after = final(self).contents@;
                let alive = is_hostile(before, id) && before[id]->Hostile_0.cur_hp > 0;
                let defeated = alive && clamp(before[id]->Hostile_0.cur_hp + event.1, 0, i64::MAX as int) == 0;
                &&& forall|x: u64| #[trigger] before.contains_key(x) && x != id ==> after[x] == before[x]
                &&& alive ==> after[id] == TileContent::Hostile(
                    EnemyStatus {
                        cur_hp: clamp(before[id]->Hostile_0.cur_hp + event.1, 0, i64::MAX as int) as i64,
                        ..before[id]->Hostile_0
                    },
                    before[id]->Hostile_1,
                )
                &&& !alive ==> after == before
                &&& defeated ==> final(self).exploration.statuses@ == after_visit(
                    old(self).exploration.statuses@,
                    neighbours_of(old(self).regions, id),
                    id,
                ) && visit_changes(
                    old(self).exploration.statuses@,
                    neighbours_of(old(self).regions, id),
                    id,
                    r.0@,
                )
                &&& r.1@ == (if defeated && status_is(
                    old(self).exploration.statuses@,
                    id,
                    RegionStatus::Found,
                ) {
                    seq![PlayAudioEvent(AudioSound::Click)]
                } else {
                    Seq::empty()
                })
                &&& !defeated ==> final(self).exploration.statuses@ == old(self).exploration.statuses@
                    && r.0@.len() == 0
            }),
    {
        let ChangeEnemyHpEvent(id, delta) = event;
        let mut defeated = false;
        let taken = self.contents.remove(&id);
        match taken {
            Some(TileContent::Hostile(mut enemy, label)) => {
                defeated = enemy.change_hp(delta);
                self.contents.insert(id, TileContent::Hostile(enemy, label));
            },
            Some(other) => {
                self.contents.insert(id, other);
            },
            None => {},
        }
        proof {
            assert(self.contents@.dom() =~= old(self).contents@.dom());
            if !(is_hostile(old(self).contents@, id) && old(self).contents@[id]->Hostile_0.cur_hp > 0) {
                assert(self.contents@ =~= old(self).contents@);
            }
        }
        if defeated {
            let changes = self.exploration.visit(&self.regions, id);
            let mut sounds: Vec<PlayAudioEvent> = Vec::new();
            if changes.len() > 0 {
                sounds.push(PlayAudioEvent(AudioSound::Click));
            }
            (changes, sounds)
        } else {
            (Vec::new(), Vec::new())
        }
    }
}

} // verus!
