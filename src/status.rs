use crate::regions::Regions;
use crate::tile::{tile_type_of, TileType};
use std::collections::HashMap;
use vstd::prelude::*;

verus! {

/// The discovery state of a tile.
#[derive(Clone, Copy, PartialEq, Eq, Structural, Debug)]
pub enum RegionStatus {
    /// Discovered and interactive.
    Found,
    /// Resolved; no transition leaves it.
    Visited,
    /// Hidden from the player.
    Mist,
}

/// A status change: the tile id and its new status.
#[derive(Clone, Copy, PartialEq, Eq, Structural, Debug)]
pub struct ChangeRegionStatusEvent(pub u64, pub RegionStatus);

/// The status a tile starts in: the start tile is found, every other tile hidden.
pub open spec fn initial_status_of(kind: TileType) -> RegionStatus {
    if kind == TileType::Started {
        RegionStatus::Found
    } else {
        RegionStatus::Mist
    }
}

/// The statuses after visiting `id`, whose neighbours are `adj`: a found tile becomes
/// visited and each hidden neighbour becomes found; any other visit changes nothing.
pub open spec fn after_visit(s: Map<u64, RegionStatus>, adj: Seq<u64>, id: u64) -> Map<
    u64,
    RegionStatus,
> {
    if s.contains_key(id) && s[id] == RegionStatus::Found {
        Map::new(
            |x: u64| s.contains_key(x),
            |x: u64|
                if x == id {
                    RegionStatus::Visited
                } else if s[x] == RegionStatus::Mist && adj.contains(x) {
                    RegionStatus::Found
                } else {
                    s[x]
                },
        )
    } else {
        s
    }
}

/// Revelation only moves forward: a visit keeps the tiles that have a status, leaves
/// every visited tile visited, and hides no tile that was not hidden before.
pub proof fn lemma_visit_is_monotone(s: Map<u64, RegionStatus>, adj: Seq<u64>, id: u64, x: u64)
    requires
        s.contains_key(x),
    ensures
        after_visit(s, adj, id).dom() == s.dom(),
        s[x] == RegionStatus::Visited ==> after_visit(s, adj, id)[x] == RegionStatus::Visited,
        after_visit(s, adj, id)[x] == RegionStatus::Mist ==> s[x] == RegionStatus::Mist,
{
    assert(after_visit(s, adj, id).dom() =~= s.dom());
}

/// `r` lists the changes of visiting `id`, whose neighbours are `adj`: nothing when
/// the tile is not found; else `(id, Visited)` first, then each hidden neighbour once
/// as `(x, Found)`, and nothing else.
pub open spec fn visit_changes(
    s: Map<u64, RegionStatus>,
    adj: Seq<u64>,
    id: u64,
    r: Seq<ChangeRegionStatusEvent>,
) -> bool {
    let found = s.contains_key(id) && s[id] == RegionStatus::Found;
    &&& r.no_duplicates()
    &&& found ==> r.len() > 0 && r[0] == ChangeRegionStatusEvent(id, RegionStatus::Visited)
    &&& !found ==> r.len() == 0
    &&& forall|x: u64| #[trigger]
        r.contains(ChangeRegionStatusEvent(x, RegionStatus::Found)) <==> (found && s.contains_key(x)
            && s[x] == RegionStatus::Mist && adj.contains(x))
    &&& forall|i: int| 0 < i < r.len() ==> (#[trigger] r[i]).1 == RegionStatus::Found && r[i].0 != id
}

/// The neighbours of `id` in `regions`, none for an id that is not placed.
pub open spec fn neighbours_of(regions: Regions, id: u64) -> Seq<u64> {
    if regions.tiles@.contains_key(id) {
        regions.tiles@[id].adjacent@
    } else {
        Seq::empty()
    }
}

/// The status a tile of the given kind starts in.
pub fn initial_status(kind: TileType) -> (r: RegionStatus)
    ensures
        r == initial_status_of(kind),
{
    match kind {
        TileType::Started => RegionStatus::Found,
        _ => RegionStatus::Mist,
    }
}

/// The discovery status of every tile of a session.
pub struct Exploration {
    pub statuses: HashMap<u64, RegionStatus>,
}

impl Exploration {
    /// Every placed tile in its initial status, judged by its shape.
    pub fn new(regions: &Regions) -> (r: Exploration)
        ensures
            r.statuses@.dom() == regions.tiles@.dom(),
            forall|id: u64| #[trigger]
                r.statuses@.contains_key(id) ==> r.statuses@[id] == initial_status_of(
                    tile_type_of(regions.tiles@[id].shape@),
                ),
    {
        let ids = regions.tile_ids();
        let mut statuses: HashMap<u64, RegionStatus> = HashMap::new();
        let mut i: usize = 0;
        while i < ids.len()
            invariant
                0 <= i <= ids@.len(),
                forall|id: u64| #[trigger] ids@.contains(id) <==> regions.tiles@.contains_key(id),
                forall|id: u64| #[trigger]
                    statuses@.contains_key(id) <==> exists|j: int| 0 <= j < i && ids@[j] == id,
                forall|id: u64| #[trigger]
                    statuses@.contains_key(id) ==> statuses@[id] == initial_status_of(
                        tile_type_of(regions.tiles@[id].shape@),
                    ),
            decreases ids@.len() - i,
        {
            let id = ids[i];
            assert(ids@.contains(id));
            match regions.tiles.get(&id) {
                Some(tile) => {
                    let status = initial_status(tile.to_tile_type());
                    statuses.insert(id, status);
                },
                None => {},
            }
            proof {
                assert forall|x: u64| #[trigger]
                    statuses@.contains_key(x) <==> exists|j: int| 0 <= j < i + 1 && ids@[j] == x by {
                    if x == id {
                        assert(ids@[i as int] == x);
                    }
                    if exists|j: int| 0 <= j < i + 1 && ids@[j] == x {
                        let j = choose|j: int| 0 <= j < i + 1 && ids@[j] == x;
                        if j < i {
                            assert(exists|j: int| 0 <= j < i && ids@[j] == x);
                        }
                    }
                }
            }
            i = i + 1;
        }
        proof {
            assert forall|id: u64| #[trigger] statuses@.contains_key(id) <==> regions.tiles@.contains_key(
                id,
            ) by {
                if regions.tiles@.contains_key(id) {
                    assert(ids@.contains(id));
                    let j = choose|j: int| 0 <= j < ids@.len() && ids@[j] == id;
                    assert(0 <= j < i && ids@[j] == id);
                }
                if statuses@.contains_key(id) {
                    let j = choose|j: int| 0 <= j < i && ids@[j] == id;
                    assert(ids@.contains(id));
                }
            }
            assert(statuses@.dom() =~= regions.tiles@.dom());
        }
        Exploration { statuses }
    }

    /// The status of `id`, if it has one.
    pub fn status(&self, id: u64) -> (r: Option<RegionStatus>)
        ensures
            r == (if self.statuses@.contains_key(id) {
                Some(self.statuses@[id])
            } else {
                None
            }),
    {
        match self.statuses.get(&id) {
            Some(s) => Some(*s),
            None => None,
        }
    }

    /// Visits `id`: a found tile becomes visited and each of its hidden neighbours
    /// becomes found. Returns the changes in that order: the visited tile first, then
    /// each revealed neighbour once. Visiting a tile that is not found changes nothing.
    pub fn visit(&mut self, regions: &Regions, id: u64) -> (r: Vec<ChangeRegionStatusEvent>)
        requires
            regions.wf(),
        ensures
            final(self).statuses@ == after_visit(
                old(self).statuses@,
                neighbours_of(*regions, id),
                id,
            ),
            visit_changes(old(self).statuses@, neighbours_of(*regions, id), id, r@),
    {
        let ghost s0 = self.statuses@;
        let ghost adj = neighbours_of(*regions, id);
        let mut events: Vec<ChangeRegionStatusEvent> = Vec::new();
        match self.statuses.get(&id) {
            Some(s) => {
                if *s != RegionStatus::Found {
                    return events;
                }
            },
            None => {
                return events;
            },
        }
        self.statuses.insert(id, RegionStatus::Visited);
        events.push(ChangeRegionStatusEvent(id, RegionStatus::Visited));
        match regions.tiles.get(&id) {
            Some(tile) => {
                assert(tile.adjacent@ == adj);
                assert(!adj.contains(id)) by {
                    if adj.contains(id) {
                        assert(regions.linked(id, id));
                    }
                }
                let mut k: usize = 0;
                while k < tile.adjacent.len()
                    invariant
                        0 <= k <= adj.len(),
                        tile.adjacent@ == adj,
                        adj.no_duplicates(),
                        !adj.contains(id),
                        s0.contains_key(id) && s0[id] == RegionStatus::Found,
                        self.statuses@.dom() == s0.dom(),
                        self.statuses@[id] == RegionStatus::Visited,
                        forall|x: u64| #[trigger]
                            self.statuses@.contains_key(x) && x != id ==> self.statuses@[x] == (if s0[x]
                                == RegionStatus::Mist && occurs_in(adj, k as int, x) {
                                RegionStatus::Found
                            } else {
                                s0[x]
                            }),
                        events@.len() > 0,
                        events@[0] == ChangeRegionStatusEvent(id, RegionStatus::Visited),
                        events@.no_duplicates(),
                        forall|i: int|
                            0 < i < events@.len() ==> (#[trigger] events@[i]).1 == RegionStatus::Found
                                && events@[i].0 != id,
                        forall|x: u64| #[trigger]
                            events@.contains(ChangeRegionStatusEvent(x, RegionStatus::Found)) <==> (
                            s0.contains_key(x) && s0[x] == RegionStatus::Mist && occurs_in(
                                adj,
                                k as int,
                                x,
                            )),
                    decreases adj.len() - k,
                {
                    let x = tile.adjacent[k];
                    let ghost e0 = events@;
                    assert(!occurs_in(adj, k as int, x)) by {
                        if occurs_in(adj, k as int, x) {
                            let a = choose|a: int| 0 <= a < k && adj[a] == x;
                            assert(adj[a] == adj[k as int]);
                        }
                    }
                    let current = self.statuses.get(&x);
                    if let Some(st) = current {
                        if *st == RegionStatus::Mist {
                            assert(x != id) by {
                                assert(adj.contains(x));
                            }
                            self.statuses.insert(x, RegionStatus::Found);
                            events.push(ChangeRegionStatusEvent(x, RegionStatus::Found));
                            proof {
                                assert(!e0.contains(ChangeRegionStatusEvent(x, RegionStatus::Found)));
                                assert forall|i: int, j: int|
                                    0 <= i < events@.len() && 0 <= j < events@.len() && i
                                        != j implies events@[i] != events@[j] by {
                                    if i == e0.len() as int && j < e0.len() {
                                        if e0[j] == ChangeRegionStatusEvent(x, RegionStatus::Found) {
                                            assert(e0.contains(e0[j]));
                                        }
                                    }
                                    if j == e0.len() as int && i < e0.len() {
                                        if e0[i] == ChangeRegionStatusEvent(x, RegionStatus::Found) {
                                            assert(e0.contains(e0[i]));
                                        }
                                    }
                                }
                                assert forall|y: u64| #[trigger]
                                    events@.contains(ChangeRegionStatusEvent(y, RegionStatus::Found))
                                        <==> e0.contains(ChangeRegionStatusEvent(y, RegionStatus::Found))
                                        || y == x by {
                                    let ev = ChangeRegionStatusEvent(y, RegionStatus::Found);
                                    if e0.contains(ev) {
                                        let j = choose|j: int| 0 <= j < e0.len() && e0[j] == ev;
                                        assert(events@[j] == ev);
                                    }
                                    if y == x {
                                        assert(events@[e0.len() as int] == ev);
                                    }
                                    if events@.contains(ev) {
                                        let j = choose|j: int| 0 <= j < events@.len() && events@[j] == ev;
                                        if j < e0.len() {
                                            assert(e0[j] == ev);
                                        }
                                    }
                                }
                            }
                        }
                    }
                    proof {
                        assert forall|y: u64| #[trigger] occurs_in(adj, k + 1, y) <==> (occurs_in(
                            adj,
                            k as int,
                            y,
                        ) || y == x) by {
                            if y == x {
                                assert(adj[k as int] == y);
                            }
                            if occurs_in(adj, k + 1, y) && y != x {
                                let a = choose|a: int| 0 <= a < k + 1 && adj[a] == y;
                                assert(occurs_in(adj, k as int, y));
                            }
                            if occurs_in(adj, k as int, y) {
                                let a = choose|a: int| 0 <= a < k && adj[a] == y;
                                assert(occurs_in(adj, k + 1, y));
                            }
                        }
                    }
                    k = k + 1;
                }
                proof {
                    assert forall|y: u64| #[trigger] occurs_in(adj, adj.len() as int, y) <==> adj.contains(
                        y,
                    ) by {
                    }
                }
            },
            None => {
                assert(adj == Seq::<u64>::empty());
            },
        }
        proof {
            assert(self.statuses@ =~= after_visit(s0, adj, id));
        }
        events
    }
}

/// `x` is one of the first `k` elements of `s`.
spec fn occurs_in(s: Seq<u64>, k: int, x: u64) -> bool {
    exists|a: int| 0 <= a < k && s[a] == x
}

} // verus!
