//! The live actor set and its capacity rules.
//!
//! A `Population` owns every admitted actor: id, position, health and
//! optional cooldown channel. Admission is capped (never more than
//! `max_live` actors present, never more than `spawn_rate_cap` admitted in
//! one batch); removal of dead actors happens in one deferred sweep per tick
//! so that same-tick observers still see the "just died" state.

use vstd::prelude::*;
use crate::cooldown::DamageCooldown;
use crate::health::Health;
use crate::spatial::COORD_LIMIT;
use crate::spatial::PointEntry;

verus! {

/// One admitted actor.
#[derive(Clone, Copy, Debug)]
pub struct Actor {
    pub id: u64,
    pub x: i64,
    pub y: i64,
    pub health: Health,
    pub cooldown: Option<DamageCooldown>,
}

/// A proposed spawn: where the actor would stand, how much health it gets,
/// and its cooldown duration if it has a damage cooldown channel.
#[derive(Clone, Copy, Debug)]
pub struct SpawnRequest {
    pub x: i64,
    pub y: i64,
    pub max_health: u32,
    pub cooldown_ms: Option<u64>,
}

/// Position within the coordinate range the spatial index accepts.
pub open spec fn actor_in_bounds(a: Actor) -> bool {
    &&& -COORD_LIMIT <= a.x <= COORD_LIMIT
    &&& -COORD_LIMIT <= a.y <= COORD_LIMIT
}

/// No two actors share an id.
pub open spec fn ids_distinct(s: Seq<Actor>) -> bool {
    forall|i: int, j: int| 0 <= i < j < s.len() ==> (#[trigger] s[i]).id != (#[trigger] s[j]).id
}

/// Some actor with this id is present.
pub open spec fn has_actor(s: Seq<Actor>, id: u64) -> bool {
    exists|i: int| 0 <= i < s.len() && (#[trigger] s[i]).id == id
}

/// The position of the actor with this id (meaningful when present and ids
/// are distinct).
pub open spec fn idx_of(s: Seq<Actor>, id: u64) -> int {
    choose|i: int| 0 <= i < s.len() && (#[trigger] s[i]).id == id
}

/// The actor with this id.
pub open spec fn actor_of(s: Seq<Actor>, id: u64) -> Actor {
    s[idx_of(s, id)]
}

/// The sequence with the actor of this id replaced.
pub open spec fn update_actor(s: Seq<Actor>, id: u64, a: Actor) -> Seq<Actor> {
    s.update(idx_of(s, id), a)
}

/// The actor a request turns into when admitted under a fresh id: full
/// health and a ready cooldown channel, assembled atomically.
pub open spec fn spec_new_actor(req: SpawnRequest, id: u64) -> Actor {
    Actor {
        id,
        x: req.x,
        y: req.y,
        health: Health { current: req.max_health, max: req.max_health },
        cooldown: match req.cooldown_ms {
            Some(d) => Some(DamageCooldown { remaining: 0, duration: d }),
            None => None,
        },
    }
}

/// The actors an admitted prefix of a request batch turns into, under ids
/// counted up from `next_id`.
pub open spec fn spec_admitted_actors(
    requests: Seq<SpawnRequest>,
    next_id: int,
    admitted: nat,
) -> Seq<Actor> {
    Seq::new(admitted, |k: int| spec_new_actor(requests[k], (next_id + k) as u64))
}

/// How many of `requested` spawns are admitted against `live` present
/// actors: the headroom below `max_live` and the per-batch rate cap both
/// bound it, and it is zero (never negative) when the population is full.
pub open spec fn spec_admission(requested: nat, live: nat, max_live: nat, cap: nat) -> nat {
    if live >= max_live {
        0
    } else {
        let headroom = (max_live - live) as nat;
        if requested <= headroom && requested <= cap {
            requested
        } else if headroom <= cap {
            headroom
        } else {
            cap
        }
    }
}

/// An actor counts as alive while it has hit points left.
pub open spec fn spec_alive(a: Actor) -> bool {
    a.health.current > 0
}

/// Liveness as a value usable with `Seq::filter`.
pub open spec fn alive_pred() -> spec_fn(Actor) -> bool {
    |a: Actor| spec_alive(a)
}

/// The actor after healing.
pub open spec fn spec_heal_actor(a: Actor, amount: u32) -> Actor {
    Actor { id: a.id, x: a.x, y: a.y, health: a.health.spec_heal(amount), cooldown: a.cooldown }
}

/// The actor after `dt` milliseconds pass on its cooldown channel.
pub open spec fn spec_tick_actor(a: Actor, dt: u64) -> Actor {
    Actor {
        id: a.id,
        x: a.x,
        y: a.y,
        health: a.health,
        cooldown: match a.cooldown {
            Some(c) => Some(c.spec_tick(dt)),
            None => None,
        },
    }
}

/// The whole actor set after `dt` milliseconds pass on every cooldown
/// channel.
pub open spec fn spec_tick_actors(s: Seq<Actor>, dt: u64) -> Seq<Actor> {
    Seq::new(s.len(), |i: int| spec_tick_actor(s[i], dt))
}

/// The index entry standing for an actor.
pub open spec fn spec_point_of(a: Actor) -> PointEntry {
    PointEntry { x: a.x, y: a.y, id: a.id }
}

/// `spec_point_of` as a value usable with `Seq::map_values`.
pub open spec fn point_of_fn() -> spec_fn(Actor) -> PointEntry {
    |a: Actor| spec_point_of(a)
}

/// The point set standing for a whole actor sequence, in order.
pub open spec fn spec_points_of(s: Seq<Actor>) -> Seq<PointEntry> {
    s.map_values(point_of_fn())
}

/// One damage resolution against the actor set, as the Apply phase performs
/// it for a single event: the new actor set and whether the damage was
/// actually applied. Damage is applied exactly when the target is present,
/// alive, and its cooldown channel (if it has one) is ready; application
/// subtracts clamped at zero and rearms the channel.
pub open spec fn spec_resolve_damage(s: Seq<Actor>, target: u64, amount: u32) -> (Seq<Actor>, bool) {
    if !has_actor(s, target) {
        (s, false)
    } else {
        let a = actor_of(s, target);
        if a.health.current == 0 {
            (s, false)
        } else {
            let blocked = match a.cooldown {
                Some(c) => !c.spec_is_ready(),
                None => false,
            };
            if blocked {
                (s, false)
            } else {
                let a2 = Actor {
                    id: a.id,
                    x: a.x,
                    y: a.y,
                    health: a.health.spec_damage(amount),
                    cooldown: match a.cooldown {
                        Some(c) => Some(c.spec_mark_applied()),
                        None => None,
                    },
                };
                (update_actor(s, target, a2), true)
            }
        }
    }
}

/// Filtering a sequence with distinct ids keeps ids distinct, and every kept
/// element stems from the unfiltered sequence.
proof fn lemma_filter_keeps_ids_distinct(s: Seq<Actor>, pred: spec_fn(Actor) -> bool)
    requires
        ids_distinct(s),
    ensures
        ids_distinct(s.filter(pred)),
        forall|k: int| 0 <= k < s.filter(pred).len() ==> s.contains(#[trigger] s.filter(pred)[k]),
    decreases s.len(),
{
    broadcast use vstd::seq_lib::group_filter_ensures;

    reveal(Seq::filter);
    if s.len() > 0 {
        let d = s.drop_last();
        assert(ids_distinct(d)) by {
            assert forall|i: int, j: int| 0 <= i < j < d.len() implies (#[trigger] d[i]).id != (
            #[trigger] d[j]).id by {
                assert(d[i] == s[i] && d[j] == s[j]);
            }
        }
        lemma_filter_keeps_ids_distinct(d, pred);
        let df = d.filter(pred);
        assert forall|k: int| 0 <= k < s.filter(pred).len() implies s.contains(
            #[trigger] s.filter(pred)[k],
        ) by {
            if pred(s.last()) {
                assert(s.filter(pred) == df.push(s.last()));
                if k < df.len() {
                    assert(s.filter(pred)[k] == df[k]);
                    assert(d.contains(df[k]));
                    let w = choose|w: int| 0 <= w < d.len() && d[w] == df[k];
                    assert(s[w] == df[k]);
                } else {
                    assert(s[s.len() - 1] == s.filter(pred)[k]);
                }
            } else {
                assert(s.filter(pred) == df);
                assert(d.contains(df[k]));
                let w = choose|w: int| 0 <= w < d.len() && d[w] == df[k];
                assert(s[w] == df[k]);
            }
        }
        assert forall|i: int, j: int| 0 <= i < j < s.filter(pred).len() implies (
        #[trigger] s.filter(pred)[i]).id != (#[trigger] s.filter(pred)[j]).id by {
            if pred(s.last()) && j == s.filter(pred).len() - 1 {
                assert(s.filter(pred) == df.push(s.last()));
                assert(s.filter(pred)[i] == df[i]);
                assert(d.contains(df[i]));
                let w = choose|w: int| 0 <= w < d.len() && d[w] == df[i];
                assert(s[w].id != s[s.len() - 1].id);
            }
        }
    }
}

/// Population cap: whatever is requested, admission never outgrows the
/// population cap, the per-batch rate cap, or the request list itself — and
/// a population already at or above its cap admits nothing.
pub proof fn lemma_admission_within_caps(requested: nat, live: nat, max_live: nat, cap: nat)
    ensures
        spec_admission(requested, live, max_live, cap) <= requested,
        spec_admission(requested, live, max_live, cap) <= cap,
        live <= max_live ==> live + spec_admission(requested, live, max_live, cap) <= max_live,
        live >= max_live ==> spec_admission(requested, live, max_live, cap) == 0,
{
}

/// The live actor set, with its capacity configuration and the id counter
/// that keeps ids unique for the lifetime of the population.
pub struct Population {
    actors: Vec<Actor>,
    next_id: u64,
    max_live: usize,
    spawn_rate_cap: usize,
}

impl View for Population {
    type V = Seq<Actor>;

    closed spec fn view(&self) -> Seq<Actor> {
        self.actors@
    }
}

impl Population {
    pub closed spec fn spec_max_live(self) -> nat {
        self.max_live as nat
    }

    pub closed spec fn spec_spawn_rate_cap(self) -> nat {
        self.spawn_rate_cap as nat
    }

    pub closed spec fn spec_next_id(self) -> int {
        self.next_id as int
    }

    /// Capacity configuration unchanged by an operation.
    pub open spec fn same_config(self, other: Population) -> bool {
        &&& self.spec_max_live() == other.spec_max_live()
        &&& self.spec_spawn_rate_cap() == other.spec_spawn_rate_cap()
    }

    /// Population invariant: never more actors than `max_live`, distinct ids
    /// all below the id counter, well-formed health, in-bounds positions.
    pub open spec fn wf(self) -> bool {
        &&& self@.len() <= self.spec_max_live()
        &&& ids_distinct(self@)
        &&& (forall|i: int| 0 <= i < self@.len() ==> (#[trigger] self@[i]).id < self.spec_next_id())
        &&& (forall|i: int| 0 <= i < self@.len() ==> (#[trigger] self@[i]).health.wf())
        &&& (forall|i: int| 0 <= i < self@.len() ==> actor_in_bounds(#[trigger] self@[i]))
    }

    /// An empty population with the given caps.
    pub fn new(max_live: usize, spawn_rate_cap: usize) -> (p: Population)
        ensures
            p.wf(),
            p@ =~= Seq::<Actor>::empty(),
            p.spec_max_live() == max_live as nat,
            p.spec_spawn_rate_cap() == spawn_rate_cap as nat,
            p.spec_next_id() == 1,
    {
        Population { actors: Vec::new(), next_id: 1, max_live, spawn_rate_cap }
    }

    /// Number of actors present (admitted and not yet swept; this includes
    /// dead actors awaiting the deferred sweep).
    pub fn live_count(&self) -> (n: usize)
        ensures
            n == self@.len(),
    {
        self.actors.len()
    }

    pub fn max_live(&self) -> (n: usize)
        ensures
            n == self.spec_max_live(),
    {
        self.max_live
    }

    pub fn spawn_rate_cap(&self) -> (n: usize)
        ensures
            n == self.spec_spawn_rate_cap(),
    {
        self.spawn_rate_cap
    }

    /// The id the next admitted actor will receive. Ids only grow; none is
    /// ever reused.
    pub fn next_id(&self) -> (n: u64)
        ensures
            n as int == self.spec_next_id(),
    {
        self.next_id
    }

    /// Index of the actor with this id, if present.
    fn find(&self, id: u64) -> (r: Option<usize>)
        requires
            ids_distinct(self@),
        ensures
            match r {
                Some(i) => i < self@.len() && self@[i as int].id == id && i == idx_of(self@, id)
                    && has_actor(self@, id),
                None => !has_actor(self@, id),
            },
    {
        let n = self.actors.len();
        let mut i: usize = 0;
        while i < n
            invariant
                i <= n,
                n == self@.len(),
                ids_distinct(self@),
                forall|k: int| 0 <= k < i ==> (#[trigger] self@[k]).id != id,
            decreases n - i,
        {
            if self.actors[i].id == id {
                proof {
                    assert(self@[i as int].id == id);
                    let w = idx_of(self@, id);
                    assert(0 <= w < self@.len() && self@[w].id == id);
                    if w != i as int {
                        if w < i as int {
                            assert(self@[w].id != self@[i as int].id);
                        } else {
                            assert(self@[i as int].id != self@[w].id);
                        }
                    }
                }
                return Some(i);
            }
            i = i + 1;
        }
        proof {
            if has_actor(self@, id) {
                let w = choose|w: int| 0 <= w < self@.len() && (#[trigger] self@[w]).id == id;
                assert(self@[w].id != id);
            }
        }
        None
    }

    /// Admit a batch of spawn requests, front-biased, up to the remaining
    /// headroom and the per-batch rate cap. Requesting more than fits is not
    /// an error: the batch is silently truncated.
    pub fn spawn_batch(&mut self, requests: &Vec<SpawnRequest>) -> (admitted: usize)
        requires
            old(self).wf(),
            forall|i: int| 0 <= i < requests@.len() ==> (#[trigger] requests@[i]).max_health > 0,
            forall|i: int|
                0 <= i < requests@.len() ==> -COORD_LIMIT <= (#[trigger] requests@[i]).x
                    <= COORD_LIMIT && -COORD_LIMIT <= requests@[i].y <= COORD_LIMIT,
            old(self).spec_next_id() + requests@.len() <= u64::MAX,
        ensures
            final(self).wf(),
            old(self).same_config(*final(self)),
            admitted as nat == spec_admission(
                requests@.len(),
                old(self)@.len(),
                old(self).spec_max_live(),
                old(self).spec_spawn_rate_cap(),
            ),
            final(self)@.len() == old(self)@.len() + admitted,
            final(self)@.len() <= old(self).spec_max_live(),
            final(self)@.subrange(0, old(self)@.len() as int) =~= old(self)@,
            forall|k: int|
                0 <= k < admitted ==> final(self)@[old(self)@.len() + k] == spec_new_actor(
                    requests@[k],
                    (old(self).spec_next_id() + k) as u64,
                ),
            final(self).spec_next_id() == old(self).spec_next_id() + admitted,
    {
        let live = self.actors.len();
        let admitted: usize = if live >= self.max_live {
            0
        } else {
            let headroom = self.max_live - live;
            let quota = if headroom <= self.spawn_rate_cap {
                headroom
            } else {
                self.spawn_rate_cap
            };
            if requests.len() <= quota {
                requests.len()
            } else {
                quota
            }
        };
        let mut k: usize = 0;
        while k < admitted
            invariant
                k <= admitted,
                admitted <= requests@.len(),
                old(self)@.len() + admitted <= old(self).spec_max_live(),
                old(self).wf(),
                forall|i: int| 0 <= i < requests@.len() ==> (#[trigger] requests@[i]).max_health
                    > 0,
                forall|i: int|
                    0 <= i < requests@.len() ==> -COORD_LIMIT <= (#[trigger] requests@[i]).x
                        <= COORD_LIMIT && -COORD_LIMIT <= requests@[i].y <= COORD_LIMIT,
                old(self).spec_next_id() + requests@.len() <= u64::MAX,
                self@.len() == old(self)@.len() + k,
                self@.subrange(0, old(self)@.len() as int) =~= old(self)@,
                forall|j: int|
                    0 <= j < k ==> self@[old(self)@.len() + j] == spec_new_actor(
                        requests@[j],
                        (old(self).spec_next_id() + j) as u64,
                    ),
                self.spec_next_id() == old(self).spec_next_id() + k,
                self.same_config(*old(self)),
                self.wf(),
            decreases admitted - k,
        {
            let req = requests[k];
            let actor = Actor {
                id: self.next_id,
                x: req.x,
                y: req.y,
                health: Health::new(req.max_health),
                cooldown: match req.cooldown_ms {
                    Some(d) => Some(DamageCooldown::new(d)),
                    None => None,
                },
            };
            let ghost before = self@;
            self.actors.push(actor);
            self.next_id = self.next_id + 1;
            proof {
                assert(self@ =~= before.push(actor));
                assert(self@.subrange(0, old(self)@.len() as int) =~= before.subrange(
                    0,
                    old(self)@.len() as int,
                ));
                assert(actor == spec_new_actor(
                    requests@[k as int],
                    (old(self).spec_next_id() + k) as u64,
                ));
                assert forall|i: int, j: int| 0 <= i < j < self@.len() implies (
                #[trigger] self@[i]).id != (#[trigger] self@[j]).id by {
                    if j == self@.len() - 1 {
                        assert(self@[i] == before[i]);
                    }
                }
            }
            k = k + 1;
        }
        admitted
    }

    /// Deferred batch removal: drop every actor whose health has reached
    /// zero, keeping the survivors in order. Runs once per tick, after all
    /// gameplay phases, so same-tick observers still saw the dead actors.
    pub fn sweep_dead(&mut self) -> (removed: usize)
        requires
            old(self).wf(),
        ensures
            final(self).wf(),
            old(self).same_config(*final(self)),
            final(self).spec_next_id() == old(self).spec_next_id(),
            final(self)@ =~= old(self)@.filter(alive_pred()),
            removed == old(self)@.len() - final(self)@.len(),
    {
        broadcast use vstd::seq_lib::group_filter_ensures;

        let ghost pred = alive_pred();
        let n = self.actors.len();
        let mut kept: Vec<Actor> = Vec::new();
        let mut i: usize = 0;
        proof {
            reveal(Seq::filter);
            assert(kept@ =~= self@.take(0).filter(pred));
        }
        while i < n
            invariant
                i <= n,
                n == self@.len(),
                pred == alive_pred(),
                kept@ =~= self@.take(i as int).filter(pred),
                kept@.len() <= i,
            decreases n - i,
        {
            let a = self.actors[i];
            let ghost prefix = self@.take(i as int);
            if a.health.current() > 0 {
                kept.push(a);
            }
            proof {
                reveal(Seq::filter);
                assert(self@.take(i + 1) == prefix.push(a));
                assert(prefix.push(a).drop_last() =~= prefix);
                assert(prefix.push(a).filter(pred) == if pred(a) {
                    prefix.filter(pred).push(a)
                } else {
                    prefix.filter(pred)
                });
            }
            i = i + 1;
        }
        proof {
            assert(self@.take(n as int) =~= self@);
        }
        let removed = n - kept.len();
        let ghost before = self@;
        self.actors = kept;
        proof {
            lemma_filter_keeps_ids_distinct(before, pred);
            assert forall|k: int| 0 <= k < self@.len() implies (#[trigger] self@[k]).health.wf()
                && actor_in_bounds(self@[k]) && self@[k].id < self.spec_next_id() by {
                assert(before.contains(self@[k]));
                let w = choose|w: int| 0 <= w < before.len() && before[w] == self@[k];
            }
        }
        removed
    }

    /// Advance every actor's cooldown channel by `dt` milliseconds. Health,
    /// positions and ids are untouched.
    pub fn tick_cooldowns(&mut self, dt: u64)
        requires
            old(self).wf(),
        ensures
            final(self).wf(),
            old(self).same_config(*final(self)),
            final(self).spec_next_id() == old(self).spec_next_id(),
            final(self)@.len() == old(self)@.len(),
            forall|i: int|
                0 <= i < old(self)@.len() ==> final(self)@[i] == spec_tick_actor(
                    #[trigger] old(self)@[i],
                    dt,
                ),
            final(self)@ =~= spec_tick_actors(old(self)@, dt),
    {
        let n = self.actors.len();
        let mut i: usize = 0;
        while i < n
            invariant
                i <= n,
                n == self@.len(),
                old(self).wf(),
                self.wf(),
                old(self).same_config(*self),
                self.spec_next_id() == old(self).spec_next_id(),
                forall|k: int|
                    0 <= k < i ==> self@[k] == spec_tick_actor(#[trigger] old(self)@[k], dt),
                forall|k: int| i <= k < n ==> self@[k] == old(self)@[k],
            decreases n - i,
        {
            let a = self.actors[i];
            let ticked = Actor {
                id: a.id,
                x: a.x,
                y: a.y,
                health: a.health,
                cooldown: match a.cooldown {
                    Some(c) => {
                        let mut c2 = c;
                        c2.tick(dt);
                        Some(c2)
                    },
                    None => None,
                },
            };
            self.actors.set(i, ticked);
            i = i + 1;
        }
    }

    /// Explicit heal path (the only mutation of health outside the damage
    /// pipeline). A missing id is a silent no-op.
    pub fn heal(&mut self, id: u64, amount: u32) -> (healed: bool)
        requires
            old(self).wf(),
        ensures
            final(self).wf(),
            old(self).same_config(*final(self)),
            final(self).spec_next_id() == old(self).spec_next_id(),
            healed == has_actor(old(self)@, id),
            healed ==> final(self)@ == update_actor(
                old(self)@,
                id,
                spec_heal_actor(actor_of(old(self)@, id), amount),
            ),
            !healed ==> final(self)@ == old(self)@,
    {
        match self.find(id) {
            None => false,
            Some(i) => {
                let a = self.actors[i];
                let mut h = a.health;
                h.heal(amount);
                let a2 = Actor { id: a.id, x: a.x, y: a.y, health: h, cooldown: a.cooldown };
                self.actors.set(i, a2);
                proof {
                    lemma_update_keeps_wf(*old(self), *self, i as int, a2);
                }
                true
            },
        }
    }

    /// Record the position the movement collaborator reports for this actor.
    /// A missing id is a silent no-op.
    pub fn set_position(&mut self, id: u64, x: i64, y: i64) -> (found: bool)
        requires
            old(self).wf(),
            -COORD_LIMIT <= x <= COORD_LIMIT,
            -COORD_LIMIT <= y <= COORD_LIMIT,
        ensures
            final(self).wf(),
            old(self).same_config(*final(self)),
            final(self).spec_next_id() == old(self).spec_next_id(),
            found == has_actor(old(self)@, id),
            found ==> final(self)@ == update_actor(
                old(self)@,
                id,
                ({
                    let a = actor_of(old(self)@, id);
                    Actor { id: a.id, x, y, health: a.health, cooldown: a.cooldown }
                }),
            ),
            !found ==> final(self)@ == old(self)@,
    {
        match self.find(id) {
            None => false,
            Some(i) => {
                let a = self.actors[i];
                let a2 = Actor { id: a.id, x, y, health: a.health, cooldown: a.cooldown };
                self.actors.set(i, a2);
                proof {
                    lemma_update_keeps_wf(*old(self), *self, i as int, a2);
                }
                true
            },
        }
    }

    /// Current and maximum health of the actor, for read-only observers.
    pub fn health_of(&self, id: u64) -> (r: Option<(u32, u32)>)
        requires
            self.wf(),
        ensures
            match r {
                Some(t) => has_actor(self@, id) && t.0 == actor_of(self@, id).health.current && t.1
                    == actor_of(self@, id).health.max,
                None => !has_actor(self@, id),
            },
    {
        match self.find(id) {
            None => None,
            Some(i) => {
                let a = self.actors[i];
                Some((a.health.current(), a.health.max()))
            },
        }
    }

    /// The point set a spatial index rebuild runs over: one entry per
    /// present actor, in order.
    pub fn collidable_points(&self) -> (pts: Vec<PointEntry>)
        requires
            self.wf(),
        ensures
            pts@.len() == self@.len(),
            forall|i: int| 0 <= i < self@.len() ==> pts@[i] == spec_point_of(#[trigger] self@[i]),
            pts@ =~= spec_points_of(self@),
            forall|i: int|
                0 <= i < pts@.len() ==> crate::spatial::in_coord_bounds(#[trigger] pts@[i]),
            crate::spatial::distinct_ids(pts@),
    {
        let n = self.actors.len();
        let mut pts: Vec<PointEntry> = Vec::new();
        let mut i: usize = 0;
        while i < n
            invariant
                i <= n,
                n == self@.len(),
                self.wf(),
                pts@.len() == i,
                forall|k: int|
                    0 <= k < i ==> pts@[k] == spec_point_of(#[trigger] self@[k]),
            decreases n - i,
        {
            let a = self.actors[i];
            pts.push(PointEntry { x: a.x, y: a.y, id: a.id });
            i = i + 1;
        }
        proof {
            assert forall|i: int, j: int| 0 <= i < j < pts@.len() implies (
            #[trigger] pts@[i]).id != (#[trigger] pts@[j]).id by {
                assert(pts@[i] == spec_point_of(self@[i]));
                assert(pts@[j] == spec_point_of(self@[j]));
            }
            assert forall|i: int| 0 <= i < pts@.len() implies crate::spatial::in_coord_bounds(
                #[trigger] pts@[i],
            ) by {
                assert(pts@[i] == spec_point_of(self@[i]));
                assert(actor_in_bounds(self@[i]));
            }
        }
        pts
    }

    /// Resolve one damage intent against this population, as the Apply phase
    /// does: no-op (returning `false`) when the target is missing, already
    /// dead, or still on cooldown; otherwise subtract the amount clamped at
    /// zero, rearm the cooldown channel, and return `true`.
    pub fn resolve_damage(&mut self, target: u64, amount: u32) -> (applied: bool)
        requires
            old(self).wf(),
        ensures
            final(self).wf(),
            old(self).same_config(*final(self)),
            final(self).spec_next_id() == old(self).spec_next_id(),
            final(self)@ == spec_resolve_damage(old(self)@, target, amount).0,
            applied == spec_resolve_damage(old(self)@, target, amount).1,
    {
        match self.find(target) {
            None => false,
            Some(i) => {
                let a = self.actors[i];
                if a.health.current() == 0 {
                    return false;
                }
                let blocked = match a.cooldown {
                    Some(c) => !c.is_ready(),
                    None => false,
                };
                if blocked {
                    return false;
                }
                let mut h = a.health;
                h.damage(amount);
                let cd = match a.cooldown {
                    Some(c) => {
                        let mut c2 = c;
                        c2.mark_applied();
                        Some(c2)
                    },
                    None => None,
                };
                let a2 = Actor { id: a.id, x: a.x, y: a.y, health: h, cooldown: cd };
                self.actors.set(i, a2);
                proof {
                    lemma_update_keeps_wf(*old(self), *self, i as int, a2);
                }
                true
            },
        }
    }
}

/// Replacing one actor with another of the same id keeps the population
/// invariant, provided the replacement is well-formed and in bounds.
proof fn lemma_update_keeps_wf(before: Population, after: Population, i: int, a2: Actor)
    requires
        before.wf(),
        0 <= i < before@.len(),
        after@ == before@.update(i, a2),
        a2.id == before@[i].id,
        a2.health.wf(),
        actor_in_bounds(a2),
        after.spec_max_live() == before.spec_max_live(),
        after.spec_next_id() == before.spec_next_id(),
    ensures
        after.wf(),
{
    assert forall|p: int, q: int| 0 <= p < q < after@.len() implies (#[trigger] after@[p]).id != (
    #[trigger] after@[q]).id by {
        assert(before@[p].id != before@[q].id);
    }
}

} // verus!
