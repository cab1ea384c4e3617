//! Per-tick orchestration.
//!
//! One `Simulation` owns the population, the damage pipeline, the spatial
//! snapshot and its rebuild cadence, and runs the fixed phase order of one
//! tick: spawn admission early; snapshot rebuild when its cadence falls
//! due; proximity producers; the Send → Before → Apply → After event
//! phases; cooldown ticking; and the dead sweep last. The tick's contract
//! pins the whole composition: the outcome list determines the event queue
//! that was resolved (every sent event starts flagged and cancellation is
//! one-way), each outcome's `applied` flag is exactly what the ordered
//! resolution fold decides, and the final actor set is that fold's result
//! with cooldowns ticked and the dead swept out.

use vstd::prelude::*;
use vstd::multiset::Multiset;
use crate::damage::DamageEvent;
use crate::damage::DamageOutcome;
use crate::damage::DamagePhase;
use crate::damage::DamagePipeline;
use crate::damage::lemma_apply_all_len;
use crate::damage::lemma_cancellation_one_way;
use crate::damage::spec_apply_all;
use crate::damage::spec_sent_events;
use crate::population::Actor;
use crate::population::Population;
use crate::population::SpawnRequest;
use crate::population::actor_of;
use crate::population::alive_pred;
use crate::population::has_actor;
use crate::population::spec_admission;
use crate::population::spec_admitted_actors;
use crate::population::spec_alive;
use crate::population::spec_heal_actor;
use crate::population::spec_points_of;
use crate::population::spec_tick_actors;
use crate::population::update_actor;
use crate::producers::contact_event_fn;
use crate::producers::projectile_event_fn;
use crate::producers::send_contact_hits;
use crate::producers::send_projectile_hits;
use crate::producers::spec_contact_event;
use crate::producers::spec_projectile_event;
use crate::spatial::COORD_LIMIT;
use crate::spatial::PointEntry;
use crate::spatial::RADIUS_LIMIT;
use crate::spatial::RebuildTimer;
use crate::spatial::SpatialIndex;
use crate::spatial::radius_pred;

verus! {

/// One projectile's proximity probe for this tick: where it stands, how far
/// it reaches, what it deals, and on whose behalf.
#[derive(Clone, Copy, Debug)]
pub struct Shot {
    pub x: i64,
    pub y: i64,
    pub radius: i64,
    pub damage: u32,
    pub attacker: Option<u64>,
}

/// One contact probe for this tick: the actor that takes contact damage
/// from every other actor within `radius` of it.
#[derive(Clone, Copy, Debug)]
pub struct ContactProbe {
    pub target: u64,
    pub x: i64,
    pub y: i64,
    pub radius: i64,
    pub damage: u32,
}

/// What one tick reported back: how many spawns were admitted, every damage
/// event's finalized outcome, and how many dead actors the sweep removed.
pub struct TickReport {
    pub admitted: usize,
    pub outcomes: Vec<DamageOutcome>,
    pub removed: usize,
}

/// The in-range set one shot's radius query must return against a snapshot.
pub open spec fn spec_shot_hits(entries: Multiset<PointEntry>, shot: Shot) -> Multiset<
    PointEntry,
> {
    entries.filter(radius_pred(shot.x, shot.y, shot.radius))
}

/// The in-range set one contact probe must act on: everything within range
/// of the target except the target's own entry.
pub open spec fn spec_contact_hits(entries: Multiset<PointEntry>, probe: ContactProbe) -> Multiset<
    PointEntry,
> {
    entries.filter(radius_pred(probe.x, probe.y, probe.radius)).filter(
        crate::producers::other_than(probe.target),
    )
}

/// The in-range set of the tick's `i`-th probe, counting the shots first and
/// the contact probes after them, in input order.
pub open spec fn spec_probe_hits(
    entries: Multiset<PointEntry>,
    shots: Seq<Shot>,
    contacts: Seq<ContactProbe>,
    i: int,
) -> Multiset<PointEntry> {
    if i < shots.len() {
        spec_shot_hits(entries, shots[i])
    } else {
        spec_contact_hits(entries, contacts[i - shots.len()])
    }
}

/// The events the `i`-th probe contributes, given the hit sequence its query
/// returned.
pub open spec fn spec_probe_events(
    shots: Seq<Shot>,
    contacts: Seq<ContactProbe>,
    hits: Seq<PointEntry>,
    i: int,
) -> Seq<DamageEvent> {
    if i < shots.len() {
        hits.map_values(projectile_event_fn(shots[i].damage, shots[i].attacker))
    } else {
        hits.map_values(
            contact_event_fn(contacts[i - shots.len()].target, contacts[i - shots.len()].damage),
        )
    }
}

/// The first `n` probes' events, concatenated in probe order, given each
/// probe's hit sequence.
pub open spec fn spec_produced_events(
    shots: Seq<Shot>,
    contacts: Seq<ContactProbe>,
    hs: Seq<Seq<PointEntry>>,
    n: int,
) -> Seq<DamageEvent>
    decreases n,
{
    if n <= 0 {
        Seq::<DamageEvent>::empty()
    } else {
        spec_produced_events(shots, contacts, hs, n - 1) + spec_probe_events(
            shots,
            contacts,
            hs[n - 1],
            n - 1,
        )
    }
}

/// `spec_produced_events` reads only the first `n` hit sequences.
proof fn lemma_produced_events_agree(
    shots: Seq<Shot>,
    contacts: Seq<ContactProbe>,
    hs1: Seq<Seq<PointEntry>>,
    hs2: Seq<Seq<PointEntry>>,
    n: int,
)
    requires
        n <= hs1.len(),
        n <= hs2.len(),
        forall|i: int| 0 <= i < n ==> hs1[i] == hs2[i],
    ensures
        spec_produced_events(shots, contacts, hs1, n) == spec_produced_events(
            shots,
            contacts,
            hs2,
            n,
        ),
    decreases n,
{
    if n > 0 {
        lemma_produced_events_agree(shots, contacts, hs1, hs2, n - 1);
    }
}

/// The simulation state one scheduler tick advances.
pub struct Simulation {
    population: Population,
    pipeline: DamagePipeline,
    index: SpatialIndex,
    rebuild: RebuildTimer,
}

impl Simulation {
    pub closed spec fn spec_population(self) -> Population {
        self.population
    }

    /// The point set the current snapshot indexes.
    pub closed spec fn spec_index_entries(self) -> Multiset<PointEntry> {
        self.index.entries()
    }

    /// The rebuild cadence state.
    pub closed spec fn spec_rebuild(self) -> RebuildTimer {
        self.rebuild
    }

    /// Between ticks: the population invariant holds, the pipeline stands
    /// empty and ready to accept events, the snapshot is well-formed.
    pub closed spec fn wf(self) -> bool {
        &&& self.population.wf()
        &&& self.pipeline.spec_phase() == DamagePhase::Send
        &&& self.pipeline.events_seq().len() == 0
        &&& self.index.wf()
        &&& self.rebuild.wf()
    }

    pub fn new(max_live: usize, spawn_rate_cap: usize, rebuild_interval_ms: u64) -> (sim:
        Simulation)
        ensures
            sim.wf(),
            sim.spec_population()@ =~= Seq::<Actor>::empty(),
            sim.spec_population().spec_max_live() == max_live as nat,
            sim.spec_population().spec_spawn_rate_cap() == spawn_rate_cap as nat,
    {
        Simulation {
            population: Population::new(max_live, spawn_rate_cap),
            pipeline: DamagePipeline::new(),
            index: SpatialIndex::new(),
            rebuild: RebuildTimer::new(rebuild_interval_ms),
        }
    }

    /// Number of actors present (including dead ones not yet swept).
    pub fn live_count(&self) -> (n: usize)
        ensures
            n == self.spec_population()@.len(),
    {
        self.population.live_count()
    }

    /// The id the next admitted actor will receive.
    pub fn next_actor_id(&self) -> (n: u64)
        ensures
            n as int == self.spec_population().spec_next_id(),
    {
        self.population.next_id()
    }

    /// The present actors' positions, one entry per actor in admission
    /// order — what a snapshot rebuild would index right now. The movement
    /// collaborator reads these to integrate motion before writing updated
    /// positions back through `set_position`.
    pub fn collidable_points(&self) -> (pts: Vec<PointEntry>)
        requires
            self.wf(),
        ensures
            pts@ =~= spec_points_of(self.spec_population()@),
            pts@.len() == self.spec_population()@.len(),
    {
        self.population.collidable_points()
    }

    /// Health read accessor for observers (HUD bars, game-over checks).
    pub fn health_of(&self, id: u64) -> (r: Option<(u32, u32)>)
        requires
            self.wf(),
        ensures
            match r {
                Some(t) => has_actor(self.spec_population()@, id) && t.0 == actor_of(
                    self.spec_population()@,
                    id,
                ).health.current && t.1 == actor_of(self.spec_population()@, id).health.max,
                None => !has_actor(self.spec_population()@, id),
            },
    {
        self.population.health_of(id)
    }

    /// Record a position reported by the movement collaborator. Queries keep
    /// answering from the current snapshot until the rebuild cadence next
    /// falls due.
    pub fn set_position(&mut self, id: u64, x: i64, y: i64) -> (found: bool)
        requires
            old(self).wf(),
            -COORD_LIMIT <= x <= COORD_LIMIT,
            -COORD_LIMIT <= y <= COORD_LIMIT,
        ensures
            final(self).wf(),
            found == has_actor(old(self).spec_population()@, id),
            found ==> final(self).spec_population()@ == update_actor(
                old(self).spec_population()@,
                id,
                ({
                    let a = actor_of(old(self).spec_population()@, id);
                    Actor { id: a.id, x, y, health: a.health, cooldown: a.cooldown }
                }),
            ),
            !found ==> final(self).spec_population()@ == old(self).spec_population()@,
    {
        self.population.set_position(id, x, y)
    }

    /// Explicit heal path (the only mutation of health outside the Apply
    /// phase).
    pub fn heal(&mut self, id: u64, amount: u32) -> (healed: bool)
        requires
            old(self).wf(),
        ensures
            final(self).wf(),
            healed == has_actor(old(self).spec_population()@, id),
            healed ==> final(self).spec_population()@ == update_actor(
                old(self).spec_population()@,
                id,
                spec_heal_actor(actor_of(old(self).spec_population()@, id), amount),
            ),
            !healed ==> final(self).spec_population()@ == old(self).spec_population()@,
    {
        self.population.heal(id, amount)
    }

    /// Run one tick in the fixed phase order. After it returns, every
    /// present actor is alive (the sweep ran last), the live count is
    /// within `max_live`, the admitted count obeys the admission formula
    /// against the population as the tick began — and the final actor set
    /// is exactly the resolution fold over the reported event queue,
    /// cooldown-ticked and swept.
    pub fn tick(
        &mut self,
        dt: u64,
        requests: &Vec<SpawnRequest>,
        shots: &Vec<Shot>,
        contacts: &Vec<ContactProbe>,
    ) -> (report: TickReport)
        requires
            old(self).wf(),
            forall|i: int| 0 <= i < requests@.len() ==> (#[trigger] requests@[i]).max_health > 0,
            forall|i: int|
                0 <= i < requests@.len() ==> -COORD_LIMIT <= (#[trigger] requests@[i]).x
                    <= COORD_LIMIT && -COORD_LIMIT <= requests@[i].y <= COORD_LIMIT,
            old(self).spec_population().spec_next_id() + requests@.len() <= u64::MAX,
            forall|i: int|
                0 <= i < shots@.len() ==> -COORD_LIMIT <= (#[trigger] shots@[i]).x <= COORD_LIMIT
                    && -COORD_LIMIT <= shots@[i].y <= COORD_LIMIT && 0 <= shots@[i].radius
                    <= RADIUS_LIMIT,
            forall|i: int|
                0 <= i < contacts@.len() ==> -COORD_LIMIT <= (#[trigger] contacts@[i]).x
                    <= COORD_LIMIT && -COORD_LIMIT <= contacts@[i].y <= COORD_LIMIT && 0
                    <= contacts@[i].radius <= RADIUS_LIMIT,
        ensures
            final(self).wf(),
            old(self).spec_population().same_config(final(self).spec_population()),
            report.admitted as nat == spec_admission(
                requests@.len(),
                old(self).spec_population()@.len(),
                old(self).spec_population().spec_max_live(),
                old(self).spec_population().spec_spawn_rate_cap(),
            ),
            final(self).spec_population()@.len() <= final(self).spec_population().spec_max_live(),
            forall|i: int|
                0 <= i < final(self).spec_population()@.len() ==> spec_alive(
                    #[trigger] final(self).spec_population()@[i],
                ),
            ({
                let evs = spec_sent_events(report.outcomes@);
                let spawned = old(self).spec_population()@ + spec_admitted_actors(
                    requests@,
                    old(self).spec_population().spec_next_id(),
                    spec_admission(
                        requests@.len(),
                        old(self).spec_population()@.len(),
                        old(self).spec_population().spec_max_live(),
                        old(self).spec_population().spec_spawn_rate_cap(),
                    ),
                );
                let due = old(self).spec_rebuild().elapsed + dt >= old(self).spec_rebuild().interval;
                let entries = if due {
                    spec_points_of(spawned).to_multiset()
                } else {
                    old(self).spec_index_entries()
                };
                let resolved = spec_apply_all(spawned, evs);
                // The resolved queue is exactly what the proximity producers
                // sent: one radius query per shot, then one per contact
                // probe, in input order, each returning precisely the
                // snapshot's in-range set.
                &&& (exists|hs: Seq<Seq<PointEntry>>|
                    {
                        &&& hs.len() == shots@.len() + contacts@.len()
                        &&& (forall|i: int|
                            0 <= i < hs.len() ==> (#[trigger] hs[i]).to_multiset()
                                == spec_probe_hits(entries, shots@, contacts@, i))
                        &&& evs == spec_produced_events(shots@, contacts@, hs, hs.len() as int)
                    })
                &&& (forall|i: int|
                    0 <= i < report.outcomes@.len() ==> (#[trigger] report.outcomes@[i]).applied
                        == resolved.1[i].apply)
                &&& final(self).spec_population()@ == spec_tick_actors(resolved.0, dt).filter(
                    alive_pred(),
                )
                &&& report.removed == spec_tick_actors(resolved.0, dt).len() - final(self).spec_population()@.len()
                &&& final(self).spec_index_entries() == entries
                &&& final(self).spec_rebuild().interval == old(self).spec_rebuild().interval
                &&& final(self).spec_rebuild().elapsed == if due {
                    0int
                } else {
                    old(self).spec_rebuild().elapsed + dt
                }
            }),
    {
        let ghost s0 = self.population@;
        let ghost next0 = self.population.spec_next_id();
        let ghost entries0 = self.index.entries();

        // Spawn admission runs first, in its fixed early slot.
        let admitted = self.population.spawn_batch(requests);
        let ghost spawned = self.population@;
        proof {
            assert(spawned =~= s0 + spec_admitted_actors(requests@, next0, admitted as nat));
        }

        // Rebuild the snapshot when its cadence falls due; queries this tick
        // otherwise run against the (boundedly stale) previous snapshot.
        let due = self.rebuild.advance(dt);
        if due {
            let points = self.population.collidable_points();
            proof {
                assert(points@ =~= spec_points_of(spawned));
            }
            self.index = SpatialIndex::build(&points);
        }
        let ghost entries = self.index.entries();
        proof {
            if due {
                assert(entries =~= spec_points_of(spawned).to_multiset());
            } else {
                assert(entries == entries0);
            }
        }

        // Send phase: proximity producers turn radius queries into intents,
        // shots first, contact probes after them, in input order. The ghost
        // sequence `hs` records each probe's hit sequence.
        let ghost pop_mid = self.population;
        let ghost rb_mid = self.rebuild;
        let ghost mut hs: Seq<Seq<PointEntry>> = Seq::<Seq<PointEntry>>::empty();
        proof {
            assert(pop_mid@ == spawned);
            assert(self.pipeline.events_seq() =~= Seq::<DamageEvent>::empty());
            assert(self.pipeline.events_seq() =~= spec_produced_events(shots@, contacts@, hs, 0));
        }
        let mut s: usize = 0;
        while s < shots.len()
            invariant
                self.pipeline.spec_phase() == DamagePhase::Send,
                self.index.wf(),
                self.index.entries() == entries,
                self.population == pop_mid,
                self.rebuild == rb_mid,
                s <= shots@.len(),
                hs.len() == s,
                forall|i: int|
                    0 <= i < hs.len() ==> (#[trigger] hs[i]).to_multiset() == spec_probe_hits(
                        entries,
                        shots@,
                        contacts@,
                        i,
                    ),
                self.pipeline.events_seq() =~= spec_produced_events(
                    shots@,
                    contacts@,
                    hs,
                    hs.len() as int,
                ),
                forall|i: int|
                    0 <= i < self.pipeline.events_seq().len() ==> (
                    #[trigger] self.pipeline.events_seq()[i]).apply,
                forall|i: int|
                    0 <= i < shots@.len() ==> -COORD_LIMIT <= (#[trigger] shots@[i]).x
                        <= COORD_LIMIT && -COORD_LIMIT <= shots@[i].y <= COORD_LIMIT && 0
                        <= shots@[i].radius <= RADIUS_LIMIT,
            decreases shots@.len() - s,
        {
            let shot = shots[s];
            let ghost evs_before = self.pipeline.events_seq();
            send_projectile_hits(
                &mut self.pipeline,
                &self.index,
                shot.x,
                shot.y,
                shot.radius,
                shot.damage,
                shot.attacker,
            );
            proof {
                let hits = choose|h: Seq<PointEntry>|
                    {
                        &&& #[trigger] h.to_multiset() == self.index.entries().filter(
                            radius_pred(shot.x, shot.y, shot.radius),
                        )
                        &&& self.pipeline.events_seq() =~= evs_before + h.map_values(
                            projectile_event_fn(shot.damage, shot.attacker),
                        )
                    };
                assert(self.pipeline.events_seq() =~= evs_before + hits.map_values(
                    projectile_event_fn(shot.damage, shot.attacker),
                ));
                assert forall|i: int| 0 <= i < self.pipeline.events_seq().len() implies (
                #[trigger] self.pipeline.events_seq()[i]).apply by {
                    if i >= evs_before.len() {
                        let j = i - evs_before.len();
                        assert(self.pipeline.events_seq()[i] == projectile_event_fn(
                            shot.damage,
                            shot.attacker,
                        )(hits[j]));
                        assert(projectile_event_fn(shot.damage, shot.attacker)(hits[j])
                            == spec_projectile_event(hits[j], shot.damage, shot.attacker));
                    }
                }
                let hs_prev = hs;
                hs = hs.push(hits);
                assert(hs[s as int] == hits);
                assert(shot == shots@[s as int]);
                assert(hits.to_multiset() == spec_probe_hits(entries, shots@, contacts@, s as int));
                assert forall|i: int| 0 <= i < hs.len() implies (#[trigger] hs[i]).to_multiset()
                    == spec_probe_hits(entries, shots@, contacts@, i) by {
                    if i < s {
                        assert(hs[i] == hs_prev[i]);
                    }
                }
                lemma_produced_events_agree(shots@, contacts@, hs_prev, hs, s as int);
                assert(spec_probe_events(shots@, contacts@, hits, s as int) == hits.map_values(
                    projectile_event_fn(shot.damage, shot.attacker),
                ));
                assert(spec_produced_events(shots@, contacts@, hs, s + 1) == spec_produced_events(
                    shots@,
                    contacts@,
                    hs,
                    s as int,
                ) + spec_probe_events(shots@, contacts@, hits, s as int));
                assert(self.pipeline.events_seq() =~= spec_produced_events(
                    shots@,
                    contacts@,
                    hs,
                    s + 1,
                ));
            }
            s = s + 1;
        }
        let mut c: usize = 0;
        while c < contacts.len()
            invariant
                self.pipeline.spec_phase() == DamagePhase::Send,
                self.index.wf(),
                self.index.entries() == entries,
                self.population == pop_mid,
                self.rebuild == rb_mid,
                c <= contacts@.len(),
                hs.len() == shots@.len() + c,
                forall|i: int|
                    0 <= i < hs.len() ==> (#[trigger] hs[i]).to_multiset() == spec_probe_hits(
                        entries,
                        shots@,
                        contacts@,
                        i,
                    ),
                self.pipeline.events_seq() =~= spec_produced_events(
                    shots@,
                    contacts@,
                    hs,
                    hs.len() as int,
                ),
                forall|i: int|
                    0 <= i < self.pipeline.events_seq().len() ==> (
                    #[trigger] self.pipeline.events_seq()[i]).apply,
                forall|i: int|
                    0 <= i < contacts@.len() ==> -COORD_LIMIT <= (#[trigger] contacts@[i]).x
                        <= COORD_LIMIT && -COORD_LIMIT <= contacts@[i].y <= COORD_LIMIT && 0
                        <= contacts@[i].radius <= RADIUS_LIMIT,
            decreases contacts@.len() - c,
        {
            let probe = contacts[c];
            let ghost evs_before = self.pipeline.events_seq();
            send_contact_hits(
                &mut self.pipeline,
                &self.index,
                probe.target,
                probe.x,
                probe.y,
                probe.radius,
                probe.damage,
            );
            proof {
                let hits = choose|h: Seq<PointEntry>|
                    {
                        &&& #[trigger] h.to_multiset() == self.index.entries().filter(
                            radius_pred(probe.x, probe.y, probe.radius),
                        ).filter(crate::producers::other_than(probe.target))
                        &&& self.pipeline.events_seq() =~= evs_before + h.map_values(
                            contact_event_fn(probe.target, probe.damage),
                        )
                    };
                assert(self.pipeline.events_seq() =~= evs_before + hits.map_values(
                    contact_event_fn(probe.target, probe.damage),
                ));
                assert forall|i: int| 0 <= i < self.pipeline.events_seq().len() implies (
                #[trigger] self.pipeline.events_seq()[i]).apply by {
                    if i >= evs_before.len() {
                        let j = i - evs_before.len();
                        assert(self.pipeline.events_seq()[i] == contact_event_fn(
                            probe.target,
                            probe.damage,
                        )(hits[j]));
                        assert(contact_event_fn(probe.target, probe.damage)(hits[j])
                            == spec_contact_event(probe.target, hits[j], probe.damage));
                    }
                }
                let hs_prev = hs;
                let ghost w: int = shots@.len() + c;
                hs = hs.push(hits);
                assert(hs[w] == hits);
                assert(probe == contacts@[c as int]);
                assert(hits.to_multiset() == spec_probe_hits(entries, shots@, contacts@, w));
                assert forall|i: int| 0 <= i < hs.len() implies (#[trigger] hs[i]).to_multiset()
                    == spec_probe_hits(entries, shots@, contacts@, i) by {
                    if i < w {
                        assert(hs[i] == hs_prev[i]);
                    }
                }
                lemma_produced_events_agree(shots@, contacts@, hs_prev, hs, w);
                assert(spec_probe_events(shots@, contacts@, hits, w) == hits.map_values(
                    contact_event_fn(probe.target, probe.damage),
                ));
                assert(spec_produced_events(shots@, contacts@, hs, w + 1) == spec_produced_events(
                    shots@,
                    contacts@,
                    hs,
                    w,
                ) + spec_probe_events(shots@, contacts@, hits, w));
                assert(self.pipeline.events_seq() =~= spec_produced_events(
                    shots@,
                    contacts@,
                    hs,
                    w + 1,
                ));
            }
            c = c + 1;
        }

        // Before, Apply, After: resolve the queue in order and publish the
        // finalized outcomes.
        let ghost evs0 = self.pipeline.events_seq();
        self.pipeline.before();
        self.pipeline.apply(&mut self.population);
        let outcomes = self.pipeline.outcomes();
        self.pipeline.reset();
        proof {
            let resolved = spec_apply_all(spawned, evs0);
            lemma_apply_all_len(spawned, evs0);
            lemma_cancellation_one_way(spawned, evs0);
            assert(spec_sent_events(outcomes@) =~= evs0);
            assert(self.population@ == resolved.0);
            assert forall|i: int| 0 <= i < outcomes@.len() implies (
            #[trigger] outcomes@[i]).applied == spec_apply_all(
                spawned,
                spec_sent_events(outcomes@),
            ).1[i].apply by {
                assert(outcomes@[i].applied == resolved.1[i].apply);
            }
            assert(spec_sent_events(outcomes@) == spec_produced_events(
                shots@,
                contacts@,
                hs,
                hs.len() as int,
            ));
            assert(exists|hs2: Seq<Seq<PointEntry>>|
                {
                    &&& hs2.len() == shots@.len() + contacts@.len()
                    &&& (forall|i: int|
                        0 <= i < hs2.len() ==> (#[trigger] hs2[i]).to_multiset()
                            == spec_probe_hits(entries, shots@, contacts@, i))
                    &&& spec_sent_events(outcomes@) == spec_produced_events(
                        shots@,
                        contacts@,
                        hs2,
                        hs2.len() as int,
                    )
                }) by {
                assert(hs.len() == shots@.len() + contacts@.len());
            }
        }

        // Cooldown channels tick down once per tick, whatever else happened.
        self.population.tick_cooldowns(dt);

        // The dead sweep runs last, so every phase above saw dead actors in
        // their "just died" state.
        let removed = self.population.sweep_dead();
        proof {
            broadcast use vstd::seq_lib::group_filter_ensures;

            assert forall|i: int| 0 <= i < self.population@.len() implies spec_alive(
                #[trigger] self.population@[i],
            ) by {
                assert(alive_pred()(self.population@[i]));
            }
        }
        TickReport { admitted, outcomes, removed }
    }
}

} // verus!
