//! The damage event pipeline.
//!
//! Proximity producers append damage intents in the Send phase; the Before
//! phase is a reserved pass-through hook; the Apply phase walks the queue in
//! order, consulting each target's health and cooldown channel and either
//! applying the damage or cancelling the event in place; the After phase
//! exposes the finalized outcomes to read-only observers. `apply` starts
//! `true` and cancellation is the only mutation of it: once the Apply phase
//! has finalized an event, no phase re-evaluates it.

use vstd::prelude::*;
use crate::population::Actor;
use crate::population::Population;
use crate::population::actor_of;
use crate::population::has_actor;
use crate::population::idx_of;
use crate::population::ids_distinct;
use crate::population::spec_alive;
use crate::population::spec_resolve_damage;
use crate::population::spec_tick_actor;
use crate::population::spec_tick_actors;
use crate::population::update_actor;

verus! {

/// The source of a damage intent, as a tag carried in the context.
#[derive(Clone, Copy, PartialEq, Eq, Structural, Debug)]
pub enum DamageType {
    Bullet,
    Enemy,
}

impl DamageType {
    /// Numeric tag stored in a `DamageContext`.
    pub open spec fn spec_code(self) -> u32 {
        match self {
            DamageType::Bullet => 0,
            DamageType::Enemy => 1,
        }
    }

    pub fn code(self) -> (c: u32)
        ensures
            c == self.spec_code(),
    {
        match self {
            DamageType::Bullet => 0,
            DamageType::Enemy => 1,
        }
    }
}

/// Immutable payload of a damage intent.
#[derive(Clone, Copy, Debug)]
pub struct DamageContext {
    pub damage: u32,
    pub damage_type: u32,
    pub attacker: Option<u64>,
}

impl DamageContext {
    pub fn new(damage: u32, damage_type: u32, attacker: Option<u64>) -> (c: DamageContext)
        ensures
            c.damage == damage,
            c.damage_type == damage_type,
            c.attacker == attacker,
    {
        DamageContext { damage, damage_type, attacker }
    }

    pub fn without_attacker(damage: u32, damage_type: u32) -> (c: DamageContext)
        ensures
            c.damage == damage,
            c.damage_type == damage_type,
            c.attacker.is_none(),
    {
        DamageContext { damage, damage_type, attacker: None }
    }
}

/// One damage intent: `apply` starts `true`; the Apply phase may flip it to
/// `false`, and nothing ever flips it back.
#[derive(Clone, Copy, Debug)]
pub struct DamageEvent {
    pub target: u64,
    pub context: DamageContext,
    pub apply: bool,
}

/// A finalized outcome, visible to observers after the Apply phase.
#[derive(Clone, Copy, Debug)]
pub struct DamageOutcome {
    pub target: u64,
    pub context: DamageContext,
    pub applied: bool,
}

/// The fixed phase order of one tick's damage resolution.
#[derive(Clone, Copy, PartialEq, Eq, Structural, Debug)]
pub enum DamagePhase {
    Send,
    Before,
    Apply,
    After,
}

/// One event resolved against the actor set: the new actor set, and the
/// event with its `apply` flag finalized. An event already cancelled is a
/// no-op.
pub open spec fn spec_resolve_event(s: Seq<Actor>, ev: DamageEvent) -> (Seq<Actor>, DamageEvent) {
    if !ev.apply {
        (s, ev)
    } else {
        let r = spec_resolve_damage(s, ev.target, ev.context.damage);
        (r.0, DamageEvent { target: ev.target, context: ev.context, apply: r.1 })
    }
}

/// The whole Apply pass: events resolved front to back, each against the
/// actor set the previous events left behind.
pub open spec fn spec_apply_all(s: Seq<Actor>, evs: Seq<DamageEvent>) -> (
    Seq<Actor>,
    Seq<DamageEvent>,
)
    decreases evs.len(),
{
    if evs.len() == 0 {
        (s, Seq::<DamageEvent>::empty())
    } else {
        let first = spec_resolve_event(s, evs[0]);
        let rest = spec_apply_all(first.0, evs.drop_first());
        (rest.0, Seq::<DamageEvent>::empty().push(first.1) + rest.1)
    }
}

/// Unrolling `spec_apply_all` from the back: resolving `evs.push(ev)` is
/// resolving `evs` and then `ev` against the resulting actor set.
pub proof fn lemma_apply_all_snoc(s: Seq<Actor>, evs: Seq<DamageEvent>, ev: DamageEvent)
    ensures
        spec_apply_all(s, evs.push(ev)).0 == spec_resolve_event(spec_apply_all(s, evs).0, ev).0,
        spec_apply_all(s, evs.push(ev)).1 =~= spec_apply_all(s, evs).1.push(
            spec_resolve_event(spec_apply_all(s, evs).0, ev).1,
        ),
    decreases evs.len(),
{
    let t = evs.push(ev);
    if evs.len() == 0 {
        let first = spec_resolve_event(s, ev);
        assert(t[0] == ev);
        assert(t.drop_first() =~= Seq::<DamageEvent>::empty());
        assert(spec_apply_all(first.0, t.drop_first()).0 == first.0);
        assert(spec_apply_all(first.0, t.drop_first()).1 =~= Seq::<DamageEvent>::empty());
        assert(spec_apply_all(s, t).0 == first.0);
        assert(spec_apply_all(s, t).1 =~= Seq::<DamageEvent>::empty().push(first.1));
        assert(spec_apply_all(s, evs).0 == s);
        assert(spec_apply_all(s, evs).1 =~= Seq::<DamageEvent>::empty());
    } else {
        let first = spec_resolve_event(s, evs[0]);
        let inner = spec_apply_all(first.0, evs.drop_first());
        let e2 = spec_resolve_event(inner.0, ev).1;
        assert(t[0] == evs[0]);
        assert(t.drop_first() =~= evs.drop_first().push(ev));
        lemma_apply_all_snoc(first.0, evs.drop_first(), ev);
        assert(spec_apply_all(s, t).0 == spec_apply_all(first.0, t.drop_first()).0);
        assert(spec_apply_all(first.0, t.drop_first()).0 == spec_resolve_event(inner.0, ev).0);
        assert(spec_apply_all(s, evs).0 == inner.0);
        assert(spec_apply_all(s, t).1 =~= Seq::<DamageEvent>::empty().push(first.1)
            + spec_apply_all(first.0, t.drop_first()).1);
        assert(spec_apply_all(first.0, t.drop_first()).1 =~= inner.1.push(e2));
        assert(spec_apply_all(s, evs).1 =~= Seq::<DamageEvent>::empty().push(first.1) + inner.1);
        assert(Seq::<DamageEvent>::empty().push(first.1) + inner.1.push(e2) =~= (
        Seq::<DamageEvent>::empty().push(first.1) + inner.1).push(e2));
    }
}

/// The events behind a list of outcomes, as they stood when sent: same
/// target and payload, `apply` still `true`. Because cancellation is
/// one-way and every sent event starts flagged, the outcome list of a pass
/// determines the queue that went in.
pub open spec fn spec_sent_events(outs: Seq<DamageOutcome>) -> Seq<DamageEvent> {
    outs.map_values(
        |o: DamageOutcome| DamageEvent { target: o.target, context: o.context, apply: true },
    )
}

/// An Apply pass finalizes exactly the events it was handed: one outcome
/// per queued event, in order.
pub proof fn lemma_apply_all_len(s: Seq<Actor>, evs: Seq<DamageEvent>)
    ensures
        spec_apply_all(s, evs).1.len() == evs.len(),
    decreases evs.len(),
{
    if evs.len() > 0 {
        lemma_apply_all_len(spec_resolve_event(s, evs[0]).0, evs.drop_first());
    }
}

/// A target that cannot currently take damage: already dead, or its
/// cooldown channel still counting down.
pub open spec fn spec_blocked(a: Actor) -> bool {
    ||| a.health.current == 0
    ||| (match a.cooldown {
        Some(c) => !c.spec_is_ready(),
        None => false,
    })
}

/// The actor at a position with a matching id is the actor the lookup spec
/// functions name, when ids are distinct.
proof fn lemma_lookup_unique(s: Seq<Actor>, id: u64, i: int)
    requires
        ids_distinct(s),
        0 <= i < s.len(),
        s[i].id == id,
    ensures
        has_actor(s, id),
        idx_of(s, id) == i,
        actor_of(s, id) == s[i],
{
    assert(has_actor(s, id));
    let w = idx_of(s, id);
    assert(0 <= w < s.len() && s[w].id == id);
    if w != i {
        if w < i {
            assert(s[w].id != s[i].id);
        } else {
            assert(s[i].id != s[w].id);
        }
    }
}

/// Resolving one event leaves every other actor exactly as it was: same
/// length, same ids position by position, and the actor of any id other
/// than the event's target unchanged.
proof fn lemma_resolve_event_frame(s: Seq<Actor>, ev: DamageEvent, id: u64)
    requires
        ids_distinct(s),
    ensures
        ({
            let s2 = spec_resolve_event(s, ev).0;
            &&& s2.len() == s.len()
            &&& (forall|k: int| 0 <= k < s.len() ==> (#[trigger] s2[k]).id == s[k].id)
            &&& ids_distinct(s2)
            &&& has_actor(s2, id) == has_actor(s, id)
            &&& (ev.target != id && has_actor(s, id) ==> actor_of(s2, id) == actor_of(s, id))
        }),
{
    let s2 = spec_resolve_event(s, ev).0;
    if s2 != s {
        let w = idx_of(s, ev.target);
        assert(has_actor(s, ev.target));
        assert(0 <= w < s.len() && s[w].id == ev.target);
        assert(forall|k: int| 0 <= k < s.len() ==> (#[trigger] s2[k]).id == s[k].id);
    }
    assert(ids_distinct(s2)) by {
        assert forall|p: int, q: int| 0 <= p < q < s2.len() implies (#[trigger] s2[p]).id != (
        #[trigger] s2[q]).id by {
            assert(s[p].id != s[q].id);
        }
    }
    assert(has_actor(s2, id) == has_actor(s, id)) by {
        if has_actor(s, id) {
            let w = idx_of(s, id);
            assert(0 <= w < s.len() && s[w].id == id);
            assert(s2[w].id == id);
        }
        if has_actor(s2, id) {
            let w = idx_of(s2, id);
            assert(0 <= w < s2.len() && s2[w].id == id);
            assert(s[w].id == id);
            assert(has_actor(s, id));
        }
    }
    if ev.target != id && has_actor(s, id) {
        let w = idx_of(s, id);
        assert(0 <= w < s.len() && s[w].id == id);
        if s2 != s {
            let wt = idx_of(s, ev.target);
            assert(s[wt].id == ev.target);
            assert(w != wt);
            assert(s2[w] == s[w]);
        }
        lemma_lookup_unique(s2, id, w);
        lemma_lookup_unique(s, id, w);
    }
}

/// While a target is blocked — dead, or its cooldown channel still counting
/// down — a whole Apply pass rejects every event aimed at it and leaves the
/// actor untouched. Nothing during the pass ticks a cooldown, so a blocked
/// channel stays blocked for the rest of the pass.
pub proof fn lemma_blocked_target_rejected(s: Seq<Actor>, evs: Seq<DamageEvent>, id: u64)
    requires
        ids_distinct(s),
        has_actor(s, id),
        spec_blocked(actor_of(s, id)),
    ensures
        ({
            let r = spec_apply_all(s, evs);
            &&& r.1.len() == evs.len()
            &&& (forall|i: int|
                0 <= i < evs.len() && evs[i].target == id ==> !(#[trigger] r.1[i]).apply)
            &&& r.0.len() == s.len()
            &&& ids_distinct(r.0)
            &&& has_actor(r.0, id)
            &&& actor_of(r.0, id) == actor_of(s, id)
        }),
    decreases evs.len(),
{
    let r = spec_apply_all(s, evs);
    if evs.len() > 0 {
        let first = spec_resolve_event(s, evs[0]);
        lemma_resolve_event_frame(s, evs[0], id);
        if evs[0].target == id {
            assert(first.0 == s);
            assert(!first.1.apply);
        }
        lemma_blocked_target_rejected(first.0, evs.drop_first(), id);
        let rest = spec_apply_all(first.0, evs.drop_first());
        assert forall|i: int| 0 <= i < evs.len() && evs[i].target == id implies !(
        #[trigger] r.1[i]).apply by {
            if i == 0 {
                assert(r.1[0] == first.1);
            } else {
                assert(r.1[i] == rest.1[i - 1]);
                assert(evs.drop_first()[i - 1] == evs[i]);
            }
        }
    }
}

/// Cancellation is one-way: the Apply pass never flips an event's `apply`
/// flag back to `true`, and never touches its target or payload. An event
/// that reaches the pass already cancelled leaves it cancelled.
pub proof fn lemma_cancellation_one_way(s: Seq<Actor>, evs: Seq<DamageEvent>)
    ensures
        spec_apply_all(s, evs).1.len() == evs.len(),
        forall|i: int|
            0 <= i < evs.len() ==> {
                let out = #[trigger] spec_apply_all(s, evs).1[i];
                &&& (out.apply ==> evs[i].apply)
                &&& out.target == evs[i].target
                &&& out.context == evs[i].context
            },
    decreases evs.len(),
{
    let r = spec_apply_all(s, evs);
    if evs.len() > 0 {
        let first = spec_resolve_event(s, evs[0]);
        let rest = spec_apply_all(first.0, evs.drop_first());
        lemma_cancellation_one_way(first.0, evs.drop_first());
        assert forall|i: int| 0 <= i < evs.len() implies {
            let out = #[trigger] r.1[i];
            &&& (out.apply ==> evs[i].apply)
            &&& out.target == evs[i].target
            &&& out.context == evs[i].context
        } by {
            if i == 0 {
                assert(r.1[0] == first.1);
            } else {
                assert(r.1[i] == rest.1[i - 1]);
                assert(evs.drop_first()[i - 1] == evs[i]);
            }
        }
    }
}

/// Dead-target idempotence: once an actor's health has reached zero, every
/// event aimed at it before the sweep is rejected and the actor — health
/// included — stays exactly as it was.
pub proof fn lemma_dead_target_idempotent(s: Seq<Actor>, evs: Seq<DamageEvent>, id: u64)
    requires
        ids_distinct(s),
        has_actor(s, id),
        actor_of(s, id).health.current == 0,
    ensures
        ({
            let r = spec_apply_all(s, evs);
            &&& r.1.len() == evs.len()
            &&& (forall|i: int|
                0 <= i < evs.len() && evs[i].target == id ==> !(#[trigger] r.1[i]).apply)
            &&& has_actor(r.0, id)
            &&& actor_of(r.0, id) == actor_of(s, id)
        }),
{
    lemma_blocked_target_rejected(s, evs, id);
}

/// Cooldown exclusivity within one Apply pass: a target with a cooldown
/// channel of positive duration absorbs at most one of the pass's events —
/// any later event aimed at it within the same pass is rejected, because a
/// successful application rearms the channel and nothing ticks it down
/// before the pass ends.
pub proof fn lemma_cooldown_exclusive(s: Seq<Actor>, evs: Seq<DamageEvent>, id: u64)
    requires
        ids_distinct(s),
        has_actor(s, id),
        match actor_of(s, id).cooldown {
            Some(c) => c.duration > 0,
            None => false,
        },
    ensures
        ({
            let r = spec_apply_all(s, evs);
            &&& r.1.len() == evs.len()
            &&& (forall|i: int, j: int|
                0 <= i < j < evs.len() && evs[i].target == id && evs[j].target == id ==> !((
                #[trigger] r.1[i]).apply && (#[trigger] r.1[j]).apply))
        }),
    decreases evs.len(),
{
    let r = spec_apply_all(s, evs);
    if evs.len() > 0 {
        let first = spec_resolve_event(s, evs[0]);
        let rest = spec_apply_all(first.0, evs.drop_first());
        lemma_resolve_event_frame(s, evs[0], id);
        if evs[0].target == id && first.1.apply {
            // The hit applied: the channel is rearmed to its full (positive)
            // duration, so the target is blocked for the rest of the pass.
            let a = actor_of(s, id);
            let w = idx_of(s, id);
            assert(0 <= w < s.len() && s[w].id == id);
            assert(first.0 == update_actor(s, id, first.0[w]));
            assert(first.0[w].cooldown == Some(
                a.cooldown.unwrap().spec_mark_applied(),
            ));
            lemma_lookup_unique(first.0, id, w);
            assert(spec_blocked(actor_of(first.0, id)));
            lemma_blocked_target_rejected(first.0, evs.drop_first(), id);
            assert forall|i: int, j: int|
                0 <= i < j < evs.len() && evs[i].target == id && evs[j].target == id implies !((
            #[trigger] r.1[i]).apply && (#[trigger] r.1[j]).apply) by {
                assert(r.1[j] == rest.1[j - 1]);
                assert(evs.drop_first()[j - 1] == evs[j]);
            }
        } else {
            // Either the first event aimed elsewhere, or it was rejected;
            // in both cases the target still has its channel, unchanged.
            if evs[0].target == id {
                assert(first.0 == s);
            }
            lemma_cooldown_exclusive(first.0, evs.drop_first(), id);
            assert forall|i: int, j: int|
                0 <= i < j < evs.len() && evs[i].target == id && evs[j].target == id implies !((
            #[trigger] r.1[i]).apply && (#[trigger] r.1[j]).apply) by {
                if i == 0 {
                    assert(r.1[0] == first.1);
                    assert(!first.1.apply);
                } else {
                    assert(r.1[i] == rest.1[i - 1]);
                    assert(r.1[j] == rest.1[j - 1]);
                    assert(evs.drop_first()[i - 1] == evs[i]);
                    assert(evs.drop_first()[j - 1] == evs[j]);
                }
            }
        }
    }
}

/// The other half of exclusivity: the first event of a pass aimed at a
/// live, ready target does apply.
pub proof fn lemma_ready_target_hit_applies(
    s: Seq<Actor>,
    evs: Seq<DamageEvent>,
    id: u64,
    i: int,
)
    requires
        ids_distinct(s),
        has_actor(s, id),
        spec_alive(actor_of(s, id)),
        match actor_of(s, id).cooldown {
            Some(c) => c.spec_is_ready(),
            None => true,
        },
        0 <= i < evs.len(),
        evs[i].target == id,
        evs[i].apply,
        forall|k: int| 0 <= k < i ==> (#[trigger] evs[k]).target != id,
    ensures
        spec_apply_all(s, evs).1[i].apply,
    decreases evs.len(),
{
    let r = spec_apply_all(s, evs);
    let first = spec_resolve_event(s, evs[0]);
    let rest = spec_apply_all(first.0, evs.drop_first());
    if i == 0 {
        assert(!spec_blocked(actor_of(s, id)));
        assert(first.1.apply);
        assert(r.1[0] == first.1);
    } else {
        lemma_resolve_event_frame(s, evs[0], id);
        lemma_ready_target_hit_applies(first.0, evs.drop_first(), id, i - 1);
        lemma_apply_all_len(first.0, evs.drop_first());
        assert(r.1[i] == rest.1[i - 1]);
        assert(evs.drop_first()[i - 1] == evs[i]);
        assert forall|k: int| 0 <= k < i - 1 implies (#[trigger] evs.drop_first()[k]).target
            != id by {
            assert(evs.drop_first()[k] == evs[k + 1]);
        }
    }
}

/// Cooldown exclusivity across ticks: a target hit less than its remaining
/// cooldown ago is still blocked after time passes, so the next Apply pass
/// rejects every event aimed at it and leaves its health untouched.
pub proof fn lemma_cooldown_blocks_across_ticks(
    s: Seq<Actor>,
    dt: u64,
    evs: Seq<DamageEvent>,
    id: u64,
)
    requires
        ids_distinct(s),
        has_actor(s, id),
        match actor_of(s, id).cooldown {
            Some(c) => dt < c.remaining,
            None => false,
        },
    ensures
        ({
            let s2 = spec_tick_actors(s, dt);
            let r = spec_apply_all(s2, evs);
            &&& r.1.len() == evs.len()
            &&& (forall|i: int|
                0 <= i < evs.len() && evs[i].target == id ==> !(#[trigger] r.1[i]).apply)
            &&& has_actor(r.0, id)
            &&& actor_of(r.0, id).health == actor_of(s, id).health
        }),
{
    let s2 = spec_tick_actors(s, dt);
    let w = idx_of(s, id);
    assert(0 <= w < s.len() && s[w].id == id);
    assert(s2[w] == spec_tick_actor(s[w], dt));
    assert(ids_distinct(s2)) by {
        assert forall|p: int, q: int| 0 <= p < q < s2.len() implies (#[trigger] s2[p]).id != (
        #[trigger] s2[q]).id by {
            assert(s2[p] == spec_tick_actor(s[p], dt));
            assert(s2[q] == spec_tick_actor(s[q], dt));
            assert(s[p].id != s[q].id);
        }
    }
    lemma_lookup_unique(s, id, w);
    lemma_lookup_unique(s2, id, w);
    assert(spec_blocked(actor_of(s2, id)));
    lemma_blocked_target_rejected(s2, evs, id);
}

/// The ordered, phased damage event queue of one tick.
pub struct DamagePipeline {
    events: Vec<DamageEvent>,
    phase: DamagePhase,
}

impl DamagePipeline {
    /// The queued events, in order.
    pub closed spec fn events_seq(self) -> Seq<DamageEvent> {
        self.events@
    }

    /// The phase the pipeline currently stands in.
    pub closed spec fn spec_phase(self) -> DamagePhase {
        self.phase
    }

    /// A fresh pipeline, accepting events.
    pub fn new() -> (p: DamagePipeline)
        ensures
            p.spec_phase() == DamagePhase::Send,
            p.events_seq() =~= Seq::<DamageEvent>::empty(),
    {
        DamagePipeline { events: Vec::new(), phase: DamagePhase::Send }
    }

    pub fn phase(&self) -> (p: DamagePhase)
        ensures
            p == self.spec_phase(),
    {
        self.phase
    }

    /// Number of queued events.
    pub fn len(&self) -> (n: usize)
        ensures
            n == self.events_seq().len(),
    {
        self.events.len()
    }

    /// The event at a queue position, for observers.
    pub fn event_at(&self, i: usize) -> (ev: DamageEvent)
        requires
            i < self.events_seq().len(),
        ensures
            ev == self.events_seq()[i as int],
    {
        self.events[i]
    }

    /// Send phase: append a new intent, flagged to apply. Queue order among
    /// appended events is insertion order.
    pub fn send(&mut self, target: u64, context: DamageContext)
        requires
            old(self).spec_phase() == DamagePhase::Send,
        ensures
            final(self).spec_phase() == DamagePhase::Send,
            final(self).events_seq() =~= old(self).events_seq().push(
                DamageEvent { target, context, apply: true },
            ),
    {
        self.events.push(DamageEvent { target, context, apply: true });
    }

    /// Before phase: the reserved hook for effects that must observe events
    /// before resolution. In this core it passes every event through
    /// unchanged; it exists as a named extension point.
    pub fn before(&mut self)
        requires
            old(self).spec_phase() == DamagePhase::Send,
        ensures
            final(self).spec_phase() == DamagePhase::Before,
            final(self).events_seq() == old(self).events_seq(),
    {
        self.phase = DamagePhase::Before;
    }

    /// Apply phase: resolve every still-flagged event in queue order against
    /// the population, finalizing each event's `apply` flag in place. The
    /// result is exactly the front-to-back fold of single-event resolution.
    pub fn apply(&mut self, population: &mut Population)
        requires
            old(self).spec_phase() == DamagePhase::Before,
            old(population).wf(),
        ensures
            final(self).spec_phase() == DamagePhase::Apply,
            final(population).wf(),
            old(population).same_config(*final(population)),
            final(population).spec_next_id() == old(population).spec_next_id(),
            final(population)@ == spec_apply_all(
                old(population)@,
                old(self).events_seq(),
            ).0,
            final(self).events_seq() =~= spec_apply_all(
                old(population)@,
                old(self).events_seq(),
            ).1,
    {
        let ghost s0 = population@;
        let ghost evs0 = self.events@;
        let n = self.events.len();
        let mut i: usize = 0;
        proof {
            assert(evs0.take(0) =~= Seq::<DamageEvent>::empty());
        }
        while i < n
            invariant
                i <= n,
                n == self.events@.len(),
                n == evs0.len(),
                population.wf(),
                old(population).same_config(*population),
                population.spec_next_id() == old(population).spec_next_id(),
                population@ == spec_apply_all(s0, evs0.take(i as int)).0,
                self.events@.take(i as int) =~= spec_apply_all(s0, evs0.take(i as int)).1,
                forall|k: int| i <= k < n ==> self.events@[k] == evs0[k],
                self.spec_phase() == old(self).spec_phase(),
            decreases n - i,
        {
            let ev = self.events[i];
            let applied = if ev.apply {
                population.resolve_damage(ev.target, ev.context.damage)
            } else {
                false
            };
            let finalized = DamageEvent { target: ev.target, context: ev.context, apply: applied };
            self.events.set(i, finalized);
            proof {
                assert(evs0.take(i + 1) =~= evs0.take(i as int).push(evs0[i as int]));
                lemma_apply_all_snoc(s0, evs0.take(i as int), evs0[i as int]);
                if !ev.apply {
                    assert(finalized == spec_resolve_event(
                        spec_apply_all(s0, evs0.take(i as int)).0,
                        evs0[i as int],
                    ).1)
                }
                assert(self.events@.take(i + 1) =~= self.events@.take(i as int).push(finalized));
            }
            i = i + 1;
        }
        proof {
            assert(evs0.take(n as int) =~= evs0);
            assert(self.events@.take(n as int) =~= self.events@);
        }
        self.phase = DamagePhase::Apply;
    }

    /// After phase: expose the finalized outcomes, one per event in queue
    /// order, without touching health or cooldown state.
    pub fn outcomes(&mut self) -> (out: Vec<DamageOutcome>)
        requires
            old(self).spec_phase() == DamagePhase::Apply,
        ensures
            final(self).spec_phase() == DamagePhase::After,
            final(self).events_seq() == old(self).events_seq(),
            out@.len() == old(self).events_seq().len(),
            forall|i: int|
                0 <= i < out@.len() ==> ({
                    let ev = old(self).events_seq()[i];
                    #[trigger] out@[i] == DamageOutcome {
                        target: ev.target,
                        context: ev.context,
                        applied: ev.apply,
                    }
                }),
    {
        let n = self.events.len();
        let mut out: Vec<DamageOutcome> = Vec::new();
        let mut i: usize = 0;
        while i < n
            invariant
                i <= n,
                n == self.events@.len(),
                out@.len() == i,
                forall|k: int|
                    0 <= k < i ==> ({
                        let ev = self.events@[k];
                        #[trigger] out@[k] == DamageOutcome {
                            target: ev.target,
                            context: ev.context,
                            applied: ev.apply,
                        }
                    }),
            decreases n - i,
        {
            let ev = self.events[i];
            out.push(DamageOutcome { target: ev.target, context: ev.context, applied: ev.apply });
            i = i + 1;
        }
        self.phase = DamagePhase::After;
        out
    }

    /// Ready the pipeline for the next tick: clear the queue, accept sends
    /// again.
    pub fn reset(&mut self)
        ensures
            final(self).spec_phase() == DamagePhase::Send,
            final(self).events_seq() =~= Seq::<DamageEvent>::empty(),
    {
        self.events = Vec::new();
        self.phase = DamagePhase::Send;
    }
}

} // verus!
