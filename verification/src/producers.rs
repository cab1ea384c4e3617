//! Proximity producers: the Send-phase systems that turn "in range" facts
//! from the spatial index into damage intents on the pipeline.
//!
//! A projectile producer damages every indexed actor within the projectile's
//! hit radius; a contact producer damages one target (the player) once per
//! attacker standing within contact range. Both append in deterministic
//! insertion order; which actors are hit is exactly the radius query result.

use vstd::prelude::*;
use crate::damage::DamageContext;
use crate::damage::DamageEvent;
use crate::damage::DamagePhase;
use crate::damage::DamagePipeline;
use crate::damage::DamageType;
use crate::spatial::COORD_LIMIT;
use crate::spatial::PointEntry;
use crate::spatial::RADIUS_LIMIT;
use crate::spatial::SpatialIndex;
use crate::spatial::radius_pred;

verus! {

/// The event a projectile hit turns into.
pub open spec fn spec_projectile_event(
    hit: PointEntry,
    damage: u32,
    attacker: Option<u64>,
) -> DamageEvent {
    DamageEvent {
        target: hit.id,
        context: DamageContext { damage, damage_type: DamageType::Bullet.spec_code(), attacker },
        apply: true,
    }
}

/// The event one contact with an in-range attacker turns into.
pub open spec fn spec_contact_event(target: u64, hit: PointEntry, damage: u32) -> DamageEvent {
    DamageEvent {
        target,
        context: DamageContext {
            damage,
            damage_type: DamageType::Enemy.spec_code(),
            attacker: Some(hit.id),
        },
        apply: true,
    }
}

/// `spec_projectile_event` as a value usable with `Seq::map_values`.
pub open spec fn projectile_event_fn(damage: u32, attacker: Option<u64>) -> spec_fn(
    PointEntry,
) -> DamageEvent {
    |h: PointEntry| spec_projectile_event(h, damage, attacker)
}

/// `spec_contact_event` as a value usable with `Seq::map_values`.
pub open spec fn contact_event_fn(target: u64, damage: u32) -> spec_fn(PointEntry) -> DamageEvent {
    |h: PointEntry| spec_contact_event(target, h, damage)
}

/// "Not the target itself", as a value usable with `filter`.
pub open spec fn other_than(target: u64) -> spec_fn(PointEntry) -> bool {
    |h: PointEntry| h.id != target
}

/// Filtering a sequence and taking the multiset commutes with taking the
/// multiset and filtering it.
proof fn lemma_seq_filter_multiset(s: Seq<PointEntry>, p: spec_fn(PointEntry) -> bool)
    ensures
        s.filter(p).to_multiset() =~= s.to_multiset().filter(p),
    decreases s.len(),
{
    broadcast use vstd::seq_lib::group_to_multiset_ensures;
    broadcast use vstd::multiset::group_multiset_axioms;

    reveal(Seq::filter);
    if s.len() == 0 {
        assert forall|e: PointEntry| s.filter(p).to_multiset().count(e) == s.to_multiset().filter(
            p,
        ).count(e) by {
            assert(!s.contains(e));
            assert(s.filter(p) == s);
        }
    } else {
        let d = s.drop_last();
        let x = s.last();
        lemma_seq_filter_multiset(d, p);
        assert(s =~= d.push(x));
        assert(s.to_multiset() =~= d.push(x).to_multiset());
        assert(d.push(x).to_multiset() =~= d.to_multiset().insert(x));
        assert forall|e: PointEntry| s.filter(p).to_multiset().count(e) == s.to_multiset().filter(
            p,
        ).count(e) by {
            if p(x) {
                assert(s.filter(p) == d.filter(p).push(x));
                assert(s.filter(p).to_multiset() =~= d.filter(p).to_multiset().insert(x));
            } else {
                assert(s.filter(p) == d.filter(p));
            }
        }
    }
}

/// Projectile-versus-actor: query the snapshot around the projectile's
/// position and send one damage intent per actor within `radius`. The
/// appended events target exactly the in-range point set (as a multiset);
/// their order among themselves is the query's deterministic traversal
/// order.
pub fn send_projectile_hits(
    pipeline: &mut DamagePipeline,
    index: &SpatialIndex,
    x: i64,
    y: i64,
    radius: i64,
    damage: u32,
    attacker: Option<u64>,
) -> (hit_count: usize)
    requires
        old(pipeline).spec_phase() == DamagePhase::Send,
        index.wf(),
        -COORD_LIMIT <= x <= COORD_LIMIT,
        -COORD_LIMIT <= y <= COORD_LIMIT,
        0 <= radius <= RADIUS_LIMIT,
    ensures
        final(pipeline).spec_phase() == DamagePhase::Send,
        exists|hits: Seq<PointEntry>|
            {
                &&& #[trigger] hits.to_multiset() == index.entries().filter(
                    radius_pred(x, y, radius),
                )
                &&& hit_count == hits.len()
                &&& final(pipeline).events_seq() =~= old(pipeline).events_seq()
                    + hits.map_values(projectile_event_fn(damage, attacker))
            },
{
    let hits = index.query_radius(x, y, radius);
    let n = hits.len();
    let mut i: usize = 0;
    while i < n
        invariant
            i <= n,
            n == hits@.len(),
            pipeline.spec_phase() == DamagePhase::Send,
            pipeline.events_seq() =~= old(pipeline).events_seq() + hits@.take(i as int)
                .map_values(projectile_event_fn(damage, attacker)),
        decreases n - i,
    {
        let hit = hits[i];
        pipeline.send(hit.id, DamageContext::new(damage, DamageType::Bullet.code(), attacker));
        proof {
            assert(hits@.take(i + 1) =~= hits@.take(i as int).push(hits@[i as int]));
            assert(hits@.take(i + 1).map_values(projectile_event_fn(damage, attacker))
                =~= hits@.take(i as int).map_values(projectile_event_fn(damage, attacker)).push(
                spec_projectile_event(hits@[i as int], damage, attacker),
            ));
        }
        i = i + 1;
    }
    proof {
        assert(hits@.take(n as int) =~= hits@);
        assert({
            &&& hits@.to_multiset() == index.entries().filter(radius_pred(x, y, radius))
            &&& n == hits@.len()
            &&& pipeline.events_seq() =~= old(pipeline).events_seq() + hits@.map_values(
                projectile_event_fn(damage, attacker),
            )
        });
    }
    n
}

/// Actor-versus-player contact: query the snapshot around the target's own
/// position and send one damage intent on the target per attacker within
/// `radius`, each carrying that attacker's id. The target's own index entry
/// also lies inside the query disc, so it is left out.
pub fn send_contact_hits(
    pipeline: &mut DamagePipeline,
    index: &SpatialIndex,
    target: u64,
    x: i64,
    y: i64,
    radius: i64,
    damage: u32,
) -> (hit_count: usize)
    requires
        old(pipeline).spec_phase() == DamagePhase::Send,
        index.wf(),
        -COORD_LIMIT <= x <= COORD_LIMIT,
        -COORD_LIMIT <= y <= COORD_LIMIT,
        0 <= radius <= RADIUS_LIMIT,
    ensures
        final(pipeline).spec_phase() == DamagePhase::Send,
        exists|hits: Seq<PointEntry>|
            {
                &&& #[trigger] hits.to_multiset() == index.entries().filter(
                    radius_pred(x, y, radius),
                ).filter(other_than(target))
                &&& hit_count == hits.len()
                &&& final(pipeline).events_seq() =~= old(pipeline).events_seq()
                    + hits.map_values(contact_event_fn(target, damage))
            },
{
    let all = index.query_radius(x, y, radius);
    let n = all.len();
    let mut kept: Vec<PointEntry> = Vec::new();
    let mut i: usize = 0;
    proof {
        reveal(Seq::filter);
        assert(kept@ =~= all@.take(0).filter(other_than(target)));
    }
    while i < n
        invariant
            i <= n,
            n == all@.len(),
            kept@ =~= all@.take(i as int).filter(other_than(target)),
        decreases n - i,
    {
        let hit = all[i];
        let ghost prefix = all@.take(i as int);
        if hit.id != target {
            kept.push(hit);
        }
        proof {
            reveal(Seq::filter);
            let p = other_than(target);
            assert(all@.take(i + 1) == prefix.push(hit));
            assert(prefix.push(hit).drop_last() =~= prefix);
            assert(prefix.push(hit).filter(p) == if p(hit) {
                prefix.filter(p).push(hit)
            } else {
                prefix.filter(p)
            });
        }
        i = i + 1;
    }
    proof {
        assert(all@.take(n as int) =~= all@);
        lemma_seq_filter_multiset(all@, other_than(target));
        assert(kept@.to_multiset() =~= index.entries().filter(radius_pred(x, y, radius)).filter(
            other_than(target),
        ));
    }
    let ghost kept_snapshot = kept@;
    let m = kept.len();
    let mut k: usize = 0;
    while k < m
        invariant
            k <= m,
            m == kept@.len(),
            kept@ == kept_snapshot,
            pipeline.spec_phase() == DamagePhase::Send,
            pipeline.events_seq() =~= old(pipeline).events_seq() + kept@.take(k as int)
                .map_values(contact_event_fn(target, damage)),
        decreases m - k,
    {
        let hit = kept[k];
        pipeline.send(target, DamageContext::new(damage, DamageType::Enemy.code(), Some(hit.id)));
        proof {
            assert(kept@.take(k + 1) =~= kept@.take(k as int).push(kept@[k as int]));
            assert(kept@.take(k + 1).map_values(contact_event_fn(target, damage)) =~= kept@.take(
                k as int,
            ).map_values(contact_event_fn(target, damage)).push(
                spec_contact_event(target, kept@[k as int], damage),
            ));
        }
        k = k + 1;
    }
    proof {
        assert(kept@.take(m as int) =~= kept@);
        assert({
            &&& kept@.to_multiset() == index.entries().filter(radius_pred(x, y, radius)).filter(
                other_than(target),
            )
            &&& m == kept@.len()
            &&& pipeline.events_seq() =~= old(pipeline).events_seq() + kept@.map_values(
                contact_event_fn(target, damage),
            )
        });
    }
    m
}

} // verus!
