//! Spatial proximity index.
//!
//! An immutable snapshot over the collidable actors' positions, built once per
//! rebuild interval and queried many times per tick. `build` constructs a
//! balanced 2-d tree by median splits on alternating axes; `query_radius`
//! returns exactly the indexed points whose Euclidean distance to the query
//! center is at most the query radius.
//!
//! Coordinates are integer world units, bounded so that squared distances fit
//! in `i64` arithmetic.

use vstd::prelude::*;
use vstd::multiset::Multiset;

verus! {

/// Largest magnitude an indexed or query coordinate may have.
pub const COORD_LIMIT: i64 = 1_000_000_000;

/// Largest radius a query may use (the diameter of the coordinate square).
pub const RADIUS_LIMIT: i64 = 2_000_000_000;

/// One indexed point: a position and the id of the actor standing there.
#[derive(Clone, Copy, PartialEq, Eq, Structural, Debug)]
pub struct PointEntry {
    pub x: i64,
    pub y: i64,
    pub id: u64,
}

/// Both coordinates within the range the index accepts.
pub open spec fn in_coord_bounds(e: PointEntry) -> bool {
    &&& -COORD_LIMIT <= e.x <= COORD_LIMIT
    &&& -COORD_LIMIT <= e.y <= COORD_LIMIT
}

/// Squared Euclidean distance between two points.
pub open spec fn dist_sq(x1: int, y1: int, x2: int, y2: int) -> int {
    (x1 - x2) * (x1 - x2) + (y1 - y2) * (y1 - y2)
}

/// The entry lies within Euclidean distance `r` of the center `(cx, cy)`.
pub open spec fn within_radius(e: PointEntry, cx: i64, cy: i64, r: i64) -> bool {
    dist_sq(e.x as int, e.y as int, cx as int, cy as int) <= (r as int) * (r as int)
}

/// The membership predicate of one radius query, as a value usable with
/// `Multiset::filter`.
pub open spec fn radius_pred(cx: i64, cy: i64, r: i64) -> spec_fn(PointEntry) -> bool {
    |e: PointEntry| within_radius(e, cx, cy, r)
}

/// The coordinate of `e` along the splitting axis (`true` = x, `false` = y).
pub open spec fn axis_coord(e: PointEntry, x_axis: bool) -> int {
    if x_axis {
        e.x as int
    } else {
        e.y as int
    }
}

struct KdNode {
    entry: PointEntry,
    left: Option<Box<KdNode>>,
    right: Option<Box<KdNode>>,
}

/// An immutable snapshot of the collidable point set. A rebuild produces a
/// new snapshot; an existing one never changes.
pub struct SpatialIndex {
    root: Option<Box<KdNode>>,
}

impl KdNode {
    spec fn opt_entries(node: Option<Box<KdNode>>) -> Multiset<PointEntry>
        decreases node,
    {
        match node {
            None => Multiset::empty(),
            Some(n) => n.entries(),
        }
    }

    spec fn entries(self) -> Multiset<PointEntry>
        decreases self,
    {
        KdNode::opt_entries(self.left).add(KdNode::opt_entries(self.right)).insert(self.entry)
    }

    spec fn opt_wf(node: Option<Box<KdNode>>, x_axis: bool) -> bool
        decreases node,
    {
        match node {
            None => true,
            Some(n) => n.wf(x_axis),
        }
    }

    /// The splitting invariant: the node's entry is in bounds, everything in
    /// the left subtree lies at or below the node's coordinate along the
    /// splitting axis, everything in the right subtree at or above it, and the
    /// subtrees satisfy the same along the other axis.
    spec fn wf(self, x_axis: bool) -> bool
        decreases self,
    {
        &&& in_coord_bounds(self.entry)
        &&& (forall|e: PointEntry|
            #[trigger] KdNode::opt_entries(self.left).contains(e) ==> axis_coord(e, x_axis)
                <= axis_coord(self.entry, x_axis))
        &&& (forall|e: PointEntry|
            #[trigger] KdNode::opt_entries(self.right).contains(e) ==> axis_coord(e, x_axis)
                >= axis_coord(self.entry, x_axis))
        &&& KdNode::opt_wf(self.left, !x_axis)
        &&& KdNode::opt_wf(self.right, !x_axis)
    }
}

/// A multiset in which no element satisfies `p` filters to the empty multiset.
proof fn lemma_filter_none_empty(m: Multiset<PointEntry>, p: spec_fn(PointEntry) -> bool)
    requires
        forall|e: PointEntry| #[trigger] m.contains(e) ==> !p(e),
    ensures
        m.filter(p) =~= Multiset::<PointEntry>::empty(),
{
    broadcast use vstd::multiset::group_multiset_axioms;

    assert forall|e: PointEntry| m.filter(p).count(e) == 0 by {
        if p(e) {
            assert(!m.contains(e));
        }
    }
}

/// `filter` distributes over `add`.
proof fn lemma_filter_add(
    a: Multiset<PointEntry>,
    b: Multiset<PointEntry>,
    p: spec_fn(PointEntry) -> bool,
)
    ensures
        a.add(b).filter(p) =~= a.filter(p).add(b.filter(p)),
{
    broadcast use vstd::multiset::group_multiset_axioms;

}

/// `filter` keeps an inserted element exactly when it satisfies `p`.
proof fn lemma_filter_insert(a: Multiset<PointEntry>, e: PointEntry, p: spec_fn(PointEntry) -> bool)
    ensures
        a.insert(e).filter(p) =~= if p(e) {
            a.filter(p).insert(e)
        } else {
            a.filter(p)
        },
{
    broadcast use vstd::multiset::group_multiset_axioms;

}

/// A square of a value bounded by `b` in magnitude is bounded by `b * b`.
pub(crate) proof fn lemma_square_bound(a: int, b: int)
    requires
        -b <= a <= b,
        0 <= b,
    ensures
        0 <= a * a <= b * b,
{
    assert(0 <= a * a <= b * b) by (nonlinear_arith)
        requires
            -b <= a <= b,
            0 <= b,
    ;
}

/// A point further than `r` from the center along one axis alone is outside
/// the query disc.
proof fn lemma_axis_gap_excludes(e: PointEntry, cx: i64, cy: i64, r: i64, x_axis: bool)
    requires
        r >= 0,
        if x_axis {
            (cx as int) - (e.x as int) > r || (e.x as int) - (cx as int) > r
        } else {
            (cy as int) - (e.y as int) > r || (e.y as int) - (cy as int) > r
        },
    ensures
        !within_radius(e, cx, cy, r),
{
    let dx = (e.x as int) - (cx as int);
    let dy = (e.y as int) - (cy as int);
    let ri = r as int;
    if x_axis {
        assert(dx * dx + dy * dy > ri * ri) by (nonlinear_arith)
            requires
                dx > ri || -dx > ri,
                ri >= 0,
        ;
    } else {
        assert(dx * dx + dy * dy > ri * ri) by (nonlinear_arith)
            requires
                dy > ri || -dy > ri,
                ri >= 0,
        ;
    }
}

/// The sequence is ordered by the coordinate along the given axis.
pub open spec fn sorted_by_axis(s: Seq<PointEntry>, x_axis: bool) -> bool {
    forall|p: int, q: int|
        0 <= p < q < s.len() ==> axis_coord(#[trigger] s[p], x_axis) <= axis_coord(
            #[trigger] s[q],
            x_axis,
        )
}

/// The coordinate of `e` along the splitting axis.
fn axis_coord_of(e: &PointEntry, x_axis: bool) -> (c: i64)
    ensures
        c as int == axis_coord(*e, x_axis),
{
    if x_axis {
        e.x
    } else {
        e.y
    }
}

/// Selection sort by the coordinate along the given axis. Reorders the
/// vector; the multiset of entries is unchanged.
fn sort_by_axis(v: &mut Vec<PointEntry>, x_axis: bool)
    ensures
        final(v)@.len() == old(v)@.len(),
        final(v)@.to_multiset() =~= old(v)@.to_multiset(),
        sorted_by_axis(final(v)@, x_axis),
{
    broadcast use vstd::seq_lib::group_to_multiset_ensures;
    broadcast use vstd::multiset::group_multiset_axioms;

    let n = v.len();
    let mut i: usize = 0;
    while i < n
        invariant
            i <= n,
            n == v@.len(),
            v@.to_multiset() =~= old(v)@.to_multiset(),
            forall|p: int, q: int|
                0 <= p < q < i ==> axis_coord(#[trigger] v@[p], x_axis) <= axis_coord(
                    #[trigger] v@[q],
                    x_axis,
                ),
            forall|p: int, q: int|
                0 <= p < i <= q < n ==> axis_coord(#[trigger] v@[p], x_axis) <= axis_coord(
                    #[trigger] v@[q],
                    x_axis,
                ),
        decreases n - i,
    {
        let mut m: usize = i;
        let mut j: usize = i + 1;
        while j < n
            invariant
                i <= m < j <= n,
                n == v@.len(),
                forall|k: int|
                    i <= k < j ==> axis_coord(v@[m as int], x_axis) <= axis_coord(
                        #[trigger] v@[k],
                        x_axis,
                    ),
            decreases n - j,
        {
            if axis_coord_of(&v[j], x_axis) < axis_coord_of(&v[m], x_axis) {
                m = j;
            }
            j = j + 1;
        }
        if m != i {
            let ghost before = v@;
            let a = v[i];
            let b = v[m];
            v.set(i, b);
            v.set(m, a);
            proof {
                broadcast use vstd::seq_lib::group_to_multiset_ensures;
                broadcast use vstd::multiset::group_multiset_axioms;

                let s1 = before.update(i as int, b);
                let s2 = s1.update(m as int, a);
                assert(v@ =~= s2);
                assert(before[i as int] == a);
                assert(s1[m as int] == b);
                assert(s1.to_multiset() == before.to_multiset().insert(b).remove(a));
                assert(s2.to_multiset() == s1.to_multiset().insert(a).remove(b));
                assert(before.contains(a));
                assert(before.to_multiset().count(a) > 0);
                assert(s2.to_multiset() =~= before.to_multiset());
            }
        }
        i = i + 1;
    }
}

impl KdNode {
    /// Build the subtree for `points`, splitting at the median along the
    /// given axis.
    fn build_opt(points: &Vec<PointEntry>, x_axis: bool) -> (node: Option<Box<KdNode>>)
        requires
            forall|i: int| 0 <= i < points@.len() ==> in_coord_bounds(#[trigger] points@[i]),
        ensures
            KdNode::opt_wf(node, x_axis),
            KdNode::opt_entries(node) =~= points@.to_multiset(),
        decreases points@.len(),
    {
        broadcast use vstd::seq_lib::group_to_multiset_ensures;
        broadcast use vstd::multiset::group_multiset_axioms;

        if points.len() == 0 {
            proof {
                assert forall|q: PointEntry| points@.to_multiset().count(q) == 0 by {
                    assert(!points@.contains(q));
                }
            }
            return None;
        }
        let mut pts: Vec<PointEntry> = Vec::new();
        let mut c: usize = 0;
        while c < points.len()
            invariant
                c <= points@.len(),
                pts@ =~= points@.subrange(0, c as int),
            decreases points@.len() - c,
        {
            pts.push(points[c]);
            c = c + 1;
        }
        proof {
            assert(pts@ =~= points@);
        }
        sort_by_axis(&mut pts, x_axis);
        proof {
            assert forall|i: int| 0 <= i < pts@.len() implies in_coord_bounds(
                #[trigger] pts@[i],
            ) by {
                assert(pts@.contains(pts@[i]));
                assert(pts@.to_multiset().count(pts@[i]) > 0);
                assert(points@.to_multiset().count(pts@[i]) > 0);
                assert(points@.contains(pts@[i]));
                let w = choose|w: int| 0 <= w < points@.len() && points@[w] == pts@[i];
                assert(in_coord_bounds(points@[w]));
            }
        }
        let mid = pts.len() / 2;
        let entry = pts[mid];
        let mut left_v: Vec<PointEntry> = Vec::new();
        let mut k: usize = 0;
        while k < mid
            invariant
                k <= mid < pts@.len(),
                left_v@ =~= pts@.subrange(0, k as int),
            decreases mid - k,
        {
            left_v.push(pts[k]);
            k = k + 1;
        }
        let mut right_v: Vec<PointEntry> = Vec::new();
        let mut k2: usize = mid + 1;
        while k2 < pts.len()
            invariant
                mid < k2 <= pts@.len(),
                right_v@ =~= pts@.subrange(mid + 1, k2 as int),
            decreases pts@.len() - k2,
        {
            right_v.push(pts[k2]);
            k2 = k2 + 1;
        }
        let ghost sorted = pts@;
        let ghost ls = left_v@;
        let ghost rs = right_v@;
        proof {
            assert(ls =~= sorted.subrange(0, mid as int));
            assert(rs =~= sorted.subrange(mid + 1, sorted.len() as int));
            assert forall|i: int| 0 <= i < ls.len() implies in_coord_bounds(#[trigger] ls[i]) by {
                assert(ls[i] == sorted[i]);
            }
            assert forall|i: int| 0 <= i < rs.len() implies in_coord_bounds(#[trigger] rs[i]) by {
                assert(rs[i] == sorted[mid + 1 + i]);
            }
        }
        let left = KdNode::build_opt(&left_v, !x_axis);
        let right = KdNode::build_opt(&right_v, !x_axis);
        proof {
            // Partition facts from sortedness.
            assert forall|e: PointEntry| #[trigger]
                KdNode::opt_entries(left).contains(e) implies axis_coord(e, x_axis) <= axis_coord(
                entry,
                x_axis,
            ) by {
                assert(ls.to_multiset().count(e) > 0);
                assert(ls.contains(e));
                let w = choose|w: int| 0 <= w < ls.len() && ls[w] == e;
                assert(ls[w] == sorted[w]);
                assert(axis_coord(sorted[w], x_axis) <= axis_coord(sorted[mid as int], x_axis));
            }
            assert forall|e: PointEntry| #[trigger]
                KdNode::opt_entries(right).contains(e) implies axis_coord(e, x_axis) >= axis_coord(
                entry,
                x_axis,
            ) by {
                assert(rs.to_multiset().count(e) > 0);
                assert(rs.contains(e));
                let w = choose|w: int| 0 <= w < rs.len() && rs[w] == e;
                assert(rs[w] == sorted[mid + 1 + w]);
                assert(axis_coord(sorted[mid as int], x_axis) <= axis_coord(
                    sorted[mid + 1 + w],
                    x_axis,
                ));
            }
            // The three pieces reassemble the sorted sequence.
            assert(sorted =~= ls + seq![entry] + rs);
            vstd::seq_lib::lemma_multiset_commutative(ls + seq![entry], rs);
            vstd::seq_lib::lemma_multiset_commutative(ls, seq![entry]);
            assert(seq![entry] =~= Seq::<PointEntry>::empty().push(entry));
            assert forall|q: PointEntry| Seq::<PointEntry>::empty().to_multiset().count(q) == 0 by {
                assert(!Seq::<PointEntry>::empty().contains(q));
            }
            assert(seq![entry].to_multiset() =~= Multiset::<PointEntry>::empty().insert(entry));
        }
        let node = KdNode { entry, left, right };
        proof {
            assert(node.entries() =~= KdNode::opt_entries(left).add(
                KdNode::opt_entries(right),
            ).insert(entry));
            assert(node.entries() =~= sorted.to_multiset());
            assert(node.wf(x_axis));
        }
        Some(Box::new(node))
    }

    /// Collect into `out` every entry of the subtree within distance `r` of
    /// `(cx, cy)`, pruning subtrees that the splitting invariant places
    /// entirely outside the query disc.
    fn query_opt(
        node: &Option<Box<KdNode>>,
        x_axis: bool,
        cx: i64,
        cy: i64,
        r: i64,
        out: &mut Vec<PointEntry>,
    )
        requires
            KdNode::opt_wf(*node, x_axis),
            -COORD_LIMIT <= cx <= COORD_LIMIT,
            -COORD_LIMIT <= cy <= COORD_LIMIT,
            0 <= r <= RADIUS_LIMIT,
        ensures
            final(out)@.to_multiset() =~= old(out)@.to_multiset().add(
                KdNode::opt_entries(*node).filter(radius_pred(cx, cy, r)),
            ),
        decreases node,
    {
        broadcast use vstd::seq_lib::group_to_multiset_ensures;
        broadcast use vstd::multiset::group_multiset_axioms;

        let ghost p = radius_pred(cx, cy, r);
        match node {
            None => {
                proof {
                    lemma_filter_none_empty(Multiset::<PointEntry>::empty(), p);
                }
            },
            Some(n) => {
                let ghost lm = KdNode::opt_entries(n.left);
                let ghost rm = KdNode::opt_entries(n.right);
                let e = n.entry;
                let dx = e.x - cx;
                let dy = e.y - cy;
                proof {
                    lemma_square_bound(dx as int, 2_000_000_000);
                    lemma_square_bound(dy as int, 2_000_000_000);
                    lemma_square_bound(r as int, 2_000_000_000);
                }
                let d2 = dx * dx + dy * dy;
                let rsq = r * r;
                if d2 <= rsq {
                    out.push(e);
                }
                let ghost out1 = out@.to_multiset();
                proof {
                    lemma_filter_add(lm.add(rm), Multiset::<PointEntry>::empty().insert(e), p);
                    lemma_filter_add(lm, rm, p);
                    lemma_filter_insert(Multiset::<PointEntry>::empty(), e, p);
                    lemma_filter_none_empty(Multiset::<PointEntry>::empty(), p);
                    assert(n.entries() =~= lm.add(rm).add(
                        Multiset::<PointEntry>::empty().insert(e),
                    ));
                    assert(out1 =~= old(out)@.to_multiset().add(
                        Multiset::<PointEntry>::empty().insert(e).filter(p),
                    ));
                }
                let nc = if x_axis {
                    e.x
                } else {
                    e.y
                };
                let cc = if x_axis {
                    cx
                } else {
                    cy
                };
                if cc - nc <= r {
                    KdNode::query_opt(&n.left, !x_axis, cx, cy, r, out);
                } else {
                    proof {
                        assert forall|q: PointEntry| #[trigger] lm.contains(q) implies !p(q) by {
                            lemma_axis_gap_excludes(q, cx, cy, r, x_axis);
                        }
                        lemma_filter_none_empty(lm, p);
                    }
                }
                let ghost out2 = out@.to_multiset();
                proof {
                    assert(out2 =~= out1.add(lm.filter(p)));
                }
                if nc - cc <= r {
                    KdNode::query_opt(&n.right, !x_axis, cx, cy, r, out);
                } else {
                    proof {
                        assert forall|q: PointEntry| #[trigger] rm.contains(q) implies !p(q) by {
                            lemma_axis_gap_excludes(q, cx, cy, r, x_axis);
                        }
                        lemma_filter_none_empty(rm, p);
                    }
                }
                proof {
                    assert(out@.to_multiset() =~= out2.add(rm.filter(p)));
                    assert(out@.to_multiset() =~= old(out)@.to_multiset().add(
                        n.entries().filter(p),
                    ));
                }
            },
        }
    }
}

impl SpatialIndex {
    /// The multiset of points the snapshot indexes.
    pub closed spec fn entries(self) -> Multiset<PointEntry> {
        KdNode::opt_entries(self.root)
    }

    /// Structural invariant of the snapshot.
    pub closed spec fn wf(self) -> bool {
        KdNode::opt_wf(self.root, true)
    }

    /// The empty snapshot; what queries run against before the first build.
    pub fn new() -> (s: SpatialIndex)
        ensures
            s.wf(),
            s.entries() =~= Multiset::<PointEntry>::empty(),
    {
        SpatialIndex { root: None }
    }

    /// Build a snapshot over the given points. Duplicate positions are
    /// allowed; the snapshot indexes exactly the multiset handed in.
    pub fn build(points: &Vec<PointEntry>) -> (s: SpatialIndex)
        requires
            forall|i: int| 0 <= i < points@.len() ==> in_coord_bounds(#[trigger] points@[i]),
        ensures
            s.wf(),
            s.entries() =~= points@.to_multiset(),
    {
        SpatialIndex { root: KdNode::build_opt(points, true) }
    }

    /// Radius query: every indexed point within Euclidean distance `r` of
    /// `(cx, cy)`, each exactly as often as the snapshot indexes it, in
    /// unspecified order.
    pub fn query_radius(&self, cx: i64, cy: i64, r: i64) -> (out: Vec<PointEntry>)
        requires
            self.wf(),
            -COORD_LIMIT <= cx <= COORD_LIMIT,
            -COORD_LIMIT <= cy <= COORD_LIMIT,
            0 <= r <= RADIUS_LIMIT,
        ensures
            out@.to_multiset() =~= self.entries().filter(radius_pred(cx, cy, r)),
    {
        broadcast use vstd::seq_lib::group_to_multiset_ensures;
        broadcast use vstd::multiset::group_multiset_axioms;

        let mut out: Vec<PointEntry> = Vec::new();
        proof {
            assert(out@ =~= Seq::<PointEntry>::empty());
            assert forall|q: PointEntry| out@.to_multiset().count(q) == 0 by {
                assert(!out@.contains(q));
            }
        }
        KdNode::query_opt(&self.root, true, cx, cy, r, &mut out);
        out
    }
}

/// Fixed-cadence rebuild scheduling: the snapshot is rebuilt once every
/// `interval` milliseconds of simulated time, not every tick. This bounds
/// the staleness of query results by one interval while avoiding a full
/// rebuild each frame.
#[derive(Clone, Copy, Debug)]
pub struct RebuildTimer {
    pub elapsed: u64,
    pub interval: u64,
}

impl RebuildTimer {
    /// The accumulated time never reaches the interval between firings.
    pub open spec fn wf(self) -> bool {
        if self.interval == 0 {
            self.elapsed == 0
        } else {
            self.elapsed < self.interval
        }
    }

    pub fn new(interval: u64) -> (t: RebuildTimer)
        ensures
            t.wf(),
            t.elapsed == 0,
            t.interval == interval,
    {
        RebuildTimer { elapsed: 0, interval }
    }

    /// Advance simulated time by `dt`; report whether a rebuild falls due,
    /// and restart the cadence when it does.
    pub fn advance(&mut self, dt: u64) -> (due: bool)
        requires
            old(self).wf(),
        ensures
            final(self).wf(),
            due == (old(self).elapsed + dt >= old(self).interval),
            final(self).interval == old(self).interval,
            final(self).elapsed == if due {
                0int
            } else {
                old(self).elapsed + dt
            },
    {
        if dt >= self.interval - self.elapsed {
            self.elapsed = 0;
            true
        } else {
            self.elapsed = self.elapsed + dt;
            false
        }
    }
}

/// No two entries of the sequence carry the same actor id.
pub open spec fn distinct_ids(s: Seq<PointEntry>) -> bool {
    forall|i: int, j: int| 0 <= i < j < s.len() ==> (#[trigger] s[i]).id != (#[trigger] s[j]).id
}

/// Radius query correctness: a query result over a snapshot built from
/// `points` holds exactly the entries of `points` within the query disc —
/// every in-range entry and nothing else, and, when ids are unique, each id
/// at most once. Order plays no part: the statement only relates the two
/// sequences' contents.
pub proof fn lemma_query_radius_exact(
    points: Seq<PointEntry>,
    out: Seq<PointEntry>,
    cx: i64,
    cy: i64,
    r: i64,
)
    requires
        out.to_multiset() == points.to_multiset().filter(radius_pred(cx, cy, r)),
    ensures
        forall|e: PointEntry| #[trigger]
            out.contains(e) <==> points.contains(e) && within_radius(e, cx, cy, r),
        distinct_ids(points) ==> out.no_duplicates(),
        distinct_ids(points) ==> distinct_ids(out),
{
    broadcast use vstd::seq_lib::group_to_multiset_ensures;
    broadcast use vstd::multiset::group_multiset_axioms;

    let p = radius_pred(cx, cy, r);
    assert forall|e: PointEntry| #[trigger]
        out.contains(e) <==> points.contains(e) && within_radius(e, cx, cy, r) by {
        assert(out.contains(e) <==> out.to_multiset().count(e) > 0);
        assert(out.to_multiset().count(e) == if p(e) {
            points.to_multiset().count(e)
        } else {
            0
        });
        assert(points.contains(e) <==> points.to_multiset().count(e) > 0);
    }
    if distinct_ids(points) {
        assert(points.no_duplicates()) by {
            assert forall|i: int, j: int| 0 <= i < points.len() && 0 <= j < points.len() && i != j
                implies points[i] != points[j] by {
                if i < j {
                    assert(points[i].id != points[j].id);
                } else {
                    assert(points[j].id != points[i].id);
                }
            }
        }
        points.lemma_multiset_has_no_duplicates();
        assert forall|x: PointEntry| out.to_multiset().contains(x) implies out.to_multiset().count(
            x,
        ) == 1 by {
            assert(out.to_multiset().count(x) > 0);
            assert(p(x) && points.to_multiset().count(x) > 0);
            assert(points.to_multiset().contains(x));
        }
        out.lemma_multiset_has_no_duplicates_conv();
        assert forall|i: int, j: int| 0 <= i < j < out.len() implies (#[trigger] out[i]).id != (
        #[trigger] out[j]).id by {
            assert(out.contains(out[i]));
            assert(out.contains(out[j]));
            assert(points.contains(out[i]));
            assert(points.contains(out[j]));
            let wi = choose|w: int| 0 <= w < points.len() && points[w] == out[i];
            let wj = choose|w: int| 0 <= w < points.len() && points[w] == out[j];
            if out[i].id == out[j].id {
                if wi != wj {
                    assert(points[wi].id != points[wj].id);
                } else {
                    assert(out[i] == out[j]);
                    assert(!out.no_duplicates());
                }
            }
        }
    }
}

} // verus!
