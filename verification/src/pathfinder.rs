//! Graph search over lanes.
//!
//! The pathfinding graph's nodes are lanes; its edges are the turns at the
//! intersection each lane runs into. A policy picks which lane kind a mode
//! of travel may use. The search returns the turns to take, or reports that
//! no sequence of turns joins the two lanes.

use vstd::prelude::*;
use crate::geom::Vec2;
use crate::handles::{IntersectionID, LaneID};
use crate::itinerary::{Itinerary, ItinView, ItineraryKind, KindView, Route, Traversable,
    TraverseDirection, TraverseKind, spec_advance};
use crate::map::{CityMap, LaneDirection, LaneKind};
use crate::polyline::PolyLine;

verus! {

/// Which lanes a mode of travel may use.
#[derive(Copy, Clone, Debug, PartialEq, Eq, Structural)]
pub enum PathKind {
    Pedestrian,
    Vehicle,
}

impl PathKind {
    pub open spec fn spec_lane_kind(self) -> LaneKind {
        match self {
            PathKind::Pedestrian => LaneKind::Walking,
            PathKind::Vehicle => LaneKind::Driving,
        }
    }

    pub fn lane_kind(self) -> (r: LaneKind)
        ensures
            r == self.spec_lane_kind(),
    {
        match self {
            PathKind::Pedestrian => LaneKind::Walking,
            PathKind::Vehicle => LaneKind::Driving,
        }
    }
}

/// One hop of a found path: take turn `turn_idx` at `inter`, arriving on
/// `lane`.
#[derive(Copy, Clone, Debug, PartialEq, Eq, Structural)]
pub struct PathStep {
    pub inter: IntersectionID,
    pub turn_idx: usize,
    pub lane: LaneID,
}

/// A turn leads from lane `a` to lane `b`: it stands at the intersection
/// `a` runs into and names both lanes. (Under the network invariant a turn
/// whose source is `a` can stand nowhere else.)
pub open spec fn spec_connected(map: CityMap, a: LaneID, b: LaneID) -> bool {
    &&& map.lanes.valid(a.0 as int)
    &&& map.lanes.valid(b.0 as int)
    &&& map.intersections.valid(map.lane_end_inter(a).0 as int)
    &&& exists|j: int|
        {
            &&& 0 <= j < map.intersections.s_get(map.lane_end_inter(a).0 as int).turns@.len()
            &&& (#[trigger] map.intersections.s_get(
                map.lane_end_inter(a).0 as int,
            ).turns@[j]).src == a
            &&& map.intersections.s_get(map.lane_end_inter(a).0 as int).turns@[j].dst == b
        }
}

/// A non-empty chain of lanes, each joined to the next by a turn.
pub open spec fn spec_lane_path(map: CityMap, p: Seq<LaneID>) -> bool {
    &&& p.len() >= 1
    &&& forall|i: int| 0 <= i < p.len() ==> map.lanes.valid((#[trigger] p[i]).0 as int)
    &&& forall|i: int| 0 <= i < p.len() - 1 ==> spec_connected(map, #[trigger] p[i], p[i + 1])
}

/// Some chain of turns joins `a` to `b`.
pub open spec fn spec_reachable(map: CityMap, a: LaneID, b: LaneID) -> bool {
    exists|p: Seq<LaneID>| #[trigger] spec_lane_path(map, p) && p[0] == a && p.last() == b
}

/// Chaining the hops in `steps` leads from `from` to `goal`, one real turn
/// of the network per hop.
pub open spec fn spec_steps_ok(
    map: CityMap,
    from: LaneID,
    steps: Seq<PathStep>,
    goal: LaneID,
) -> bool
    decreases steps.len(),
{
    if steps.len() == 0 {
        from == goal
    } else {
        let st = steps[0];
        &&& st.inter == map.lane_end_inter(from)
        &&& map.intersections.valid(st.inter.0 as int)
        &&& st.turn_idx < map.intersections.s_get(st.inter.0 as int).turns@.len()
        &&& map.intersections.s_get(st.inter.0 as int).turns@[st.turn_idx as int].src == from
        &&& map.intersections.s_get(st.inter.0 as int).turns@[st.turn_idx as int].dst == st.lane
        &&& map.lanes.valid(st.lane.0 as int)
        &&& spec_steps_ok(map, st.lane, steps.skip(1), goal)
    }
}

/// The number of `true` entries.
pub open spec fn seq_count_true(s: Seq<bool>) -> int
    decreases s.len(),
{
    if s.len() == 0 {
        0
    } else {
        seq_count_true(s.drop_last()) + if s.last() {
            1int
        } else {
            0int
        }
    }
}

proof fn lemma_count_true_bounds(s: Seq<bool>)
    ensures
        0 <= seq_count_true(s) <= s.len(),
    decreases s.len(),
{
    if s.len() > 0 {
        lemma_count_true_bounds(s.drop_last());
    }
}

proof fn lemma_count_true_update(s: Seq<bool>, k: int)
    requires
        0 <= k < s.len(),
        !s[k],
    ensures
        seq_count_true(s.update(k, true)) == seq_count_true(s) + 1,
    decreases s.len(),
{
    let t = s.update(k, true);
    if k == s.len() - 1 {
        assert(t.drop_last() =~= s.drop_last());
    } else {
        assert(t.drop_last() =~= s.drop_last().update(k, true));
        lemma_count_true_update(s.drop_last(), k);
    }
}

/// A visited set closed under the turn relation swallows every path that
/// starts inside it.
proof fn lemma_closed_set_swallows(map: CityMap, vis: Seq<bool>, p: Seq<LaneID>)
    requires
        spec_lane_path(map, p),
        vis.len() == map.lanes.slots_seq().len(),
        vis[p[0].0 as int],
        forall|a: LaneID, b: LaneID|
            0 <= a.0 as int && (a.0 as int) < vis.len() && vis[a.0 as int] && #[trigger] spec_connected(map, a, b)
                ==> vis[b.0 as int],
    ensures
        vis[p.last().0 as int],
    decreases p.len(),
{
    if p.len() > 1 {
        assert(spec_connected(map, p[0], p[1]));
        let q = p.skip(1);
        assert(spec_lane_path(map, q)) by {
            assert forall|i: int| 0 <= i < q.len() - 1 implies spec_connected(
                map,
                #[trigger] q[i],
                q[i + 1],
            ) by {
                assert(q[i] == p[i + 1] && q[i + 1] == p[i + 2]);
            };
            assert(forall|i: int| 0 <= i < q.len() ==> q[i] == p[i + 1]);
        }
        assert(vis[q[0].0 as int]);
        lemma_closed_set_swallows(map, vis, q);
        assert(q.last() == p.last());
    }
}

/// The turns leaving `l`, with the lane each arrives on: exactly the edges
/// of `l` in the turn graph.
fn successors(map: &CityMap, l: LaneID) -> (r: Vec<PathStep>)
    requires
        map.inv(),
        map.lanes.valid(l.0 as int),
    ensures
        forall|j: int|
            0 <= j < r@.len() ==> {
                let st = #[trigger] r@[j];
                &&& st.inter == map.lane_end_inter(l)
                &&& map.intersections.valid(st.inter.0 as int)
                &&& st.turn_idx < map.intersections.s_get(st.inter.0 as int).turns@.len()
                &&& map.intersections.s_get(st.inter.0 as int).turns@[st.turn_idx as int].src == l
                &&& map.intersections.s_get(st.inter.0 as int).turns@[st.turn_idx as int].dst
                    == st.lane
                &&& map.lanes.valid(st.lane.0 as int)
                &&& spec_connected(*map, l, st.lane)
            },
        forall|b: LaneID| spec_connected(*map, l, b) ==> exists|j: int|
            0 <= j < r@.len() && (#[trigger] r@[j]).lane == b,
{
    proof {
        assert(map.lane_ok(l.0 as int));
    }
    let (lane_dir, parent) = match map.lanes.get(l.0) {
        Some(lane) => (lane.direction, lane.parent),
        None => {
            proof {
                assert(false);
            }
            unreached()
        },
    };
    proof {
        assert(map.road_ok(parent.0 as int));
    }
    let end_i = {
        let rd = match map.roads.get(parent.0) {
            Some(rd) => rd,
            None => {
                proof {
                    assert(false);
                }
                unreached()
            },
        };
        match lane_dir {
            LaneDirection::Forward => rd.dst,
            LaneDirection::Backward => rd.src,
        }
    };
    proof {
        assert(end_i == map.lane_end_inter(l));
        assert(map.inter_ok(end_i.0 as int));
    }
    let inter = match map.intersections.get(end_i.0) {
        Some(it) => it,
        None => {
            proof {
                assert(false);
            }
            unreached()
        },
    };
    let mut r: Vec<PathStep> = Vec::new();
    let n = inter.turns.len();
    let mut j: usize = 0;
    while j < n
        invariant
            0 <= j <= n,
            map.inv(),
            map.intersections.valid(end_i.0 as int),
            inter == &map.intersections.s_get(end_i.0 as int),
            n == inter.turns@.len(),
            end_i == map.lane_end_inter(l),
            map.lanes.valid(l.0 as int),
            forall|jj: int|
                0 <= jj < r@.len() ==> {
                    let st = #[trigger] r@[jj];
                    &&& st.inter == end_i
                    &&& st.turn_idx < n
                    &&& map.intersections.s_get(end_i.0 as int).turns@[st.turn_idx as int].src
                        == l
                    &&& map.intersections.s_get(end_i.0 as int).turns@[st.turn_idx as int].dst
                        == st.lane
                    &&& map.lanes.valid(st.lane.0 as int)
                },
            forall|jj: int|
                0 <= jj < j && (#[trigger] map.intersections.s_get(
                    end_i.0 as int,
                ).turns@[jj]).src == l ==> exists|q: int|
                    0 <= q < r@.len() && (#[trigger] r@[q]).lane == map.intersections.s_get(
                        end_i.0 as int,
                    ).turns@[jj].dst && r@[q].turn_idx == jj,
        decreases n - j,
    {
        proof {
            assert(map.inter_ok(end_i.0 as int));
        }
        let t_src = inter.turns[j].src;
        let t_dst = inter.turns[j].dst;
        let ghost r0 = r@;
        if t_src.0 == l.0 {
            proof {
                assert(map.lane_ok(l.0 as int));
                assert(LaneID(t_src.0) == l);
            }
            r.push(PathStep { inter: end_i, turn_idx: j, lane: t_dst });
        }
        proof {
            assert forall|jj: int|
                0 <= jj < j + 1 && (#[trigger] map.intersections.s_get(
                    end_i.0 as int,
                ).turns@[jj]).src == l implies exists|q: int|
                0 <= q < r@.len() && (#[trigger] r@[q]).lane == map.intersections.s_get(
                    end_i.0 as int,
                ).turns@[jj].dst && r@[q].turn_idx == jj by {
                if jj < j {
                    let q0 = choose|q0: int|
                        0 <= q0 < r0.len() && (#[trigger] r0[q0]).lane == map.intersections.s_get(
                            end_i.0 as int,
                        ).turns@[jj].dst && r0[q0].turn_idx == jj;
                    assert(r@[q0].lane == map.intersections.s_get(end_i.0 as int).turns@[jj].dst
                        && r@[q0].turn_idx == jj);
                } else {
                    assert(t_src.0 == l.0);
                    assert(r@[r0.len() as int].lane == t_dst && r@[r0.len() as int].turn_idx
                        == jj);
                }
            };
        }
        j = j + 1;
    }
    proof {
        assert forall|b: LaneID| spec_connected(*map, l, b) implies exists|q: int|
            0 <= q < r@.len() && (#[trigger] r@[q]).lane == b by {
            let jj = choose|jj: int|
                {
                    &&& 0 <= jj < map.intersections.s_get(
                        map.lane_end_inter(l).0 as int,
                    ).turns@.len()
                    &&& (#[trigger] map.intersections.s_get(
                        map.lane_end_inter(l).0 as int,
                    ).turns@[jj]).src == l
                    &&& map.intersections.s_get(
                        map.lane_end_inter(l).0 as int,
                    ).turns@[jj].dst == b
                };
            let q0 = choose|q0: int|
                0 <= q0 < r@.len() && (#[trigger] r@[q0]).lane == map.intersections.s_get(
                    end_i.0 as int,
                ).turns@[jj].dst && r@[q0].turn_idx == jj;
            assert(r@[q0].lane == b);
        };
        assert forall|j2: int| 0 <= j2 < r@.len() implies spec_connected(
            *map,
            l,
            (#[trigger] r@[j2]).lane,
        ) by {
            let st = r@[j2];
            assert(map.intersections.s_get(end_i.0 as int).turns@[st.turn_idx as int].src == l
                && map.intersections.s_get(end_i.0 as int).turns@[st.turn_idx as int].dst
                == st.lane);
        };
    }
    r
}

/// Search from `start` toward `goal` over the turn graph: the hops of some
/// path when one exists, `None` exactly when no chain of turns joins the
/// two lanes.
#[verifier::rlimit(100)]
pub fn find_path(map: &CityMap, start: LaneID, goal: LaneID) -> (r: Option<Vec<PathStep>>)
    requires
        map.inv(),
        map.lanes.valid(start.0 as int),
        map.lanes.valid(goal.0 as int),
    ensures
        r is Some ==> spec_steps_ok(*map, start, r.unwrap()@, goal),
        r is None ==> !spec_reachable(*map, start, goal),
{
    let cap = map.lanes.capacity();
    let mut visited: Vec<bool> = Vec::new();
    let mut parent: Vec<Option<PathStep>> = Vec::new();
    let mut depth: Vec<usize> = Vec::new();
    let mut i: usize = 0;
    while i < cap
        invariant
            0 <= i <= cap,
            visited@.len() == i,
            parent@.len() == i,
            depth@.len() == i,
            forall|k: int| 0 <= k < i ==> !(#[trigger] visited@[k]),
            forall|k: int| 0 <= k < i ==> (#[trigger] depth@[k]) == 0,
        decreases cap - i,
    {
        visited.push(false);
        parent.push(None);
        depth.push(0);
        i = i + 1;
    }
    proof {
        lemma_count_true_zero(visited@);
        lemma_count_true_update(visited@, start.0 as int);
    }
    let rv = &mut visited[start.0];
    *rv = true;
    proof {
        assert(visited@ =~= Seq::new(cap as nat, |k: int| false).update(start.0 as int, true));
    }
    let mut work: Vec<LaneID> = Vec::new();
    work.push(start);
    proof {
        assert(work@[0] == start);
        assert(work@.contains(start));
        assert(seq_count_true(visited@) == 1) by {
            lemma_count_true_zero(Seq::new(cap as nat, |k: int| false));
            lemma_count_true_update(Seq::new(cap as nat, |k: int| false), start.0 as int);
            assert(visited@ =~= Seq::new(cap as nat, |k: int| false).update(
                start.0 as int,
                true,
            ));
        }
        assert forall|a: LaneID, b: LaneID|
            0 <= a.0 as int && (a.0 as int) < visited@.len() && #[trigger] visited@[a.0 as int]
                && !work@.contains(a) && #[trigger] spec_connected(*map, a, b) implies visited@[
        b.0 as int] by {
            assert(a.0 as int == start.0 as int);
            assert(map.lanes.valid(a.0 as int));
            assert(map.lane_ok(a.0 as int));
            assert(a == start) by {
                assert(map.lanes.s_get(a.0 as int).id == LaneID(a.0));
                assert(map.lanes.s_get(start.0 as int).id == LaneID(start.0));
            }
            assert(false);
        };
    }
    while work.len() > 0
        invariant
            map.inv(),
            map.lanes.valid(start.0 as int),
            visited@.len() == map.lanes.slots_seq().len(),
            parent@.len() == visited@.len(),
            depth@.len() == visited@.len(),
            visited@[start.0 as int],
            forall|k: int| 0 <= k < visited@.len() && #[trigger] visited@[k] ==> map.lanes.valid(k),
            forall|q: int|
                0 <= q < work@.len() ==> 0 <= (#[trigger] work@[q]).0 as int && (work@[q].0 as int) < visited@.len()
                    && visited@[work@[q].0 as int],
            forall|k: int|
                0 <= k < visited@.len() && #[trigger] visited@[k] && k != start.0 as int ==> {
                    let st = parent@[k]->Some_0;
                    &&& parent@[k] is Some
                    &&& st.lane == LaneID(k as usize)
                    &&& map.intersections.valid(st.inter.0 as int)
                    &&& st.turn_idx < map.intersections.s_get(st.inter.0 as int).turns@.len()
                    &&& map.intersections.s_get(st.inter.0 as int).turns@[st.turn_idx as int].dst
                        == st.lane
                    &&& {
                        let src = map.intersections.s_get(
                            st.inter.0 as int,
                        ).turns@[st.turn_idx as int].src;
                        &&& 0 <= src.0 as int && (src.0 as int) < visited@.len()
                        &&& visited@[src.0 as int]
                        &&& map.lanes.valid(src.0 as int)
                        &&& st.inter == map.lane_end_inter(src)
                        &&& depth@[src.0 as int] < depth@[k]
                    }
                },
            forall|a: LaneID, b: LaneID|
                0 <= a.0 as int && (a.0 as int) < visited@.len() && #[trigger] visited@[a.0 as int]
                    && !work@.contains(a) && #[trigger] spec_connected(*map, a, b)
                    ==> visited@[b.0 as int],
            forall|k: int|
                0 <= k < visited@.len() && #[trigger] visited@[k] ==> depth@[k]
                    < seq_count_true(visited@),
            seq_count_true(visited@) <= visited@.len(),
        decreases visited@.len() - seq_count_true(visited@) + work@.len(),
    {
        let ghost pre_vis = visited@;
        let ghost pre_work = work@;
        let l = match work.pop() {
            Some(l) => l,
            None => {
                proof {
                    assert(false);
                }
                unreached()
            },
        };
        proof {
            assert(work@ == pre_work.drop_last());
            assert(l == pre_work.last());
            assert forall|q: int|
                0 <= q < pre_work.len() - 1 implies work@.contains(#[trigger] pre_work[q]) by {
                assert(work@[q] == pre_work[q]);
            };
            assert forall|a: LaneID, b: LaneID|
                0 <= a.0 as int && (a.0 as int) < visited@.len() && #[trigger] visited@[
            a.0 as int] && !work@.contains(a) && a != l && #[trigger] spec_connected(
                *map,
                a,
                b,
            ) implies visited@[b.0 as int] by {
                if pre_work.contains(a) {
                    let q = choose|q: int| 0 <= q < pre_work.len() && #[trigger] pre_work[q] == a;
                    if q < pre_work.len() - 1 {
                        assert(work@[q] == pre_work[q]);
                        assert(work@.contains(a));
                        assert(false);
                    } else {
                        assert(a == l);
                        assert(false);
                    }
                }
            };
        }
        let succ = successors(map, l);
        let ns = succ.len();
        let mut j: usize = 0;
        while j < ns
            invariant
                0 <= j <= ns,
                map.inv(),
                map.lanes.valid(start.0 as int),
                map.lanes.valid(l.0 as int),
                ns == succ@.len(),
                forall|jj: int|
                    0 <= jj < succ@.len() ==> {
                        let st = #[trigger] succ@[jj];
                        &&& st.inter == map.lane_end_inter(l)
                        &&& map.intersections.valid(st.inter.0 as int)
                        &&& st.turn_idx < map.intersections.s_get(
                            st.inter.0 as int,
                        ).turns@.len()
                        &&& map.intersections.s_get(st.inter.0 as int).turns@[
                        st.turn_idx as int].src == l
                        &&& map.intersections.s_get(st.inter.0 as int).turns@[
                        st.turn_idx as int].dst == st.lane
                        &&& map.lanes.valid(st.lane.0 as int)
                    },
                visited@.len() == map.lanes.slots_seq().len(),
                parent@.len() == visited@.len(),
                depth@.len() == visited@.len(),
                visited@[start.0 as int],
                visited@[l.0 as int],
                forall|k: int|
                    0 <= k < visited@.len() && #[trigger] visited@[k] ==> map.lanes.valid(k),
                forall|q: int|
                    0 <= q < work@.len() ==> 0 <= (#[trigger] work@[q]).0 as int && (
                    work@[q].0 as int) < visited@.len() && visited@[work@[q].0 as int],
                forall|k: int|
                    0 <= k < visited@.len() && #[trigger] visited@[k] && k != start.0 as int
                        ==> {
                        let st = parent@[k]->Some_0;
                        &&& parent@[k] is Some
                        &&& st.lane == LaneID(k as usize)
                        &&& map.intersections.valid(st.inter.0 as int)
                        &&& st.turn_idx < map.intersections.s_get(
                            st.inter.0 as int,
                        ).turns@.len()
                        &&& map.intersections.s_get(st.inter.0 as int).turns@[
                        st.turn_idx as int].dst == st.lane
                        &&& {
                            let src = map.intersections.s_get(
                                st.inter.0 as int,
                            ).turns@[st.turn_idx as int].src;
                            &&& 0 <= src.0 as int && (src.0 as int) < visited@.len()
                            &&& visited@[src.0 as int]
                            &&& map.lanes.valid(src.0 as int)
                            &&& st.inter == map.lane_end_inter(src)
                            &&& depth@[src.0 as int] < depth@[k]
                        }
                    },
                forall|a: LaneID, b: LaneID|
                    0 <= a.0 as int && (a.0 as int) < visited@.len() && #[trigger] visited@[a.0 as int]
                        && !work@.contains(a) && a != l && #[trigger] spec_connected(
                        *map,
                        a,
                        b,
                    ) ==> visited@[b.0 as int],
                forall|jj: int|
                    0 <= jj < j ==> visited@[(#[trigger] succ@[jj]).lane.0 as int],
                pre_vis.len() == visited@.len(),
                forall|k: int| 0 <= k < pre_vis.len() && #[trigger] pre_vis[k] ==> visited@[k],
                forall|k: int|
                    0 <= k < visited@.len() && #[trigger] visited@[k] && !pre_vis[k]
                        ==> work@.contains(LaneID(k as usize)),
                forall|k: int|
                    0 <= k < visited@.len() && #[trigger] visited@[k] ==> depth@[k]
                        < seq_count_true(visited@),
                seq_count_true(visited@) - work@.len() == seq_count_true(pre_vis) - (
                pre_work.len() - 1),
                forall|q: int|
                    0 <= q < pre_work.len() - 1 ==> work@.contains(#[trigger] pre_work[q]),
                seq_count_true(visited@) <= visited@.len(),
            decreases ns - j,
        {
            let st = succ[j];
            let m = st.lane;
            if !visited[m.0] {
                let ghost vis0 = visited@;
                let ghost work_in = work@;
                proof {
                    lemma_count_true_update(visited@, m.0 as int);
                    lemma_count_true_bounds(visited@);
                    assert(visited@.len() == vstd::std_specs::vec::spec_vec_len(&visited)) by {
                        vstd::std_specs::vec::axiom_spec_len(&visited);
                    }
                }
                let rv = &mut visited[m.0];
                *rv = true;
                proof {
                    assert(visited@ =~= vis0.update(m.0 as int, true));
                }
                let rp = &mut parent[m.0];
                *rp = Some(st);
                let dl = depth[l.0];
                proof {
                    lemma_count_true_bounds(vis0);
                    assert(dl < seq_count_true(vis0));
                    assert(seq_count_true(vis0) <= vis0.len());
                }
                let nd = dl + 1;
                let rd = &mut depth[m.0];
                *rd = nd;
                work.push(m);
                proof {
                    lemma_count_true_bounds(visited@);
                    assert forall|k: int|
                        0 <= k < pre_vis.len() && #[trigger] pre_vis[k] implies visited@[k] by {
                        assert(vis0[k]);
                        assert(visited@ == vis0.update(m.0 as int, true));
                        assert(visited@[k] == vis0.update(m.0 as int, true)[k]);
                    };
                    assert forall|q: int|
                        0 <= q < pre_work.len() - 1 implies work@.contains(
                        #[trigger] pre_work[q],
                    ) by {
                        lemma_push_contains_path(work_in, m, pre_work[q]);
                    };
                    assert forall|k: int|
                        0 <= k < visited@.len() && #[trigger] visited@[k] && !pre_vis[k] implies
                        work@.contains(LaneID(k as usize)) by {
                        lemma_push_contains_path(work_in, m, LaneID(k as usize));
                        if k != m.0 as int {
                            assert(vis0[k]);
                        } else {
                            assert(map.lane_ok(m.0 as int));
                            assert(map.lanes.s_get(m.0 as int).id == LaneID(m.0));
                            assert(LaneID(k as usize) == m);
                        }
                    };
                    assert forall|a: LaneID, b: LaneID|
                        0 <= a.0 as int && (a.0 as int) < visited@.len() && #[trigger] visited@[
                    a.0 as int] && !work@.contains(a) && a != l && #[trigger] spec_connected(
                        *map,
                        a,
                        b,
                    ) implies visited@[b.0 as int] by {
                        lemma_push_contains_path(work_in, m, a);
                        if a.0 as int == m.0 as int {
                            assert(map.lane_ok(m.0 as int));
                            assert(map.lane_ok(a.0 as int));
                            assert(a == m) by {
                                assert(map.lanes.s_get(a.0 as int).id == LaneID(a.0));
                                assert(map.lanes.s_get(m.0 as int).id == LaneID(m.0));
                            }
                            assert(work@.contains(m));
                            assert(false);
                        } else {
                            assert(vis0[a.0 as int]);
                            assert(!work_in.contains(a));
                        }
                    };
                }
            }
            j = j + 1;
        }
        proof {
            lemma_count_true_bounds(visited@);
            // the popped lane is now closed: every lane it connects to was
            // either already visited or visited through its successor list
            assert forall|a: LaneID, b: LaneID|
                0 <= a.0 as int && (a.0 as int) < visited@.len() && #[trigger] visited@[a.0 as int]
                    && !work@.contains(a) && #[trigger] spec_connected(*map, a, b) implies
                visited@[b.0 as int] by {
                if a == l {
                    let jj = choose|jj: int|
                        0 <= jj < succ@.len() && (#[trigger] succ@[jj]).lane == b;
                } else {
                    if pre_work.contains(a) {
                        let q = choose|q: int|
                            0 <= q < pre_work.len() && #[trigger] pre_work[q] == a;
                        if q < pre_work.len() - 1 {
                            assert(work@.contains(pre_work[q]));
                            assert(work@.contains(a));
                            assert(false);
                        } else {
                            assert(a == pre_work.last());
                            assert(a == l);
                            assert(false);
                        }
                    }
                    assert(pre_vis[a.0 as int]) by {
                        if !pre_vis[a.0 as int] {
                            // a became visited this round, so it was pushed
                            assert(work@.contains(a));
                        }
                    }
                    assert(pre_vis[b.0 as int]);
                }
            };
        }
    }
    // the frontier is exhausted: the visited set is closed
    if !visited[goal.0] {
        proof {
            assert forall|p: Seq<LaneID>| !(#[trigger] spec_lane_path(*map, p) && p[0] == start
                && p.last() == goal) by {
                if spec_lane_path(*map, p) && p[0] == start && p.last() == goal {
                    lemma_closed_set_swallows(*map, visited@, p);
                }
            };
        }
        return None;
    }
    let steps = rebuild_steps(map, &parent, &depth, &visited, start, goal);
    Some(steps)
}

/// Walks the recorded parent hops back from the goal and returns them in
/// forward order.
#[verifier::rlimit(100)]
fn rebuild_steps(
    map: &CityMap,
    parent: &Vec<Option<PathStep>>,
    depth: &Vec<usize>,
    visited: &Vec<bool>,
    start: LaneID,
    goal: LaneID,
) -> (r: Vec<PathStep>)
    requires
        map.inv(),
        visited@.len() == map.lanes.slots_seq().len(),
        parent@.len() == visited@.len(),
        depth@.len() == visited@.len(),
        map.lanes.valid(goal.0 as int),
        visited@[goal.0 as int],
        forall|k: int|
            0 <= k < visited@.len() && #[trigger] visited@[k] && k != start.0 as int ==> {
                let st = parent@[k]->Some_0;
                &&& parent@[k] is Some
                &&& st.lane == LaneID(k as usize)
                &&& map.intersections.valid(st.inter.0 as int)
                &&& st.turn_idx < map.intersections.s_get(st.inter.0 as int).turns@.len()
                &&& map.intersections.s_get(st.inter.0 as int).turns@[st.turn_idx as int].dst
                    == st.lane
                &&& {
                    let src = map.intersections.s_get(
                        st.inter.0 as int,
                    ).turns@[st.turn_idx as int].src;
                    &&& 0 <= src.0 as int && (src.0 as int) < visited@.len()
                    &&& visited@[src.0 as int]
                    &&& map.lanes.valid(src.0 as int)
                    &&& st.inter == map.lane_end_inter(src)
                    &&& depth@[src.0 as int] < depth@[k]
                }
            },
    ensures
        spec_steps_ok(*map, start, r@, goal),
{
    let mut steps_rev: Vec<PathStep> = Vec::new();
    let mut cur: LaneID = goal;
    proof {
        assert(steps_rev@.reverse() =~= Seq::<PathStep>::empty());
        assert(map.lane_ok(goal.0 as int));
        assert(map.lanes.s_get(goal.0 as int).id == LaneID(goal.0));
        assert(cur == LaneID(cur.0));
    }
    while cur.0 != start.0
        invariant
            map.inv(),
            visited@.len() == map.lanes.slots_seq().len(),
            parent@.len() == visited@.len(),
            depth@.len() == visited@.len(),
            0 <= cur.0 as int && (cur.0 as int) < visited@.len(),
            visited@[cur.0 as int],
            cur == LaneID(cur.0),
            map.lanes.valid(cur.0 as int),
            spec_steps_ok(*map, cur, steps_rev@.reverse(), goal),
            forall|k: int|
                0 <= k < visited@.len() && #[trigger] visited@[k] && k != start.0 as int ==> {
                    let st = parent@[k]->Some_0;
                    &&& parent@[k] is Some
                    &&& st.lane == LaneID(k as usize)
                    &&& map.intersections.valid(st.inter.0 as int)
                    &&& st.turn_idx < map.intersections.s_get(st.inter.0 as int).turns@.len()
                    &&& map.intersections.s_get(st.inter.0 as int).turns@[st.turn_idx as int].dst
                        == st.lane
                    &&& {
                        let src = map.intersections.s_get(
                            st.inter.0 as int,
                        ).turns@[st.turn_idx as int].src;
                        &&& 0 <= src.0 as int && (src.0 as int) < visited@.len()
                        &&& visited@[src.0 as int]
                        &&& map.lanes.valid(src.0 as int)
                        &&& st.inter == map.lane_end_inter(src)
                        &&& depth@[src.0 as int] < depth@[k]
                    }
                },
        decreases depth@[cur.0 as int],
    {
        let st = match parent[cur.0] {
            Some(st) => st,
            None => {
                proof {
                    assert(false);
                }
                unreached()
            },
        };
        let src = {
            let it = match map.intersections.get(st.inter.0) {
                Some(it) => it,
                None => {
                    proof {
                        assert(false);
                    }
                    unreached()
                },
            };
            it.turns[st.turn_idx].src
        };
        let ghost rev0 = steps_rev@;
        proof {
            assert(st.lane == cur);
        }
        steps_rev.push(st);
        proof {
            assert(steps_rev@.reverse() =~= seq![st] + rev0.reverse());
            assert(steps_rev@.reverse()[0] == st);
            assert(steps_rev@.reverse().skip(1) =~= rev0.reverse());
            assert(map.lane_ok(src.0 as int));
            assert(map.lanes.s_get(src.0 as int).id == LaneID(src.0));
        }
        cur = src;
    }
    proof {
        assert(map.lane_ok(cur.0 as int));
        assert(map.lane_ok(start.0 as int));
        assert(map.lanes.s_get(cur.0 as int).id == LaneID(cur.0));
        assert(map.lanes.s_get(start.0 as int).id == LaneID(start.0));
        assert(cur == start);
    }
    let mut steps: Vec<PathStep> = Vec::new();
    let nr = steps_rev.len();
    let mut q: usize = 0;
    while q < nr
        invariant
            0 <= q <= nr,
            nr == steps_rev@.len(),
            steps@.len() == q,
            forall|x: int| 0 <= x < q ==> steps@[x] == steps_rev@[nr - 1 - x],
        decreases nr - q,
    {
        steps.push(steps_rev[nr - 1 - q]);
        q = q + 1;
    }
    proof {
        assert(steps@ =~= steps_rev@.reverse());
    }
    steps
}

proof fn lemma_count_true_zero(s: Seq<bool>)
    requires
        forall|k: int| 0 <= k < s.len() ==> !(#[trigger] s[k]),
    ensures
        seq_count_true(s) == 0,
    decreases s.len(),
{
    if s.len() > 0 {
        lemma_count_true_zero(s.drop_last());
    }
}

/// Membership in a sequence after a push.
proof fn lemma_push_contains_path(s: Seq<LaneID>, x: LaneID, e: LaneID)
    ensures
        s.push(x).contains(e) <==> (s.contains(e) || e == x),
{
    if s.contains(e) {
        let i = choose|i: int| 0 <= i < s.len() && s[i] == e;
        assert(s.push(x)[i] == e);
    }
    if e == x {
        assert(s.push(x)[s.len() as int] == e);
    }
    if s.push(x).contains(e) {
        let i = choose|i: int| 0 <= i < s.push(x).len() && s.push(x)[i] == e;
        if i < s.len() {
            assert(s[i] == e);
        }
    }
}

/// A found chain of hops witnesses reachability.
pub proof fn lemma_steps_give_path(map: CityMap, from: LaneID, steps: Seq<PathStep>, goal: LaneID)
    requires
        map.lanes.valid(from.0 as int),
        spec_steps_ok(map, from, steps, goal),
    ensures
        spec_reachable(map, from, goal),
    decreases steps.len(),
{
    if steps.len() == 0 {
        let p = seq![from];
        assert(spec_lane_path(map, p));
        assert(p[0] == from && p.last() == goal);
    } else {
        let st = steps[0];
        lemma_steps_give_path(map, st.lane, steps.skip(1), goal);
        let q = choose|q: Seq<LaneID>|
            #[trigger] spec_lane_path(map, q) && q[0] == st.lane && q.last() == goal;
        let p = seq![from] + q;
        assert(spec_connected(map, from, st.lane)) by {
            assert(map.intersections.s_get(st.inter.0 as int).turns@[st.turn_idx as int].src
                == from);
        }
        assert(spec_lane_path(map, p)) by {
            assert(forall|i: int| 0 <= i < q.len() ==> p[i + 1] == q[i]);
            assert(p[0] == from);
            assert forall|i: int| 0 <= i < p.len() - 1 implies spec_connected(
                map,
                #[trigger] p[i],
                p[i + 1],
            ) by {
                if i == 0 {
                    assert(p[1] == q[0]);
                } else {
                    assert(p[i] == q[i - 1] && p[i + 1] == q[i]);
                }
            };
        }
        assert(p[0] == from && p.last() == goal);
    }
}

/// The edge list a route stores: the found hops in reverse traversal order,
/// a lane under each turn, so popping from the end yields
/// turn-lane-turn-lane... in travel order.
pub open spec fn spec_rev_route(steps: Seq<PathStep>) -> Seq<Traversable> {
    Seq::new(
        (2 * steps.len()) as nat,
        |i: int|
            if i % 2 == 0 {
                Traversable {
                    kind: TraverseKind::Lane(steps[steps.len() - 1 - i / 2].lane),
                    dir: TraverseDirection::Forward,
                }
            } else {
                Traversable {
                    kind: TraverseKind::Turn(
                        steps[steps.len() - 1 - (i - 1) / 2].inter,
                        steps[steps.len() - 1 - (i - 1) / 2].turn_idx,
                    ),
                    dir: TraverseDirection::Forward,
                }
            },
    )
}

/// The waypoint buffer a fresh route starts from: the start lane's
/// polyline from the segment `start` projects onto.
pub open spec fn spec_initial_path(m: CityMap, sl: LaneID, start: Vec2) -> Seq<Vec2> {
    let pts = m.lanes.s_get(sl.0 as int).points@;
    let pr = crate::polyline::spec_project_segment(pts, start).unwrap();
    let from = if pr.0 > 0 {
        pr.0 - 1
    } else {
        0
    };
    pts.subrange(from, pts.len() as int)
}

/// No route can be planned between `start` and `end` under the policy:
/// either the network has no lane of the policy's kind at all, or the two
/// (distinct) nearest lanes are joined by no chain of turns.
pub open spec fn spec_route_fails(m: CityMap, start: Vec2, end: Vec2, pather: PathKind) -> bool {
    ||| forall|k: int|
        m.lanes.valid(k) ==> (#[trigger] m.lanes.s_get(k)).kind != pather.spec_lane_kind()
    ||| exists|sl: LaneID, el: LaneID|
        {
            &&& start != end
            &&& #[trigger] crate::map::spec_is_nearest_lane(m, start, pather.spec_lane_kind(), sl)
            &&& #[trigger] crate::map::spec_is_nearest_lane(m, end, pather.spec_lane_kind(), el)
            &&& sl != el
            &&& !spec_reachable(m, sl, el)
        }
}

/// The projection of `p` onto lane `l`'s polyline.
pub open spec fn spec_lane_proj(m: CityMap, l: LaneID, p: Vec2) -> Vec2 {
    crate::polyline::spec_project_segment(m.lanes.s_get(l.0 as int).points@, p).unwrap().1
}

impl Itinerary {
    /// Plans a route from `start` to `end` under the given travel policy:
    /// the nearest policy lane to each endpoint is found; when both map to
    /// the same lane the result short-circuits to a simple local path with
    /// no graph search; otherwise the turn graph is searched and the result
    /// consumes the found edges incrementally. `None` when the network has
    /// no lane of the policy's kind, or no chain of turns joins the two
    /// lanes.
    #[verifier::rlimit(100)]
    pub fn route(start: Vec2, end: Vec2, map: &CityMap, pather: PathKind) -> (r: Option<Itinerary>)
        requires
            map.inv(),
            start.in_bounds(),
            end.in_bounds(),
        ensures
            r is None <==> spec_route_fails(*map, start, end, pather),
            r is Some ==> r.unwrap()@.wf() && (r.unwrap()@.kind == KindView::Simple
                || r.unwrap()@.kind is Route),
            // both endpoints on one lane: a local path, no graph search
            forall|sl: LaneID|
                (#[trigger] crate::map::spec_is_nearest_lane(
                    *map,
                    start,
                    pather.spec_lane_kind(),
                    sl,
                )) && (start == end || crate::map::spec_is_nearest_lane(
                    *map,
                    end,
                    pather.spec_lane_kind(),
                    sl,
                )) ==> r is Some && r.unwrap()@.kind == KindView::Simple && r.unwrap()@.path
                    == seq![spec_lane_proj(*map, sl, start), spec_lane_proj(*map, sl, end)],
            // distinct reachable lanes: an incremental route over found turns,
            // starting on the start lane, already advanced once
            forall|sl: LaneID, el: LaneID|
                start != end && #[trigger] crate::map::spec_is_nearest_lane(
                    *map,
                    start,
                    pather.spec_lane_kind(),
                    sl,
                ) && #[trigger] crate::map::spec_is_nearest_lane(
                    *map,
                    end,
                    pather.spec_lane_kind(),
                    el,
                ) && sl != el && spec_reachable(*map, sl, el) ==> r is Some && exists|
                    steps: Seq<PathStep>,
                |
                    #[trigger] spec_steps_ok(*map, sl, steps, el) && r.unwrap()@ == spec_advance(
                        ItinView {
                            kind: KindView::Route {
                                rest: spec_rev_route(steps),
                                end: end,
                                cur: Traversable {
                                    kind: TraverseKind::Lane(sl),
                                    dir: TraverseDirection::Forward,
                                },
                            },
                            path: spec_initial_path(*map, sl, start),
                        },
                        *map,
                    ).0,
    {
        let kind = pather.lane_kind();
        let ghost sk = pather.spec_lane_kind();
        let start_lane = match map.nearest_lane(start, kind) {
            Some(l) => l,
            None => {
                proof {
                    assert(spec_route_fails(*map, start, end, pather));
                    assert forall|sl: LaneID| !crate::map::spec_is_nearest_lane(
                        *map,
                        start,
                        sk,
                        sl,
                    ) by {
                        if crate::map::spec_is_nearest_lane(*map, start, sk, sl) {
                            assert(map.lanes.s_get(sl.0 as int).kind == sk);
                        }
                    };
                }
                return None;
            },
        };
        let end_lane = if start.x == end.x && start.y == end.y {
            start_lane
        } else {
            match map.nearest_lane(end, kind) {
                Some(l) => l,
                None => {
                    // unreachable: a lane of the kind exists (it was nearest
                    // to the start)
                    proof {
                        assert(map.lanes.s_get(start_lane.0 as int).kind == sk);
                        assert(false);
                    }
                    unreached()
                },
            }
        };
        proof {
            assert(map.lane_ok(start_lane.0 as int));
        }
        if start_lane.0 == end_lane.0 {
            // both endpoints live on one lane: a direct local path inside it
            let lane_pts = match map.lanes.get(start_lane.0) {
                Some(l) => &l.points,
                None => {
                    proof {
                        assert(false);
                    }
                    unreached()
                },
            };
            let p0 = match lane_pts.project(start) {
                Some(p) => p,
                None => {
                    proof {
                        assert(false);
                    }
                    unreached()
                },
            };
            let p1 = match lane_pts.project(end) {
                Some(p) => p,
                None => {
                    proof {
                        assert(false);
                    }
                    unreached()
                },
            };
            let mut path: Vec<Vec2> = Vec::new();
            path.push(p0);
            path.push(p1);
            proof {
                assert(forall|i: int| 0 <= i < path@.len() ==> (#[trigger] path@[i]).in_bounds());
                assert(map.lane_ok(end_lane.0 as int));
                assert(map.lanes.s_get(start_lane.0 as int).id == LaneID(start_lane.0));
                assert(map.lanes.s_get(end_lane.0 as int).id == LaneID(end_lane.0));
                assert(start_lane == end_lane);
                assert(path@ =~= seq![
                    spec_lane_proj(*map, start_lane, start),
                    spec_lane_proj(*map, start_lane, end),
                ]);
                assert forall|sl: LaneID, el: LaneID|
                    !(start != end && crate::map::spec_is_nearest_lane(*map, start, sk, sl)
                        && crate::map::spec_is_nearest_lane(*map, end, sk, el) && sl != el
                        && !spec_reachable(*map, sl, el)) by {
                    if start != end && crate::map::spec_is_nearest_lane(*map, start, sk, sl)
                        && crate::map::spec_is_nearest_lane(*map, end, sk, el) {
                        crate::map::lemma_nearest_lane_unique(*map, start, sk, sl, start_lane);
                        crate::map::lemma_nearest_lane_unique(*map, end, sk, el, end_lane);
                        assert(sl == el);
                    }
                };
                assert(!spec_route_fails(*map, start, end, pather)) by {
                    assert(map.lanes.s_get(start_lane.0 as int).kind == sk);
                }
                assert forall|sl: LaneID|
                    crate::map::spec_is_nearest_lane(*map, start, sk, sl) implies sl
                    == start_lane by {
                    crate::map::lemma_nearest_lane_unique(*map, start, sk, sl, start_lane);
                };
                assert forall|el: LaneID|
                    crate::map::spec_is_nearest_lane(*map, end, sk, el) implies el
                    == end_lane by {
                    crate::map::lemma_nearest_lane_unique(*map, end, sk, el, end_lane);
                };
            }
            return Some(Itinerary::simple(path));
        }
        proof {
            assert(map.lane_ok(end_lane.0 as int));
        }
        let steps = match find_path(map, start_lane, end_lane) {
            Some(st) => st,
            None => {
                proof {
                    assert(map.lane_ok(start_lane.0 as int));
                    assert(map.lane_ok(end_lane.0 as int));
                    assert(map.lanes.s_get(start_lane.0 as int).id == LaneID(start_lane.0));
                    assert(map.lanes.s_get(end_lane.0 as int).id == LaneID(end_lane.0));
                    assert(start_lane != end_lane);
                    assert(start != end) by {
                        if start == end {
                            assert(start.x == end.x && start.y == end.y);
                        }
                    }
                    assert(spec_route_fails(*map, start, end, pather)) by {
                        assert(start != end && crate::map::spec_is_nearest_lane(
                            *map,
                            start,
                            sk,
                            start_lane,
                        ) && crate::map::spec_is_nearest_lane(*map, end, sk, end_lane)
                            && start_lane != end_lane && !spec_reachable(
                            *map,
                            start_lane,
                            end_lane,
                        ));
                    }
                    assert forall|sl: LaneID, el: LaneID|
                        !(start != end && crate::map::spec_is_nearest_lane(*map, start, sk, sl)
                            && crate::map::spec_is_nearest_lane(*map, end, sk, el) && sl != el
                            && spec_reachable(*map, sl, el)) by {
                        if crate::map::spec_is_nearest_lane(*map, start, sk, sl)
                            && crate::map::spec_is_nearest_lane(*map, end, sk, el) {
                            crate::map::lemma_nearest_lane_unique(*map, start, sk, sl, start_lane);
                            crate::map::lemma_nearest_lane_unique(*map, end, sk, el, end_lane);
                        }
                    };
                    assert forall|sl: LaneID|
                        !(crate::map::spec_is_nearest_lane(*map, start, sk, sl) && (start == end
                            || crate::map::spec_is_nearest_lane(*map, end, sk, sl))) by {
                        if crate::map::spec_is_nearest_lane(*map, start, sk, sl) && (start == end
                            || crate::map::spec_is_nearest_lane(*map, end, sk, sl)) {
                            crate::map::lemma_nearest_lane_unique(*map, start, sk, sl, start_lane);
                            crate::map::lemma_nearest_lane_unique(*map, end, sk, sl, end_lane);
                        }
                    };
                }
                return None;
            },
        };
        // edges in reverse order, so the next one pops off the end
        let mut reversed_route: Vec<Traversable> = Vec::new();
        let ns = steps.len();
        let mut i: usize = 0;
        while i < ns
            invariant
                0 <= i <= ns,
                ns == steps@.len(),
                reversed_route@.len() == 2 * i,
                forall|x: int|
                    0 <= x < i ==> #[trigger] reversed_route@[2 * x] == (Traversable {
                        kind: TraverseKind::Lane(steps@[ns - 1 - x].lane),
                        dir: TraverseDirection::Forward,
                    }) && reversed_route@[2 * x + 1] == (Traversable {
                        kind: TraverseKind::Turn(
                            steps@[ns - 1 - x].inter,
                            steps@[ns - 1 - x].turn_idx,
                        ),
                        dir: TraverseDirection::Forward,
                    }),
            decreases ns - i,
        {
            let st = steps[ns - 1 - i];
            reversed_route.push(
                Traversable {
                    kind: TraverseKind::Lane(st.lane),
                    dir: TraverseDirection::Forward,
                },
            );
            reversed_route.push(
                Traversable {
                    kind: TraverseKind::Turn(st.inter, st.turn_idx),
                    dir: TraverseDirection::Forward,
                },
            );
            i = i + 1;
        }
        let cur = Traversable { kind: TraverseKind::Lane(start_lane), dir: TraverseDirection::Forward };
        let points = match cur.points(map) {
            Some(p) => p,
            None => {
                proof {
                    assert(crate::itinerary::spec_traversable_valid(*map, cur));
                    assert(false);
                }
                unreached()
            },
        };
        let (segid, _) = match points.project_segment(start) {
            Some(pr) => pr,
            None => {
                proof {
                    assert(false);
                }
                unreached()
            },
        };
        // walk from the segment the start projects onto
        let from: usize = if segid > 0 {
            segid - 1
        } else {
            0
        };
        let pts = points.as_slice();
        let n = pts.len();
        let mut local: Vec<Vec2> = Vec::new();
        let mut q: usize = from;
        while q < n
            invariant
                from <= q <= n,
                n == pts@.len(),
                pts@ == crate::itinerary::spec_traversable_points(*map, cur).unwrap(),
                forall|x: int| 0 <= x < pts@.len() ==> (#[trigger] pts@[x]).in_bounds(),
                local@ == pts@.subrange(from as int, q as int),
            decreases n - q,
        {
            local.push(pts[q]);
            proof {
                assert(pts@.subrange(from as int, q + 1) =~= pts@.subrange(
                    from as int,
                    q as int,
                ).push(pts@[q as int]));
            }
            q = q + 1;
        }
        proof {
            assert forall|j: int| 0 <= j < 2 * ns implies reversed_route@[j] == spec_rev_route(
                steps@,
            )[j] by {
                if j % 2 == 0 {
                    let x = j / 2;
                    assert(reversed_route@[2 * x] == (Traversable {
                        kind: TraverseKind::Lane(steps@[ns - 1 - x].lane),
                        dir: TraverseDirection::Forward,
                    }));
                } else {
                    let x = (j - 1) / 2;
                    assert(reversed_route@[2 * x] == (Traversable {
                        kind: TraverseKind::Lane(steps@[ns - 1 - x].lane),
                        dir: TraverseDirection::Forward,
                    }));
                    assert(reversed_route@[2 * x + 1] == (Traversable {
                        kind: TraverseKind::Turn(
                            steps@[ns - 1 - x].inter,
                            steps@[ns - 1 - x].turn_idx,
                        ),
                        dir: TraverseDirection::Forward,
                    }));
                    assert(j == 2 * x + 1);
                }
            };
            assert(reversed_route@ =~= spec_rev_route(steps@));
            assert(local@ =~= spec_initial_path(*map, start_lane, start));
        }
        let ghost pre_view = ItinView {
            kind: KindView::Route { rest: spec_rev_route(steps@), end: end, cur: cur },
            path: spec_initial_path(*map, start_lane, start),
        };
        let mut it = Itinerary {
            kind: ItineraryKind::Route(Route { reversed_route, end_pos: end, cur }),
            local_path: local,
        };
        proof {
            assert(it@ == pre_view);
            assert(it@.wf());
        }
        it.advance(map);
        proof {
            assert(it@.wf());
            assert(it@ == crate::itinerary::spec_advance(pre_view, *map).0);
            assert(map.lane_ok(start_lane.0 as int));
            assert(map.lane_ok(end_lane.0 as int));
            assert(map.lanes.s_get(start_lane.0 as int).id == LaneID(start_lane.0));
            assert(map.lanes.s_get(end_lane.0 as int).id == LaneID(end_lane.0));
            assert(start_lane != end_lane);
            assert(start != end) by {
                if start == end {
                    assert(start.x == end.x && start.y == end.y);
                }
            }
            lemma_steps_give_path(*map, start_lane, steps@, end_lane);
            assert(!spec_route_fails(*map, start, end, pather)) by {
                assert(map.lanes.s_get(start_lane.0 as int).kind == sk);
                assert forall|sl: LaneID, el: LaneID|
                    !(start != end && crate::map::spec_is_nearest_lane(*map, start, sk, sl)
                        && crate::map::spec_is_nearest_lane(*map, end, sk, el) && sl != el
                        && !spec_reachable(*map, sl, el)) by {
                    if crate::map::spec_is_nearest_lane(*map, start, sk, sl)
                        && crate::map::spec_is_nearest_lane(*map, end, sk, el) {
                        crate::map::lemma_nearest_lane_unique(*map, start, sk, sl, start_lane);
                        crate::map::lemma_nearest_lane_unique(*map, end, sk, el, end_lane);
                    }
                };
            }
            assert forall|sl: LaneID|
                !(crate::map::spec_is_nearest_lane(*map, start, sk, sl) && (start == end
                    || crate::map::spec_is_nearest_lane(*map, end, sk, sl))) by {
                if crate::map::spec_is_nearest_lane(*map, start, sk, sl) && (start == end
                    || crate::map::spec_is_nearest_lane(*map, end, sk, sl)) {
                    crate::map::lemma_nearest_lane_unique(*map, start, sk, sl, start_lane);
                    crate::map::lemma_nearest_lane_unique(*map, end, sk, sl, end_lane);
                }
            };
            assert forall|sl: LaneID, el: LaneID|
                start != end && crate::map::spec_is_nearest_lane(*map, start, sk, sl)
                    && crate::map::spec_is_nearest_lane(*map, end, sk, el) && sl != el
                    && spec_reachable(*map, sl, el) implies exists|stp: Seq<PathStep>|
                #[trigger] spec_steps_ok(*map, sl, stp, el) && it@ == crate::itinerary::spec_advance(
                    ItinView {
                        kind: KindView::Route {
                            rest: spec_rev_route(stp),
                            end: end,
                            cur: Traversable {
                                kind: TraverseKind::Lane(sl),
                                dir: TraverseDirection::Forward,
                            },
                        },
                        path: spec_initial_path(*map, sl, start),
                    },
                    *map,
                ).0 by {
                crate::map::lemma_nearest_lane_unique(*map, start, sk, sl, start_lane);
                crate::map::lemma_nearest_lane_unique(*map, end, sk, el, end_lane);
                assert(spec_steps_ok(*map, sl, steps@, el) && it@
                    == crate::itinerary::spec_advance(pre_view, *map).0);
            };
        }
        Some(it)
    }
}

} // verus!
