use vstd::prelude::*;
use vstd::pervasive::VecAdditionalExecFns;

use crate::geometry::{
    Vec3, abs_diff_spec, dist_sq, manhattan, spec_distance, lemma_dist_sq_zero,
    lemma_distance_le_manhattan, lemma_sqrt_bounds,
};
use crate::planet::{
    PLANET_COUNT, planet_distance, planet_neighbors, spec_planet_distance, spec_planet_neighbors,
    lemma_neighbors_valid,
};
use vstd::arithmetic::div_mod::{
    lemma_div_nonincreasing, lemma_div_pos_is_pos, lemma_fundamental_div_mod,
};

verus! {

// What "reachable" means: an admissible walk over the adjacency graph.
/// An admissible walk under budget `energy`: it starts at `src`, follows the
/// directed adjacency table, and every node after the origin lies strictly
/// within `energy` of the origin. The admission test is a fixed radius measured from
/// the origin, never an accumulating path cost.
pub open spec fn valid_path(src: int, energy: int, path: Seq<int>) -> bool {
    &&& path.len() >= 1
    &&& path[0] == src
    &&& forall|i: int| 0 <= i < path.len() ==> 0 <= #[trigger] path[i] < 32
    &&& forall|i: int|
        0 <= i < path.len() - 1 ==> #[trigger] spec_planet_neighbors(path[i]).contains(path[i + 1])
    &&& forall|i: int|
        1 <= i < path.len() ==> energy > #[trigger] spec_planet_distance(src, path[i])
}

/// A location is reachable when some admissible walk from the origin ends on it.
pub open spec fn spec_reachable(src: int, energy: int, dst: int) -> bool {
    exists|path: Seq<int>| #[trigger] valid_path(src, energy, path) && path.last() == dst
}

/// The origin is always reachable from itself, under any budget.
pub proof fn lemma_origin_reachable(src: int, energy: int)
    requires
        0 <= src < 32,
    ensures
        spec_reachable(src, energy, src),
{
    let path = seq![src];
    assert(valid_path(src, energy, path));
    assert(path.last() == src);
}

/// Raising the budget never removes a location from the reachable set.
pub proof fn lemma_reachable_monotone(src: int, e1: int, e2: int, dst: int)
    requires
        e1 <= e2,
        spec_reachable(src, e1, dst),
    ensures
        spec_reachable(src, e2, dst),
{
    let path = choose|path: Seq<int>| #[trigger] valid_path(src, e1, path) && path.last() == dst;
    assert(valid_path(src, e2, path));
}

/// A destination other than the origin whose distance from the origin is at
/// least the budget is never reachable: the radius test is strict.
pub proof fn lemma_strict_threshold(src: int, energy: int, dst: int)
    requires
        dst != src,
        spec_planet_distance(src, dst) >= energy,
    ensures
        !spec_reachable(src, energy, dst),
{
    if spec_reachable(src, energy, dst) {
        let path = choose|path: Seq<int>|
            #[trigger] valid_path(src, energy, path) && path.last() == dst;
        if path.len() == 1 {
            assert(path.last() == path[0]);
        } else {
            assert(energy > spec_planet_distance(src, path[path.len() - 1]));
        }
        assert(false);
    }
}

/// A reachable node hands reachability on to each of its in-radius neighbors.
proof fn lemma_reachable_step(src: int, energy: int, a: int, b: int)
    requires
        spec_reachable(src, energy, a),
        0 <= b < 32,
        spec_planet_neighbors(a).contains(b),
        energy > spec_planet_distance(src, b),
    ensures
        spec_reachable(src, energy, b),
{
    let p = choose|p: Seq<int>| #[trigger] valid_path(src, energy, p) && p.last() == a;
    let q = p.push(b);
    assert(q[0] == p[0]);
    assert forall|i: int| 0 <= i < q.len() implies 0 <= #[trigger] q[i] < 32 by {
        if i < p.len() {
            assert(q[i] == p[i]);
        } else {
            assert(q[i] == b);
        }
    }
    assert forall|i: int|
        0 <= i < q.len() - 1 implies #[trigger] spec_planet_neighbors(q[i]).contains(
        q[i + 1],
    ) by {
        if i < p.len() - 1 {
            assert(q[i] == p[i] && q[i + 1] == p[i + 1]);
        } else {
            assert(q[i] == p[p.len() - 1] && q[i + 1] == b);
        }
    }
    assert forall|i: int|
        1 <= i < q.len() implies energy > #[trigger] spec_planet_distance(src, q[i]) by {
        if i < p.len() {
            assert(q[i] == p[i]);
        } else {
            assert(q[i] == b);
        }
    }
    assert(valid_path(src, energy, q) && q.last() == b);
}

/// Every neighbor of `a` that lies strictly within the budget is marked.
pub open spec fn saturated(marks: Seq<bool>, src: int, energy: int, a: int) -> bool {
    forall|j: int|
        0 <= j < spec_planet_neighbors(a).len() && energy > spec_planet_distance(
            src,
            #[trigger] spec_planet_neighbors(a)[j],
        ) ==> marks[spec_planet_neighbors(a)[j]]
}

/// The marks admit no further admissible step out of any marked node.
pub open spec fn marks_closed(marks: Seq<bool>, src: int, energy: int) -> bool {
    forall|a: int| 0 <= a < 32 && #[trigger] marks[a] ==> saturated(marks, src, energy, a)
}

/// Growing the marks preserves saturation.
proof fn lemma_saturated_monotone(m1: Seq<bool>, m2: Seq<bool>, src: int, energy: int, a: int)
    requires
        0 <= a < 32,
        m1.len() == 32,
        m2.len() == 32,
        saturated(m1, src, energy, a),
        forall|i: int| 0 <= i < 32 && #[trigger] m1[i] ==> m2[i],
    ensures
        saturated(m2, src, energy, a),
{
    lemma_neighbors_valid(a);
    assert forall|j: int|
        0 <= j < spec_planet_neighbors(a).len() && energy > spec_planet_distance(
            src,
            #[trigger] spec_planet_neighbors(a)[j],
        ) implies m2[spec_planet_neighbors(a)[j]] by {
        assert(m1[spec_planet_neighbors(a)[j]]);
    }
}

/// Closed marks that hold the origin cover the end of every admissible walk.
proof fn lemma_closed_covers_path(marks: Seq<bool>, src: int, energy: int, path: Seq<int>)
    requires
        marks.len() == 32,
        0 <= src < 32,
        marks[src],
        marks_closed(marks, src, energy),
        valid_path(src, energy, path),
    ensures
        marks[path.last()],
    decreases path.len(),
{
    if path.len() == 1 {
        assert(path.last() == src);
    } else {
        let pre = path.drop_last();
        assert(pre[0] == path[0]);
        assert forall|i: int| 0 <= i < pre.len() implies 0 <= #[trigger] pre[i] < 32 by {
            assert(pre[i] == path[i]);
        }
        assert forall|i: int|
            0 <= i < pre.len() - 1 implies #[trigger] spec_planet_neighbors(pre[i]).contains(
            pre[i + 1],
        ) by {
            assert(pre[i] == path[i] && pre[i + 1] == path[i + 1]);
        }
        assert forall|i: int|
            1 <= i < pre.len() implies energy > #[trigger] spec_planet_distance(src, pre[i]) by {
            assert(pre[i] == path[i]);
        }
        assert(valid_path(src, energy, pre));
        lemma_closed_covers_path(marks, src, energy, pre);
        let a = path[path.len() - 2];
        let b = path[path.len() - 1];
        assert(pre.last() == a);
        assert(marks[a]);
        assert(spec_planet_neighbors(path[path.len() - 2]).contains(path[path.len() - 2 + 1]));
        assert(spec_planet_neighbors(a).contains(b));
        let j = choose|j: int|
            0 <= j < spec_planet_neighbors(a).len() && spec_planet_neighbors(a)[j] == b;
        assert(energy > spec_planet_distance(src, b));
        assert(saturated(marks, src, energy, a));
        assert(marks[spec_planet_neighbors(a)[j]]);
    }
}

/// How many entries of a mark vector are still false.
pub open spec fn count_false(s: Seq<bool>) -> nat
    decreases s.len(),
{
    if s.len() == 0 {
        0
    } else {
        count_false(s.drop_last()) + (if s.last() {
            0nat
        } else {
            1nat
        })
    }
}

/// Setting a false entry to true lowers the false count by exactly one.
proof fn lemma_count_false_update(s: Seq<bool>, i: int)
    requires
        0 <= i < s.len(),
        !s[i],
    ensures
        count_false(s) == count_false(s.update(i, true)) + 1,
    decreases s.len(),
{
    let t = s.update(i, true);
    if i == s.len() - 1 {
        assert(t.drop_last() =~= s.drop_last());
        assert(t.last());
    } else {
        assert(t.drop_last() =~= s.drop_last().update(i, true));
        lemma_count_false_update(s.drop_last(), i);
        assert(t.last() == s.last());
    }
}

/// The set of locations reachable from `src` under the budget `energy`,
/// as a mark vector indexed by location.
pub fn reachable_planets(src: usize, energy: u32) -> (r: Vec<bool>)
    requires
        src < 32,
    ensures
        r@.len() == 32,
        forall|i: int| 0 <= i < 32 ==> r@[i] == spec_reachable(src as int, energy as int, i),
{
    let mut reach: Vec<bool> = vec![false; PLANET_COUNT];
    reach.set(src, true);
    let mut stack: Vec<usize> = Vec::new();
    stack.push(src);
    proof {
        lemma_origin_reachable(src as int, energy as int);
        assert(stack@[0] == src);
        assert(stack@.contains(src));
    }
    while stack.len() != 0
        invariant
            src < 32,
            reach@.len() == 32,
            reach@[src as int],
            forall|k: int| 0 <= k < stack@.len() ==> (#[trigger] stack@[k]) < 32,
            forall|k: int| 0 <= k < stack@.len() ==> reach@[#[trigger] stack@[k] as int],
            forall|i: int|
                0 <= i < 32 && #[trigger] reach@[i] ==> spec_reachable(
                    src as int,
                    energy as int,
                    i,
                ),
            forall|a: int|
                0 <= a < 32 && #[trigger] reach@[a] && !stack@.contains(a as usize) ==> saturated(
                    reach@,
                    src as int,
                    energy as int,
                    a,
                ),
        decreases count_false(reach@) * 33 + stack@.len(),
    {
        let ghost reach0 = reach@;
        let ghost stack0 = stack@;
        let id = stack.pop().unwrap();
        proof {
            lemma_neighbors_valid(id as int);
            assert forall|a: int|
                0 <= a < 32 && #[trigger] reach@[a] && a != id as int && !stack@.contains(
                    a as usize,
                ) implies saturated(reach@, src as int, energy as int, a) by {
                if stack0.contains(a as usize) {
                    let k = choose|k: int| 0 <= k < stack0.len() && stack0[k] == a as usize;
                    if k < stack0.len() - 1 {
                        assert(stack@[k] == stack0[k]);
                        assert(stack@.contains(a as usize));
                    } else {
                        assert(stack0[stack0.len() - 1] == id);
                    }
                    assert(false);
                }
            }
        }
        let nbrs = planet_neighbors(id);
        let mut j: usize = 0;
        while j < nbrs.len()
            invariant
                src < 32,
                id < 32,
                j <= nbrs@.len(),
                reach@.len() == 32,
                reach@[src as int],
                reach@[id as int],
                nbrs@.len() == spec_planet_neighbors(id as int).len(),
                forall|jj: int|
                    0 <= jj < nbrs@.len() ==> #[trigger] nbrs@[jj] as int == spec_planet_neighbors(
                        id as int,
                    )[jj],
                forall|jj: int|
                    0 <= jj < nbrs@.len() ==> 0 <= #[trigger] spec_planet_neighbors(id as int)[jj]
                        < 32,
                forall|k: int| 0 <= k < stack@.len() ==> (#[trigger] stack@[k]) < 32,
                forall|k: int| 0 <= k < stack@.len() ==> reach@[#[trigger] stack@[k] as int],
                forall|i: int|
                    0 <= i < 32 && #[trigger] reach@[i] ==> spec_reachable(
                        src as int,
                        energy as int,
                        i,
                    ),
                forall|a: int|
                    0 <= a < 32 && #[trigger] reach@[a] && a != id as int && !stack@.contains(
                        a as usize,
                    ) ==> saturated(reach@, src as int, energy as int, a),
                forall|jj: int|
                    0 <= jj < j as int && (energy as int) > spec_planet_distance(
                        src as int,
                        #[trigger] spec_planet_neighbors(id as int)[jj],
                    ) ==> reach@[spec_planet_neighbors(id as int)[jj]],
                count_false(reach@) * 33 + stack@.len() < count_false(reach0) * 33 + stack0.len(),
            decreases nbrs@.len() - j,
        {
            let dst = nbrs[j];
            if !reach[dst] {
                let d = planet_distance(src, dst);
                if energy > d {
                    proof {
                        lemma_count_false_update(reach@, dst as int);
                        assert(spec_planet_neighbors(id as int).contains(dst as int)) by {
                            assert(spec_planet_neighbors(id as int)[j as int] == dst as int);
                        }
                        lemma_reachable_step(
                            src as int,
                            energy as int,
                            id as int,
                            dst as int,
                        );
                    }
                    let ghost reach_pre = reach@;
                    let ghost stack_pre = stack@;
                    reach.set(dst, true);
                    stack.push(dst);
                    proof {
                        assert(stack@[stack@.len() - 1] == dst);
                        assert(stack@.contains(dst));
                        assert forall|a: int|
                            0 <= a < 32 && #[trigger] reach@[a] && a != id as int
                                && !stack@.contains(a as usize) implies saturated(
                            reach@,
                            src as int,
                            energy as int,
                            a,
                        ) by {
                            assert(a != dst as int);
                            assert(reach_pre[a]);
                            if stack_pre.contains(a as usize) {
                                let k = choose|k: int|
                                    0 <= k < stack_pre.len() && stack_pre[k] == a as usize;
                                assert(stack@[k] == a as usize);
                                assert(false);
                            }
                            lemma_saturated_monotone(
                                reach_pre,
                                reach@,
                                src as int,
                                energy as int,
                                a,
                            );
                        }
                    }
                }
            }
            j = j + 1;
        }
        proof {
            assert(saturated(reach@, src as int, energy as int, id as int));
        }
    }
    proof {
        assert forall|i: int|
            0 <= i < 32 implies reach@[i] == spec_reachable(src as int, energy as int, i) by {
            if spec_reachable(src as int, energy as int, i) && !reach@[i] {
                let path = choose|path: Seq<int>|
                    #[trigger] valid_path(src as int, energy as int, path) && path.last() == i;
                lemma_closed_covers_path(reach@, src as int, energy as int, path);
                assert(false);
            }
        }
    }
    reach
}

// The travel simulation.
/// Ceiling division over mathematical integers (positive divisor).
pub open spec fn spec_div_ceil(a: int, b: int) -> int {
    (a + b - 1) / b
}

/// Move one coordinate `d` units from `a` toward `b`.
pub open spec fn step_axis(a: int, b: int, d: int) -> int {
    if a <= b {
        a + d
    } else {
        a - d
    }
}

/// Where one simulated turn takes the fleet: straight to the target when the
/// remaining distance is within the speed cap; otherwise each axis moves,
/// toward the target, by its remaining difference divided (flooring) by the
/// number of turns the remaining straight-line distance needs at the cap.
pub open spec fn spec_move_fleet(p: Vec3, target: Vec3, speed: int) -> Vec3 {
    let d = spec_distance(p, target);
    if speed >= d {
        target
    } else {
        let t = spec_div_ceil(d, speed);
        let dx = abs_diff_spec(p.x as int, target.x as int) / t;
        let dy = abs_diff_spec(p.y as int, target.y as int) / t;
        let dz = abs_diff_spec(p.z as int, target.z as int) / t;
        Vec3 {
            x: step_axis(p.x as int, target.x as int, dx) as u32,
            y: step_axis(p.y as int, target.y as int, dy) as u32,
            z: step_axis(p.z as int, target.z as int, dz) as u32,
        }
    }
}

/// The simulated journey, one turn at a time: `Some((turns, energy))` when
/// the fleet arrives exactly on the target, `None` when some turn fails to
/// move it at all — with per-axis flooring a slow fleet can stall short of a
/// diagonal target, and the walk would then never end.
pub open spec fn spec_simulate(p: Vec3, target: Vec3, speed: int) -> Option<(int, int)>
    decreases dist_sq(p, target),
{
    if p == target {
        Some((0, 0))
    } else if speed < 1 {
        None
    } else {
        let q = spec_move_fleet(p, target, speed);
        if 0 <= dist_sq(q, target) && dist_sq(q, target) < dist_sq(p, target) {
            match spec_simulate(q, target, speed) {
                Some(te) => Some((te.0 + 1, te.1 + spec_distance(p, q))),
                None => None,
            }
        } else {
            None
        }
    }
}

/// Prepend already-spent turns and energy to a simulation outcome.
pub open spec fn spec_shift(r: Option<(int, int)>, turns: int, energy: int) -> Option<(int, int)> {
    match r {
        Some(te) => Some((te.0 + turns, te.1 + energy)),
        None => None,
    }
}

/// Simulating from a point to itself takes no turn and no energy.
pub proof fn lemma_simulate_self(p: Vec3, speed: int)
    ensures
        spec_simulate(p, p, speed) == Some((0int, 0int)),
{
}

/// One turn never overshoots: the step and what remains of it partition the
/// per-axis distance, and any turn that moves at all comes strictly closer,
/// both per axis and in squared straight-line distance. The step's own length
/// never exceeds its per-axis total.
proof fn lemma_move_fleet_step(p: Vec3, target: Vec3, speed: int)
    requires
        speed >= 1,
        p != target,
    ensures
        ({
            let q = spec_move_fleet(p, target, speed);
            &&& manhattan(p, q) + manhattan(q, target) == manhattan(p, target)
            &&& (q != p ==> dist_sq(q, target) < dist_sq(p, target))
            &&& (q != p ==> manhattan(q, target) < manhattan(p, target))
            &&& spec_distance(p, q) <= manhattan(p, q)
        }),
{
    let q = spec_move_fleet(p, target, speed);
    let d = spec_distance(p, target);
    lemma_dist_sq_zero(p, target);
    lemma_sqrt_bounds(dist_sq(p, target));
    lemma_distance_le_manhattan(p, q);
    if speed >= d {
        assert(q == target);
        assert(manhattan(q, target) == 0);
        assert(dist_sq(q, target) == 0);
    } else {
        let t = spec_div_ceil(d, speed);
        let ax = abs_diff_spec(p.x as int, target.x as int);
        let ay = abs_diff_spec(p.y as int, target.y as int);
        let az = abs_diff_spec(p.z as int, target.z as int);
        assert(t >= 1) by {
            lemma_fundamental_div_mod(d + speed - 1, speed);
            if t <= 0 {
                assert(d + speed - 1 == speed * t + (d + speed - 1) % speed);
                assert(speed * t <= 0) by (nonlinear_arith)
                    requires
                        speed >= 1,
                        t <= 0,
                ;
            }
        }
        let dx = ax / t;
        let dy = ay / t;
        let dz = az / t;
        lemma_div_pos_is_pos(ax, t);
        lemma_div_pos_is_pos(ay, t);
        lemma_div_pos_is_pos(az, t);
        lemma_div_nonincreasing(ax, t);
        lemma_div_nonincreasing(ay, t);
        lemma_div_nonincreasing(az, t);
        assert(t * dx <= ax) by {
            lemma_fundamental_div_mod(ax, t);
        }
        assert(t * dy <= ay) by {
            lemma_fundamental_div_mod(ay, t);
        }
        assert(t * dz <= az) by {
            lemma_fundamental_div_mod(az, t);
        }
        assert(dx <= ax && dy <= ay && dz <= az) by (nonlinear_arith)
            requires
                t >= 1,
                dx >= 0,
                dy >= 0,
                dz >= 0,
                t * dx <= ax,
                t * dy <= ay,
                t * dz <= az,
        ;
        assert(q.x == step_axis(p.x as int, target.x as int, dx) as u32);
        assert(0 <= step_axis(p.x as int, target.x as int, dx) <= u32::MAX);
        assert(abs_diff_spec(p.x as int, q.x as int) == dx);
        assert(abs_diff_spec(q.x as int, target.x as int) == ax - dx);
        assert(abs_diff_spec(p.y as int, q.y as int) == dy);
        assert(abs_diff_spec(q.y as int, target.y as int) == ay - dy);
        assert(abs_diff_spec(p.z as int, q.z as int) == dz);
        assert(abs_diff_spec(q.z as int, target.z as int) == az - dz);
        if q != p {
            assert(dx >= 1 || dy >= 1 || dz >= 1);
            assert((ax - dx) * (ax - dx) + (ay - dy) * (ay - dy) + (az - dz) * (az - dz) < ax * ax
                + ay * ay + az * az) by (nonlinear_arith)
                requires
                    0 <= dx <= ax,
                    0 <= dy <= ay,
                    0 <= dz <= az,
                    dx >= 1 || dy >= 1 || dz >= 1,
            ;
        }
    }
}

/// With a speed cap of at least 2 a turn from any point short of the target
/// always moves the fleet: the per-axis floor cannot vanish on every axis.
proof fn lemma_speed_two_moves(p: Vec3, target: Vec3, speed: int)
    requires
        speed >= 2,
        p != target,
    ensures
        spec_move_fleet(p, target, speed) != p,
{
    let q = spec_move_fleet(p, target, speed);
    let d = spec_distance(p, target);
    lemma_dist_sq_zero(p, target);
    lemma_sqrt_bounds(dist_sq(p, target));
    if speed >= d {
        assert(q == target);
    } else {
        let t = spec_div_ceil(d, speed);
        let ax = abs_diff_spec(p.x as int, target.x as int);
        let ay = abs_diff_spec(p.y as int, target.y as int);
        let az = abs_diff_spec(p.z as int, target.z as int);
        let m = if ax >= ay && ax >= az {
            ax
        } else if ay >= az {
            ay
        } else {
            az
        };
        assert(3 * (m * m) >= dist_sq(p, target)) by (nonlinear_arith)
            requires
                0 <= ax <= m,
                0 <= ay <= m,
                0 <= az <= m,
                dist_sq(p, target) == ax * ax + ay * ay + az * az,
        ;
        assert(2 * m >= d) by (nonlinear_arith)
            requires
                d >= 0,
                m >= 0,
                d * d <= dist_sq(p, target),
                3 * (m * m) >= dist_sq(p, target),
        ;
        // d > speed >= 2, so d >= 3 and m >= 2.
        assert(m >= 2);
        assert(t <= m) by {
            lemma_fundamental_div_mod(d + speed - 1, speed);
            let r = (d + speed - 1) % speed;
            assert(d + speed - 1 == speed * t + r);
            if t > m {
                assert(speed * t >= speed * (m + 1)) by (nonlinear_arith)
                    requires
                        speed >= 1,
                        t >= m + 1,
                ;
                assert(speed * (m + 1) >= 2 * m + speed) by (nonlinear_arith)
                    requires
                        speed >= 2,
                        m >= 0,
                ;
                assert(d + speed - 1 >= 2 * m + speed);
                assert(d >= 2 * m + 1);
                assert(false);
            }
        }
        assert(t >= 1) by {
            lemma_fundamental_div_mod(d + speed - 1, speed);
            if t <= 0 {
                assert(speed * t <= 0) by (nonlinear_arith)
                    requires
                        speed >= 1,
                        t <= 0,
                ;
            }
        }
        assert(m / t >= 1) by {
            lemma_fundamental_div_mod(m, t);
            if m / t <= 0 {
                assert(t * (m / t) <= 0) by (nonlinear_arith)
                    requires
                        t >= 1,
                        m / t <= 0,
                ;
                assert(m < t);
            }
        }
        lemma_div_pos_is_pos(ax, t);
        lemma_div_pos_is_pos(ay, t);
        lemma_div_pos_is_pos(az, t);
        lemma_div_nonincreasing(ax, t);
        lemma_div_nonincreasing(ay, t);
        lemma_div_nonincreasing(az, t);
        if m == ax {
            assert(q.x != p.x);
        } else if m == ay {
            assert(q.y != p.y);
        } else {
            assert(q.z != p.z);
        }
    }
}

/// Each turn at a speed cap of at least 2 moves the fleet and strictly lowers
/// the remaining squared distance to the target.
pub proof fn lemma_turn_progress(p: Vec3, target: Vec3, speed: int)
    requires
        speed >= 2,
        p != target,
    ensures
        spec_move_fleet(p, target, speed) != p,
        dist_sq(spec_move_fleet(p, target, speed), target) < dist_sq(p, target),
{
    lemma_speed_two_moves(p, target, speed);
    lemma_move_fleet_step(p, target, speed);
}

/// With a speed cap of at least 2 the simulation always arrives.
pub proof fn lemma_simulation_completes(p: Vec3, target: Vec3, speed: int)
    requires
        speed >= 2,
    ensures
        spec_simulate(p, target, speed) is Some,
    decreases dist_sq(p, target),
{
    lemma_dist_sq_zero(p, target);
    if p != target {
        lemma_turn_progress(p, target, speed);
        let q = spec_move_fleet(p, target, speed);
        lemma_dist_sq_zero(q, target);
        lemma_simulation_completes(q, target, speed);
    }
}

/// Relies on num_integer::div_ceil: the quotient rounded toward positive
/// infinity, which for a non-negative dividend and positive divisor equals
/// (a + b - 1) / b rounded down.
#[verifier::external_body]
fn div_ceil_u32(a: u32, b: u32) -> (r: u32)
    requires
        b >= 1,
    ensures
        r == spec_div_ceil(a as int, b as int),
{
    num_integer::div_ceil(a, b)
}

/// Where the fleet moves this turn, from `src` toward `target` under the
/// per-turn speed cap. The precondition only rules out pairs so far apart
/// that their distance would not fit the distance's return type.
pub fn move_fleet(src: Vec3, target: Vec3, speed: u32) -> (r: Vec3)
    requires
        speed >= 1,
        dist_sq(src, target) <= u32::MAX * u32::MAX,
    ensures
        r == spec_move_fleet(src, target, speed as int),
{
    let d = src.distance(target);
    if speed >= d {
        return target;
    }
    let t = div_ceil_u32(d, speed);
    proof {
        lemma_dist_sq_zero(src, target);
        lemma_sqrt_bounds(dist_sq(src, target));
        assert(t >= 1) by {
            lemma_fundamental_div_mod(d + speed - 1, speed as int);
            if t as int <= 0 {
                assert(speed * (t as int) <= 0) by (nonlinear_arith)
                    requires
                        speed >= 1,
                        t as int <= 0,
                ;
            }
        }
    }
    let ax = if src.x >= target.x {
        src.x - target.x
    } else {
        target.x - src.x
    };
    let ay = if src.y >= target.y {
        src.y - target.y
    } else {
        target.y - src.y
    };
    let az = if src.z >= target.z {
        src.z - target.z
    } else {
        target.z - src.z
    };
    let dx = ax / t;
    let dy = ay / t;
    let dz = az / t;
    proof {
        lemma_div_pos_is_pos(ax as int, t as int);
        lemma_div_pos_is_pos(ay as int, t as int);
        lemma_div_pos_is_pos(az as int, t as int);
        lemma_div_nonincreasing(ax as int, t as int);
        lemma_div_nonincreasing(ay as int, t as int);
        lemma_div_nonincreasing(az as int, t as int);
    }
    let x = if src.x <= target.x {
        src.x + dx
    } else {
        src.x - dx
    };
    let y = if src.y <= target.y {
        src.y + dy
    } else {
        src.y - dy
    };
    let z = if src.z <= target.z {
        src.z + dz
    } else {
        src.z - dz
    };
    Vec3::new(x, y, z)
}

/// Turn-by-turn travel from `src` to `target` under the per-turn speed cap:
/// the turns taken and the energy spent — the sum of the true lengths of the
/// steps — to land exactly on the target. `None` when the journey cannot be
/// completed: a zero speed toward a distinct target, or a crawl whose per-axis
/// steps all floor to nothing. The precondition only rules out pairs so far
/// apart that the counters would not fit their type.
pub fn actual_turns_and_energy(src: Vec3, target: Vec3, speed: u32) -> (r: Option<(u32, u32)>)
    requires
        manhattan(src, target) <= u32::MAX,
    ensures
        (r is Some) == (spec_simulate(src, target, speed as int) is Some),
        (r matches Some(te) ==> spec_simulate(src, target, speed as int) == Some(
            (te.0 as int, te.1 as int),
        )),
{
    if speed == 0 {
        if src == target {
            return Some((0, 0));
        }
        return None;
    }
    let mut p = src;
    let mut turn: u32 = 0;
    let mut energy: u32 = 0;
    proof {
        let s = spec_simulate(src, target, speed as int);
        match s {
            Some(te) => {
                assert((te.0 + 0, te.1 + 0) == te);
            },
            None => {},
        }
        assert(spec_shift(s, 0, 0) == s);
    }
    while p != target
        invariant
            speed >= 1,
            manhattan(src, target) <= u32::MAX,
            0 <= manhattan(p, target),
            manhattan(p, target) + turn <= manhattan(src, target),
            manhattan(p, target) + energy <= manhattan(src, target),
            spec_simulate(src, target, speed as int) == spec_shift(
                spec_simulate(p, target, speed as int),
                turn as int,
                energy as int,
            ),
        decreases dist_sq(p, target),
    {
        proof {
            lemma_distance_le_manhattan(p, target);
            assert(manhattan(p, target) * manhattan(p, target) <= u32::MAX * u32::MAX)
                by (nonlinear_arith)
                requires
                    0 <= manhattan(p, target) <= u32::MAX,
            ;
        }
        let q = move_fleet(p, target, speed);
        if q == p {
            proof {
                assert(spec_simulate(p, target, speed as int) is None);
            }
            return None;
        }
        proof {
            lemma_move_fleet_step(p, target, speed as int);
            lemma_distance_le_manhattan(p, q);
            assert(manhattan(p, q) * manhattan(p, q) <= u32::MAX * u32::MAX) by (nonlinear_arith)
                requires
                    0 <= manhattan(p, q) <= u32::MAX,
            ;
        }
        let step = p.distance(q);
        proof {
            lemma_dist_sq_zero(q, target);
            let sq = spec_simulate(q, target, speed as int);
            assert(spec_simulate(p, target, speed as int) == spec_shift(
                sq,
                1,
                spec_distance(p, q),
            ));
            assert(spec_shift(
                spec_shift(sq, 1, spec_distance(p, q)),
                turn as int,
                energy as int,
            ) == spec_shift(sq, turn + 1, energy + step));
        }
        turn = turn + 1;
        energy = energy + step;
        p = q;
    }
    proof {
        lemma_simulate_self(target, speed as int);
    }
    Some((turn, energy))
}

} // verus!
