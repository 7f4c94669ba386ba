//! The cost of a route, and what holds of the costs of routes.

use vstd::prelude::*;
use crate::geometry::{BoundingBox, Point};
use crate::glyph::Direction;
use crate::point_map::PointMap;
use crate::router::{
    adjacent, capped, cost_at, is_route, manhattan, passable, reachable, step_cost,
    tentative_cost, NodeCost,
};
use crate::straight::{
    clear_line, lemma_line_costs, lemma_line_in_region, lemma_open_line_is_clear, open_line, steps,
    straight, Line,
};

verus! {

/// The direction of the step that enters the `i`-th cell of a route;
/// `None` for the first cell, which no step enters.
pub open spec fn arrival(route: Seq<Point>, i: int) -> Option<Direction> {
    if 0 < i < route.len() {
        Direction::between(route[i - 1], route[i])
    } else {
        None
    }
}

/// What entering the `i`-th cell of a route of group `group` costs.
pub open spec fn entry_cost(
    route: Seq<Point>,
    i: int,
    env: Map<Point, NodeCost>,
    bend_penalty: usize,
    group: Option<usize>,
) -> int {
    match (cost_at(env, route[i]), arrival(route, i)) {
        (NodeCost::Cost { cost, group: cell_group }, Some(d)) => step_cost(
            cost,
            cell_group,
            arrival(route, i - 1),
            d,
            bend_penalty,
            group,
        ),
        _ => 0,
    }
}

/// The cost of a route: what entering each of its cells after the first costs.
pub open spec fn route_cost(
    route: Seq<Point>,
    env: Map<Point, NodeCost>,
    bend_penalty: usize,
    group: Option<usize>,
) -> int
    decreases route.len(),
{
    if route.len() <= 1 {
        0
    } else {
        route_cost(route.drop_last(), env, bend_penalty, group) + entry_cost(
            route,
            route.len() - 1,
            env,
            bend_penalty,
            group,
        )
    }
}

/// The number of cells of a route that are left in another direction than
/// they were entered in.
pub open spec fn bends(route: Seq<Point>) -> int
    decreases route.len(),
{
    if route.len() <= 2 {
        0
    } else {
        bends(route.drop_last()) + (if arrival(route, route.len() - 2) != arrival(
            route,
            route.len() - 1,
        ) {
            1int
        } else {
            0int
        })
    }
}

/// The cost of a route, capped at the largest `usize`.
pub fn path_cost(
    route: &Vec<Point>,
    cost_map: &PointMap<NodeCost>,
    bend_penalty: usize,
    group: Option<usize>,
) -> (total: usize)
    ensures
        total == capped(route_cost(route@, cost_map@, bend_penalty, group)),
{
    let mut total: usize = 0;
    let mut arrived: Option<Direction> = None;
    let mut i: usize = 1;
    if route.len() <= 1 {
        return 0;
    }
    assert(route@.subrange(0, 1).len() == 1);
    while i < route.len()
        invariant
            1 <= i <= route@.len(),
            arrived == arrival(route@, i - 1),
            total == capped(route_cost(route@.subrange(0, i as int), cost_map@, bend_penalty, group)),
            route_cost(route@.subrange(0, i as int), cost_map@, bend_penalty, group) >= 0,
        decreases route@.len() - i,
    {
        let ghost upto = route@.subrange(0, i + 1);
        proof {
            assert(upto.drop_last() =~= route@.subrange(0, i as int));
            assert(upto[i as int] == route@[i as int]);
            assert(upto[i - 1] == route@[i - 1]);
            assert(arrival(upto, i as int) == arrival(route@, i as int));
            if i >= 2 {
                assert(upto[i - 2] == route@[i - 2]);
            }
            assert(arrival(upto, i - 1) == arrival(route@, i - 1));
        }
        let step = Direction::from_step(route[i - 1], route[i]);
        let declared: NodeCost = match cost_map.get(route[i]) {
            Some(c) => *c,
            None => NodeCost::Cost { cost: 1, group: None },
        };
        match (declared, step) {
            (NodeCost::Cost { cost, group: cell_group }, Some(d)) => {
                total = tentative_cost(total, cost, cell_group, arrived, d, bend_penalty, group);
            },
            _ => {},
        }
        arrived = step;
        i += 1;
    }
    assert(route@.subrange(0, route@.len() as int) =~= route@);
    total
}

/// A route through cells of its own group pays nothing for them, whatever
/// cost they declare and whichever way it turns.
pub proof fn lemma_own_group_is_free(
    route: Seq<Point>,
    next: Point,
    env: Map<Point, NodeCost>,
    bend_penalty: usize,
    group: usize,
)
    requires
        route.len() >= 1,
        cost_at(env, next) is Cost,
        cost_at(env, next)->group == Some(group),
    ensures
        route_cost(route.push(next), env, bend_penalty, Some(group)) == route_cost(
            route,
            env,
            bend_penalty,
            Some(group),
        ),
{
    assert(route.push(next).drop_last() =~= route);
}

/// Where no cost is declared, the straight route between two cells of one
/// row or column costs the number of unit steps between them, has no bend,
/// and has one cell more than it has steps.
pub proof fn lemma_straight_route(
    start: Point,
    d: Direction,
    n: nat,
    env: Map<Point, NodeCost>,
    bend_penalty: usize,
    group: Option<usize>,
)
    requires
        crate::geometry::fits_isize(start.x + steps(d.dx(), n as int)),
        crate::geometry::fits_isize(start.y + steps(d.dy(), n as int)),
        forall|i: int| 0 <= i <= n ==> !env.contains_key(#[trigger] straight(start, d, n)[i]),
    ensures
        route_cost(straight(start, d, n), env, bend_penalty, group) == n,
        route_cost(straight(start, d, n), env, bend_penalty, group) == manhattan(
            start,
            straight(start, d, n).last(),
        ),
        bends(straight(start, d, n)) == 0,
        straight(start, d, n).len() == n + 1,
    decreases n,
{
    let route = straight(start, d, n);
    if n > 0 {
        let shorter = straight(start, d, (n - 1) as nat);
        assert(route.drop_last() =~= shorter);
        assert forall|i: int| 0 <= i <= n - 1 implies !env.contains_key(#[trigger] shorter[i]) by {
            assert(shorter[i] == route[i]);
        }
        lemma_straight_route(start, d, (n - 1) as nat, env, bend_penalty, group);
        assert(arrival(route, n as int) == Some(d));
        if n >= 2 {
            assert(arrival(route, n - 1) == Some(d));
        }
        assert(cost_at(env, route[n as int]) == NodeCost::unit());
    }
}

/// The first cells of a straight line are a route that costs what the
/// line's cells cost to enter, and has no bend.
proof fn lemma_line_prefix_cost(line: Line, goal: Point, region: BoundingBox, bend_penalty: usize, m: nat)
    requires
        clear_line(line.start, goal, line.d, line.n, line.env, region, line.group),
        m <= line.n,
    ensures
        route_cost(straight(line.start, line.d, m), line.env, bend_penalty, line.group)
            == line.cost_to(m as int),
        bends(straight(line.start, line.d, m)) == 0,
    decreases m,
{
    let route = straight(line.start, line.d, m);
    if m > 0 {
        let shorter = straight(line.start, line.d, (m - 1) as nat);
        assert(route.drop_last() =~= shorter);
        lemma_line_prefix_cost(line, goal, region, bend_penalty, (m - 1) as nat);
        assert(route[m as int] == line.cells()[m as int]);
        assert(arrival(route, m as int) == Some(line.d));
        if m >= 2 {
            assert(arrival(route, m - 1) == Some(line.d));
        }
        assert(cost_at(line.env, line.cells()[m as int]) is Cost);
    }
}

/// Along a clear line the straight route is a route without a bend, with
/// one cell more than there are unit steps between the start and the goal;
/// it costs what its cells cost to enter, whatever the bend penalty, and
/// never more than the number of unit steps.
pub proof fn lemma_clear_line_route(
    start: Point,
    goal: Point,
    d: Direction,
    n: nat,
    env: Map<Point, NodeCost>,
    region: BoundingBox,
    bend_penalty: usize,
    group: Option<usize>,
)
    requires
        clear_line(start, goal, d, n, env, region, group),
    ensures
        is_route(straight(start, d, n), start, goal, env, region),
        bends(straight(start, d, n)) == 0,
        straight(start, d, n).len() == manhattan(start, goal) + 1,
        route_cost(straight(start, d, n), env, bend_penalty, group) == (Line {
            start,
            d,
            n,
            env,
            group,
        }).cost_to(n as int),
        route_cost(straight(start, d, n), env, bend_penalty, group) <= manhattan(start, goal),
{
    let line = Line { start, d, n, env, group };
    let cells = straight(start, d, n);
    lemma_line_prefix_cost(line, goal, region, bend_penalty, n);
    lemma_line_costs(line, goal, region, n as int);
    assert forall|i: int| 0 < i < cells.len() implies adjacent(cells[i - 1], #[trigger] cells[i])
        && passable(env, region, cells[i]) by {
        lemma_line_in_region(start, d, n, region, i);
    }
}

/// Through a region in which no cost is declared the straight route costs
/// the number of unit steps between the start and the goal.
pub proof fn lemma_open_line_route(
    start: Point,
    goal: Point,
    d: Direction,
    n: nat,
    env: Map<Point, NodeCost>,
    region: BoundingBox,
    bend_penalty: usize,
    group: Option<usize>,
)
    requires
        open_line(start, goal, d, n, env, region),
    ensures
        clear_line(start, goal, d, n, env, region, group),
        route_cost(straight(start, d, n), env, bend_penalty, group) == manhattan(start, goal),
{
    lemma_open_line_is_clear(start, goal, d, n, env, region, group);
    let cells = straight(start, d, n);
    assert forall|i: int| 0 <= i <= n implies !env.contains_key(#[trigger] cells[i]) by {
        lemma_line_in_region(start, d, n, region, i);
    }
    lemma_straight_route(start, d, n, env, bend_penalty, group);
}

/// Where the goal is not the start nor next to it, and none of its four
/// neighbours can be entered, no route reaches it.
pub proof fn lemma_enclosed_goal(
    start: Point,
    goal: Point,
    env: Map<Point, NodeCost>,
    region: BoundingBox,
)
    requires
        start != goal,
        !adjacent(start, goal),
        forall|n: Point| adjacent(n, goal) ==> !#[trigger] passable(env, region, n),
    ensures
        !reachable(start, goal, env, region),
{
    if reachable(start, goal, env, region) {
        let route = choose|route: Seq<Point>| is_route(route, start, goal, env, region);
        let last = route.len() - 1;
        assert(adjacent(route[last - 1], route[last]));
        if last >= 2 {
            assert(passable(env, region, route[last - 1]));
        }
    }
}


/// True when each cell of a route is a neighbour of the one before it.
pub open spec fn connected(route: Seq<Point>) -> bool {
    forall|i: int| 0 < i < route.len() ==> adjacent(route[i - 1], #[trigger] route[i])
}

/// True when every cell that a route enters costs one unit.
pub open spec fn unit_costs(route: Seq<Point>, env: Map<Point, NodeCost>) -> bool {
    forall|i: int| 0 < i < route.len() ==> cost_at(env, #[trigger] route[i]) == NodeCost::unit()
}

/// A route over cells of unit cost pays one unit for each step, and the
/// bend penalty on top where it has a bend.
proof fn lemma_unit_route_cost(
    route: Seq<Point>,
    env: Map<Point, NodeCost>,
    bend_penalty: usize,
    group: Option<usize>,
)
    requires
        route.len() >= 1,
        connected(route),
        unit_costs(route, env),
    ensures
        route_cost(route, env, bend_penalty, group) >= route.len() - 1,
        bends(route) >= 1 ==> route_cost(route, env, bend_penalty, group) >= route.len() - 1
            + bend_penalty,
        bends(route) >= 0,
    decreases route.len(),
{
    if route.len() >= 2 {
        let front = route.drop_last();
        let last = route.len() - 1;
        assert forall|i: int| 0 < i < front.len() implies adjacent(front[i - 1], #[trigger] front[i]) by {
            assert(adjacent(route[i - 1], route[i]));
        }
        assert forall|i: int| 0 < i < front.len() implies cost_at(env, #[trigger] front[i])
            == NodeCost::unit() by {
            assert(cost_at(env, route[i]) == NodeCost::unit());
        }
        lemma_unit_route_cost(front, env, bend_penalty, group);
        assert(adjacent(route[last - 1], route[last]));
        assert(cost_at(env, route[last]) == NodeCost::unit());
        if last >= 2 {
            assert(adjacent(route[last - 2], route[last - 1]));
        }
    }
}

/// A route has at least as many steps as there are unit steps between its ends.
proof fn lemma_route_length(route: Seq<Point>, i: int)
    requires
        connected(route),
        0 <= i < route.len(),
    ensures
        manhattan(route[0], route[i]) <= i,
    decreases i,
{
    if i > 0 {
        lemma_route_length(route, i - 1);
        assert(adjacent(route[i - 1], route[i]));
    }
}

/// A route without a bend runs straight in the direction of its first step.
proof fn lemma_no_bend_is_straight(route: Seq<Point>, i: int)
    requires
        route.len() >= 2,
        connected(route),
        bends(route) == 0,
        1 <= i < route.len(),
    ensures
        arrival(route, i) == arrival(route, 1),
        arrival(route, 1) is Some,
        route[i].x == route[0].x + steps(arrival(route, 1)->0.dx(), i),
        route[i].y == route[0].y + steps(arrival(route, 1)->0.dy(), i),
    decreases route.len(),
{
    assert(adjacent(route[0], route[1]));
    assert(adjacent(route[i - 1], route[i]));
    if route.len() > 2 {
        let front = route.drop_last();
        assert forall|j: int| 0 < j < front.len() implies adjacent(front[j - 1], #[trigger] front[j]) by {
            assert(adjacent(route[j - 1], route[j]));
        }
        lemma_bends_nonnegative(front);
        assert(bends(front) == 0);
        assert(arrival(front, 1) == arrival(route, 1));
        if i < route.len() - 1 {
            lemma_no_bend_is_straight(front, i);
            assert(arrival(front, i) == arrival(route, i));
        } else {
            lemma_no_bend_is_straight(front, i - 1);
            assert(arrival(front, i - 1) == arrival(route, i - 1));
            assert(arrival(route, i - 1) == arrival(route, i));
        }
    }
}

proof fn lemma_bends_nonnegative(route: Seq<Point>)
    ensures
        bends(route) >= 0,
    decreases route.len(),
{
    if route.len() > 2 {
        lemma_bends_nonnegative(route.drop_last());
    }
}

/// One blocked cell on the straight line between the start and the goal,
/// on a grid that declares no other cost, forces a bend: every route from
/// the start to the goal turns at least once, and costs at least the
/// number of unit steps between the two plus the bend penalty.
pub proof fn lemma_block_forces_bend(
    route: Seq<Point>,
    start: Point,
    d: Direction,
    n: nat,
    k: int,
    env: Map<Point, NodeCost>,
    region: BoundingBox,
    bend_penalty: usize,
    group: Option<usize>,
)
    requires
        crate::geometry::fits_isize(start.x + steps(d.dx(), n as int)),
        crate::geometry::fits_isize(start.y + steps(d.dy(), n as int)),
        0 < k < n,
        cost_at(env, straight(start, d, n)[k]) is Blocked,
        forall|p: Point| p != straight(start, d, n)[k] ==> #[trigger] cost_at(env, p) == NodeCost::unit(),
        is_route(route, start, straight(start, d, n)[n as int], env, region),
    ensures
        bends(route) >= 1,
        route_cost(route, env, bend_penalty, group) >= n + bend_penalty,
{
    let line = straight(start, d, n);
    let goal = line[n as int];
    let blocked = line[k];
    let last = route.len() - 1;
    assert(start != goal);
    assert(route.len() >= 2);
    assert(connected(route));
    assert forall|i: int| 0 < i < route.len() implies cost_at(env, #[trigger] route[i])
        == NodeCost::unit() by {
        assert(passable(env, region, route[i]));
    }
    lemma_unit_route_cost(route, env, bend_penalty, group);
    lemma_route_length(route, last);
    assert(manhattan(start, goal) == n);
    lemma_bends_nonnegative(route);
    if bends(route) == 0 {
        lemma_no_bend_is_straight(route, last);
        let e = arrival(route, 1)->0;
        assert(e == d);
        assert(last == n);
        lemma_no_bend_is_straight(route, k);
        assert(route[k] == blocked);
        assert(passable(env, region, route[k]));
    }
}

} // verus!
