//! Routing between two grid cells: a best-first search over the four
//! neighbours of each cell, with a penalty for bends and free passage over
//! cells of the route's own group.

use vstd::prelude::*;
use crate::error::Error;
use crate::geometry::{gap, span, BoundingBox, Point};
use crate::glyph::Direction;
use crate::point_map::PointMap;
use crate::search::{
    cells, lemma_cells_finite, lemma_discard, lemma_exhausted, lemma_expanded, lemma_pass_over,
    lemma_relax, lemma_visit, link_ok, order, ranks_before, search_inv, settled, snapshot, waiting,
    Search,
};
use crate::search_steps::{
    arrives, begun, finds_no_route, gives_up, goes_on, is_cheapest, is_found_route,
    lemma_cheapest_is_unique, looked, looked_around, run, stepped, traces, Rules,
};
use crate::straight::{
    clear_line, lemma_clear_line_unique, lemma_line_distances, lemma_line_done, lemma_line_init,
    lemma_line_pass, lemma_line_pop, lemma_line_relax, lemma_line_visit, lemma_trace_is_line,
    line_dir, line_entry_leads, line_inv, line_mid, straight, Line,
};

verus! {

/// What a route pays to enter a cell.
#[derive(Clone, Copy, Debug, PartialEq, Eq, Structural)]
pub enum NodeCost {
    /// The cell can be entered at the given cost. A route whose group is
    /// `group` enters it for free.
    Cost { cost: usize, group: Option<usize> },
    /// The cell cannot be entered.
    Blocked,
}

impl NodeCost {
    /// The cost of a cell of which nothing is declared.
    pub open spec fn unit() -> NodeCost {
        NodeCost::Cost { cost: 1, group: None }
    }

    /// A weight as a cost: blocked where the weight is unset.
    pub fn from_weight(weight: Option<usize>) -> (c: NodeCost)
        ensures
            c == (match weight {
                Some(cost) => NodeCost::Cost { cost, group: None },
                None => NodeCost::Blocked,
            }),
    {
        match weight {
            Some(cost) => NodeCost::Cost { cost, group: None },
            None => NodeCost::Blocked,
        }
    }

    /// A weight and a group as a cost: blocked where the weight is unset.
    pub fn from_weight_and_group(weight: Option<usize>, group: Option<usize>) -> (c: NodeCost)
        ensures
            c == (match weight {
                Some(cost) => NodeCost::Cost { cost, group },
                None => NodeCost::Blocked,
            }),
    {
        match weight {
            Some(cost) => NodeCost::Cost { cost, group },
            None => NodeCost::Blocked,
        }
    }
}

/// The cost declared for `p`; the unit cost where none is declared.
pub open spec fn cost_at(env: Map<Point, NodeCost>, p: Point) -> NodeCost {
    if env.contains_key(p) {
        env[p]
    } else {
        NodeCost::unit()
    }
}

/// True when a route may enter `p`: it lies in the region and is not blocked.
pub open spec fn passable(env: Map<Point, NodeCost>, region: BoundingBox, p: Point) -> bool {
    region.contains(p) && cost_at(env, p) is Cost
}

/// True when `b` is one of the four neighbours of `a`.
pub open spec fn adjacent(a: Point, b: Point) -> bool {
    Direction::between(a, b) is Some
}

/// True when `route` leads from `start` to `goal`, each cell a neighbour of
/// the one before it, and every cell after the first one passable.
pub open spec fn is_route(
    route: Seq<Point>,
    start: Point,
    goal: Point,
    env: Map<Point, NodeCost>,
    region: BoundingBox,
) -> bool {
    &&& route.len() >= 1
    &&& route[0] == start
    &&& route.last() == goal
    &&& forall|i: int|
        0 < i < route.len() ==> adjacent(route[i - 1], #[trigger] route[i]) && passable(
            env,
            region,
            route[i],
        )
}

/// True when a route enters no cell twice.
pub open spec fn is_simple(route: Seq<Point>) -> bool {
    forall|i: int, j: int| 0 <= i < j < route.len() ==> route[i] != route[j]
}

/// True when some route leads from `start` to `goal`.
pub open spec fn reachable(
    start: Point,
    goal: Point,
    env: Map<Point, NodeCost>,
    region: BoundingBox,
) -> bool {
    exists|route: Seq<Point>| is_route(route, start, goal, env, region)
}

/// The number of unit steps between two cells.
pub open spec fn manhattan(a: Point, b: Point) -> int {
    gap(a.x as int, b.x as int) + gap(a.y as int, b.y as int)
}

/// `n` where it fits in a `usize`, else the largest `usize`.
pub open spec fn capped(n: int) -> usize {
    if n > usize::MAX {
        usize::MAX
    } else {
        n as usize
    }
}

/// The estimate of what is left of a route: the number of unit steps to the
/// goal, capped at the largest `usize`.
pub fn heuristic(a: Point, b: Point) -> (h: usize)
    ensures
        h == capped(manhattan(a, b)),
{
    span(a.x, b.x).saturating_add(span(a.y, b.y))
}

/// What the step in direction `d` onto a cell of cost `cost` and group
/// `cell_group` adds to a route of group `group` that arrived in direction
/// `arrived`.
///
/// A cell of the route's own group is free. Any other cell costs what it
/// declares, and the bend penalty on top where the route arrived in another
/// direction than it leaves.
pub open spec fn step_cost(
    cost: usize,
    cell_group: Option<usize>,
    arrived: Option<Direction>,
    d: Direction,
    bend_penalty: usize,
    group: Option<usize>,
) -> int {
    if cell_group is Some && cell_group == group {
        0
    } else if arrived is Some && arrived != Some(d) {
        cost + bend_penalty
    } else {
        cost as int
    }
}

/// The accumulated cost after one more step, capped at the largest `usize`.
pub fn tentative_cost(
    so_far: usize,
    cost: usize,
    cell_group: Option<usize>,
    arrived: Option<Direction>,
    d: Direction,
    bend_penalty: usize,
    group: Option<usize>,
) -> (t: usize)
    ensures
        t == capped(so_far + step_cost(cost, cell_group, arrived, d, bend_penalty, group)),
        t >= so_far,
        cell_group is Some && cell_group == group ==> t == so_far,
{
    let same_group = match (cell_group, group) {
        (Some(a), Some(b)) => a == b,
        _ => false,
    };
    if same_group {
        so_far
    } else {
        let bend: usize = match arrived {
            Some(prev) => if prev != d {
                bend_penalty
            } else {
                0
            },
            None => 0,
        };
        so_far.saturating_add(cost).saturating_add(bend)
    }
}

/// A cell waiting to be expanded.
#[derive(Clone, Copy, Debug, PartialEq, Eq, Structural)]
pub struct State {
    /// The accumulated cost of the cell plus the estimate of what is left.
    pub cost: usize,
    pub pos: Point,
    /// The direction in which the cell was entered; `None` for the start.
    pub dir: Option<Direction>,
}

/// Takes an entry of least cost out of `open`; of several, the one added last.
pub(crate) fn take_cheapest(open: &mut Vec<State>) -> (s: State)
    requires
        old(open)@.len() > 0,
    ensures
        exists|k: int|
            is_cheapest(old(open)@, k) && s == #[trigger] old(open)@[k] && final(open)@ == old(
                open,
            )@.remove(k),
{
    let mut best: usize = 0;
    let mut i: usize = 1;
    while i < open.len()
        invariant
            1 <= i <= open@.len(),
            best < i,
            forall|j: int| 0 <= j < i ==> open@[best as int].cost <= (#[trigger] open@[j]).cost,
            forall|j: int| best < j < i ==> open@[best as int].cost < (#[trigger] open@[j]).cost,
        decreases open@.len() - i,
    {
        if open[i].cost <= open[best].cost {
            best = i;
        }
        i += 1;
    }
    assert(is_cheapest(open@, best as int));
    open.remove(best)
}

/// Follows the steps by which the cells were reached from `goal` back to
/// the start, and returns the cells in the order of the route.
fn trace_back(
    came_from: &PointMap<(Point, Direction)>,
    start: Point,
    goal: Point,
    Ghost(s): Ghost<Search>,
    Ghost(env): Ghost<Map<Point, NodeCost>>,
    Ghost(region): Ghost<BoundingBox>,
) -> (route: Vec<Point>)
    requires
        search_inv(s, start, goal, env, region, None),
        s.from == came_from@,
        s.cost.contains_key(goal),
    ensures
        is_route(route@, start, goal, env, region),
        is_simple(route@),
        forall|i: int|
            0 < i < route@.len() ==> s.from.contains_key(#[trigger] route@[i]) && s.from[route@[i]].0
                == route@[i - 1],
{
    let mut back: Vec<Point> = Vec::new();
    back.push(goal);
    let mut cur = goal;
    let mut link = came_from.get(cur);
    while link.is_some()
        invariant
            search_inv(s, start, goal, env, region, None),
            s.from == came_from@,
            s.cost.contains_key(cur),
            match link {
                Some(l) => s.from.contains_key(cur) && *l == s.from[cur],
                None => !s.from.contains_key(cur),
            },
            back@.len() >= 1,
            back@[0] == goal,
            back@.last() == cur,
            forall|i: int|
                0 < i < back@.len() ==> adjacent(#[trigger] back@[i], back@[i - 1]) && passable(
                    env,
                    region,
                    back@[i - 1],
                ) && s.from.contains_key(back@[i - 1]) && s.from[back@[i - 1]].0 == back@[i],
            forall|i: int, j: int|
                0 <= i < j < back@.len() ==> ranks_before(s, #[trigger] back@[j], #[trigger] back@[i]),
        decreases s.cost[cur], s.stamps[cur],
    {
        let p = link.unwrap().0;
        proof {
            assert(link_ok(s, env, region, cur));
            assert(ranks_before(s, p, cur));
            assert forall|i: int| 0 <= i < back@.len() implies ranks_before(s, p, #[trigger] back@[i]) by {
                if i < back@.len() - 1 {
                    assert(ranks_before(s, back@[back@.len() - 1], back@[i]));
                }
            }
        }
        back.push(p);
        cur = p;
        link = came_from.get(cur);
    }
    let n = back.len();
    let mut route: Vec<Point> = Vec::new();
    let mut i: usize = 0;
    while i < n
        invariant
            i <= n,
            n == back@.len(),
            route@.len() == i,
            forall|j: int| 0 <= j < i ==> #[trigger] route@[j] == back@[n - 1 - j],
        decreases n - i,
    {
        route.push(back[n - 1 - i]);
        i += 1;
    }
    proof {
        assert forall|i: int, j: int| 0 <= i < j < route@.len() implies route@[i] != route@[j] by {
            assert(route@[i] == back@[n - 1 - i]);
            assert(route@[j] == back@[n - 1 - j]);
            assert(ranks_before(s, back@[n - 1 - i], back@[n - 1 - j]));
        }
        assert forall|j: int| 0 < j < route@.len() implies adjacent(
            route@[j - 1],
            #[trigger] route@[j],
        ) && passable(env, region, route@[j]) && s.from.contains_key(route@[j]) && s.from[route@[j]].0
            == route@[j - 1] by {
            let b = n - j;
            assert(route@[j] == back@[b - 1]);
            assert(route@[j - 1] == back@[b]);
            assert(adjacent(back@[b], back@[b - 1]));
        }
    }
    route
}

/// Searches a route from `start` to `goal` through the cells of
/// `bounding_box`.
///
/// Cells are expanded in the order of their accumulated cost plus the number
/// of unit steps left to the goal; of several cells of the same order, the
/// one found last. A cell is entered at the cost declared for it in
/// `cost_map`, the unit cost where none is declared, plus `bend_penalty`
/// where the route turns; a cell whose group is `group` is entered for
/// free. Costs are capped at the largest `usize`.
///
/// The search returns the route by which the goal was first reached, which
/// is the route that the steps of the search lead to, and enters no cell
/// twice. It fails only where no route exists. Along a clear line the route
/// is the straight line.
pub fn astar(
    start: Point,
    goal: Point,
    cost_map: &PointMap<NodeCost>,
    bend_penalty: usize,
    bounding_box: BoundingBox,
    group: Option<usize>,
) -> (r: Result<Vec<Point>, Error>)
    ensures
        match r {
            Ok(route) => {
                &&& is_route(route@, start, goal, cost_map@, bounding_box)
                &&& is_simple(route@)
                &&& is_found_route(
                    start,
                    Rules { goal, env: cost_map@, bend_penalty, region: bounding_box, group },
                    route@,
                )
            },
            Err(e) => {
                &&& e == Error::NoPath
                &&& !reachable(start, goal, cost_map@, bounding_box)
                &&& finds_no_route(
                    start,
                    Rules { goal, env: cost_map@, bend_penalty, region: bounding_box, group },
                )
            },
        },
        forall|d: Direction, n: nat| #[trigger]
            clear_line(start, goal, d, n, cost_map@, bounding_box, group) ==> r is Ok && r->Ok_0@
                == straight(start, d, n),
{
    let mut open: Vec<State> = Vec::new();
    let mut came_from: PointMap<(Point, Direction)> = PointMap::new();
    let mut g_score: PointMap<usize> = PointMap::new();
    let mut visited: PointMap<bool> = PointMap::new();
    let ghost mut stamps: Map<Point, nat> = Map::empty().insert(start, 0nat);
    let ghost mut clock: nat = 1;
    let ghost env = cost_map@;
    let ghost region = bounding_box;
    let ghost bound = cells(region).insert(start);
    let ghost lined = exists|d: Direction, n: nat| clear_line(start, goal, d, n, env, region, group);
    let ghost along: (Direction, nat) = choose|d: Direction, n: nat|
        clear_line(start, goal, d, n, env, region, group);
    let ghost line = Line { start, d: along.0, n: along.1, env, group };
    let ghost mut reached: int = 0;
    let ghost rules = Rules { goal, env, bend_penalty, region, group };
    let ghost mut steps: nat = 0;
    g_score.insert(start, 0);
    open.push(State { cost: heuristic(start, goal), pos: start, dir: None });
    proof {
        lemma_cells_finite(region);
        let s = snapshot(g_score@, came_from@, visited@.dom(), open@, stamps, clock);
        assert(s.open[0].pos == start);
        assert(waiting(s.open, start));
        assert(s.visited =~= Set::<Point>::empty());
        assert(s.open =~= begun(start, goal).open);
        assert(s.from =~= begun(start, goal).from);
        assert(s == begun(start, goal));
        if lined {
            assert(s.open =~= seq![State { cost: capped(manhattan(start, goal)), pos: start, dir: None }]);
            lemma_line_init(s, line, goal, region);
        }
    }
    while open.len() > 0
        invariant
            search_inv(
                snapshot(g_score@, came_from@, visited@.dom(), open@, stamps, clock),
                start,
                goal,
                env,
                region,
                None,
            ),
            env == cost_map@,
            region == bounding_box,
            bound == cells(region).insert(start),
            bound.finite(),
            visited@.dom().len() <= bound.len(),
            rules == (Rules { goal, env, bend_penalty, region, group }),
            snapshot(g_score@, came_from@, visited@.dom(), open@, stamps, clock) == run(
                start,
                rules,
                steps,
            ),
            forall|j: nat| j < steps ==> #[trigger] goes_on(start, rules, j),
            lined == exists|d: Direction, n: nat| clear_line(start, goal, d, n, env, region, group),
            line == (Line { start, d: along.0, n: along.1, env, group }),
            lined ==> clear_line(start, goal, line.d, line.n, env, region, group) && line_inv(
                snapshot(g_score@, came_from@, visited@.dom(), open@, stamps, clock),
                line,
                reached,
            ),
        decreases bound.len() - visited@.dom().len(), open@.len(),
    {
        let ghost before = snapshot(g_score@, came_from@, visited@.dom(), open@, stamps, clock);
        let state = take_cheapest(&mut open);
        let ghost k = choose|k: int|
            is_cheapest(before.open, k) && state == #[trigger] before.open[k] && open@
                == before.open.remove(k);
        let pos = state.pos;
        proof {
            lemma_cheapest_is_unique(before.open, k);
            if lined {
                lemma_line_pop(before, line, reached, k);
                lemma_line_distances(start, line.d, line.n, reached);
                lemma_line_distances(start, line.d, line.n, line.n as int);
            }
        }
        if pos == goal {
            let route = trace_back(&came_from, start, goal, Ghost(before), Ghost(env), Ghost(region));
            proof {
                assert(arrives(start, rules, steps));
                assert(traces(run(start, rules, steps).from, route@, start, goal));
                if lined {
                    assert(reached == line.n);
                    lemma_trace_is_line(before, route@, line, goal, region);
                    assert forall|d: Direction, n: nat| #[trigger]
                        clear_line(start, goal, d, n, env, region, group) implies route@ == straight(
                        start,
                        d,
                        n,
                    ) by {
                        lemma_clear_line_unique(start, goal, d, n, line.d, line.n, env, region, group);
                    }
                }
            }
            return Ok(route);
        }
        proof {
            assert(goes_on(start, rules, steps));
        }
        if visited.contains_key(pos) {
            proof {
                assert(snapshot(g_score@, came_from@, visited@.dom(), open@, stamps, clock) == stepped(
                    before,
                    rules,
                ));
                steps = steps + 1;
                lemma_discard(
                    before,
                    Search { open: open@, ..before },
                    k,
                    start,
                    goal,
                    env,
                    region,
                );
            }
        } else {
            visited.insert(pos, true);
            proof {
                lemma_visit(
                    before,
                    Search { open: open@, visited: visited@.dom(), ..before },
                    k,
                    start,
                    goal,
                    env,
                    region,
                );
                if lined {
                    assert(reached < line.n);
                    lemma_line_visit(
                        before,
                        Search { open: open@, visited: visited@.dom(), ..before },
                        line,
                        reached,
                    );
                }
            }
            let so_far: usize = *g_score.get(pos).unwrap();
            let ghost base = snapshot(g_score@, came_from@, visited@.dom(), open@, stamps, clock);
            proof {
                assert(base == (Search {
                    visited: before.visited.insert(pos),
                    ..(Search { open: before.open.remove(k), ..before })
                }));
            }
            let dirs = Direction::all();
            let mut di: usize = 0;
            while di < 4
                invariant
                    di <= 4,
                    search_inv(
                        snapshot(g_score@, came_from@, visited@.dom(), open@, stamps, clock),
                        start,
                        goal,
                        env,
                        region,
                        Some((pos, di as int)),
                    ),
                    env == cost_map@,
                    region == bounding_box,
                    visited@.dom().contains(pos),
                    g_score@.contains_key(pos),
                    so_far == g_score@[pos],
                    forall|i: int| 0 <= i < 4 ==> dirs@[i] == Direction::nth(i),
                    rules == (Rules { goal, env, bend_penalty, region, group }),
                    snapshot(g_score@, came_from@, visited@.dom(), open@, stamps, clock)
                        == looked_around(base, rules, pos, state.dir, so_far, di as int),
                    line == (Line { start, d: along.0, n: along.1, env, group }),
                    lined ==> clear_line(start, goal, line.d, line.n, env, region, group) && line_mid(
                        snapshot(g_score@, came_from@, visited@.dom(), open@, stamps, clock),
                        line,
                        reached,
                        di as int,
                    ) && pos == line.cells()[reached] && state.dir == line_dir(line.d, reached)
                        && so_far == line.cost_to(reached),
                decreases 4 - di,
            {
                let d = dirs[di];
                assert(d == dirs@[di as int] && dirs@[di as int] == Direction::nth(di as int));
                assert(order(d) == di);
                let ghost cur = snapshot(g_score@, came_from@, visited@.dom(), open@, stamps, clock);
                let ghost mut relaxed = false;
                match d.step_from(pos) {
                    Some(neighbor) => {
                        if bounding_box.contains_point(&neighbor) {
                            let declared: NodeCost = match cost_map.get(neighbor) {
                                Some(c) => *c,
                                None => NodeCost::Cost { cost: 1, group: None },
                            };
                            match declared {
                                NodeCost::Blocked => {},
                                NodeCost::Cost { cost, group: node_group } => {
                                    let tentative_g = tentative_cost(
                                        so_far,
                                        cost,
                                        node_group,
                                        state.dir,
                                        d,
                                        bend_penalty,
                                        group,
                                    );
                                    let lower = match g_score.get(neighbor) {
                                        Some(known) => tentative_g < *known,
                                        None => true,
                                    };
                                    if lower {
                                        let entry = State {
                                            cost: tentative_g.saturating_add(
                                                heuristic(neighbor, goal),
                                            ),
                                            pos: neighbor,
                                            dir: Some(d),
                                        };
                                        g_score.insert(neighbor, tentative_g);
                                        came_from.insert(neighbor, (pos, d));
                                        open.push(entry);
                                        proof {
                                            stamps = stamps.insert(neighbor, clock);
                                            clock = clock + 1;
                                            let next = snapshot(g_score@, came_from@, visited@.dom(), open@, stamps, clock);
                                            lemma_relax(
                                                cur,
                                                next,
                                                pos,
                                                d,
                                                neighbor,
                                                tentative_g,
                                                entry,
                                                start,
                                                goal,
                                                env,
                                                region,
                                            );
                                            if lined {
                                                lemma_line_relax(
                                                    cur,
                                                    next,
                                                    line,
                                                    goal,
                                                    reached,
                                                    d,
                                                    neighbor,
                                                    tentative_g,
                                                    entry,
                                                    region,
                                                    bend_penalty,
                                                );
                                            }
                                            relaxed = true;
                                        }
                                    }
                                },
                            }
                        }
                    },
                    None => {},
                }
                proof {
                    if !relaxed {
                        assert(settled(
                            cur.cost,
                            env,
                            region,
                            pos,
                            d,
                            state.dir,
                            so_far,
                            bend_penalty,
                            group,
                        ));
                        lemma_pass_over(cur, pos, d, start, goal, env, region);
                        if lined {
                            lemma_line_pass(cur, line, goal, reached, d, region, bend_penalty);
                        }
                    }
                    assert(snapshot(g_score@, came_from@, visited@.dom(), open@, stamps, clock) == looked(
                        cur,
                        rules,
                        pos,
                        state.dir,
                        so_far,
                        d,
                    ));
                }
                di += 1;
            }
            proof {
                let after = snapshot(g_score@, came_from@, visited@.dom(), open@, stamps, clock);
                lemma_expanded(after, pos, start, goal, env, region);
                assert(after == stepped(before, rules));
                steps = steps + 1;
                if lined {
                    lemma_line_done(after, line, reached);
                    reached = reached + 1;
                }
            }
        }
    }
    proof {
        let s = snapshot(g_score@, came_from@, visited@.dom(), open@, stamps, clock);
        assert(gives_up(start, rules, steps));
        lemma_exhausted(s, start, goal, env, region);
        if lined {
            assert(line_entry_leads(s, line, reached));
            assert(false);
        }
    }
    Err(Error::NoPath)
}

} // verus!
