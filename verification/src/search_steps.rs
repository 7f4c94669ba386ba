//! The search, step by step: which entry is taken from the waiting cells,
//! what looking at one neighbour does to the state of the search, and the
//! state after any number of steps. The route that a search returns is the
//! one that these steps lead to.

use vstd::prelude::*;
use crate::geometry::{fits_isize, BoundingBox, Point};
use crate::glyph::Direction;
use crate::router::{capped, cost_at, manhattan, passable, step_cost, NodeCost, State};
use crate::search::Search;

verus! {

/// What a search is given besides its start.
pub struct Rules {
    pub goal: Point,
    pub env: Map<Point, NodeCost>,
    pub bend_penalty: usize,
    pub region: BoundingBox,
    pub group: Option<usize>,
}

/// True when the `k`-th waiting entry is the one to take next: none costs
/// less, and every entry added after it costs more.
pub open spec fn is_cheapest(open: Seq<State>, k: int) -> bool {
    &&& 0 <= k < open.len()
    &&& forall|j: int| 0 <= j < open.len() ==> open[k].cost <= (#[trigger] open[j]).cost
    &&& forall|j: int| k < j < open.len() ==> open[k].cost < (#[trigger] open[j]).cost
}

/// The place of the waiting entry to take next.
pub open spec fn cheapest(open: Seq<State>) -> int {
    choose|k: int| is_cheapest(open, k)
}

/// Only one waiting entry is the one to take next.
pub proof fn lemma_cheapest_is_unique(open: Seq<State>, k: int)
    requires
        is_cheapest(open, k),
    ensures
        cheapest(open) == k,
{
    let c = cheapest(open);
    assert(is_cheapest(open, c));
    if c < k {
        assert(open[c].cost < open[k].cost);
        assert(open[k].cost <= open[c].cost);
    }
    if k < c {
        assert(open[k].cost < open[c].cost);
        assert(open[c].cost <= open[k].cost);
    }
}

/// The state of a search that has found its start and nothing else.
pub open spec fn begun(start: Point, goal: Point) -> Search {
    Search {
        cost: Map::empty().insert(start, 0usize),
        from: Map::empty(),
        visited: Set::empty(),
        open: seq![State { cost: capped(manhattan(start, goal)), pos: start, dir: None }],
        stamps: Map::empty().insert(start, 0nat),
        clock: 1,
    }
}

/// The state after the search has looked at the neighbour of `pos` in
/// direction `d`, where `pos` was entered in direction `arrived` at the cost
/// `so_far`.
///
/// A neighbour that lies in the region and is not blocked is found, or found
/// anew, where the step to it makes it cost less than it cost before: it
/// then costs `so_far` and what the step costs, comes from `pos`, and waits
/// with that cost and the number of unit steps to the goal as its order.
pub open spec fn looked(
    s: Search,
    rules: Rules,
    pos: Point,
    arrived: Option<Direction>,
    so_far: usize,
    d: Direction,
) -> Search {
    let m = Point { x: (pos.x + d.dx()) as isize, y: (pos.y + d.dy()) as isize };
    if fits_isize(pos.x + d.dx()) && fits_isize(pos.y + d.dy()) && passable(
        rules.env,
        rules.region,
        m,
    ) {
        let cost = capped(
            so_far + step_cost(
                cost_at(rules.env, m)->cost,
                cost_at(rules.env, m)->group,
                arrived,
                d,
                rules.bend_penalty,
                rules.group,
            ),
        );
        if !s.cost.contains_key(m) || cost < s.cost[m] {
            Search {
                cost: s.cost.insert(m, cost),
                from: s.from.insert(m, (pos, d)),
                visited: s.visited,
                open: s.open.push(
                    State { cost: capped(cost + capped(manhattan(m, rules.goal))), pos: m, dir: Some(d) },
                ),
                stamps: s.stamps.insert(m, s.clock),
                clock: s.clock + 1,
            }
        } else {
            s
        }
    } else {
        s
    }
}

/// The state after the search has looked at the first `n` neighbours of
/// `pos`, in the order up, right, down, left.
pub open spec fn looked_around(
    s: Search,
    rules: Rules,
    pos: Point,
    arrived: Option<Direction>,
    so_far: usize,
    n: int,
) -> Search
    decreases n,
{
    if n <= 0 {
        s
    } else {
        looked(
            looked_around(s, rules, pos, arrived, so_far, n - 1),
            rules,
            pos,
            arrived,
            so_far,
            Direction::nth(n - 1),
        )
    }
}

/// The state after one more step: the entry to take next leaves the
/// waiting entries, and unless its cell was expanded before, the cell is
/// expanded: the search looks at its four neighbours.
pub open spec fn stepped(s: Search, rules: Rules) -> Search {
    let taken = s.open[cheapest(s.open)];
    let rest = Search { open: s.open.remove(cheapest(s.open)), ..s };
    if s.visited.contains(taken.pos) {
        rest
    } else {
        looked_around(
            Search { visited: s.visited.insert(taken.pos), ..rest },
            rules,
            taken.pos,
            taken.dir,
            s.cost[taken.pos],
            4,
        )
    }
}

/// The state of the search after `steps` steps.
pub open spec fn run(start: Point, rules: Rules, steps: nat) -> Search
    decreases steps,
{
    if steps == 0 {
        begun(start, rules.goal)
    } else {
        stepped(run(start, rules, (steps - 1) as nat), rules)
    }
}

/// True when a cell waits after `steps` steps, and the one to take next is
/// not the goal.
pub open spec fn goes_on(start: Point, rules: Rules, steps: nat) -> bool {
    let s = run(start, rules, steps);
    s.open.len() > 0 && s.open[cheapest(s.open)].pos != rules.goal
}

/// True when the search takes the goal after `steps` steps and not before.
pub open spec fn arrives(start: Point, rules: Rules, steps: nat) -> bool {
    let s = run(start, rules, steps);
    &&& s.open.len() > 0
    &&& s.open[cheapest(s.open)].pos == rules.goal
    &&& forall|j: nat| j < steps ==> #[trigger] goes_on(start, rules, j)
}

/// True when no cell waits after `steps` steps, and the search did not take
/// the goal before.
pub open spec fn gives_up(start: Point, rules: Rules, steps: nat) -> bool {
    &&& run(start, rules, steps).open.len() == 0
    &&& forall|j: nat| j < steps ==> #[trigger] goes_on(start, rules, j)
}

/// True when `route` leads from `start` to `goal` by the steps in `from`:
/// each cell comes from the cell before it, and the start from none.
pub open spec fn traces(
    from: Map<Point, (Point, Direction)>,
    route: Seq<Point>,
    start: Point,
    goal: Point,
) -> bool {
    &&& route.len() >= 1
    &&& route[0] == start
    &&& route.last() == goal
    &&& !from.contains_key(start)
    &&& forall|i: int|
        0 < i < route.len() ==> from.contains_key(#[trigger] route[i]) && from[route[i]].0 == route[i
            - 1]
}

/// True when `route` is the route that the search from `start` finds: the
/// search takes the goal after some number of steps, and the route leads
/// to it by the steps by which the cells were last found.
pub open spec fn is_found_route(start: Point, rules: Rules, route: Seq<Point>) -> bool {
    exists|steps: nat| #[trigger]
        arrives(start, rules, steps) && traces(
            run(start, rules, steps).from,
            route,
            start,
            rules.goal,
        )
}

/// True when the search from `start` runs out of cells before it takes the goal.
pub open spec fn finds_no_route(start: Point, rules: Rules) -> bool {
    exists|steps: nat| #[trigger] gives_up(start, rules, steps)
}

/// The search finds one route at most.
pub proof fn lemma_found_route_is_unique(start: Point, rules: Rules, a: Seq<Point>, b: Seq<Point>)
    requires
        is_found_route(start, rules, a),
        is_found_route(start, rules, b),
    ensures
        a == b,
{
    let m = choose|steps: nat| #[trigger]
        arrives(start, rules, steps) && traces(run(start, rules, steps).from, a, start, rules.goal);
    let n = choose|steps: nat| #[trigger]
        arrives(start, rules, steps) && traces(run(start, rules, steps).from, b, start, rules.goal);
    if m < n {
        assert(goes_on(start, rules, m));
    }
    if n < m {
        assert(goes_on(start, rules, n));
    }
    let from = run(start, rules, m).from;
    let shorter = if a.len() <= b.len() {
        a.len() - 1
    } else {
        b.len() - 1
    };
    lemma_traces_agree(from, a, b, start, rules.goal, shorter);
    if a.len() < b.len() {
        assert(b[b.len() - a.len()] == a[0]);
        assert(from.contains_key(b[b.len() - a.len()]));
    }
    if b.len() < a.len() {
        assert(a[a.len() - b.len()] == b[0]);
        assert(from.contains_key(a[a.len() - b.len()]));
    }
    assert forall|i: int| 0 <= i < a.len() implies a[i] == b[i] by {
        lemma_traces_agree(from, a, b, start, rules.goal, a.len() - 1 - i);
    }
    assert(a =~= b);
}

proof fn lemma_traces_agree(
    from: Map<Point, (Point, Direction)>,
    a: Seq<Point>,
    b: Seq<Point>,
    start: Point,
    goal: Point,
    j: int,
)
    requires
        traces(from, a, start, goal),
        traces(from, b, start, goal),
        0 <= j < a.len(),
        j < b.len(),
    ensures
        a[a.len() - 1 - j] == b[b.len() - 1 - j],
    decreases j,
{
    if j > 0 {
        lemma_traces_agree(from, a, b, start, goal, j - 1);
        let i = a.len() - j;
        let k = b.len() - j;
        assert(from[a[i]].0 == a[i - 1]);
        assert(from[b[k]].0 == b[k - 1]);
    }
}

} // verus!
