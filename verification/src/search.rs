//! The state of a route search, what holds of it between two steps, and
//! why a search that runs out of cells proves that there is no route.

use vstd::prelude::*;
use vstd::set_lib::lemma_len_subset;
use crate::geometry::{BoundingBox, Point};
use crate::glyph::Direction;
use crate::router::{
    adjacent, capped, cost_at, is_route, passable, reachable, step_cost, NodeCost, State,
};

verus! {

/// The cells of a box.
pub open spec fn cells(b: BoundingBox) -> Set<Point> {
    Set::new(|p: Point| b.contains(p))
}

/// The `rows` cells of column `x` from row `bottom` upward.
pub open spec fn column_cells(x: isize, bottom: int, rows: nat) -> Set<Point>
    decreases rows,
{
    if rows == 0 {
        Set::empty()
    } else {
        column_cells(x, bottom, (rows - 1) as nat).insert(
            Point { x, y: (bottom + rows - 1) as isize },
        )
    }
}

/// The cells of the `cols` columns from column `left` rightward, in the rows
/// from `bottom` to `top`.
pub open spec fn block_cells(left: int, cols: nat, bottom: isize, top: isize) -> Set<Point>
    decreases cols,
{
    if cols == 0 {
        Set::empty()
    } else {
        block_cells(left, (cols - 1) as nat, bottom, top).union(
            column_cells((left + cols - 1) as isize, bottom as int, (top - bottom + 1) as nat),
        )
    }
}

pub(crate) proof fn lemma_column_cells(x: isize, bottom: int, rows: nat)
    ensures
        column_cells(x, bottom, rows).finite(),
        forall|p: Point|
            p.x == x && bottom <= p.y < bottom + rows ==> #[trigger] column_cells(
                x,
                bottom,
                rows,
            ).contains(p),
    decreases rows,
{
    if rows > 0 {
        lemma_column_cells(x, bottom, (rows - 1) as nat);
    }
}

pub(crate) proof fn lemma_block_cells(left: int, cols: nat, bottom: isize, top: isize)
    requires
        bottom <= top,
    ensures
        block_cells(left, cols, bottom, top).finite(),
        forall|p: Point|
            left <= p.x < left + cols && bottom <= p.y <= top ==> #[trigger] block_cells(
                left,
                cols,
                bottom,
                top,
            ).contains(p),
    decreases cols,
{
    if cols > 0 {
        lemma_block_cells(left, (cols - 1) as nat, bottom, top);
        lemma_column_cells((left + cols - 1) as isize, bottom as int, (top - bottom + 1) as nat);
        assert forall|p: Point| left <= p.x < left + cols && bottom <= p.y <= top implies #[trigger]
            block_cells(left, cols, bottom, top).contains(p) by {
            if p.x == left + cols - 1 {
                assert(column_cells(
                    (left + cols - 1) as isize,
                    bottom as int,
                    (top - bottom + 1) as nat,
                ).contains(p));
            }
        }
    }
}

/// A box holds finitely many cells.
pub proof fn lemma_cells_finite(b: BoundingBox)
    ensures
        cells(b).finite(),
{
    if b.left <= b.right && b.bottom <= b.top {
        let cols = (b.right - b.left + 1) as nat;
        lemma_block_cells(b.left as int, cols, b.bottom, b.top);
        let block = block_cells(b.left as int, cols, b.bottom, b.top);
        assert(cells(b).subset_of(block));
        lemma_len_subset(cells(b), block);
    } else {
        assert(cells(b) =~= Set::<Point>::empty());
    }
}


/// The position of a direction in the fixed order up, right, down, left.
pub open spec fn order(d: Direction) -> int {
    match d {
        Direction::Up => 0,
        Direction::Right => 1,
        Direction::Down => 2,
        Direction::Left => 3,
    }
}

/// The state of a search.
pub struct Search {
    /// The least accumulated cost found so far, for each cell found.
    pub cost: Map<Point, usize>,
    /// For each cell found but the start, the cell it was last reached from
    /// and the direction of that step.
    pub from: Map<Point, (Point, Direction)>,
    /// The cells that were expanded.
    pub visited: Set<Point>,
    /// The cells waiting to be expanded.
    pub open: Seq<State>,
    /// When the cost of each cell was last lowered.
    pub stamps: Map<Point, nat>,
    /// The number of times a cost was set.
    pub clock: nat,
}

/// The state of a search, put together from its parts.
pub open spec fn snapshot(
    cost: Map<Point, usize>,
    from: Map<Point, (Point, Direction)>,
    visited: Set<Point>,
    open: Seq<State>,
    stamps: Map<Point, nat>,
    clock: nat,
) -> Search {
    Search { cost, from, visited, open, stamps, clock }
}

/// True when the neighbour of `n` in direction `d` was found, or cannot be entered.
pub open spec fn closed_at(
    cost: Map<Point, usize>,
    env: Map<Point, NodeCost>,
    region: BoundingBox,
    n: Point,
    d: Direction,
) -> bool {
    forall|m: Point|
        m.x == n.x + d.dx() && m.y == n.y + d.dy() && passable(env, region, m)
            ==> #[trigger] cost.contains_key(m)
}

/// True when some entry of `open` is for the cell `n`.
pub open spec fn waiting(open: Seq<State>, n: Point) -> bool {
    exists|k: int| 0 <= k < open.len() && (#[trigger] open[k]).pos == n
}

/// True when `a` ranks before `b`: it was found at lower cost, or at the
/// same cost and its cost was lowered earlier.
pub open spec fn ranks_before(s: Search, a: Point, b: Point) -> bool {
    s.cost[a] < s.cost[b] || (s.cost[a] == s.cost[b] && s.stamps[a] < s.stamps[b])
}

/// True when the step that `n` was last reached by is a step of a route,
/// and comes from a cell that ranks before `n`: one of lower cost, or of the
/// same cost and lowered earlier.
pub open spec fn link_ok(s: Search, env: Map<Point, NodeCost>, region: BoundingBox, n: Point) -> bool {
    let p = s.from[n].0;
    let d = s.from[n].1;
    &&& s.cost.contains_key(n)
    &&& s.cost.contains_key(p)
    &&& Direction::between(p, n) == Some(d)
    &&& passable(env, region, n)
    &&& (s.cost[p] < s.cost[n] || (s.cost[p] == s.cost[n] && s.stamps[p] < s.stamps[n]))
}

/// True when the neighbour of `n` in direction `d` is still to be looked at
/// by the expansion in progress.
pub open spec fn is_pending(expanding: Option<(Point, int)>, n: Point, d: Direction) -> bool {
    match expanding {
        Some((pos, next)) => n == pos && order(d) >= next,
        None => false,
    }
}

/// What holds of a search between any two of its steps.
pub open spec fn search_inv(
    s: Search,
    start: Point,
    goal: Point,
    env: Map<Point, NodeCost>,
    region: BoundingBox,
    expanding: Option<(Point, int)>,
) -> bool {
    &&& s.cost.contains_key(start)
    &&& s.cost[start] == 0
    &&& !s.from.contains_key(start)
    &&& forall|n: Point| #[trigger] s.cost.contains_key(n) ==> n == start || s.from.contains_key(n)
    &&& forall|n: Point| #[trigger] s.from.contains_key(n) ==> link_ok(s, env, region, n)
    &&& forall|n: Point| #[trigger]
        s.cost.contains_key(n) ==> s.stamps.contains_key(n) && s.stamps[n] < s.clock
    &&& forall|k: int|
        0 <= k < s.open.len() ==> s.cost.contains_key((#[trigger] s.open[k]).pos) && (s.open[k].pos
            == start || region.contains(s.open[k].pos))
    &&& forall|n: Point| #[trigger]
        s.cost.contains_key(n) ==> s.visited.contains(n) || waiting(s.open, n)
    &&& forall|n: Point| #[trigger] s.visited.contains(n) ==> s.cost.contains_key(n)
    &&& forall|n: Point, d: Direction|
        s.visited.contains(n) && !is_pending(expanding, n, d) ==> #[trigger] closed_at(
            s.cost,
            env,
            region,
            n,
            d,
        )
    &&& !s.visited.contains(goal)
    &&& s.visited.finite()
    &&& s.visited.subset_of(cells(region).insert(start))
}

/// Taking an entry out of the open list for a cell that was expanded
/// before keeps the search in order.
pub(crate) proof fn lemma_discard(
    s: Search,
    t: Search,
    k: int,
    start: Point,
    goal: Point,
    env: Map<Point, NodeCost>,
    region: BoundingBox,
)
    requires
        search_inv(s, start, goal, env, region, None),
        0 <= k < s.open.len(),
        s.visited.contains(s.open[k].pos),
        t == (Search { open: s.open.remove(k), ..s }),
    ensures
        search_inv(t, start, goal, env, region, None),
{
    assert forall|n: Point| #[trigger] t.cost.contains_key(n) implies t.visited.contains(n)
        || waiting(t.open, n) by {
        if !s.visited.contains(n) {
            let j = choose|j: int| 0 <= j < s.open.len() && (#[trigger] s.open[j]).pos == n;
            if j < k {
                assert(t.open[j] == s.open[j]);
            } else {
                assert(t.open[j - 1] == s.open[j]);
            }
        }
    }
    assert forall|n: Point| #[trigger] t.from.contains_key(n) implies link_ok(t, env, region, n) by {
        assert(link_ok(s, env, region, n));
    }
    assert forall|j: int| 0 <= j < t.open.len() implies t.cost.contains_key(
        (#[trigger] t.open[j]).pos,
    ) && (t.open[j].pos == start || region.contains(t.open[j].pos)) by {
        if j < k {
            assert(t.open[j] == s.open[j]);
        } else {
            assert(t.open[j] == s.open[j + 1]);
        }
    }
}

/// Taking the entry of a cell out of the open list and marking the cell as
/// expanded keeps the search in order, with all neighbours of the cell
/// still to be looked at.
pub(crate) proof fn lemma_visit(
    s: Search,
    t: Search,
    k: int,
    start: Point,
    goal: Point,
    env: Map<Point, NodeCost>,
    region: BoundingBox,
)
    requires
        search_inv(s, start, goal, env, region, None),
        0 <= k < s.open.len(),
        !s.visited.contains(s.open[k].pos),
        s.open[k].pos != goal,
        t == (Search { open: s.open.remove(k), visited: s.visited.insert(s.open[k].pos), ..s }),
    ensures
        search_inv(t, start, goal, env, region, Some((s.open[k].pos, 0int))),
        t.visited.len() == s.visited.len() + 1,
        t.visited.len() <= cells(region).insert(start).len(),
{
    let pos = s.open[k].pos;
    assert forall|n: Point| #[trigger] t.cost.contains_key(n) implies t.visited.contains(n)
        || waiting(t.open, n) by {
        if !s.visited.contains(n) && n != pos {
            let j = choose|j: int| 0 <= j < s.open.len() && (#[trigger] s.open[j]).pos == n;
            if j < k {
                assert(t.open[j] == s.open[j]);
            } else {
                assert(t.open[j - 1] == s.open[j]);
            }
        }
    }
    assert forall|n: Point| #[trigger] t.from.contains_key(n) implies link_ok(t, env, region, n) by {
        assert(link_ok(s, env, region, n));
    }
    assert forall|j: int| 0 <= j < t.open.len() implies t.cost.contains_key(
        (#[trigger] t.open[j]).pos,
    ) && (t.open[j].pos == start || region.contains(t.open[j].pos)) by {
        if j < k {
            assert(t.open[j] == s.open[j]);
        } else {
            assert(t.open[j] == s.open[j + 1]);
        }
    }
    assert forall|n: Point, d: Direction|
        t.visited.contains(n) && !is_pending(Some((pos, 0int)), n, d) implies #[trigger] closed_at(
        t.cost,
        env,
        region,
        n,
        d,
    ) by {
        assert(n != pos);
        assert(closed_at(s.cost, env, region, n, d));
    }
    lemma_cells_finite(region);
    lemma_len_subset(t.visited, cells(region).insert(start));
}

/// Looking at a neighbour that cannot be entered, or that was found at no
/// higher cost before, keeps the search in order.
pub(crate) proof fn lemma_pass_over(
    s: Search,
    pos: Point,
    d: Direction,
    start: Point,
    goal: Point,
    env: Map<Point, NodeCost>,
    region: BoundingBox,
)
    requires
        search_inv(s, start, goal, env, region, Some((pos, order(d)))),
        closed_at(s.cost, env, region, pos, d),
    ensures
        search_inv(s, start, goal, env, region, Some((pos, order(d) + 1))),
{
    assert forall|n: Point, e: Direction|
        s.visited.contains(n) && !is_pending(Some((pos, order(d) + 1)), n, e) implies #[trigger]
        closed_at(s.cost, env, region, n, e) by {
        if n == pos && order(e) == order(d) {
            assert(e == d);
        } else {
            assert(!is_pending(Some((pos, order(d))), n, e));
        }
    }
}

/// Lowering the cost of the neighbour `m` of the cell being expanded keeps
/// the search in order.
pub(crate) proof fn lemma_relax(
    s: Search,
    t: Search,
    pos: Point,
    d: Direction,
    m: Point,
    cost: usize,
    entry: State,
    start: Point,
    goal: Point,
    env: Map<Point, NodeCost>,
    region: BoundingBox,
)
    requires
        search_inv(s, start, goal, env, region, Some((pos, order(d)))),
        s.visited.contains(pos),
        Direction::between(pos, m) == Some(d),
        passable(env, region, m),
        cost >= s.cost[pos],
        s.cost.contains_key(m) ==> cost < s.cost[m],
        entry.pos == m,
        t == (Search {
            cost: s.cost.insert(m, cost),
            from: s.from.insert(m, (pos, d)),
            stamps: s.stamps.insert(m, s.clock),
            clock: s.clock + 1,
            open: s.open.push(entry),
            visited: s.visited,
        }),
    ensures
        search_inv(t, start, goal, env, region, Some((pos, order(d) + 1))),
{
    assert(m != start);
    assert(m != pos);
    assert forall|n: Point| #[trigger] t.from.contains_key(n) implies link_ok(t, env, region, n) by {
        if n == m {
        } else {
            assert(link_ok(s, env, region, n));
            let p = s.from[n].0;
            if p == m {
                assert(t.cost[p] < s.cost[p]);
            }
        }
    }
    assert forall|n: Point| #[trigger] t.cost.contains_key(n) implies t.visited.contains(n)
        || waiting(t.open, n) by {
        if n == m {
            assert(t.open[s.open.len() as int].pos == m);
        } else if !s.visited.contains(n) {
            let j = choose|j: int| 0 <= j < s.open.len() && (#[trigger] s.open[j]).pos == n;
            assert(t.open[j] == s.open[j]);
        }
    }
    assert forall|j: int| 0 <= j < t.open.len() implies t.cost.contains_key(
        (#[trigger] t.open[j]).pos,
    ) && (t.open[j].pos == start || region.contains(t.open[j].pos)) by {
        if j < s.open.len() {
            assert(t.open[j] == s.open[j]);
        }
    }
    assert forall|n: Point, e: Direction|
        t.visited.contains(n) && !is_pending(Some((pos, order(d) + 1)), n, e) implies #[trigger]
        closed_at(t.cost, env, region, n, e) by {
        if n == pos && order(e) == order(d) {
            assert(e == d);
        } else {
            assert(!is_pending(Some((pos, order(d))), n, e));
            assert(closed_at(s.cost, env, region, n, e));
        }
    }
}

/// Once the last neighbour of a cell was looked at, the cell is expanded.
pub(crate) proof fn lemma_expanded(
    s: Search,
    pos: Point,
    start: Point,
    goal: Point,
    env: Map<Point, NodeCost>,
    region: BoundingBox,
)
    requires
        search_inv(s, start, goal, env, region, Some((pos, 4int))),
    ensures
        search_inv(s, start, goal, env, region, None),
{
    assert forall|n: Point, d: Direction| s.visited.contains(n) implies #[trigger] closed_at(
        s.cost,
        env,
        region,
        n,
        d,
    ) by {
        assert(!is_pending(Some((pos, 4int)), n, d));
    }
}

/// Where no cell is waiting, every cell of a route from the start was expanded.
pub(crate) proof fn lemma_route_expanded(
    s: Search,
    route: Seq<Point>,
    i: int,
    start: Point,
    goal: Point,
    env: Map<Point, NodeCost>,
    region: BoundingBox,
)
    requires
        search_inv(s, start, goal, env, region, None),
        s.open.len() == 0,
        is_route(route, start, route.last(), env, region),
        0 <= i < route.len(),
    ensures
        s.visited.contains(route[i]),
    decreases i,
{
    if i == 0 {
        assert(s.cost.contains_key(start));
        assert(!waiting(s.open, start));
    } else {
        lemma_route_expanded(s, route, i - 1, start, goal, env, region);
        let a = route[i - 1];
        let b = route[i];
        assert(adjacent(a, b) && passable(env, region, b));
        let d = Direction::between(a, b)->0;
        assert(closed_at(s.cost, env, region, a, d));
        assert(s.cost.contains_key(b));
        assert(!waiting(s.open, b));
    }
}

/// Where no cell is waiting, the goal cannot be reached.
pub(crate) proof fn lemma_exhausted(
    s: Search,
    start: Point,
    goal: Point,
    env: Map<Point, NodeCost>,
    region: BoundingBox,
)
    requires
        search_inv(s, start, goal, env, region, None),
        s.open.len() == 0,
    ensures
        !reachable(start, goal, env, region),
{
    if reachable(start, goal, env, region) {
        let route = choose|route: Seq<Point>| is_route(route, start, goal, env, region);
        lemma_route_expanded(s, route, route.len() - 1, start, goal, env, region);
    }
}


/// True when the neighbour of `pos` in direction `d` was found at no more
/// than what the step from `pos` would make it cost, or cannot be entered.
pub open spec fn settled(
    cost: Map<Point, usize>,
    env: Map<Point, NodeCost>,
    region: BoundingBox,
    pos: Point,
    d: Direction,
    arrived: Option<Direction>,
    so_far: usize,
    bend_penalty: usize,
    group: Option<usize>,
) -> bool {
    forall|m: Point|
        m.x == pos.x + d.dx() && m.y == pos.y + d.dy() && passable(env, region, m)
            ==> #[trigger] cost.contains_key(m) && cost[m] <= capped(
            so_far + step_cost(
                cost_at(env, m)->cost,
                cost_at(env, m)->group,
                arrived,
                d,
                bend_penalty,
                group,
            ),
        )
}

} // verus!
