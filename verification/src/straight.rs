//! Searching along a clear line: between two cells of one row or column,
//! where the cells between them are free or cost one unit and no other cell
//! costs less than one, the search walks the straight line.

use vstd::prelude::*;
use crate::geometry::{fits_isize, BoundingBox, Point};
use crate::glyph::Direction;
use crate::router::{capped, cost_at, manhattan, passable, step_cost, NodeCost, State};
use crate::search::{order, settled, Search};

verus! {

/// `i` unit steps of `step`, which is -1, 0 or 1.
pub open spec fn steps(step: int, i: int) -> int {
    if step == 0 {
        0
    } else if step > 0 {
        i
    } else {
        -i
    }
}

/// The `n + 1` cells from `start` on in direction `d`.
pub open spec fn straight(start: Point, d: Direction, n: nat) -> Seq<Point> {
    Seq::new(
        n + 1,
        |i: int|
            Point {
                x: (start.x + steps(d.dx(), i)) as isize,
                y: (start.y + steps(d.dy(), i)) as isize,
            },
    )
}

/// What a route of group `group` pays to enter `p` without a bend: nothing
/// for a cell of its own group, and else what the cell declares.
pub open spec fn price(env: Map<Point, NodeCost>, group: Option<usize>, p: Point) -> int {
    match cost_at(env, p) {
        NodeCost::Cost { cost, group: cell_group } => if cell_group is Some && cell_group == group {
            0
        } else {
            cost as int
        },
        NodeCost::Blocked => 0,
    }
}

/// True when `p` is one of the `n + 1` cells from `start` on in direction `d`.
pub open spec fn on_line(start: Point, d: Direction, n: nat, p: Point) -> bool {
    exists|j: int| 0 <= j <= n && #[trigger] straight(start, d, n)[j] == p
}

/// True when the goal lies `n` steps from the start in direction `d`, both
/// in the region; every cell of the line after the start can be entered
/// and is free or costs one unit; and every other cell of the region is
/// blocked or costs at least one unit.
pub open spec fn clear_line(
    start: Point,
    goal: Point,
    d: Direction,
    n: nat,
    env: Map<Point, NodeCost>,
    region: BoundingBox,
    group: Option<usize>,
) -> bool {
    &&& fits_isize(start.x + steps(d.dx(), n as int))
    &&& fits_isize(start.y + steps(d.dy(), n as int))
    &&& n + 2 <= usize::MAX
    &&& goal == straight(start, d, n)[n as int]
    &&& region.contains(start)
    &&& region.contains(goal)
    &&& forall|j: int|
        1 <= j <= n ==> cost_at(env, #[trigger] straight(start, d, n)[j]) is Cost && price(
            env,
            group,
            straight(start, d, n)[j],
        ) <= 1
    &&& forall|p: Point| #[trigger]
        region.contains(p) && !on_line(start, d, n, p) ==> cost_at(env, p) is Blocked || price(
            env,
            group,
            p,
        ) >= 1
}

/// True when the goal lies `n` steps from the start in direction `d`, both
/// in the region, and no cost is declared for any cell of the region.
pub open spec fn open_line(
    start: Point,
    goal: Point,
    d: Direction,
    n: nat,
    env: Map<Point, NodeCost>,
    region: BoundingBox,
) -> bool {
    &&& fits_isize(start.x + steps(d.dx(), n as int))
    &&& fits_isize(start.y + steps(d.dy(), n as int))
    &&& n + 2 <= usize::MAX
    &&& goal == straight(start, d, n)[n as int]
    &&& region.contains(start)
    &&& region.contains(goal)
    &&& forall|p: Point| region.contains(p) ==> !#[trigger] env.contains_key(p)
}

/// A line through a region in which no cost is declared is clear, for a
/// route of any group.
pub proof fn lemma_open_line_is_clear(
    start: Point,
    goal: Point,
    d: Direction,
    n: nat,
    env: Map<Point, NodeCost>,
    region: BoundingBox,
    group: Option<usize>,
)
    requires
        open_line(start, goal, d, n, env, region),
    ensures
        clear_line(start, goal, d, n, env, region, group),
{
    assert forall|j: int| 1 <= j <= n implies cost_at(env, #[trigger] straight(start, d, n)[j]) is Cost
        && price(env, group, straight(start, d, n)[j]) <= 1 by {
        lemma_line_in_region(start, d, n, region, j);
        assert(!env.contains_key(straight(start, d, n)[j]));
    }
    assert forall|p: Point| #[trigger] region.contains(p) && !on_line(start, d, n, p) implies cost_at(
        env,
        p,
    ) is Blocked || price(env, group, p) >= 1 by {
        assert(!env.contains_key(p));
    }
}

/// A line and what a route of a group pays along it.
pub struct Line {
    pub start: Point,
    pub d: Direction,
    pub n: nat,
    pub env: Map<Point, NodeCost>,
    pub group: Option<usize>,
}

impl Line {
    /// The cells of the line.
    pub open spec fn cells(self) -> Seq<Point> {
        straight(self.start, self.d, self.n)
    }

    /// What the route pays from the start to the `j`-th cell.
    pub open spec fn cost_to(self, j: int) -> int
        decreases j,
    {
        if j <= 0 {
            0
        } else {
            self.cost_to(j - 1) + price(self.env, self.group, self.cells()[j])
        }
    }

    /// The order of the `k`-th cell in the search: what the route pays to
    /// it, and the number of steps left.
    pub open spec fn priority(self, k: int) -> int {
        self.cost_to(k) + self.n - k
    }
}

/// The direction in which the `k`-th cell of a straight line is entered.
pub open spec fn line_dir(d: Direction, k: int) -> Option<Direction> {
    if k == 0 {
        None
    } else {
        Some(d)
    }
}

/// True when `e` is the entry that the search makes for the `k`-th cell of
/// the line.
pub open spec fn is_line_entry(e: State, line: Line, k: int) -> bool {
    e.pos == line.cells()[k] && e.cost == line.priority(k) && e.dir == line_dir(line.d, k)
}

/// True when the `j`-th cell of the line was found along the line: at what
/// the route pays to it, and from the cell before it.
pub open spec fn found_at(s: Search, line: Line, j: int) -> bool {
    &&& s.cost.contains_key(line.cells()[j])
    &&& s.cost[line.cells()[j]] == line.cost_to(j)
    &&& j >= 1 ==> s.from.contains_key(line.cells()[j]) && s.from[line.cells()[j]] == (
        line.cells()[j - 1],
        line.d,
    )
}

/// True when the cells of the line up to the `k`-th were found along the line.
pub open spec fn line_found(s: Search, line: Line, k: int) -> bool {
    forall|j: int| 0 <= j <= k ==> #[trigger] found_at(s, line, j)
}

/// True when the `j`-th cell of the line was not found.
pub open spec fn ahead_at(s: Search, line: Line, j: int) -> bool {
    !s.cost.contains_key(line.cells()[j])
}

/// True when no cell of the line beyond the `k`-th was found.
pub open spec fn line_ahead(s: Search, line: Line, k: int) -> bool {
    forall|j: int| k < j <= line.n ==> #[trigger] ahead_at(s, line, j)
}

/// True when the `j`-th cell of the line was expanded.
pub open spec fn seen_at(s: Search, line: Line, j: int) -> bool {
    s.visited.contains(line.cells()[j])
}

/// True when the cells of the line before the `k`-th were expanded and no others.
pub open spec fn line_seen(s: Search, line: Line, k: int) -> bool {
    forall|j: int| 0 <= j <= line.n ==> (#[trigger] seen_at(s, line, j) <==> j < k)
}

/// True when every waiting entry costs more than `least`.
pub open spec fn all_dearer(open: Seq<State>, least: int) -> bool {
    forall|i: int| 0 <= i < open.len() ==> (#[trigger] open[i]).cost > least
}

/// True when the entry for the `k`-th cell of the line is the one entry of
/// least cost.
pub open spec fn line_entry_leads(s: Search, line: Line, k: int) -> bool {
    exists|i: int|
        0 <= i < s.open.len() && is_line_entry(#[trigger] s.open[i], line, k) && forall|j: int|
            0 <= j < s.open.len() && j != i ==> (#[trigger] s.open[j]).cost > line.priority(k)
}

/// What holds between two expansions of a search along a clear line, of
/// which the cells before the `k`-th were expanded.
pub open spec fn line_inv(s: Search, line: Line, k: int) -> bool {
    &&& 0 <= k <= line.n
    &&& line_found(s, line, k)
    &&& line_seen(s, line, k)
    &&& line_ahead(s, line, k)
    &&& line_entry_leads(s, line, k)
}

/// What holds while the `k`-th cell of a clear line is expanded, once the
/// directions before the one at position `next` were looked at.
pub open spec fn line_mid(s: Search, line: Line, k: int, next: int) -> bool {
    &&& 0 <= k < line.n
    &&& line_found(s, line, k)
    &&& line_seen(s, line, k + 1)
    &&& if order(line.d) < next {
        &&& line_found(s, line, k + 1)
        &&& line_ahead(s, line, k + 1)
        &&& line_entry_leads(s, line, k + 1)
    } else {
        &&& line_ahead(s, line, k)
        &&& all_dearer(s.open, line.priority(k))
    }
}

/// The cells of a straight line are as far from its ends as their places say.
pub(crate) proof fn lemma_line_distances(start: Point, d: Direction, n: nat, j: int)
    requires
        fits_isize(start.x + steps(d.dx(), n as int)),
        fits_isize(start.y + steps(d.dy(), n as int)),
        0 <= j <= n,
    ensures
        straight(start, d, n)[j].x == start.x + steps(d.dx(), j),
        straight(start, d, n)[j].y == start.y + steps(d.dy(), j),
        manhattan(start, straight(start, d, n)[j]) == j,
        manhattan(straight(start, d, n)[j], straight(start, d, n)[n as int]) == n - j,
{
}

/// A region that holds both ends of a straight line holds all of it.
pub(crate) proof fn lemma_line_in_region(start: Point, d: Direction, n: nat, region: BoundingBox, j: int)
    requires
        fits_isize(start.x + steps(d.dx(), n as int)),
        fits_isize(start.y + steps(d.dy(), n as int)),
        region.contains(start),
        region.contains(straight(start, d, n)[n as int]),
        0 <= j <= n,
    ensures
        region.contains(straight(start, d, n)[j]),
{
}

/// Along a clear line each step costs nothing or one unit, so the order of
/// the cells in the search does not rise along the line.
pub(crate) proof fn lemma_line_costs(line: Line, goal: Point, region: BoundingBox, j: int)
    requires
        clear_line(line.start, goal, line.d, line.n, line.env, region, line.group),
        0 <= j <= line.n,
    ensures
        0 <= line.cost_to(j) <= j,
        j >= 1 ==> line.cost_to(j - 1) <= line.cost_to(j) <= line.cost_to(j - 1) + 1,
        j >= 1 ==> line.priority(j) <= line.priority(j - 1),
        0 <= line.priority(j) <= line.n,
    decreases j,
{
    if j >= 1 {
        lemma_line_costs(line, goal, region, j - 1);
        assert(price(line.env, line.group, line.cells()[j]) <= 1);
    }
}

/// Two descriptions of one clear line describe the same cells.
pub(crate) proof fn lemma_clear_line_unique(
    start: Point,
    goal: Point,
    d1: Direction,
    n1: nat,
    d2: Direction,
    n2: nat,
    env: Map<Point, NodeCost>,
    region: BoundingBox,
    group: Option<usize>,
)
    requires
        clear_line(start, goal, d1, n1, env, region, group),
        clear_line(start, goal, d2, n2, env, region, group),
    ensures
        straight(start, d1, n1) == straight(start, d2, n2),
{
    lemma_line_distances(start, d1, n1, n1 as int);
    lemma_line_distances(start, d2, n2, n2 as int);
    assert(n1 == n2);
    if n1 > 0 {
        assert(d1 == d2);
    }
    assert(straight(start, d1, n1) =~= straight(start, d2, n2));
}

/// A search along a clear line starts in order.
pub(crate) proof fn lemma_line_init(s: Search, line: Line, goal: Point, region: BoundingBox)
    requires
        clear_line(line.start, goal, line.d, line.n, line.env, region, line.group),
        s.cost == Map::<Point, usize>::empty().insert(line.start, 0usize),
        s.visited == Set::<Point>::empty(),
        s.open == seq![State { cost: capped(manhattan(line.start, goal)), pos: line.start, dir: None }],
    ensures
        line_inv(s, line, 0),
{
    lemma_line_distances(line.start, line.d, line.n, 0);
    assert(found_at(s, line, 0));
    assert forall|j: int| 0 < j <= line.n implies #[trigger] ahead_at(s, line, j) by {
        lemma_line_distances(line.start, line.d, line.n, j);
    }
    assert(is_line_entry(s.open[0], line, 0));
}

/// The entry of least cost is the one for the next cell of the line.
pub(crate) proof fn lemma_line_pop(s: Search, line: Line, k: int, at: int)
    requires
        line_inv(s, line, k),
        0 <= at < s.open.len(),
        forall|j: int| 0 <= j < s.open.len() ==> s.open[at].cost <= (#[trigger] s.open[j]).cost,
    ensures
        is_line_entry(s.open[at], line, k),
        all_dearer(s.open.remove(at), line.priority(k)),
        !s.visited.contains(s.open[at].pos),
        s.cost.contains_key(s.open[at].pos),
        s.cost[s.open[at].pos] == line.cost_to(k),
{
    let i = choose|i: int|
        0 <= i < s.open.len() && is_line_entry(#[trigger] s.open[i], line, k) && forall|j: int|
            0 <= j < s.open.len() && j != i ==> (#[trigger] s.open[j]).cost > line.priority(k);
    assert(s.open[at].cost <= s.open[i].cost);
    assert(at == i);
    assert forall|j: int| 0 <= j < s.open.remove(at).len() implies (#[trigger] s.open.remove(
        at,
    )[j]).cost > line.priority(k) by {
        if j < at {
            assert(s.open.remove(at)[j] == s.open[j]);
        } else {
            assert(s.open.remove(at)[j] == s.open[j + 1]);
        }
    }
    assert(!seen_at(s, line, k));
    assert(found_at(s, line, k));
}

/// Expanding the next cell of the line begins in order.
pub(crate) proof fn lemma_line_visit(s: Search, t: Search, line: Line, k: int)
    requires
        line_inv(s, line, k),
        k < line.n,
        all_dearer(t.open, line.priority(k)),
        t.cost == s.cost,
        t.from == s.from,
        t.visited == s.visited.insert(line.cells()[k]),
        fits_isize(line.start.x + steps(line.d.dx(), line.n as int)),
        fits_isize(line.start.y + steps(line.d.dy(), line.n as int)),
    ensures
        line_mid(t, line, k, 0),
{
    assert forall|j: int| 0 <= j <= k implies #[trigger] found_at(t, line, j) by {
        assert(found_at(s, line, j));
    }
    assert forall|j: int| 0 <= j <= line.n implies (#[trigger] seen_at(t, line, j) <==> j < k + 1) by {
        assert(seen_at(s, line, j) <==> j < k);
        lemma_line_distances(line.start, line.d, line.n, j);
        lemma_line_distances(line.start, line.d, line.n, k);
    }
    assert forall|j: int| k < j <= line.n implies #[trigger] ahead_at(t, line, j) by {
        assert(ahead_at(s, line, j));
    }
}

/// Looking at a neighbour of the `k`-th cell of the line without lowering
/// its cost keeps the search along the line in order; toward the goal this
/// does not happen.
pub(crate) proof fn lemma_line_pass(
    s: Search,
    line: Line,
    goal: Point,
    k: int,
    e: Direction,
    region: BoundingBox,
    bend_penalty: usize,
)
    requires
        clear_line(line.start, goal, line.d, line.n, line.env, region, line.group),
        line_mid(s, line, k, order(e)),
        settled(
            s.cost,
            line.env,
            region,
            line.cells()[k],
            e,
            line_dir(line.d, k),
            line.cost_to(k) as usize,
            bend_penalty,
            line.group,
        ),
    ensures
        line_mid(s, line, k, order(e) + 1),
{
    if e == line.d {
        let m = line.cells()[k + 1];
        lemma_line_distances(line.start, line.d, line.n, k);
        lemma_line_distances(line.start, line.d, line.n, k + 1);
        lemma_line_in_region(line.start, line.d, line.n, region, k + 1);
        assert(cost_at(line.env, m) is Cost);
        assert(passable(line.env, region, m));
        assert(s.cost.contains_key(m));
        assert(ahead_at(s, line, k + 1));
        assert(false);
    }
}

/// Where the neighbours of the `k`-th cell of a line lie: the one toward
/// the goal is the next cell of the line, and any other is farther from
/// the goal and is no cell of the line but, at most, the cell before.
proof fn lemma_line_neighbour(start: Point, d: Direction, n: nat, k: int, e: Direction, m: Point, j: int)
    requires
        fits_isize(start.x + steps(d.dx(), n as int)),
        fits_isize(start.y + steps(d.dy(), n as int)),
        0 <= k < n,
        0 <= j <= n,
        Direction::between(straight(start, d, n)[k], m) == Some(e),
    ensures
        straight(start, d, n)[j] == m ==> (e == d && j == k + 1) || (e != d && j == k - 1),
        e == d ==> m == straight(start, d, n)[k + 1] && manhattan(m, straight(start, d, n)[n as int])
            == n - k - 1,
        e != d ==> manhattan(m, straight(start, d, n)[n as int]) >= n - k + 1,
{
    lemma_line_distances(start, d, n, k);
    lemma_line_distances(start, d, n, j);
    lemma_line_distances(start, d, n, k + 1);
    lemma_line_distances(start, d, n, n as int);
}

/// Lowering the cost of a neighbour of the `k`-th cell of the line keeps
/// the search along the line in order: toward the goal it finds the next
/// cell of the line, and any other way a cell that comes later in the search.
pub(crate) proof fn lemma_line_relax(
    s: Search,
    t: Search,
    line: Line,
    goal: Point,
    k: int,
    e: Direction,
    m: Point,
    cost: usize,
    entry: State,
    region: BoundingBox,
    bend_penalty: usize,
)
    requires
        clear_line(line.start, goal, line.d, line.n, line.env, region, line.group),
        line_mid(s, line, k, order(e)),
        Direction::between(line.cells()[k], m) == Some(e),
        passable(line.env, region, m),
        cost == capped(
            line.cost_to(k) + step_cost(
                cost_at(line.env, m)->cost,
                cost_at(line.env, m)->group,
                line_dir(line.d, k),
                e,
                bend_penalty,
                line.group,
            ),
        ),
        s.cost.contains_key(m) ==> cost < s.cost[m],
        entry == (State { cost: capped(cost + capped(manhattan(m, goal))), pos: m, dir: Some(e) }),
        t.cost == s.cost.insert(m, cost),
        t.from == s.from.insert(m, (line.cells()[k], e)),
        t.open == s.open.push(entry),
        t.visited == s.visited,
    ensures
        line_mid(t, line, k, order(e) + 1),
{
    let cells = line.cells();
    let d = line.d;
    let n = line.n;
    lemma_line_costs(line, goal, region, k);
    lemma_line_costs(line, goal, region, k + 1);
    lemma_line_neighbour(line.start, d, n, k, e, m, k + 1);
    assert(goal == cells[n as int]);
    assert(found_at(s, line, k));
    if k >= 1 {
        lemma_line_costs(line, goal, region, k - 1);
        assert(found_at(s, line, k - 1));
    }
    assert forall|j: int| 0 <= j <= n implies (#[trigger] cells[j] == m <==> (e == d && j == k + 1)) by {
        lemma_line_neighbour(line.start, d, n, k, e, m, j);
    }
    assert forall|j: int| 0 <= j <= k implies #[trigger] found_at(t, line, j) by {
        assert(found_at(s, line, j));
        assert(cells[j] == m <==> (e == d && j == k + 1));
        if j >= 1 {
            assert(cells[j - 1] == m <==> (e == d && j - 1 == k + 1));
        }
    }
    assert forall|j: int| 0 <= j <= n implies (#[trigger] seen_at(t, line, j) <==> j < k + 1) by {
        assert(seen_at(s, line, j) <==> j < k + 1);
    }
    if e == d {
        assert(m == cells[k + 1]);
        assert(cost == line.cost_to(k + 1));
        assert(manhattan(m, goal) == n - k - 1);
        assert(entry.cost == line.priority(k + 1));
        assert forall|j: int| 0 <= j <= k + 1 implies #[trigger] found_at(t, line, j) by {
            if j <= k {
                assert(found_at(t, line, j));
            }
        }
        assert forall|j: int| k + 1 < j <= n implies #[trigger] ahead_at(t, line, j) by {
            assert(ahead_at(s, line, j));
            assert(cells[j] == m <==> (e == d && j == k + 1));
        }
        let i = s.open.len() as int;
        assert(is_line_entry(t.open[i], line, k + 1));
        assert forall|j: int| 0 <= j < t.open.len() && j != i implies (#[trigger] t.open[j]).cost
            > line.priority(k + 1) by {
            assert(t.open[j] == s.open[j]);
        }
    } else {
        assert(!on_line(line.start, d, n, m)) by {
            if on_line(line.start, d, n, m) {
                let j = choose|j: int| 0 <= j <= n && #[trigger] straight(line.start, d, n)[j] == m;
                assert(cells[j] == m <==> (e == d && j == k + 1));
            }
        }
        assert(price(line.env, line.group, m) >= 1);
        assert(cost >= line.cost_to(k) + 1);
        assert(manhattan(m, goal) >= n - k + 1);
        assert(entry.cost >= line.priority(k) + 2);
        if order(d) < order(e) {
            assert forall|j: int| 0 <= j <= k + 1 implies #[trigger] found_at(t, line, j) by {
                assert(found_at(s, line, j));
                assert(cells[j] == m <==> (e == d && j == k + 1));
                if j >= 1 {
                    assert(cells[j - 1] == m <==> (e == d && j - 1 == k + 1));
                }
            }
            assert forall|j: int| k + 1 < j <= n implies #[trigger] ahead_at(t, line, j) by {
                assert(ahead_at(s, line, j));
                assert(cells[j] == m <==> (e == d && j == k + 1));
            }
            let i = choose|i: int|
                0 <= i < s.open.len() && is_line_entry(#[trigger] s.open[i], line, k + 1)
                    && forall|j: int|
                    0 <= j < s.open.len() && j != i ==> (#[trigger] s.open[j]).cost > line.priority(
                        k + 1,
                    );
            assert(t.open[i] == s.open[i]);
            assert(is_line_entry(t.open[i], line, k + 1));
            assert forall|j: int| 0 <= j < t.open.len() && j != i implies (#[trigger] t.open[j]).cost
                > line.priority(k + 1) by {
                if j < s.open.len() {
                    assert(t.open[j] == s.open[j]);
                }
            }
        } else {
            assert forall|j: int| k < j <= n implies #[trigger] ahead_at(t, line, j) by {
                assert(ahead_at(s, line, j));
                assert(cells[j] == m <==> (e == d && j == k + 1));
            }
            assert forall|i: int| 0 <= i < t.open.len() implies (#[trigger] t.open[i]).cost
                > line.priority(k) by {
                if i < s.open.len() {
                    assert(t.open[i] == s.open[i]);
                }
            }
        }
    }
}

/// Once the last neighbour of the `k`-th cell of the line was looked at,
/// the search is in order for the next cell.
pub(crate) proof fn lemma_line_done(s: Search, line: Line, k: int)
    requires
        line_mid(s, line, k, 4),
    ensures
        line_inv(s, line, k + 1),
{
}

/// The route traced back from the goal of a clear line is the line.
pub(crate) proof fn lemma_trace_is_line(
    s: Search,
    route: Seq<Point>,
    line: Line,
    goal: Point,
    region: BoundingBox,
)
    requires
        clear_line(line.start, goal, line.d, line.n, line.env, region, line.group),
        line_inv(s, line, line.n as int),
        !s.from.contains_key(line.start),
        route.len() >= 1,
        route[0] == line.start,
        route.last() == goal,
        forall|i: int|
            0 < i < route.len() ==> s.from.contains_key(#[trigger] route[i]) && s.from[route[i]].0
                == route[i - 1],
    ensures
        route == line.cells(),
{
    let cells = line.cells();
    let n = line.n;
    let last = route.len() - 1;
    let common = if last < n {
        last
    } else {
        n as int
    };
    lemma_trace_steps(s, route, line, common);
    lemma_line_distances(line.start, line.d, n, 0);
    if last > n {
        assert(route[last - n] == cells[0]);
        assert(s.from.contains_key(route[last - n]));
    }
    if last < n {
        assert(route[0] == cells[n - last]);
        lemma_line_distances(line.start, line.d, n, n - last);
    }
    assert forall|i: int| 0 <= i < route.len() implies route[i] == cells[i] by {
        lemma_trace_steps(s, route, line, n - i);
    }
    assert(route =~= cells);
}

proof fn lemma_trace_steps(s: Search, route: Seq<Point>, line: Line, j: int)
    requires
        line_found(s, line, line.n as int),
        route.len() >= 1,
        route.last() == line.cells()[line.n as int],
        forall|i: int|
            0 < i < route.len() ==> s.from.contains_key(#[trigger] route[i]) && s.from[route[i]].0
                == route[i - 1],
        0 <= j <= line.n,
        j <= route.len() - 1,
    ensures
        route[route.len() - 1 - j] == line.cells()[line.n - j],
    decreases j,
{
    if j > 0 {
        lemma_trace_steps(s, route, line, j - 1);
        let i = route.len() - j;
        assert(route[i] == line.cells()[line.n - j + 1]);
        assert(s.from[route[i]].0 == route[i - 1]);
        assert(found_at(s, line, line.n - j + 1));
    }
}

} // verus!
