use textdraw::error::Error;
use textdraw::geometry::{BoundingBox, Point};
use textdraw::glyph::Direction;
use textdraw::route_cost::path_cost;
use textdraw::router::{astar, heuristic, tentative_cost, NodeCost};
use textdraw::PointMap;

fn region() -> BoundingBox {
    BoundingBox::new(4, 8, -4, -2)
}

fn is_simple(route: &Vec<Point>) -> bool {
    (0..route.len()).all(|i| !route[i + 1..].contains(&route[i]))
}

fn is_connected(route: &Vec<Point>) -> bool {
    route.windows(2).all(|w| (w[0].x - w[1].x).abs() + (w[0].y - w[1].y).abs() == 1)
}

#[test]
fn straight_route_costs_the_manhattan_distance() {
    let env: PointMap<NodeCost> = PointMap::new();
    let start = Point::new(0, 0);
    let goal = Point::new(5, 0);
    let route = astar(start, goal, &env, 1, region(), None).unwrap();
    assert_eq!(route, (0..=5).map(|x| Point::new(x, 0)).collect::<Vec<_>>());
    assert_eq!(route.len(), 6);
    assert_eq!(path_cost(&route, &env, 1, None), 5);
    assert_eq!(heuristic(start, goal), 5);

    let up = astar(Point::new(1, -3), Point::new(1, 3), &env, 7, region(), None).unwrap();
    assert_eq!(up.len(), 7);
    assert_eq!(path_cost(&up, &env, 7, None), 6);
}

#[test]
fn blocked_cell_forces_a_bend() {
    let mut env: PointMap<NodeCost> = PointMap::new();
    env.insert(Point::new(2, 0), NodeCost::Blocked);
    let start = Point::new(0, 0);
    let goal = Point::new(5, 0);
    for bend in [0usize, 1, 5] {
        let route = astar(start, goal, &env, bend, region(), None).unwrap();
        assert_eq!(route[0], start);
        assert_eq!(*route.last().unwrap(), goal);
        assert!(is_connected(&route));
        assert!(is_simple(&route));
        assert!(!route.contains(&Point::new(2, 0)));
        assert!(route.iter().any(|p| p.y != 0));
        assert!(path_cost(&route, &env, bend, None) >= 5 + bend);
    }
}

#[test]
fn cells_of_the_own_group_are_free() {
    let mut env: PointMap<NodeCost> = PointMap::new();
    for x in 1..5 {
        env.insert(Point::new(x, 0), NodeCost::Cost { cost: 100, group: Some(7) });
    }
    let start = Point::new(0, 0);
    let goal = Point::new(5, 0);
    let own = astar(start, goal, &env, 1, region(), Some(7)).unwrap();
    assert_eq!(own, (0..=5).map(|x| Point::new(x, 0)).collect::<Vec<_>>());
    assert_eq!(path_cost(&own, &env, 1, Some(7)), 1);
    assert_eq!(path_cost(&own, &env, 1, Some(8)), 401);
    assert_eq!(path_cost(&own, &env, 1, None), 401);

    let other = astar(start, goal, &env, 1, region(), None).unwrap();
    assert!(path_cost(&other, &env, 1, None) < 401);
    assert!(other.iter().any(|p| p.y != 0));
}

#[test]
fn step_costs_follow_the_rules() {
    let right = Direction::Right;
    assert_eq!(tentative_cost(10, 3, None, None, right, 5, None), 13);
    assert_eq!(tentative_cost(10, 3, None, Some(Direction::Right), right, 5, None), 13);
    assert_eq!(tentative_cost(10, 3, None, Some(Direction::Up), right, 5, None), 18);
    assert_eq!(tentative_cost(10, 100, Some(2), Some(Direction::Up), right, 5, Some(2)), 10);
    assert_eq!(tentative_cost(10, 100, Some(2), Some(Direction::Up), right, 5, Some(3)), 115);
    assert_eq!(tentative_cost(10, 100, None, Some(Direction::Up), right, 5, None), 115);
    assert_eq!(tentative_cost(usize::MAX - 1, 100, None, None, right, 5, None), usize::MAX);
}

#[test]
fn enclosed_goal_has_no_path() {
    let mut env: PointMap<NodeCost> = PointMap::new();
    let goal = Point::new(3, 0);
    for (dx, dy) in [(0, 1), (1, 0), (0, -1), (-1, 0)] {
        env.insert(Point::new(goal.x + dx, goal.y + dy), NodeCost::Blocked);
    }
    let r = astar(Point::new(0, 0), goal, &env, 1, region(), None);
    assert_eq!(r, Err(Error::NoPath));
    assert_eq!(Error::NoPath.message(), "no path found");
}

#[test]
fn goal_outside_the_region_has_no_path() {
    let env: PointMap<NodeCost> = PointMap::new();
    let r = astar(Point::new(0, 0), Point::new(20, 0), &env, 1, region(), None);
    assert_eq!(r, Err(Error::NoPath));
}

#[test]
fn start_that_is_the_goal_is_a_route_of_one_cell() {
    let env: PointMap<NodeCost> = PointMap::new();
    let p = Point::new(2, 2);
    assert_eq!(astar(p, p, &env, 1, region(), None), Ok(vec![p]));
}

#[test]
fn expensive_cells_are_avoided() {
    let mut env: PointMap<NodeCost> = PointMap::new();
    env.insert(Point::new(1, 0), NodeCost::Cost { cost: 50, group: None });
    let route = astar(Point::new(0, 0), Point::new(2, 0), &env, 1, region(), None).unwrap();
    assert!(!route.contains(&Point::new(1, 0)));
    assert!(is_connected(&route));
    assert_eq!(NodeCost::from_weight(None), NodeCost::Blocked);
    assert_eq!(NodeCost::from_weight(Some(4)), NodeCost::Cost { cost: 4, group: None });
    assert_eq!(
        NodeCost::from_weight_and_group(Some(4), Some(1)),
        NodeCost::Cost { cost: 4, group: Some(1) }
    );
}

#[test]
fn leaving_a_cell_of_the_own_group_is_not_free() {
    let mut env: PointMap<NodeCost> = PointMap::new();
    env.insert(Point::new(1, 0), NodeCost::Cost { cost: 100, group: Some(7) });
    let turn = vec![Point::new(0, 0), Point::new(1, 0), Point::new(1, 1)];
    assert_eq!(path_cost(&turn, &env, 5, Some(7)), 6);
    let ahead = vec![Point::new(0, 0), Point::new(1, 0), Point::new(2, 0)];
    assert_eq!(path_cost(&ahead, &env, 5, Some(7)), 1);
    assert_eq!(path_cost(&ahead, &env, 5, None), 101);
    assert_eq!(path_cost(&turn, &env, 5, None), 106);
    assert_eq!(path_cost(&vec![Point::new(0, 0)], &env, 5, None), 0);
    assert_eq!(tentative_cost(0, 1, None, Some(Direction::Right), Direction::Up, 5, Some(7)), 6);
}

#[test]
fn route_stays_inside_the_region() {
    let mut env: PointMap<NodeCost> = PointMap::new();
    for y in -1..=0 {
        env.insert(Point::new(2, y), NodeCost::Blocked);
    }
    let narrow = BoundingBox::new(1, 4, -1, 0);
    let route = astar(Point::new(0, 0), Point::new(4, 0), &env, 1, narrow, None).unwrap();
    assert!(route.iter().all(|p| narrow.contains_point(p)));
    assert!(route.contains(&Point::new(2, 1)));
    assert!(is_connected(&route));
    env.insert(Point::new(2, 1), NodeCost::Blocked);
    assert_eq!(astar(Point::new(0, 0), Point::new(4, 0), &env, 1, narrow, None), Err(Error::NoPath));
}
