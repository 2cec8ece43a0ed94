use langton_ant::ant::LangtonsAnt;
use langton_ant::direction::Direction;

fn all_off(size: usize) -> Vec<Vec<bool>> {
    vec![vec![false; size]; size]
}

fn count_on(ant: &LangtonsAnt) -> usize {
    let n = ant.grid_size();
    let mut count = 0;
    for y in 0..n {
        for x in 0..n {
            if ant.cell(x, y) {
                count += 1;
            }
        }
    }
    count
}

#[test]
fn turning_rule_matches_the_table() {
    assert_eq!(Direction::Up.turn(true), Direction::Right);
    assert_eq!(Direction::Up.turn(false), Direction::Left);
    assert_eq!(Direction::Right.turn(true), Direction::Down);
    assert_eq!(Direction::Right.turn(false), Direction::Up);
    assert_eq!(Direction::Down.turn(true), Direction::Left);
    assert_eq!(Direction::Down.turn(false), Direction::Right);
    assert_eq!(Direction::Left.turn(true), Direction::Up);
    assert_eq!(Direction::Left.turn(false), Direction::Down);
}

#[test]
fn fresh_ant_is_all_off_and_faces_up() {
    let ant = LangtonsAnt::at(3, 1, 1);
    assert_eq!(ant.grid_size(), 3);
    assert_eq!((ant.x(), ant.y()), (1, 1));
    assert_eq!(ant.direction(), Direction::Up);
    assert_eq!(count_on(&ant), 0);
}

#[test]
fn first_step_from_the_middle_of_a_three_by_three_grid() {
    // The cell is toggled first and the turn reads its new colour: the
    // middle cell goes on, so the ant turns clockwise from up to right.
    let mut ant = LangtonsAnt::at(3, 1, 1);
    ant.step();
    assert!(ant.cell(1, 1));
    assert_eq!(count_on(&ant), 1);
    assert_eq!(ant.direction(), Direction::Right);
    assert_eq!((ant.x(), ant.y()), (2, 1));
}

#[test]
fn second_step_from_the_middle_of_a_three_by_three_grid() {
    let mut ant = LangtonsAnt::at(3, 1, 1);
    ant.step();
    ant.step();
    assert!(ant.cell(1, 1));
    assert!(ant.cell(2, 1));
    assert_eq!(count_on(&ant), 2);
    assert_eq!(ant.direction(), Direction::Down);
    assert_eq!((ant.x(), ant.y()), (2, 2));
}

#[test]
fn two_steps_from_the_top_left_corner() {
    let mut ant = LangtonsAnt::at(3, 0, 0);
    ant.step();
    assert!(ant.cell(0, 0));
    assert_eq!(ant.direction(), Direction::Right);
    assert_eq!((ant.x(), ant.y()), (1, 0));
    ant.step();
    assert!(ant.cell(0, 0));
    assert!(ant.cell(1, 0));
    assert_eq!(ant.direction(), Direction::Down);
    assert_eq!((ant.x(), ant.y()), (1, 1));
}

#[test]
fn ant_stalls_in_the_top_right_corner_and_undoes_its_toggle() {
    let mut ant = LangtonsAnt::at(3, 2, 0);
    ant.step();
    assert!(ant.cell(2, 0));
    assert_eq!(ant.direction(), Direction::Right);
    assert_eq!((ant.x(), ant.y()), (2, 0));
    ant.step();
    assert!(!ant.cell(2, 0));
    assert_eq!(ant.direction(), Direction::Up);
    assert_eq!((ant.x(), ant.y()), (2, 0));
    assert_eq!(count_on(&ant), 0);
}

#[test]
fn facing_left_in_the_top_left_corner_keeps_column_zero() {
    let mut ant = LangtonsAnt::from_parts(all_off(3), 0, 0, Direction::Left).unwrap();
    ant.step();
    assert!(ant.cell(0, 0));
    assert_eq!(ant.direction(), Direction::Up);
    assert_eq!((ant.x(), ant.y()), (0, 0));
}

#[test]
fn moves_are_dropped_at_each_of_the_four_edges() {
    // Right edge: up turns right on the new "on" cell.
    let mut right = LangtonsAnt::from_parts(all_off(3), 2, 1, Direction::Up).unwrap();
    right.step();
    assert_eq!(right.direction(), Direction::Right);
    assert_eq!((right.x(), right.y()), (2, 1));
    // Bottom edge: right turns down.
    let mut bottom = LangtonsAnt::from_parts(all_off(3), 1, 2, Direction::Right).unwrap();
    bottom.step();
    assert_eq!(bottom.direction(), Direction::Down);
    assert_eq!((bottom.x(), bottom.y()), (1, 2));
    // Left edge: down turns left.
    let mut left = LangtonsAnt::from_parts(all_off(3), 0, 1, Direction::Down).unwrap();
    left.step();
    assert_eq!(left.direction(), Direction::Left);
    assert_eq!((left.x(), left.y()), (0, 1));
    // Top edge: left turns up.
    let mut top = LangtonsAnt::from_parts(all_off(3), 1, 0, Direction::Left).unwrap();
    top.step();
    assert_eq!(top.direction(), Direction::Up);
    assert_eq!((top.x(), top.y()), (1, 0));
}

#[test]
fn an_on_cell_turns_the_ant_counterclockwise_after_its_toggle() {
    let mut grid = all_off(3);
    grid[1][1] = true;
    let mut ant = LangtonsAnt::from_parts(grid, 1, 1, Direction::Up).unwrap();
    ant.step();
    assert!(!ant.cell(1, 1));
    assert_eq!(ant.direction(), Direction::Left);
    assert_eq!((ant.x(), ant.y()), (0, 1));
}

#[test]
fn a_single_cell_grid_keeps_the_ant_in_place() {
    let mut ant = LangtonsAnt::at(1, 0, 0);
    for tick in 1..=8 {
        ant.step();
        assert_eq!((ant.x(), ant.y()), (0, 0));
        assert_eq!(ant.cell(0, 0), tick % 2 == 1);
    }
}

#[test]
fn position_and_grid_size_hold_for_every_reached_state() {
    let mut ant = LangtonsAnt::centered(11);
    for _ in 0..5000 {
        ant.step();
        assert_eq!(ant.grid_size(), 11);
        assert!(ant.x() < 11);
        assert!(ant.y() < 11);
    }
}

#[test]
fn each_step_toggles_exactly_the_cell_under_the_ant() {
    let mut ant = LangtonsAnt::centered(7);
    for _ in 0..300 {
        let n = ant.grid_size();
        let (x, y) = (ant.x(), ant.y());
        let mut before = Vec::new();
        for cy in 0..n {
            for cx in 0..n {
                before.push(ant.cell(cx, cy));
            }
        }
        let count_before = count_on(&ant);
        ant.step();
        for cy in 0..n {
            for cx in 0..n {
                let was = before[cy * n + cx];
                if (cx, cy) == (x, y) {
                    assert_eq!(ant.cell(cx, cy), !was);
                } else {
                    assert_eq!(ant.cell(cx, cy), was);
                }
            }
        }
        let count_after = count_on(&ant);
        if before[y * n + x] {
            assert_eq!(count_after + 1, count_before);
        } else {
            assert_eq!(count_after, count_before + 1);
        }
    }
}

#[test]
fn equal_starts_give_equal_histories() {
    let mut a = LangtonsAnt::at(9, 4, 3);
    let mut b = LangtonsAnt::at(9, 4, 3);
    for _ in 0..400 {
        a.step();
        b.step();
        assert_eq!((a.x(), a.y(), a.direction()), (b.x(), b.y(), b.direction()));
        for y in 0..9 {
            for x in 0..9 {
                assert_eq!(a.cell(x, y), b.cell(x, y));
            }
        }
    }
}

#[test]
fn ten_thousand_ticks_from_the_centre_of_the_full_grid() {
    let mut ant = LangtonsAnt::centered(101);
    assert_eq!((ant.x(), ant.y()), (50, 50));
    for _ in 0..10_000 {
        ant.step();
    }
    let on = count_on(&ant);
    assert!(on > 0);
    assert!(on <= 10_000);
}

#[test]
fn centered_ant_stands_on_the_middle_cell() {
    let ant = LangtonsAnt::centered(4);
    assert_eq!((ant.x(), ant.y()), (2, 2));
    let ant = LangtonsAnt::centered(1);
    assert_eq!((ant.x(), ant.y()), (0, 0));
}

#[test]
fn from_parts_keeps_what_it_is_given() {
    let mut grid = all_off(4);
    grid[3][2] = true;
    let ant = LangtonsAnt::from_parts(grid, 1, 2, Direction::Down).unwrap();
    assert_eq!(ant.grid_size(), 4);
    assert_eq!((ant.x(), ant.y()), (1, 2));
    assert_eq!(ant.direction(), Direction::Down);
    assert!(ant.cell(2, 3));
    assert!(!ant.cell(3, 2));
    assert_eq!(count_on(&ant), 1);
}

#[test]
fn from_parts_refuses_invalid_states() {
    assert!(LangtonsAnt::from_parts(Vec::new(), 0, 0, Direction::Up).is_none());
    assert!(LangtonsAnt::from_parts(all_off(3), 3, 0, Direction::Up).is_none());
    assert!(LangtonsAnt::from_parts(all_off(3), 0, 3, Direction::Up).is_none());
    let ragged = vec![vec![false; 3], vec![false; 2], vec![false; 3]];
    assert!(LangtonsAnt::from_parts(ragged, 0, 0, Direction::Up).is_none());
    let wide = vec![vec![false; 3], vec![false; 3]];
    assert!(LangtonsAnt::from_parts(wide, 0, 0, Direction::Up).is_none());
    assert!(LangtonsAnt::from_parts(all_off(3), 2, 2, Direction::Left).is_some());
}

#[test]
fn new_ant_starts_on_a_random_cell_of_an_all_off_grid() {
    for _ in 0..200 {
        let ant = LangtonsAnt::new(5);
        assert_eq!(ant.grid_size(), 5);
        assert!(ant.x() < 5);
        assert!(ant.y() < 5);
        assert_eq!(ant.direction(), Direction::Up);
        assert_eq!(count_on(&ant), 0);
    }
}

#[test]
fn new_ant_on_a_single_cell_grid_stands_on_that_cell() {
    let ant = LangtonsAnt::new(1);
    assert_eq!((ant.x(), ant.y()), (0, 0));
}

#[test]
fn new_ants_do_not_all_start_on_the_same_cell() {
    let first = LangtonsAnt::new(101);
    let mut differs = false;
    for _ in 0..200 {
        let other = LangtonsAnt::new(101);
        if (other.x(), other.y()) != (first.x(), first.y()) {
            differs = true;
        }
    }
    assert!(differs);
}
