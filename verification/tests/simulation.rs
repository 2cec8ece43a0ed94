use langton_ant::ant::LangtonsAnt;
use langton_ant::direction::Direction;
use langton_ant::simulation::{initialize_ants, perform_steps};

#[test]
fn initialize_ants_makes_the_requested_number_of_fresh_ants() {
    let ants = initialize_ants(10, 101);
    assert_eq!(ants.len(), 10);
    for ant in &ants {
        assert_eq!(ant.grid_size(), 101);
        assert!(ant.x() < 101);
        assert!(ant.y() < 101);
        assert_eq!(ant.direction(), Direction::Up);
        for y in 0..101 {
            for x in 0..101 {
                assert!(!ant.cell(x, y));
            }
        }
    }
}

#[test]
fn initialize_ants_with_no_ants_gives_an_empty_simulation() {
    assert!(initialize_ants(0, 101).is_empty());
    assert!(initialize_ants(0, 0).is_empty());
}

#[test]
fn perform_steps_advances_every_ant_by_one_tick() {
    let mut ants = vec![
        LangtonsAnt::at(3, 1, 1),
        LangtonsAnt::at(3, 0, 0),
        LangtonsAnt::at(3, 2, 0),
    ];
    perform_steps(&mut ants);
    assert_eq!(ants.len(), 3);
    assert_eq!((ants[0].x(), ants[0].y(), ants[0].direction()), (2, 1, Direction::Right));
    assert_eq!((ants[1].x(), ants[1].y(), ants[1].direction()), (1, 0, Direction::Right));
    assert_eq!((ants[2].x(), ants[2].y(), ants[2].direction()), (2, 0, Direction::Right));
    assert!(ants[0].cell(1, 1));
    assert!(ants[1].cell(0, 0));
    assert!(ants[2].cell(2, 0));
    // Each ant writes its own grid only.
    assert!(!ants[0].cell(0, 0));
    assert!(!ants[1].cell(1, 1));
    assert!(!ants[2].cell(1, 1));
}

#[test]
fn perform_steps_agrees_with_stepping_each_ant_alone() {
    let mut together = vec![LangtonsAnt::at(9, 4, 4), LangtonsAnt::at(9, 0, 8)];
    let mut first = LangtonsAnt::at(9, 4, 4);
    let mut second = LangtonsAnt::at(9, 0, 8);
    for _ in 0..250 {
        perform_steps(&mut together);
        first.step();
        second.step();
    }
    let alone = [first, second];
    for i in 0..2 {
        assert_eq!(together[i].x(), alone[i].x());
        assert_eq!(together[i].y(), alone[i].y());
        assert_eq!(together[i].direction(), alone[i].direction());
        for y in 0..9 {
            for x in 0..9 {
                assert_eq!(together[i].cell(x, y), alone[i].cell(x, y));
            }
        }
    }
}

#[test]
fn perform_steps_on_no_ants_does_nothing() {
    let mut ants: Vec<LangtonsAnt> = Vec::new();
    perform_steps(&mut ants);
    assert!(ants.is_empty());
}
