use invaders::frame::Field;
use invaders::invaders::{Direction, Invader, Invaders};

const MS: u64 = 1_000_000;

fn field(cols: usize, rows: usize) -> Field {
    Field::new(cols, rows).unwrap()
}

fn cells(invaders: &Invaders) -> Vec<(usize, usize)> {
    invaders.army().iter().map(|e| (e.x, e.y)).collect()
}

fn deploy(cols: usize, rows: usize, army: &[(usize, usize)], direction: Direction) -> Invaders {
    let army: Vec<Invader> = army.iter().map(|&(x, y)| Invader { x, y }).collect();
    Invaders::deploy(field(cols, rows), army, direction).unwrap()
}

#[test]
fn standard_formation_is_a_lattice_of_72() {
    let invaders = Invaders::new();
    let army = cells(&invaders);
    assert_eq!(army.len(), 72);
    assert_eq!(army[0], (2, 2));
    assert_eq!(army[1], (2, 4));
    assert_eq!(army[3], (2, 8));
    assert_eq!(army[4], (4, 2));
    assert_eq!(army[71], (36, 8));
    for &(x, y) in army.iter() {
        assert!(x > 1 && x < 38 && x % 2 == 0);
        assert!(y > 0 && y < 9 && y % 2 == 0);
    }
    assert_eq!(invaders.direction(), Direction::Right);
    assert_eq!(invaders.interval_millis(), 1000);
    assert_eq!(invaders.field().cols(), 40);
    assert_eq!(invaders.field().rows(), 20);
}

#[test]
fn small_formation_is_listed_column_by_column() {
    let invaders = Invaders::in_field(field(12, 6));
    assert_eq!(cells(&invaders), vec![(2, 2), (2, 4), (4, 2), (4, 4), (6, 2), (6, 4), (8, 2), (8, 4)]);
}

#[test]
fn formation_keeps_two_columns_clear_on_either_side() {
    assert_eq!(cells(&Invaders::in_field(field(5, 4))), vec![(2, 2)]);
    assert_eq!(cells(&Invaders::in_field(field(6, 4))), vec![(2, 2)]);
    assert_eq!(cells(&Invaders::in_field(field(7, 4))), vec![(2, 2), (4, 2)]);
}

#[test]
fn narrow_field_has_no_formation() {
    let invaders = Invaders::in_field(field(4, 6));
    assert!(cells(&invaders).is_empty());
    assert!(invaders.all_killed());
}

#[test]
fn formation_is_not_deeper_than_eight_rows() {
    let invaders = Invaders::in_field(field(5, 30));
    assert_eq!(cells(&invaders), vec![(2, 2), (2, 4), (2, 6), (2, 8)]);
}

#[test]
fn timer_fires_only_when_more_than_the_interval_has_passed() {
    let mut invaders = Invaders::in_field(field(12, 6));
    let before = cells(&invaders);
    assert!(!invaders.update(999 * MS));
    assert!(!invaders.update(MS));
    assert_eq!(cells(&invaders), before);
    assert!(!invaders.update(0));
    assert_eq!(cells(&invaders), before);
    assert!(invaders.update(1));
    assert_ne!(cells(&invaders), before);
}

#[test]
fn timer_starts_again_after_it_has_fired() {
    let mut invaders = Invaders::in_field(field(12, 6));
    assert!(invaders.update(5000 * MS));
    assert!(!invaders.update(1000 * MS));
    assert!(invaders.update(1));
}

#[test]
fn sideways_step_moves_every_member_by_one_column() {
    let mut invaders = Invaders::in_field(field(12, 6));
    let before = cells(&invaders);
    assert!(invaders.update(1001 * MS));
    let after = cells(&invaders);
    assert_eq!(after.len(), before.len());
    for i in 0..before.len() {
        assert_eq!(after[i].0, before[i].0 + 1);
        assert_eq!(after[i].1, before[i].1);
    }
    assert_eq!(invaders.direction(), Direction::Right);
    assert_eq!(invaders.interval_millis(), 1000);
}

#[test]
fn step_to_the_left_moves_every_member_by_one_column() {
    let mut invaders = deploy(12, 6, &[(3, 1), (5, 2)], Direction::Left);
    assert!(invaders.update(1001 * MS));
    assert_eq!(cells(&invaders), vec![(2, 1), (4, 2)]);
    assert_eq!(invaders.direction(), Direction::Left);
}

#[test]
fn formation_turns_and_drops_at_the_right_edge() {
    let mut invaders = Invaders::in_field(field(12, 6));
    for _ in 0..3 {
        assert!(invaders.update(1001 * MS));
        assert_eq!(invaders.direction(), Direction::Right);
    }
    assert_eq!(cells(&invaders), vec![(5, 2), (5, 4), (7, 2), (7, 4), (9, 2), (9, 4), (11, 2), (11, 4)]);
    assert!(invaders.update(1001 * MS));
    assert_eq!(cells(&invaders), vec![(5, 3), (5, 5), (7, 3), (7, 5), (9, 3), (9, 5), (11, 3), (11, 5)]);
    assert_eq!(invaders.direction(), Direction::Left);
    assert_eq!(invaders.interval_millis(), 750);
    assert!(invaders.reached_bottom());
}

#[test]
fn single_invader_at_the_left_edge_turns_and_drops() {
    let mut invaders = deploy(12, 6, &[(0, 3)], Direction::Left);
    assert!(invaders.update(1001 * MS));
    assert_eq!(cells(&invaders), vec![(0, 4)]);
    assert_eq!(invaders.direction(), Direction::Right);
    assert_eq!(invaders.interval_millis(), 750);
}

#[test]
fn no_turn_away_from_the_edge() {
    let mut invaders = deploy(12, 6, &[(1, 3)], Direction::Left);
    assert!(invaders.update(1001 * MS));
    assert_eq!(cells(&invaders), vec![(0, 3)]);
    assert_eq!(invaders.direction(), Direction::Left);
    assert_eq!(invaders.interval_millis(), 1000);
}

#[test]
fn interval_shrinks_to_its_floor_and_stays_there() {
    let mut invaders = deploy(1, 10, &[(0, 0)], Direction::Right);
    let mut seen = vec![invaders.interval_millis()];
    for _ in 0..6 {
        assert!(invaders.update(1001 * MS));
        seen.push(invaders.interval_millis());
    }
    assert_eq!(seen, vec![1000, 750, 500, 250, 250, 250, 250]);
    assert_eq!(cells(&invaders), vec![(0, 6)]);
    assert_eq!(invaders.direction(), Direction::Right);
}

#[test]
fn shorter_interval_is_the_one_that_counts() {
    let mut invaders = deploy(12, 6, &[(0, 1)], Direction::Left);
    assert!(invaders.update(1001 * MS));
    assert!(!invaders.update(750 * MS));
    assert!(invaders.update(1));
    assert_eq!(cells(&invaders), vec![(1, 2)]);
}

#[test]
fn empty_formation_is_defeated_and_nothing_moves() {
    let mut invaders = deploy(12, 6, &[], Direction::Left);
    assert!(invaders.all_killed());
    assert!(!invaders.reached_bottom());
    assert!(!invaders.update(5 * MS));
    assert!(invaders.all_killed());
    assert!(invaders.update(1001 * MS));
    assert!(cells(&invaders).is_empty());
    assert!(invaders.all_killed());
}

#[test]
fn empty_formation_counts_as_standing_in_column_0() {
    let mut left = deploy(12, 6, &[], Direction::Left);
    assert!(left.update(1001 * MS));
    assert_eq!(left.direction(), Direction::Right);
    assert_eq!(left.interval_millis(), 750);
    let mut right = deploy(12, 6, &[], Direction::Right);
    assert!(right.update(1001 * MS));
    assert_eq!(right.direction(), Direction::Right);
    assert_eq!(right.interval_millis(), 1000);
}

#[test]
fn formation_stays_in_the_field_until_it_lands() {
    let mut invaders = Invaders::new();
    let mut ticks = 0;
    while !invaders.reached_bottom() {
        invaders.update(400 * MS);
        for &(x, y) in cells(&invaders).iter() {
            assert!(x < 40);
            assert!(y < 20);
        }
        ticks += 1;
        assert!(ticks < 100_000);
    }
    assert_eq!(cells(&invaders).len(), 72);
    assert_eq!(cells(&invaders).iter().map(|c| c.1).max(), Some(19));
    assert_eq!(invaders.interval_millis(), 250);
}

#[test]
fn kill_removes_the_member_on_the_cell() {
    let mut invaders = Invaders::in_field(field(12, 6));
    assert!(invaders.kill_invader(4, 4));
    assert_eq!(cells(&invaders), vec![(2, 2), (2, 4), (4, 2), (6, 2), (6, 4), (8, 2), (8, 4)]);
    assert!(!invaders.kill_invader(4, 4));
    assert_eq!(cells(&invaders).len(), 7);
}

#[test]
fn kill_on_a_free_cell_changes_nothing() {
    let mut invaders = Invaders::in_field(field(12, 6));
    assert!(!invaders.kill_invader(3, 2));
    assert!(!invaders.kill_invader(2, 3));
    assert_eq!(cells(&invaders).len(), 8);
}

#[test]
fn kill_removes_every_member_on_the_cell() {
    let mut invaders = deploy(12, 6, &[(3, 3), (4, 3), (3, 3)], Direction::Right);
    assert!(invaders.kill_invader(3, 3));
    assert_eq!(cells(&invaders), vec![(4, 3)]);
}

#[test]
fn last_kill_defeats_the_formation() {
    let mut invaders = deploy(12, 6, &[(3, 3)], Direction::Right);
    assert!(!invaders.all_killed());
    assert!(invaders.kill_invader(3, 3));
    assert!(invaders.all_killed());
}

#[test]
fn deploy_refuses_a_member_outside_the_field() {
    let army = vec![Invader { x: 12, y: 0 }];
    assert!(Invaders::deploy(field(12, 6), army, Direction::Right).is_none());
    let army = vec![Invader { x: 0, y: 0 }, Invader { x: 0, y: 6 }];
    assert!(Invaders::deploy(field(12, 6), army, Direction::Right).is_none());
    let army = vec![Invader { x: 11, y: 5 }];
    assert!(Invaders::deploy(field(12, 6), army, Direction::Right).is_some());
}

#[test]
fn formation_has_landed_in_the_bottom_row() {
    assert!(deploy(12, 6, &[(0, 1), (3, 5)], Direction::Right).reached_bottom());
    assert!(!deploy(12, 6, &[(0, 1), (3, 4)], Direction::Right).reached_bottom());
}

#[test]
fn invader_is_labelled_by_column_and_row() {
    assert_eq!(Invader { x: 12, y: 4 }.label(), "12/4");
    assert_eq!(Invader { x: 0, y: 0 }.label(), "0/0");
    assert_eq!(Invader { x: 9, y: 10 }.label(), "9/10");
    assert_eq!(Invader { x: 1002003, y: 9876543210 }.label(), "1002003/9876543210");
    assert_eq!(Invader { x: usize::MAX, y: 7 }.label(), format!("{}/7", usize::MAX));
}

#[test]
fn new_formation_has_not_landed() {
    assert!(!Invaders::new().reached_bottom());
    assert!(!Invaders::in_field(field(12, 10)).reached_bottom());
    assert!(Invaders::in_field(field(12, 9)).reached_bottom());
    assert!(Invaders::in_field(field(12, 3)).reached_bottom());
    assert!(!Invaders::in_field(field(12, 2)).reached_bottom());
}
