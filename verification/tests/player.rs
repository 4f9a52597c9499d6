use invaders::frame::Field;
use invaders::invaders::{Direction, Invader, Invaders};
use invaders::player::Player;
use invaders::shot::Shot;
use invaders::timer::Countdown;

const MS: u64 = 1_000_000;

fn field(cols: usize, rows: usize) -> Field {
    Field::new(cols, rows).unwrap()
}

fn cells(invaders: &Invaders) -> Vec<(usize, usize)> {
    invaders.army().iter().map(|e| (e.x, e.y)).collect()
}

#[test]
fn player_starts_in_the_middle_of_the_bottom_row() {
    let player = Player::new();
    assert_eq!((player.x(), player.y()), (20, 19));
    assert!(player.shots().is_empty());
    let player = Player::in_field(field(12, 6));
    assert_eq!((player.x(), player.y()), (6, 5));
    let player = Player::in_field(field(1, 2));
    assert_eq!((player.x(), player.y()), (0, 1));
}

#[test]
fn ship_stops_at_column_0() {
    let mut player = Player::in_field(field(12, 6));
    player.move_left();
    assert_eq!(player.x(), 5);
    for _ in 0..5 {
        player.move_left();
    }
    assert_eq!(player.x(), 0);
    player.move_left();
    assert_eq!((player.x(), player.y()), (0, 5));
}

#[test]
fn ship_stops_at_the_last_column() {
    let mut player = Player::in_field(field(12, 6));
    player.move_right();
    assert_eq!(player.x(), 7);
    for _ in 0..4 {
        player.move_right();
    }
    assert_eq!(player.x(), 11);
    player.move_right();
    assert_eq!((player.x(), player.y()), (11, 5));
}

#[test]
fn shot_appears_above_the_ship() {
    let mut player = Player::in_field(field(12, 6));
    assert!(player.shoot());
    let flight = Countdown { duration: 1000 * MS, time_left: 1000 * MS, ready: false };
    assert_eq!(player.shots().clone(), vec![Shot { x: 6, y: 4, exploding: false, timer: flight }]);
}

#[test]
fn third_shot_is_refused() {
    let mut player = Player::new();
    assert!(player.shoot());
    player.move_left();
    assert!(player.shoot());
    let before = player.shots().clone();
    assert!(!player.shoot());
    assert_eq!(player.shots().clone(), before);
    assert_eq!(before.len(), 2);
    assert_eq!((before[0].x, before[0].y), (20, 18));
    assert_eq!((before[1].x, before[1].y), (19, 18));
}

#[test]
fn shot_is_over_when_its_flight_time_has_run_out() {
    let mut player = Player::new();
    assert!(player.shoot());
    player.update(400 * MS);
    assert_eq!(player.shots()[0].timer.time_left, 600 * MS);
    player.update(600 * MS);
    assert_eq!(player.shots().len(), 1);
    assert_eq!(player.shots()[0].timer.time_left, 0);
    player.update(1);
    assert!(player.shots().is_empty());
}

#[test]
fn player_can_fire_again_when_a_shot_is_over() {
    let mut player = Player::new();
    assert!(player.shoot());
    player.update(500 * MS);
    assert!(player.shoot());
    assert!(!player.shoot());
    player.update(501 * MS);
    assert_eq!(player.shots().len(), 1);
    assert_eq!(player.shots()[0].timer.time_left, 499 * MS);
    assert!(player.shoot());
}

#[test]
fn first_shot_in_a_small_field_hits_the_nearest_invader() {
    let mut invaders = Invaders::in_field(field(12, 6));
    let mut player = Player::in_field(field(12, 6));
    assert_eq!(cells(&invaders).len(), 8);
    assert!(player.shoot());
    assert!(player.detect_hit(&mut invaders));
    assert_eq!(cells(&invaders), vec![(2, 2), (2, 4), (4, 2), (4, 4), (6, 2), (8, 2), (8, 4)]);
    let blast = Countdown { duration: 250 * MS, time_left: 250 * MS, ready: false };
    assert_eq!(player.shots().clone(), vec![Shot { x: 6, y: 4, exploding: true, timer: blast }]);
}

#[test]
fn second_check_after_a_hit_finds_nothing() {
    let mut invaders = Invaders::in_field(field(12, 6));
    let mut player = Player::in_field(field(12, 6));
    assert!(player.shoot());
    assert!(player.detect_hit(&mut invaders));
    let shots = player.shots().clone();
    let army = cells(&invaders);
    assert!(!player.detect_hit(&mut invaders));
    assert_eq!(player.shots().clone(), shots);
    assert_eq!(cells(&invaders), army);
}

#[test]
fn exploding_shot_hits_nothing() {
    let mut player = Player::in_field(field(12, 6));
    let mut invaders =
        Invaders::deploy(field(12, 6), vec![Invader { x: 6, y: 4 }], Direction::Right).unwrap();
    assert!(player.shoot());
    assert!(player.detect_hit(&mut invaders));
    let mut again =
        Invaders::deploy(field(12, 6), vec![Invader { x: 6, y: 4 }], Direction::Right).unwrap();
    assert!(!player.detect_hit(&mut again));
    assert_eq!(cells(&again), vec![(6, 4)]);
}

#[test]
fn shot_without_an_invader_on_its_cell_flies_on() {
    let mut invaders = Invaders::new();
    let mut player = Player::new();
    assert!(player.shoot());
    assert!(!player.detect_hit(&mut invaders));
    assert_eq!(cells(&invaders).len(), 72);
    assert!(!player.shots()[0].exploding);
}

#[test]
fn two_shots_on_one_cell_take_one_invader() {
    let mut invaders = Invaders::in_field(field(12, 6));
    let mut player = Player::in_field(field(12, 6));
    assert!(player.shoot());
    assert!(player.shoot());
    assert!(player.detect_hit(&mut invaders));
    assert_eq!(cells(&invaders).len(), 7);
    assert!(player.shots()[0].exploding);
    assert!(!player.shots()[1].exploding);
}

#[test]
fn two_shots_on_two_cells_take_two_invaders() {
    let mut invaders = Invaders::in_field(field(12, 6));
    let mut player = Player::in_field(field(12, 6));
    assert!(player.shoot());
    player.move_right();
    player.move_right();
    assert!(player.shoot());
    assert!(player.detect_hit(&mut invaders));
    assert_eq!(cells(&invaders), vec![(2, 2), (2, 4), (4, 2), (4, 4), (6, 2), (8, 2)]);
    assert!(player.shots()[0].exploding);
    assert!(player.shots()[1].exploding);
}

#[test]
fn explosion_is_over_after_a_quarter_of_a_second() {
    let mut invaders = Invaders::in_field(field(12, 6));
    let mut player = Player::in_field(field(12, 6));
    assert!(player.shoot());
    player.update(900 * MS);
    assert!(player.detect_hit(&mut invaders));
    player.update(250 * MS);
    assert_eq!(player.shots().len(), 1);
    player.update(1);
    assert!(player.shots().is_empty());
}

#[test]
fn new_shot_is_in_flight() {
    let shot = Shot::new(3, 7);
    assert_eq!((shot.x, shot.y), (3, 7));
    assert!(!shot.exploding);
    assert!(!shot.dead());
    assert_eq!(shot.timer, Countdown { duration: 1000 * MS, time_left: 1000 * MS, ready: false });
}

#[test]
fn shot_counts_down() {
    let mut shot = Shot::new(3, 7);
    shot.update(999 * MS);
    assert_eq!(shot.timer, Countdown { duration: 1000 * MS, time_left: MS, ready: false });
    shot.update(MS);
    assert_eq!(shot.timer, Countdown { duration: 1000 * MS, time_left: 0, ready: false });
    assert!(!shot.dead());
    shot.update(MS);
    assert_eq!(shot.timer, Countdown { duration: 1000 * MS, time_left: 0, ready: true });
    assert!(shot.dead());
    shot.update(MS);
    assert!(shot.dead());
    assert_eq!((shot.x, shot.y), (3, 7));
}

#[test]
fn explosion_starts_a_shorter_countdown() {
    let mut shot = Shot::new(3, 7);
    shot.update(990 * MS);
    shot.explode();
    assert!(shot.exploding);
    assert_eq!((shot.x, shot.y), (3, 7));
    assert_eq!(shot.timer, Countdown { duration: 250 * MS, time_left: 250 * MS, ready: false });
    shot.update(251 * MS);
    assert!(shot.dead());
}
