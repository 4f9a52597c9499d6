use invaders::frame::Field;
use invaders::game::{Command, Cue, Game, Outcome, Reply};
use invaders::invaders::{Direction, Invader, Invaders};
use invaders::player::Player;

const MS: u64 = 1_000_000;

fn field(cols: usize, rows: usize) -> Field {
    Field::new(cols, rows).unwrap()
}

fn game_with(cols: usize, rows: usize, army: &[(usize, usize)], direction: Direction) -> Game {
    let army: Vec<Invader> = army.iter().map(|&(x, y)| Invader { x, y }).collect();
    let invaders = Invaders::deploy(field(cols, rows), army, direction).unwrap();
    Game::assemble(Player::in_field(field(cols, rows)), invaders).unwrap()
}

#[test]
fn new_game_is_the_standard_one() {
    let game = Game::new();
    assert_eq!((game.player().x(), game.player().y()), (20, 19));
    assert_eq!(game.invaders().army().len(), 72);
    assert_eq!(game.invaders().direction(), Direction::Right);
}

#[test]
fn player_and_invaders_must_share_a_field() {
    let invaders = Invaders::in_field(field(12, 6));
    assert!(Game::assemble(Player::in_field(field(12, 7)), invaders).is_none());
    let invaders = Invaders::in_field(field(12, 6));
    assert!(Game::assemble(Player::in_field(field(11, 6)), invaders).is_none());
    let invaders = Invaders::in_field(field(12, 6));
    assert!(Game::assemble(Player::in_field(field(12, 6)), invaders).is_some());
}

#[test]
fn moving_makes_no_sound() {
    let mut game = Game::in_field(field(12, 6));
    assert_eq!(game.command(Command::MoveLeft), Reply { cue: None, over: false });
    assert_eq!(game.player().x(), 5);
    assert_eq!(game.command(Command::MoveRight), Reply { cue: None, over: false });
    assert_eq!(game.command(Command::MoveRight), Reply { cue: None, over: false });
    assert_eq!(game.player().x(), 7);
}

#[test]
fn shot_is_heard_only_when_it_is_fired() {
    let mut game = Game::new();
    assert_eq!(game.command(Command::Fire), Reply { cue: Some(Cue::ShotFired), over: false });
    assert_eq!(game.command(Command::Fire), Reply { cue: Some(Cue::ShotFired), over: false });
    assert_eq!(game.command(Command::Fire), Reply { cue: None, over: false });
    assert_eq!(game.player().shots().len(), 2);
}

#[test]
fn giving_up_ends_the_game() {
    let mut game = Game::new();
    assert_eq!(game.command(Command::Quit), Reply { cue: Some(Cue::DefeatPlayer), over: true });
    assert_eq!(game.invaders().army().len(), 72);
    assert_eq!(game.player().x(), 20);
}

#[test]
fn quiet_tick_brings_the_frame() {
    let mut game = Game::in_field(field(12, 6));
    let tick = game.tick(10 * MS);
    assert_eq!(tick.outcome, Outcome::Running);
    assert_eq!(tick.cues, vec![]);
    let frame = tick.frame.unwrap();
    assert_eq!((frame.field().cols(), frame.field().rows()), (12, 6));
    let rows: Vec<String> = (0..6).map(|y| (0..12).map(|x| frame.get(x, y)).collect()).collect();
    assert_eq!(
        rows,
        vec![
            "            ",
            "            ",
            "  X X X X   ",
            "            ",
            "  X X X X   ",
            "      A     ",
        ]
    );
}

#[test]
fn move_of_the_formation_is_heard() {
    let mut game = Game::in_field(field(12, 8));
    let tick = game.tick(1001 * MS);
    assert_eq!(tick.outcome, Outcome::Running);
    assert_eq!(tick.cues, vec![Cue::MoveTick]);
    let frame = tick.frame.unwrap();
    assert_eq!(frame.get(3, 2), '+');
    assert_eq!(frame.get(2, 2), ' ');
    assert_eq!(frame.get(6, 7), 'A');
}

#[test]
fn hit_is_heard_before_the_move() {
    let mut game = game_with(12, 8, &[(6, 6), (2, 2)], Direction::Right);
    game.command(Command::Fire);
    let tick = game.tick(1000 * MS);
    assert_eq!(tick.cues, vec![Cue::Hit]);
    assert_eq!(tick.outcome, Outcome::Running);
    assert_eq!(tick.frame.unwrap().get(6, 6), '*');
    let tick = game.tick(MS);
    assert_eq!(tick.cues, vec![Cue::MoveTick]);
    assert_eq!(game.invaders().army().clone(), vec![Invader { x: 3, y: 2 }]);
    let mut game = game_with(12, 8, &[(6, 6), (2, 2)], Direction::Right);
    game.command(Command::Fire);
    let tick = game.tick(1001 * MS);
    assert_eq!(tick.cues, vec![Cue::MoveTick]);
    assert!(game.player().shots().is_empty());
}

#[test]
fn hit_and_move_in_one_tick() {
    let mut game = game_with(12, 8, &[(6, 6), (2, 2)], Direction::Right);
    assert!(!game.tick(600 * MS).cues.contains(&Cue::MoveTick));
    game.command(Command::Fire);
    let tick = game.tick(401 * MS);
    assert_eq!(tick.cues, vec![Cue::Hit, Cue::MoveTick]);
    assert_eq!(game.invaders().army().clone(), vec![Invader { x: 3, y: 2 }]);
}

#[test]
fn last_hit_wins_the_game() {
    let mut game = game_with(12, 6, &[(6, 4)], Direction::Right);
    assert_eq!(game.command(Command::Fire).cue, Some(Cue::ShotFired));
    let tick = game.tick(5000 * MS);
    assert_eq!(tick.outcome, Outcome::Running);
    assert_eq!(tick.cues, vec![Cue::MoveTick]);
    let mut game = game_with(12, 6, &[(6, 4)], Direction::Right);
    game.command(Command::Fire);
    let tick = game.tick(5 * MS);
    assert_eq!(tick.outcome, Outcome::Victory);
    assert_eq!(tick.cues, vec![Cue::Hit, Cue::Victory]);
    assert!(tick.frame.is_none());
    assert!(game.invaders().all_killed());
    assert_eq!(game.invaders().interval_millis(), 1000);
}

#[test]
fn game_without_invaders_is_won_at_once() {
    let mut game = game_with(12, 6, &[], Direction::Right);
    let tick = game.tick(5000 * MS);
    assert_eq!(tick.outcome, Outcome::Victory);
    assert_eq!(tick.cues, vec![Cue::Victory]);
    assert!(tick.frame.is_none());
}

#[test]
fn landing_loses_the_game() {
    let mut game = game_with(12, 6, &[(11, 4)], Direction::Right);
    let tick = game.tick(1000 * MS);
    assert_eq!(tick.outcome, Outcome::Running);
    let tick = game.tick(MS);
    assert_eq!(tick.outcome, Outcome::Defeat);
    assert_eq!(tick.cues, vec![Cue::MoveTick, Cue::DefeatPlayer]);
    assert!(tick.frame.is_none());
    assert_eq!(game.invaders().army().clone(), vec![Invader { x: 11, y: 5 }]);
}

#[test]
fn formation_in_the_bottom_row_loses_without_a_move() {
    let mut game = game_with(12, 6, &[(3, 5)], Direction::Right);
    let tick = game.tick(MS);
    assert_eq!(tick.outcome, Outcome::Defeat);
    assert_eq!(tick.cues, vec![Cue::DefeatPlayer]);
}

#[test]
fn standard_game_is_lost_when_nobody_fires() {
    let mut game = Game::new();
    let mut ticks = 0;
    loop {
        let tick = game.tick(20 * MS);
        ticks += 1;
        assert!(ticks < 1_000_000);
        match tick.outcome {
            Outcome::Running => {
                let frame = tick.frame.unwrap();
                assert_eq!(frame.get(20, 19), 'A');
            }
            Outcome::Defeat => {
                assert_eq!(tick.cues, vec![Cue::MoveTick, Cue::DefeatPlayer]);
                break;
            }
            Outcome::Victory => panic!("nobody fired"),
        }
    }
    assert_eq!(game.invaders().army().len(), 72);
    assert!(game.invaders().reached_bottom());
}
