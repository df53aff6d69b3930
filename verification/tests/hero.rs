use bomber_lib::hero::heroes::{first_free_direction, Fool, Wanderer};
use bomber_lib::hero::labyrinth::{
    apply_action, Labyrinth, Location, Outlook, Step, StepOutcome, DANGEROUS,
};
use bomber_lib::hero::world::{Direction, Tile, World};
use bomber_lib::codec::MalformedPayload;
use bomber_lib::hero::{hero_act, wasm_hero_action, Action, Hero};

/// A world that looks the same whichever way one looks.
struct SolidWorld {
    tile: Tile,
}

impl World for SolidWorld {
    fn inspect(&self, _: Direction) -> Tile {
        self.tile
    }
}

#[test]
fn actions_cross_the_boundary_as_numbers() {
    assert_eq!(Action::StayStill.into_raw(), 0);
    assert_eq!(Action::Move(Direction::West).into_raw(), 1);
    assert_eq!(Action::Move(Direction::North).into_raw(), 3);
    assert_eq!(Action::Move(Direction::SouthWest).into_raw(), 8);
    for raw in 0..9 {
        assert_eq!(Action::from(raw).unwrap().into_raw(), raw);
        assert_eq!(wasm_hero_action(raw), Action::from(raw));
    }
    assert_eq!(Action::from(3), Ok(Action::Move(Direction::North)));
    assert_eq!(Action::from(9), Err(MalformedPayload));
    assert_eq!(wasm_hero_action(u32::MAX), Err(MalformedPayload));
}

#[test]
fn directions_and_tiles_cross_the_boundary_as_numbers() {
    let directions = Direction::all();
    for (index, direction) in directions.iter().enumerate() {
        assert_eq!(direction.into_raw(), index as u32);
        assert_eq!(Direction::from(index as u32), Ok(*direction));
    }
    assert_eq!(directions[0], Direction::West);
    assert_eq!(directions[7], Direction::SouthWest);
    for (index, tile) in [Tile::Wall, Tile::Lava, Tile::Switch, Tile::EmptyFloor].iter().enumerate()
    {
        assert_eq!(tile.into_raw(), index as u32);
        assert_eq!(Tile::from(index as u32), Ok(*tile));
    }
    assert_eq!(Tile::from(4), Err(MalformedPayload));
    assert_eq!(Tile::from(u32::MAX), Err(MalformedPayload));
}

#[test]
fn characters_stand_for_tiles() {
    assert_eq!(Tile::from_char('.'), Tile::EmptyFloor);
    assert_eq!(Tile::from_char('#'), Tile::Wall);
    assert_eq!(Tile::from_char('X'), Tile::Lava);
    assert_eq!(Tile::from_char('s'), Tile::Switch);
    assert_eq!(Tile::try_from_char('?'), None);
    assert_eq!(Tile::try_from_char('X'), Some(Tile::Lava));
}

#[test]
fn a_fool_walks_north_or_close_to_it() {
    let floor = SolidWorld { tile: Tile::EmptyFloor };
    let mut fool = Fool::spawn();
    assert_eq!(fool.act(&floor), Action::Move(Direction::North));
    assert_eq!(fool.act(&floor), Action::Move(Direction::NorthWest));
    assert_eq!(fool.act(&floor), Action::Move(Direction::NorthEast));
    assert_eq!(fool.act(&floor), Action::Move(Direction::North));
    // Where the way leads into lava, the fool takes the next one.
    let lava = SolidWorld { tile: Tile::Lava };
    let mut fool = Fool::spawn();
    assert_eq!(fool.act(&lava), Action::Move(Direction::NorthWest));
    assert_eq!(fool.act(&lava), Action::Move(Direction::NorthEast));
    assert_eq!(fool.decide(&lava), Action::Move(Direction::North));
}

#[test]
fn a_wanderer_takes_the_first_free_way() {
    let labyrinth = Labyrinth::from("#.#\n#.#\n...");
    let mut wanderer = Wanderer::spawn();
    let south = Outlook { labyrinth: &labyrinth, location: Location(1, 0) };
    assert_eq!(wanderer.act(&south), Action::Move(Direction::North));
    let south_west = Outlook { labyrinth: &labyrinth, location: Location(0, 0) };
    assert_eq!(first_free_direction(&south_west), Some(Direction::NorthEast));
    assert_eq!(wanderer.act(&south_west), Action::Move(Direction::NorthEast));
    let walled = SolidWorld { tile: Tile::Wall };
    assert_eq!(first_free_direction(&walled), None);
    assert_eq!(wanderer.act(&walled), Action::StayStill);
    assert_eq!(hero_act(&mut wanderer, &walled), 0);
    assert_eq!(hero_act(&mut wanderer, &south), 3);
}

#[test]
fn a_hero_walks_bumps_presses_and_perishes() {
    let labyrinth = Labyrinth::from("#s#\n.X.\n...");
    let walk = apply_action(&labyrinth, Location(0, 0), Action::Move(Direction::North));
    assert_eq!(
        walk,
        Step { target: Location(0, 1), outcome: StepOutcome::Walks, location: Location(0, 1) }
    );
    let bump = apply_action(&labyrinth, Location(0, 1), Action::Move(Direction::North));
    assert_eq!(
        bump,
        Step { target: Location(0, 2), outcome: StepOutcome::BumpsIntoWall, location: Location(0, 1) }
    );
    let press = apply_action(&labyrinth, Location(0, 1), Action::Move(Direction::NorthEast));
    assert_eq!(press.outcome, StepOutcome::PressesSwitch);
    assert_eq!(press.location, Location(0, 1));
    let burn = apply_action(&labyrinth, Location(0, 1), Action::Move(Direction::East));
    assert_eq!(burn.outcome, StepOutcome::DissolvesInLava);
    assert_eq!(burn.target, Location(1, 1));
    let lost = apply_action(&labyrinth, Location(2, 0), Action::Move(Direction::East));
    assert_eq!(lost.outcome, StepOutcome::WalksIntoVoid);
    assert_eq!(lost.target, Location(3, 0));
    // At the southern and western edge a step aims at the hero's own cell.
    let edge = apply_action(&labyrinth, Location(0, 0), Action::Move(Direction::SouthWest));
    assert_eq!(
        edge,
        Step { target: Location(0, 0), outcome: StepOutcome::Walks, location: Location(0, 0) }
    );
    let still = apply_action(&labyrinth, Location(1, 0), Action::StayStill);
    assert_eq!(still.outcome, StepOutcome::Walks);
    assert_eq!(still.location, Location(1, 0));
    // The hero enters the stock labyrinth on empty floor.
    let stock = Labyrinth::from(DANGEROUS);
    let start = apply_action(&stock, Location::initial(), Action::Move(Direction::North));
    assert_eq!(start.outcome, StepOutcome::Walks);
    assert_eq!(start.location, Location(4, 1));
}

#[test]
fn a_number_beyond_the_last_direction_is_a_malformed_payload() {
    assert_eq!(Direction::from(0), Ok(Direction::West));
    assert_eq!(Direction::from(2), Ok(Direction::North));
    assert_eq!(Direction::from(7), Ok(Direction::SouthWest));
    assert_eq!(Direction::from(8), Err(MalformedPayload));
    assert_eq!(Direction::from(u32::MAX), Err(MalformedPayload));
    for raw in 0..8 {
        assert_eq!(Direction::from(raw).map(|direction| direction.into_raw()), Ok(raw));
    }
}
