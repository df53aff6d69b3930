use bomber_lib::hero::labyrinth::{Labyrinth, Location, Outlook, DANGEROUS, EASY};
use bomber_lib::hero::world::{Direction, Tile, World};

#[test]
fn parsing_labyrinths() {
    let labyrinth_text = "####.###\n\
         #......#\n\
         #.####.#\n\
         #..##..#\n\
         #X.##..#\n\
         #......#\n\
         ####.###";
    let labyrinth = Labyrinth::from(labyrinth_text);
    assert_eq!(labyrinth.size(), (8, 7));
    assert_eq!(labyrinth.tile(Location(0, 0)).unwrap(), Tile::Wall);
    assert_eq!(labyrinth.tile(Location(4, 0)).unwrap(), Tile::EmptyFloor);
    assert_eq!(labyrinth.tile(Location(1, 1)).unwrap(), Tile::EmptyFloor);
    assert_eq!(labyrinth.tile(Location(1, 2)).unwrap(), Tile::Lava);
    assert_eq!(labyrinth.tile(Location(8, 8)), None);
}

#[test]
fn texts_that_are_no_rectangle_of_tiles_are_refused() {
    assert!(Labyrinth::parse("").is_none());
    assert!(Labyrinth::parse("\n").is_none());
    assert!(Labyrinth::parse("##\n#").is_none());
    assert!(Labyrinth::parse("#?#").is_none());
    assert!(Labyrinth::parse("#.#\n\n#.#").is_none());
}

#[test]
fn line_ends_may_carry_a_carriage_return() {
    let labyrinth = Labyrinth::parse("#s\r\n.X\r\n").unwrap();
    assert_eq!(labyrinth.size(), (2, 2));
    assert_eq!(labyrinth.tile(Location(0, 0)), Some(Tile::EmptyFloor));
    assert_eq!(labyrinth.tile(Location(1, 0)), Some(Tile::Lava));
    assert_eq!(labyrinth.tile(Location(0, 1)), Some(Tile::Wall));
    assert_eq!(labyrinth.tile(Location(1, 1)), Some(Tile::Switch));
}

#[test]
fn the_stock_labyrinths_parse() {
    assert_eq!(Labyrinth::from(EASY).size(), (9, 7));
    let dangerous = Labyrinth::from(DANGEROUS);
    assert_eq!(dangerous.size(), (9, 7));
    assert_eq!(dangerous.tile(Location(2, 3)), Some(Tile::Lava));
    assert_eq!(dangerous.tile(Location::initial()), Some(Tile::EmptyFloor));
}

#[test]
fn locations_step_in_eight_directions() {
    let here = Location(3, 3);
    assert_eq!(here.add(Direction::West), Some(Location(2, 3)));
    assert_eq!(here.add(Direction::NorthWest), Some(Location(2, 4)));
    assert_eq!(here.add(Direction::North), Some(Location(3, 4)));
    assert_eq!(here.add(Direction::NorthEast), Some(Location(4, 4)));
    assert_eq!(here.add(Direction::East), Some(Location(4, 3)));
    assert_eq!(here.add(Direction::SouthEast), Some(Location(4, 2)));
    assert_eq!(here.add(Direction::South), Some(Location(3, 2)));
    assert_eq!(here.add(Direction::SouthWest), Some(Location(2, 2)));
}

#[test]
fn no_location_lies_beyond_the_southern_or_western_edge() {
    assert_eq!(Location(0, 3).add(Direction::West), None);
    assert_eq!(Location(0, 3).add(Direction::NorthWest), None);
    assert_eq!(Location(0, 3).add(Direction::SouthWest), None);
    assert_eq!(Location(3, 0).add(Direction::South), None);
    assert_eq!(Location(3, 0).add(Direction::SouthEast), None);
    assert_eq!(Location(3, 0).add(Direction::SouthWest), None);
    assert_eq!(Location(0, 0).add(Direction::North), Some(Location(0, 1)));
    assert_eq!(Location(usize::MAX, 0).add(Direction::East), None);
}

#[test]
fn beyond_the_labyrinth_everything_looks_like_a_wall() {
    let labyrinth = Labyrinth::from(DANGEROUS);
    assert_eq!(labyrinth.inspect_from(Location(4, 0), Direction::South), Tile::Wall);
    assert_eq!(labyrinth.inspect_from(Location(4, 0), Direction::North), Tile::EmptyFloor);
    assert_eq!(labyrinth.inspect_from(Location(4, 6), Direction::North), Tile::Wall);
    assert_eq!(labyrinth.inspect_from(Location(8, 3), Direction::East), Tile::Wall);
    assert_eq!(labyrinth.inspect_from(Location(1, 3), Direction::East), Tile::Lava);
    let outlook = Outlook { labyrinth: &labyrinth, location: Location(1, 3) };
    assert_eq!(outlook.inspect(Direction::East), Tile::Lava);
}
