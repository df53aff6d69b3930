use bomber_lib::codec::{decode_action, decode_text, encode_last_turn, encode_view};
use bomber_lib::player::{
    action_reply, reply_into, shim_act, shim_name, shim_team_name, text_reply, GuestModule,
    Player, ShimError, BUFFER_SIZE_BYTES,
};
use bomber_lib::planner::TileOffsetExt;
use bomber_lib::players::{find_bare_tile, find_way, Fool, Wanderer};
use bomber_lib::sandbox::SandboxError;
use bomber_lib::world::{
    Action, Direction, LastTurnResult, Object, Sighting, Tile, TileOffset,
};

/// Walks the way it was told it moved last, and north to begin with.
#[derive(Default)]
struct Follower {
    turns: u32,
}

impl Player for Follower {
    fn act(&mut self, surroundings: Vec<Sighting>, last_result: LastTurnResult) -> Action {
        self.turns += surroundings.len() as u32;
        match last_result {
            LastTurnResult::Moved(direction) => Action::Move(direction),
            LastTurnResult::StoodStill => Action::Move(Direction::North),
            LastTurnResult::ActionFailed => Action::DropBomb,
        }
    }

    fn name(&self) -> String {
        format!("Follower {}", self.turns)
    }

    fn team_name() -> String {
        "The Followers".to_string()
    }
}

#[test]
fn replies_are_decoded_and_errors_passed_on() {
    assert!(matches!(action_reply(Ok(vec![1, 0, 0, 0])), Ok(Action::StayStill)));
    assert!(matches!(action_reply(Ok(vec![1, 0, 0])), Err(SandboxError::MalformedPayload)));
    assert!(matches!(action_reply(Err(SandboxError::OutOfFuel)), Err(SandboxError::OutOfFuel)));
    assert!(matches!(
        action_reply(Err(SandboxError::Trap("boom".to_string()))),
        Err(SandboxError::Trap(text)) if text == "boom"
    ));
    assert!(matches!(
        text_reply(Ok(vec![2, 0, 0, 0, 0, 0, 0, 0, 104, 105])),
        Ok(text) if text == "hi"
    ));
    assert!(matches!(text_reply(Ok(vec![2, 0, 0])), Err(SandboxError::MalformedPayload)));
    assert!(matches!(text_reply(Err(SandboxError::MissingExport)), Err(SandboxError::MissingExport)));
}

#[test]
fn a_reply_goes_to_the_base_of_the_buffer() {
    let mut buffer = vec![9u8; 6];
    assert_eq!(reply_into(&mut buffer, &vec![1, 2, 3]), Ok(3));
    assert_eq!(buffer, vec![1, 2, 3, 9, 9, 9]);
    assert_eq!(reply_into(&mut buffer, &vec![]), Ok(0));
    assert_eq!(buffer, vec![1, 2, 3, 9, 9, 9]);
    assert_eq!(reply_into(&mut buffer, &vec![7; 7]), Err(ShimError::ReplyTooLong));
    assert_eq!(buffer, vec![1, 2, 3, 9, 9, 9]);
    assert_eq!(reply_into(&mut buffer, &vec![7; 6]), Ok(6));
    assert_eq!(buffer, vec![7; 6]);
}

#[test]
fn a_shim_serves_a_decision() {
    let mut player = Follower { turns: 0 };
    let mut buffer = vec![0u8; BUFFER_SIZE_BYTES];
    let view = encode_view(&vec![(Tile::Floor, None, None, TileOffset(0, 0))]);
    let last = encode_last_turn(LastTurnResult::Moved(Direction::West));
    let length = shim_act(&mut player, &view, &last, &mut buffer).unwrap();
    assert_eq!(length, 8);
    assert_eq!(decode_action(&buffer[..8]), Ok(Action::Move(Direction::West)));
    assert_eq!(player.turns, 1);
    let failed = encode_last_turn(LastTurnResult::ActionFailed);
    let length = shim_act(&mut player, &view, &failed, &mut buffer).unwrap();
    assert_eq!(decode_action(&buffer[..length as usize]), Ok(Action::DropBomb));
}

#[test]
fn a_shim_refuses_malformed_arguments() {
    let mut player = Follower { turns: 0 };
    let mut buffer = vec![5u8; 16];
    let view = encode_view(&vec![]);
    let last = encode_last_turn(LastTurnResult::StoodStill);
    assert_eq!(
        shim_act(&mut player, &view[..7], &last, &mut buffer),
        Err(ShimError::MalformedArgument)
    );
    assert_eq!(
        shim_act(&mut player, &view, &[7, 0, 0, 0], &mut buffer),
        Err(ShimError::MalformedArgument)
    );
    assert_eq!(buffer, vec![5u8; 16]);
    let mut small = vec![5u8; 7];
    assert_eq!(shim_act(&mut player, &view, &last, &mut small), Err(ShimError::ReplyTooLong));
    assert_eq!(small, vec![5u8; 7]);
}

#[test]
fn a_shim_serves_the_names() {
    let player = Follower { turns: 3 };
    let mut buffer = vec![0u8; 64];
    let length = shim_name(&player, &mut buffer).unwrap() as usize;
    assert_eq!(decode_text(&buffer[..length]), Ok("Follower 3".to_string()));
    let length = shim_team_name::<Follower>(&mut buffer).unwrap() as usize;
    assert_eq!(decode_text(&buffer[..length]), Ok("The Followers".to_string()));
    let mut small = vec![0u8; 10];
    assert_eq!(shim_name(&player, &mut small), Err(ShimError::ReplyTooLong));
}

fn bare(tile: Tile, x: i32, y: i32) -> Sighting {
    (tile, None, None, TileOffset(x, y))
}

#[test]
fn a_fool_walks_north_whatever_it_sees() {
    let mut fool = Fool::default();
    assert_eq!(fool.act(vec![], LastTurnResult::ActionFailed), Action::Move(Direction::North));
    assert_eq!(
        fool.act(vec![bare(Tile::Wall, 0, 1)], LastTurnResult::StoodStill),
        Action::Move(Direction::North)
    );
    assert_eq!(fool.name(), "Mr North");
    assert_eq!(<Fool as Player>::team_name(), "Northward");
}

#[test]
fn a_wanderer_drops_a_bomb_every_fourth_turn() {
    let mut wanderer = Wanderer::default();
    let view = vec![bare(Tile::Floor, 0, 0), bare(Tile::Floor, 0, 1), bare(Tile::Floor, 1, 0)];
    let mut actions = Vec::new();
    for _ in 0..9 {
        actions.push(wanderer.act(view.clone(), LastTurnResult::StoodStill));
    }
    let north = Action::Move(Direction::North);
    let bomb = Action::DropBombAndMove(Direction::North);
    assert_eq!(actions, vec![north, north, north, bomb, north, north, north, bomb, north]);
    assert_eq!(wanderer.name(), "Wanderman");
    assert_eq!(<Wanderer as Player>::team_name(), "The Nomads");
}

#[test]
fn a_wanderer_takes_the_first_way_that_is_free() {
    let crate_ahead: Sighting = (Tile::Floor, Some(Object::Crate), None, TileOffset(0, 1));
    let blocked = vec![
        bare(Tile::Floor, 0, 0),
        crate_ahead.clone(),
        bare(Tile::Floor, 1, 1),
        bare(Tile::Wall, -1, 0),
        bare(Tile::Hill, 0, -1),
        bare(Tile::Floor, 2, 0),
        bare(Tile::Floor, 1, 0),
        bare(Tile::Floor, -1, 0),
    ];
    assert_eq!(find_bare_tile(&blocked, TileOffset(0, 1)), None);
    assert_eq!(find_bare_tile(&blocked, TileOffset(-1, 0)), Some(Tile::Wall));
    assert_eq!(find_way(&blocked), Some(Direction::East));
    let mut wanderer = Wanderer::new();
    assert_eq!(wanderer.decide(&blocked), Action::Move(Direction::East));
    let stuck = vec![bare(Tile::Floor, 0, 0), crate_ahead, bare(Tile::Floor, 1, 1)];
    assert_eq!(find_way(&stuck), None);
    assert_eq!(wanderer.decide(&stuck), Action::StayStill);
    assert_eq!(wanderer.decide(&vec![]), Action::StayStill);
    assert_eq!(wanderer.decide(&vec![]), Action::DropBombAndMove(Direction::North));
}

#[test]
fn offsets_know_their_neighbours() {
    assert!(TileOffset(0, 1).is_here());
    assert!(!TileOffset(0, 0).is_here());
    assert!(!TileOffset(1, 1).is_here());
    assert_eq!(
        TileOffset(3, -2).adjacents(),
        [TileOffset(4, -2), TileOffset(3, -1), TileOffset(2, -2), TileOffset(3, -3)]
    );
    assert_eq!(
        TileOffset(i32::MAX, i32::MIN).adjacents(),
        [
            TileOffset(i32::MIN, i32::MIN),
            TileOffset(i32::MAX, i32::MIN + 1),
            TileOffset(i32::MAX - 1, i32::MIN),
            TileOffset(i32::MAX, i32::MAX),
        ]
    );
    assert_eq!(TileOffset(i32::MAX, 0).wrapping_add(TileOffset(1, 1)), TileOffset(i32::MIN, 1));
    assert_eq!(TileOffset(i32::MIN, 0).wrapping_sub(TileOffset(1, -1)), TileOffset(i32::MAX, 1));
}

#[test]
fn a_module_keeps_its_player_between_calls() {
    let mut module: GuestModule<Follower> = GuestModule::new();
    assert_eq!(module.buffer_size(), 10_000);
    assert_eq!(module.buffer().len(), 10_000);
    assert!(module.buffer().iter().all(|byte| *byte == 0));
    let view = encode_view(&vec![
        (Tile::Floor, None, None, TileOffset(0, 0)),
        (Tile::Floor, None, None, TileOffset(0, 1)),
    ]);
    let last = encode_last_turn(LastTurnResult::StoodStill);
    let length = module.act(&view, &last).unwrap() as usize;
    assert_eq!(decode_action(&module.buffer()[..length]), Ok(Action::Move(Direction::North)));
    module.act(&view, &last).unwrap();
    let length = module.name().unwrap() as usize;
    assert_eq!(decode_text(&module.buffer()[..length]), Ok("Follower 4".to_string()));
    let length = module.team_name().unwrap() as usize;
    assert_eq!(decode_text(&module.buffer()[..length]), Ok("The Followers".to_string()));
    assert_eq!(module.act(&view[..3], &last), Err(ShimError::MalformedArgument));
    assert_eq!(module.buffer().len(), 10_000);
}
