use garden::world::entity::Entity;
use garden::world::food_spawner::FoodSpawner;
use garden::world::World;
use garden::{
    decimal_digit, frame_pause, parse_command, route, same_text, starts_with, Command,
    ConfiguredWorld, Route, DEBUG_INDEX_REQUEST, INDEX_REQUEST, WEBSOCKET_REQUEST,
    WORLD_STATUS_REQUEST,
};
use rand_core::SeedableRng;

fn configured() -> ConfiguredWorld {
    let mut world = World::new(10, 10);
    world.add_entity(Entity::FoodSpawner(FoodSpawner::new(0, 100)));
    ConfiguredWorld::new(world, 100, rand_pcg::Pcg32::from_seed(*b"somebody once to"))
}

#[test]
fn words_are_commands() {
    assert_eq!(parse_command("pause"), Command::Pause);
    assert_eq!(parse_command("unpause"), Command::Unpause);
    assert_eq!(parse_command("update"), Command::Update);
    assert_eq!(parse_command("Pause"), Command::Unknown);
    assert_eq!(parse_command("pause "), Command::Unknown);
    assert_eq!(parse_command(""), Command::Unknown);
    assert_eq!(parse_command("faster"), Command::Unknown);
}

#[test]
fn digits_spell_a_tick_rate() {
    assert_eq!(parse_command("250"), Command::TickRate(250));
    assert_eq!(parse_command("0"), Command::TickRate(0));
    assert_eq!(parse_command("007"), Command::TickRate(7));
    assert_eq!(parse_command("tick rate: 1 5 0 ms"), Command::TickRate(150));
    assert_eq!(parse_command("update2"), Command::TickRate(2));
    assert_eq!(parse_command("4294967295"), Command::TickRate(4294967295));
    assert_eq!(parse_command("4294967296"), Command::TickRate(0));
    assert_eq!(parse_command("4294967303"), Command::TickRate(7));
    assert_eq!(parse_command("99999999999"), Command::TickRate(99999999999u64 % 4294967296));
}

#[test]
fn numeric_characters_that_are_no_digits_spell_nothing() {
    assert_eq!(parse_command("½"), Command::TickRate(0));
    assert_eq!(parse_command("٣"), Command::TickRate(0));
    assert_eq!(parse_command("1½"), Command::TickRate(1));
}

#[test]
fn decimal_digits() {
    assert_eq!(decimal_digit('0'), Some(0));
    assert_eq!(decimal_digit('7'), Some(7));
    assert_eq!(decimal_digit('9'), Some(9));
    assert_eq!(decimal_digit('/'), None);
    assert_eq!(decimal_digit(':'), None);
    assert_eq!(decimal_digit('a'), None);
    assert_eq!(decimal_digit('٣'), None);
    for c in ['0', '5', '9', 'x', ' ', '½', '٣'] {
        assert_eq!(decimal_digit(c), c.to_digit(10));
    }
}

#[test]
fn commands_but_update_are_taken_by_any_world() {
    let mut configured = ConfiguredWorld::new(
        World::new(0, 0),
        100,
        rand_pcg::Pcg32::from_seed(*b"somebody once to"),
    );
    assert!(!configured.world().is_well_formed());
    assert_eq!(configured.handle_ws_text_msg("pause"), Command::Pause);
    assert_eq!(configured.handle_ws_text_msg("unpause"), Command::Unpause);
    assert_eq!(configured.handle_ws_text_msg("40"), Command::TickRate(40));
    assert_eq!(configured.handle_ws_text_msg("?"), Command::Unknown);
    assert_eq!(configured.tick_rate(), 40);
}

#[test]
fn texts_compare_by_their_characters() {
    assert!(same_text("", ""));
    assert!(same_text("grün", "grün"));
    assert!(!same_text("grün", "grun"));
    assert!(!same_text("ab", "abc"));
    assert!(!same_text("ab", "ba"));
}

#[test]
fn requests_are_routed_by_their_first_line() {
    assert_eq!(route(b"GET / HTTP/1.1\r\nHost: localhost\r\n\r\n"), Route::Index);
    assert_eq!(route(b"GET /?debug=9933212 HTTP/1.1\r\n\r\n"), Route::DebugIndex);
    assert_eq!(route(b"GET /world_status HTTP/1.1\r\n\r\n"), Route::WorldStatus);
    assert_eq!(route(b"GET /websocket HTTP/1.1\r\n"), Route::Websocket);
    assert_eq!(route(b"GET /websocket"), Route::Websocket);
    assert_eq!(route(b"GET /websocke"), Route::NotFound);
    assert_eq!(route(b"GET /?debug=1 HTTP/1.1\r\n"), Route::NotFound);
    assert_eq!(route(b"POST / HTTP/1.1\r\n"), Route::NotFound);
    assert_eq!(route(b""), Route::NotFound);
    let mut buffer = [0u8; 512];
    buffer[..INDEX_REQUEST.len()].copy_from_slice(INDEX_REQUEST.as_bytes());
    assert_eq!(route(&buffer), Route::Index);
    assert_eq!(INDEX_REQUEST, "GET / HTTP/1.1\r\n");
    assert_eq!(DEBUG_INDEX_REQUEST, "GET /?debug=9933212 HTTP/1.1\r\n");
    assert_eq!(WORLD_STATUS_REQUEST, "GET /world_status HTTP/1.1\r\n");
    assert_eq!(WEBSOCKET_REQUEST, "GET /websocket");
}

#[test]
fn prefixes() {
    assert!(starts_with(b"abc", b""));
    assert!(starts_with(b"abc", b"ab"));
    assert!(starts_with(b"abc", b"abc"));
    assert!(!starts_with(b"abc", b"abcd"));
    assert!(!starts_with(b"abc", b"b"));
}

#[test]
fn pause_after_a_frame() {
    assert_eq!(frame_pause(30, 100), (70, false));
    assert_eq!(frame_pause(100, 100), (0, false));
    assert_eq!(frame_pause(101, 100), (0, true));
    assert_eq!(frame_pause(u64::MAX, 0), (0, true));
    assert_eq!(frame_pause(0, u64::MAX), (u64::MAX, false));
}

#[test]
fn messages_steer_the_configured_world() {
    let mut configured = configured();
    let mut randomizer = rand_pcg::Pcg32::from_seed(*b"somebody once to");
    assert_eq!(configured.tick_rate(), 100);
    configured.update_if_active(&mut randomizer);
    assert_eq!(
        configured.world().entities(),
        &vec![Entity::FoodSpawner(FoodSpawner::new(1, 100))]
    );
    assert_eq!(configured.handle_ws_text_msg("pause"), Command::Pause);
    configured.update_if_active(&mut randomizer);
    assert_eq!(
        configured.world().entities(),
        &vec![Entity::FoodSpawner(FoodSpawner::new(1, 100))]
    );
    assert_eq!(configured.handle_ws_text_msg("update"), Command::Update);
    assert_eq!(
        configured.world().entities(),
        &vec![Entity::FoodSpawner(FoodSpawner::new(2, 100))]
    );
    assert_eq!(configured.handle_ws_text_msg("25"), Command::TickRate(25));
    assert_eq!(configured.tick_rate(), 25);
    assert_eq!(configured.handle_ws_text_msg("what"), Command::Unknown);
    assert_eq!(configured.tick_rate(), 25);
    assert_eq!(configured.handle_ws_text_msg("unpause"), Command::Unpause);
    configured.update_if_active(&mut randomizer);
    assert_eq!(
        configured.world().entities(),
        &vec![Entity::FoodSpawner(FoodSpawner::new(3, 100))]
    );
    configured.apply(Command::TickRate(7));
    assert_eq!(configured.tick_rate(), 7);
}
