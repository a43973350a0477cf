//! A small grid world of autonomous agents: eaters that look for food,
//! reproduce, age and die, and spawners that add food and eaters over time.
//!
//! The crate holds the simulation core: the entity data model, the tick
//! protocol of [`world::World`], the goal selection of the eaters and the
//! grid pathfinding they navigate with; and what a server needs to steer a
//! world: the commands of its clients and the routes of its requests.
//!
//! The functions are verified against the contracts they carry. The calls
//! into other crates, for random draws, for the grid graph and for the
//! search of shortest paths, stand in small functions of their own whose
//! contracts are trusted; each of them says so.

use rand_pcg::Pcg32;
use vstd::prelude::*;
use vstd::string::StringSliceAdditionalSpecFns;

use crate::world::entity::Draw;
use crate::world::tick::{is_tick, tick_draws};
use crate::world::{World, WorldView};

pub mod world;

verus! {

/// The time between two ticks that a simulation starts with, in
/// milliseconds.
pub const TICK_RATE_MS: u64 = 100;

/// How a server for the simulation is set up.
pub struct Config {
    pub host_address: String,
}

impl Config {
    /// The configuration for the given host address, or for `localhost`
    /// where none is given.
    pub fn new(host_address: Option<String>) -> (config: Config)
        ensures
            config.host_address@ == (match host_address {
                Some(address) => address@,
                None => "localhost"@,
            }),
    {
        match host_address {
            Some(address) => Config { host_address: address },
            None => Config { host_address: String::from_str("localhost") },
        }
    }
}

/// What a client can ask of a running simulation.
#[derive(Debug, Clone, Copy, PartialEq, Eq, Structural)]
pub enum Command {
    Pause,
    Unpause,
    /// Advance the world by one tick, whether it is paused or not.
    Update,
    /// Set the time between two ticks, in milliseconds.
    TickRate(u64),
    Unknown,
}

/// Which page or service a request asks for.
#[derive(Debug, Clone, Copy, PartialEq, Eq, Structural)]
pub enum Route {
    Index,
    DebugIndex,
    WorldStatus,
    Websocket,
    NotFound,
}

pub const INDEX_REQUEST: &'static str = "GET / HTTP/1.1\r\n";

pub const DEBUG_INDEX_REQUEST: &'static str = "GET /?debug=9933212 HTTP/1.1\r\n";

pub const WORLD_STATUS_REQUEST: &'static str = "GET /world_status HTTP/1.1\r\n";

pub const WEBSOCKET_REQUEST: &'static str = "GET /websocket";

/// Whether Unicode counts the character as numeric, as `char::is_numeric`
/// tells.
pub uninterp spec fn char_is_numeric(c: char) -> bool;

/// Calls `char::is_numeric`. Trusted: the answer is the value named
/// [`char_is_numeric`], a matter of the character alone.
#[verifier::external_body]
fn is_numeric(c: char) -> (numeric: bool)
    ensures
        numeric == char_is_numeric(c),
{
    c.is_numeric()
}

/// The value of a decimal digit, for the characters from `0` to `9`.
pub open spec fn decimal_digit_of(c: char) -> Option<u32> {
    if 48 <= c as u32 <= 57 {
        Some((c as u32 - 48) as u32)
    } else {
        None
    }
}

/// The value of a character as a decimal digit, if it is one.
pub fn decimal_digit(c: char) -> (digit: Option<u32>)
    ensures
        digit == decimal_digit_of(c),
{
    let n: u32 = c as u32;
    if 48 <= n && n <= 57 {
        Some(n - 48)
    } else {
        None
    }
}

/// The number that the decimal digits of a message spell, read from the
/// left and with everything else passed over. It wraps round at 2^32.
pub open spec fn tick_rate_of(msg: Seq<char>) -> u32
    decreases msg.len(),
{
    if msg.len() == 0 {
        0
    } else {
        let before = tick_rate_of(msg.drop_last());
        match decimal_digit_of(msg.last()) {
            Some(digit) => ((before * 10 + digit) % 0x1_0000_0000) as u32,
            None => before,
        }
    }
}

/// What a text message asks for. The three words ask for what they say; any
/// other message that holds a numeric character sets the tick rate to the
/// number that its digits spell.
pub open spec fn command_of(msg: Seq<char>) -> Command {
    if msg == "pause"@ {
        Command::Pause
    } else if msg == "unpause"@ {
        Command::Unpause
    } else if msg == "update"@ {
        Command::Update
    } else if exists|i: int| 0 <= i < msg.len() && char_is_numeric(#[trigger] msg[i]) {
        Command::TickRate(tick_rate_of(msg) as u64)
    } else {
        Command::Unknown
    }
}

/// Which route a request takes, by the line that its bytes start with.
pub open spec fn route_of(buffer: Seq<u8>) -> Route {
    if INDEX_REQUEST.spec_bytes().is_prefix_of(buffer) {
        Route::Index
    } else if DEBUG_INDEX_REQUEST.spec_bytes().is_prefix_of(buffer) {
        Route::DebugIndex
    } else if WORLD_STATUS_REQUEST.spec_bytes().is_prefix_of(buffer) {
        Route::WorldStatus
    } else if WEBSOCKET_REQUEST.spec_bytes().is_prefix_of(buffer) {
        Route::Websocket
    } else {
        Route::NotFound
    }
}

/// Whether two texts hold the same characters.
pub fn same_text(one: &str, other: &str) -> (same: bool)
    ensures
        same == (one@ == other@),
{
    let n: usize = one.unicode_len();
    if other.unicode_len() != n {
        return false;
    }
    let mut i: usize = 0;
    while i < n
        invariant
            i <= n,
            n == one@.len(),
            n == other@.len(),
            forall|j: int| 0 <= j < i ==> one@[j] == other@[j],
        decreases n - i,
    {
        if one.get_char(i) != other.get_char(i) {
            return false;
        }
        i += 1;
    }
    assert(one@ =~= other@);
    true
}

/// Whether the buffer starts with the bytes of the prefix.
pub fn starts_with(buffer: &[u8], prefix: &[u8]) -> (starts: bool)
    ensures
        starts == prefix@.is_prefix_of(buffer@),
{
    if prefix.len() > buffer.len() {
        return false;
    }
    let mut i: usize = 0;
    while i < prefix.len()
        invariant
            i <= prefix@.len() <= buffer@.len(),
            forall|j: int| 0 <= j < i ==> prefix@[j] == buffer@[j],
        decreases prefix@.len() - i,
    {
        if prefix[i] != buffer[i] {
            assert(buffer@.subrange(0, prefix@.len() as int)[i as int] == buffer@[i as int]);
            return false;
        }
        i += 1;
    }
    assert(prefix@ =~= buffer@.subrange(0, prefix@.len() as int));
    true
}

/// Tells which page or service the first bytes of a request ask for.
pub fn route(buffer: &[u8]) -> (route: Route)
    ensures
        route == route_of(buffer@),
{
    if starts_with(buffer, INDEX_REQUEST.as_bytes()) {
        Route::Index
    } else if starts_with(buffer, DEBUG_INDEX_REQUEST.as_bytes()) {
        Route::DebugIndex
    } else if starts_with(buffer, WORLD_STATUS_REQUEST.as_bytes()) {
        Route::WorldStatus
    } else if starts_with(buffer, WEBSOCKET_REQUEST.as_bytes()) {
        Route::Websocket
    } else {
        Route::NotFound
    }
}

/// Reads a text message of a client.
pub fn parse_command(msg: &str) -> (command: Command)
    ensures
        command == command_of(msg@),
{
    if same_text(msg, "pause") {
        Command::Pause
    } else if same_text(msg, "unpause") {
        Command::Unpause
    } else if same_text(msg, "update") {
        Command::Update
    } else {
        let n: usize = msg.unicode_len();
        let mut numeric = false;
        let mut tick_rate: u32 = 0;
        let mut i: usize = 0;
        while i < n
            invariant
                i <= n,
                n == msg@.len(),
                numeric == exists|j: int| 0 <= j < i && char_is_numeric(#[trigger] msg@[j]),
                tick_rate == tick_rate_of(msg@.subrange(0, i as int)),
            decreases n - i,
        {
            let c = msg.get_char(i);
            proof {
                assert(msg@.subrange(0, i + 1).drop_last() =~= msg@.subrange(0, i as int));
                assert(msg@.subrange(0, i + 1).last() == c);
            }
            if is_numeric(c) {
                numeric = true;
            }
            if let Some(digit) = decimal_digit(c) {
                tick_rate = ((tick_rate as u64 * 10 + digit as u64) % 0x1_0000_0000) as u32;
            }
            i += 1;
        }
        assert(msg@.subrange(0, n as int) =~= msg@);
        if numeric {
            Command::TickRate(tick_rate as u64)
        } else {
            Command::Unknown
        }
    }
}

/// How long the loop that drives the ticks sleeps after a tick that took
/// `frame_time`, and whether the tick overran the tick rate. After an
/// overrun the next tick follows at once.
pub fn frame_pause(frame_time: u64, tick_rate: u64) -> (pause: (u64, bool))
    ensures
        pause.1 == (frame_time > tick_rate),
        pause.0 == (if frame_time > tick_rate {
            0
        } else {
            tick_rate - frame_time
        }),
{
    if frame_time > tick_rate {
        (0, true)
    } else {
        (tick_rate - frame_time, false)
    }
}

/// A world together with what a server keeps beside it: the time between
/// two ticks and a generator for the ticks that clients ask for.
pub struct ConfiguredWorld {
    world: World,
    tick_rate: u64,
    randomizer: Pcg32,
}

/// What a configured world holds.
pub struct ConfiguredWorldView {
    pub world: WorldView,
    pub tick_rate: u64,
    /// The generator for the ticks that clients ask for.
    pub randomizer: Pcg32,
}

impl View for ConfiguredWorld {
    type V = ConfiguredWorldView;

    closed spec fn view(&self) -> ConfiguredWorldView {
        ConfiguredWorldView {
            world: self.world@,
            tick_rate: self.tick_rate,
            randomizer: self.randomizer,
        }
    }
}

impl ConfiguredWorldView {
    /// `after` is what a command makes of the configured world. A pause
    /// stops the world and an unpause lets it run; a tick rate is set; an
    /// unknown command changes nothing. In all of these the world's entities
    /// and the generator stay as they are. An update is one tick of the
    /// world, with draws from the configured world's own generator, which a
    /// tick without a draw leaves as it was.
    pub open spec fn is_applied(self, command: Command, after: ConfiguredWorldView) -> bool {
        match command {
            Command::Pause => after == (ConfiguredWorldView {
                world: WorldView { active: false, ..self.world },
                ..self
            }),
            Command::Unpause => after == (ConfiguredWorldView {
                world: WorldView { active: true, ..self.world },
                ..self
            }),
            Command::Update => {
                &&& after.tick_rate == self.tick_rate
                &&& exists|draws: Seq<Draw>| #[trigger]
                    is_tick(self.world, draws, after.world) && (!tick_draws(self.world, draws)
                        ==> after.randomizer == self.randomizer)
            },
            Command::TickRate(tick_rate) => after == (ConfiguredWorldView { tick_rate, ..self }),
            Command::Unknown => after == self,
        }
    }
}

impl ConfiguredWorld {
    pub fn new(world: World, tick_rate: u64, randomizer: Pcg32) -> (configured: ConfiguredWorld)
        ensures
            configured@ == (ConfiguredWorldView { world: world@, tick_rate, randomizer }),
    {
        ConfiguredWorld { world, tick_rate, randomizer }
    }

    pub fn world(&self) -> (world: &World)
        ensures
            world@ == self@.world,
    {
        &self.world
    }

    pub fn tick_rate(&self) -> (tick_rate: u64)
        ensures
            tick_rate == self@.tick_rate,
    {
        self.tick_rate
    }

    /// Advances the world by one tick if it is running or a manual update
    /// was requested, with the generator of the loop that drives the ticks.
    /// The configured world's own generator and the tick rate stay as they
    /// are; so does the generator handed in where no tick is run or no
    /// entity draws.
    pub fn update_if_active(&mut self, randomizer: &mut Pcg32)
        requires
            old(self)@.world.wf(),
        ensures
            final(self)@.world.wf(),
            final(self)@.tick_rate == old(self)@.tick_rate,
            final(self)@.randomizer == old(self)@.randomizer,
            old(self)@.world.active ==> exists|draws: Seq<Draw>| #[trigger]
                is_tick(old(self)@.world, draws, final(self)@.world) && (!tick_draws(
                    old(self)@.world,
                    draws,
                ) ==> *final(randomizer) == *old(randomizer)),
            !old(self)@.world.active && old(self)@.world.manual_update_requested ==> exists|
                draws: Seq<Draw>,
            | #[trigger]
                is_tick(old(self)@.world.without_request(), draws, final(self)@.world) && (
                !tick_draws(old(self)@.world.without_request(), draws) ==> *final(randomizer)
                    == *old(randomizer)),
            !old(self)@.world.active && !old(self)@.world.manual_update_requested ==> final(self)@
                == old(self)@ && *final(randomizer) == *old(randomizer),
    {
        let ghost before = self@.world;
        let ghost generator = *randomizer;
        self.world.update_if_active(randomizer);
        proof {
            if before.active {
                let draws = choose|draws: Seq<Draw>| #[trigger]
                    is_tick(before, draws, self.world@) && (!tick_draws(before, draws)
                        ==> *randomizer == generator);
                assert(is_tick(old(self)@.world, draws, self@.world));
            } else if before.manual_update_requested {
                let draws = choose|draws: Seq<Draw>| #[trigger]
                    is_tick(before.without_request(), draws, self.world@) && (!tick_draws(
                        before.without_request(),
                        draws,
                    ) ==> *randomizer == generator);
                assert(is_tick(old(self)@.world.without_request(), draws, self@.world));
            }
        }
    }

    /// Does what a command asks for. An update is one tick of the world,
    /// paused or not, with the configured world's own generator; it asks for
    /// a well-formed world, as every tick does.
    pub fn apply(&mut self, command: Command)
        requires
            command is Update ==> old(self)@.world.wf(),
        ensures
            old(self)@.is_applied(command, final(self)@),
            old(self)@.world.wf() ==> final(self)@.world.wf(),
    {
        let ghost before = self@;
        match command {
            Command::Pause => {
                self.world.pause();
            },
            Command::Unpause => {
                self.world.unpause();
            },
            Command::Update => {
                self.world.update(&mut self.randomizer);
                proof {
                    let draws = choose|draws: Seq<Draw>| #[trigger]
                        is_tick(before.world, draws, self.world@) && (!tick_draws(
                            before.world,
                            draws,
                        ) ==> self.randomizer == before.randomizer);
                    assert(is_tick(old(self)@.world, draws, self@.world));
                }
            },
            Command::TickRate(tick_rate) => {
                self.tick_rate = tick_rate;
            },
            Command::Unknown => {},
        }
    }

    /// Reads a text message of a client and does what it asks for. Returns
    /// what it took the message for. The message `update` asks for a tick,
    /// and with it for a well-formed world.
    pub fn handle_ws_text_msg(&mut self, msg: &str) -> (command: Command)
        requires
            msg@ == "update"@ ==> old(self)@.world.wf(),
        ensures
            command == command_of(msg@),
            old(self)@.is_applied(command, final(self)@),
            old(self)@.world.wf() ==> final(self)@.world.wf(),
    {
        let command = parse_command(msg);
        self.apply(command);
        command
    }
}

} // verus!
