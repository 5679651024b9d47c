//! The relay's settings: built-in defaults, overridden by the `[relay]`
//! table of `relay.toml`, overridden in turn by environment variables.
use vstd::prelude::*;
use vstd::string::*;

use crate::text::{decimal, decimal_string, parse_decimal, parse_unsigned};

verus! {

/// The `[relay]` table of the settings file; each entry may be absent.
#[derive(Debug, Clone)]
pub struct RelayConfig {
    pub port: Option<u16>,
    pub host: Option<String>,
    pub max_rooms: Option<usize>,
    pub max_players_per_room: Option<usize>,
    pub ping_interval_secs: Option<u64>,
    pub ping_timeout_secs: Option<u64>,
    pub max_message_size_bytes: Option<usize>,
}

/// The settings file as a whole.
#[derive(Debug, Clone)]
pub struct TomlConfig {
    pub relay: Option<RelayConfig>,
}

/// The raw text of the environment variables `RELAY_PORT`, `RELAY_HOST`,
/// `RELAY_MAX_ROOMS` and `RELAY_MAX_PLAYERS`, for those that are set.
#[derive(Debug)]
pub struct RelayEnv {
    pub port: Option<String>,
    pub host: Option<String>,
    pub max_rooms: Option<String>,
    pub max_players: Option<String>,
}

/// The settings the relay runs with.
#[derive(Debug, Clone)]
pub struct Config {
    pub port: u16,
    pub host: String,
    pub max_rooms: usize,
    pub max_players_per_room: usize,
    pub ping_interval_secs: u64,
    pub ping_timeout_secs: u64,
    pub max_message_size_bytes: usize,
}

pub struct RelayConfigView {
    pub port: Option<u16>,
    pub host: Option<Seq<char>>,
    pub max_rooms: Option<usize>,
    pub max_players_per_room: Option<usize>,
    pub ping_interval_secs: Option<u64>,
    pub ping_timeout_secs: Option<u64>,
    pub max_message_size_bytes: Option<usize>,
}

pub struct RelayEnvView {
    pub port: Option<Seq<char>>,
    pub host: Option<Seq<char>>,
    pub max_rooms: Option<Seq<char>>,
    pub max_players: Option<Seq<char>>,
}

pub struct ConfigView {
    pub port: u16,
    pub host: Seq<char>,
    pub max_rooms: usize,
    pub max_players_per_room: usize,
    pub ping_interval_secs: u64,
    pub ping_timeout_secs: u64,
    pub max_message_size_bytes: usize,
}

pub open spec fn text_of(t: Option<String>) -> Option<Seq<char>> {
    match t {
        Some(s) => Some(s@),
        None => None,
    }
}

impl View for RelayConfig {
    type V = RelayConfigView;

    open spec fn view(&self) -> RelayConfigView {
        RelayConfigView {
            port: self.port,
            host: text_of(self.host),
            max_rooms: self.max_rooms,
            max_players_per_room: self.max_players_per_room,
            ping_interval_secs: self.ping_interval_secs,
            ping_timeout_secs: self.ping_timeout_secs,
            max_message_size_bytes: self.max_message_size_bytes,
        }
    }
}

impl View for RelayEnv {
    type V = RelayEnvView;

    open spec fn view(&self) -> RelayEnvView {
        RelayEnvView {
            port: text_of(self.port),
            host: text_of(self.host),
            max_rooms: text_of(self.max_rooms),
            max_players: text_of(self.max_players),
        }
    }
}

impl View for Config {
    type V = ConfigView;

    open spec fn view(&self) -> ConfigView {
        ConfigView {
            port: self.port,
            host: self.host@,
            max_rooms: self.max_rooms,
            max_players_per_room: self.max_players_per_room,
            ping_interval_secs: self.ping_interval_secs,
            ping_timeout_secs: self.ping_timeout_secs,
            max_message_size_bytes: self.max_message_size_bytes,
        }
    }
}

pub open spec fn default_config() -> ConfigView {
    ConfigView {
        port: 7777,
        host: "0.0.0.0"@,
        max_rooms: 1000,
        max_players_per_room: 8,
        ping_interval_secs: 30,
        ping_timeout_secs: 10,
        max_message_size_bytes: 65536,
    }
}

pub open spec fn or_keep<T>(setting: Option<T>, current: T) -> T {
    match setting {
        Some(v) => v,
        None => current,
    }
}

/// The settings once every entry present in the file's `[relay]` table has
/// replaced the one before.
pub open spec fn with_file(c: ConfigView, r: RelayConfigView) -> ConfigView {
    ConfigView {
        port: or_keep(r.port, c.port),
        host: or_keep(r.host, c.host),
        max_rooms: or_keep(r.max_rooms, c.max_rooms),
        max_players_per_room: or_keep(r.max_players_per_room, c.max_players_per_room),
        ping_interval_secs: or_keep(r.ping_interval_secs, c.ping_interval_secs),
        ping_timeout_secs: or_keep(r.ping_timeout_secs, c.ping_timeout_secs),
        max_message_size_bytes: or_keep(r.max_message_size_bytes, c.max_message_size_bytes),
    }
}

/// A number from the environment: the value of `text` where it is set and
/// reads as a number no larger than `max`, else `current`.
pub open spec fn env_number(text: Option<Seq<char>>, max: nat, current: nat) -> nat {
    match text {
        Some(t) => match parse_unsigned(t, max) {
            Some(v) => v,
            None => current,
        },
        None => current,
    }
}

/// The settings once the environment has spoken: the host where it is set,
/// the numbers where they are set and read as numbers of their type.
pub open spec fn with_env(c: ConfigView, e: RelayEnvView) -> ConfigView {
    ConfigView {
        port: env_number(e.port, 65535, c.port as nat) as u16,
        host: or_keep(e.host, c.host),
        max_rooms: env_number(e.max_rooms, usize::MAX as nat, c.max_rooms as nat) as usize,
        max_players_per_room: env_number(
            e.max_players,
            usize::MAX as nat,
            c.max_players_per_room as nat,
        ) as usize,
        ..c
    }
}

/// The settings from the defaults, the file (where it was read and parsed)
/// and the environment, each overriding the one before.
pub open spec fn loaded_config(file: Option<Option<RelayConfigView>>, env: RelayEnvView) -> ConfigView {
    let from_file = match file {
        Some(Some(r)) => with_file(default_config(), r),
        _ => default_config(),
    };
    with_env(from_file, env)
}

/// Reads an environment setting as a number no larger than `max`; `current`
/// where it is unset or unreadable.
fn env_number_of(text: &Option<String>, max: usize, current: usize) -> (n: usize)
    ensures
        n as nat == env_number(text_of(*text), max as nat, current as nat),
{
    match text {
        Some(t) => match parse_decimal(t.as_str(), max) {
            Some(v) => v,
            None => current,
        },
        None => current,
    }
}

impl Config {
    pub fn defaults() -> (c: Config)
        ensures
            c@ == default_config(),
    {
        proof {
            reveal_strlit("0.0.0.0");
        }
        Config {
            port: 7777,
            host: String::from_str("0.0.0.0"),
            max_rooms: 1000,
            max_players_per_room: 8,
            ping_interval_secs: 30,
            ping_timeout_secs: 10,
            max_message_size_bytes: 65536,
        }
    }

    /// Takes every entry that the file's `[relay]` table gives.
    pub fn apply_file(&mut self, relay: RelayConfig)
        ensures
            final(self)@ == with_file(old(self)@, relay@),
    {
        if let Some(port) = relay.port {
            self.port = port;
        }
        if let Some(host) = relay.host {
            self.host = host;
        }
        if let Some(max_rooms) = relay.max_rooms {
            self.max_rooms = max_rooms;
        }
        if let Some(max_players) = relay.max_players_per_room {
            self.max_players_per_room = max_players;
        }
        if let Some(ping_interval) = relay.ping_interval_secs {
            self.ping_interval_secs = ping_interval;
        }
        if let Some(ping_timeout) = relay.ping_timeout_secs {
            self.ping_timeout_secs = ping_timeout;
        }
        if let Some(max_size) = relay.max_message_size_bytes {
            self.max_message_size_bytes = max_size;
        }
    }

    /// Takes the settings that the environment gives and that read well.
    pub fn apply_env(&mut self, env: RelayEnv)
        ensures
            final(self)@ == with_env(old(self)@, env@),
    {
        self.port = env_number_of(&env.port, 65535, self.port as usize) as u16;
        if let Some(host) = env.host {
            self.host = host;
        }
        self.max_rooms = env_number_of(&env.max_rooms, usize::MAX, self.max_rooms);
        self.max_players_per_room = env_number_of(
            &env.max_players,
            usize::MAX,
            self.max_players_per_room,
        );
    }

    /// The settings from the defaults, the settings file (`None` where it
    /// could not be read or parsed) and the environment.
    pub fn load_from(file: Option<TomlConfig>, env: RelayEnv) -> (c: Config)
        ensures
            c@ == loaded_config(
                match file {
                    Some(t) => Some(
                        match t.relay {
                            Some(r) => Some(r@),
                            None => None,
                        },
                    ),
                    None => None,
                },
                env@,
            ),
    {
        let mut config = Self::defaults();
        if let Some(toml_config) = file {
            if let Some(relay) = toml_config.relay {
                config.apply_file(relay);
            }
        }
        config.apply_env(env);
        config
    }

    /// The address to listen on: `host:port`.
    pub fn addr(&self) -> (a: String)
        ensures
            a@ == self.host@ + seq![':'] + decimal(self.port as nat),
    {
        let mut a = self.host.clone();
        proof {
            reveal_strlit(":");
        }
        a.append(":");
        let port = decimal_string(self.port as u64);
        a.append(port.as_str());
        a
    }
}

} // verus!
