use voidmat_relay::config::{Config, RelayConfig, RelayEnv, TomlConfig};
use voidmat_relay::text::{decimal_string, parse_decimal};

#[test]
fn parse_decimal_reads_plain_digits() {
    assert_eq!(parse_decimal("7777", 65535), Some(7777));
    assert_eq!(parse_decimal("0", 65535), Some(0));
    assert_eq!(parse_decimal("007", 65535), Some(7));
    assert_eq!(parse_decimal("65535", 65535), Some(65535));
}

#[test]
fn parse_decimal_takes_a_leading_plus() {
    assert_eq!(parse_decimal("+8", 65535), Some(8));
}

#[test]
fn parse_decimal_refuses_malformed_text() {
    assert_eq!(parse_decimal("", 65535), None);
    assert_eq!(parse_decimal("+", 65535), None);
    assert_eq!(parse_decimal("-1", 65535), None);
    assert_eq!(parse_decimal("-0", 65535), None);
    assert_eq!(parse_decimal(" 1", 65535), None);
    assert_eq!(parse_decimal("1 ", 65535), None);
    assert_eq!(parse_decimal("1_0", 65535), None);
    assert_eq!(parse_decimal("12a", 65535), None);
    assert_eq!(parse_decimal("++1", 65535), None);
}

#[test]
fn parse_decimal_refuses_overflow() {
    assert_eq!(parse_decimal("65536", 65535), None);
    assert_eq!(parse_decimal("99999999999999999999999", usize::MAX), None);
    assert_eq!(parse_decimal("18446744073709551615", u64::MAX as usize), Some(u64::MAX as usize));
}

#[test]
fn parse_decimal_agrees_with_std_parse() {
    for text in ["1", "+1", "-1", "", "+", "65535", "65536", "0x10", "１", "12 ", "000000000000000000000001"] {
        let ours = parse_decimal(text, 65535).map(|v| v as u16);
        let std_result = text.parse::<u16>().ok();
        assert_eq!(ours, std_result, "text {:?}", text);
    }
}

#[test]
fn decimal_string_writes_as_display_does() {
    assert_eq!(decimal_string(0), "0");
    assert_eq!(decimal_string(7), "7");
    assert_eq!(decimal_string(10), "10");
    assert_eq!(decimal_string(7777), "7777");
    assert_eq!(decimal_string(u64::MAX), u64::MAX.to_string());
}

#[test]
fn defaults_are_the_documented_values() {
    let c = Config::defaults();
    assert_eq!(c.port, 7777);
    assert_eq!(c.host, "0.0.0.0");
    assert_eq!(c.max_rooms, 1000);
    assert_eq!(c.max_players_per_room, 8);
    assert_eq!(c.ping_interval_secs, 30);
    assert_eq!(c.ping_timeout_secs, 10);
    assert_eq!(c.max_message_size_bytes, 65536);
}

#[test]
fn addr_joins_host_and_port() {
    let c = Config::defaults();
    assert_eq!(c.addr(), "0.0.0.0:7777");
    let mut c2 = Config::defaults();
    c2.host = "127.0.0.1".to_string();
    c2.port = 80;
    assert_eq!(c2.addr(), "127.0.0.1:80");
}

fn no_env() -> RelayEnv {
    RelayEnv { port: None, host: None, max_rooms: None, max_players: None }
}

fn file_with(port: Option<u16>, host: Option<&str>, max_rooms: Option<usize>) -> TomlConfig {
    TomlConfig {
        relay: Some(RelayConfig {
            port,
            host: host.map(|h| h.to_string()),
            max_rooms,
            max_players_per_room: Some(4),
            ping_interval_secs: Some(15),
            ping_timeout_secs: None,
            max_message_size_bytes: Some(1024),
        }),
    }
}

#[test]
fn load_from_without_sources_gives_defaults() {
    let c = Config::load_from(None, no_env());
    assert_eq!(c.port, 7777);
    assert_eq!(c.host, "0.0.0.0");
    assert_eq!(c.max_rooms, 1000);
    let empty_table = Config::load_from(Some(TomlConfig { relay: None }), no_env());
    assert_eq!(empty_table.port, 7777);
    assert_eq!(empty_table.max_players_per_room, 8);
}

#[test]
fn load_from_takes_the_file_over_defaults() {
    let c = Config::load_from(Some(file_with(Some(9000), Some("10.0.0.1"), None)), no_env());
    assert_eq!(c.port, 9000);
    assert_eq!(c.host, "10.0.0.1");
    assert_eq!(c.max_rooms, 1000);
    assert_eq!(c.max_players_per_room, 4);
    assert_eq!(c.ping_interval_secs, 15);
    assert_eq!(c.ping_timeout_secs, 10);
    assert_eq!(c.max_message_size_bytes, 1024);
}

#[test]
fn load_from_takes_the_environment_over_the_file() {
    let env = RelayEnv {
        port: Some("8888".to_string()),
        host: Some("::".to_string()),
        max_rooms: Some("5".to_string()),
        max_players: Some("2".to_string()),
    };
    let c = Config::load_from(Some(file_with(Some(9000), Some("10.0.0.1"), Some(50))), env);
    assert_eq!(c.port, 8888);
    assert_eq!(c.host, "::");
    assert_eq!(c.max_rooms, 5);
    assert_eq!(c.max_players_per_room, 2);
    assert_eq!(c.ping_interval_secs, 15);
}

#[test]
fn load_from_ignores_unreadable_environment_numbers() {
    let env = RelayEnv {
        port: Some("70000".to_string()),
        host: None,
        max_rooms: Some("many".to_string()),
        max_players: Some("-3".to_string()),
    };
    let c = Config::load_from(Some(file_with(Some(9000), None, Some(50))), env);
    assert_eq!(c.port, 9000);
    assert_eq!(c.host, "0.0.0.0");
    assert_eq!(c.max_rooms, 50);
    assert_eq!(c.max_players_per_room, 4);
}
