use turboflakes::num::{
    bool_to_string, fmt_scaled, parse_bool, parse_scaled, parse_u128, parse_u32, split_string,
    str_eq, u128_to_string, u32_to_string,
};
use turboflakes::keys::Key;
use turboflakes::types::{get_redis_url, Config};

#[test]
fn decimal_round_trip() {
    assert_eq!(u32_to_string(0), "0");
    assert_eq!(u32_to_string(84), "84");
    assert_eq!(u128_to_string(340282366920938463463374607431768211455), format!("{}", u128::MAX));
    assert_eq!(parse_u128("84"), Some(84));
    assert_eq!(parse_u32("4294967295"), Some(u32::MAX));
    assert_eq!(parse_u32("4294967296"), None);
    assert_eq!(parse_u128(""), None);
    assert_eq!(parse_u128("12a"), None);
}

#[test]
fn booleans_read_and_write() {
    assert_eq!(parse_bool("true"), Some(true));
    assert_eq!(parse_bool("false"), Some(false));
    assert_eq!(parse_bool("yes"), None);
    assert_eq!(bool_to_string(true), "true");
}

#[test]
fn fixed_point_text() {
    assert_eq!(fmt_scaled(1_000_000_000), "1");
    assert_eq!(fmt_scaled(500_000_000), "0.5");
    assert_eq!(fmt_scaled(2_500_000_000), "2.5");
    assert_eq!(fmt_scaled(0), "0");
    assert_eq!(parse_scaled("0.5"), Some(500_000_000));
    assert_eq!(parse_scaled("2"), Some(2_000_000_000));
    assert_eq!(parse_scaled("2."), Some(2_000_000_000));
    assert_eq!(parse_scaled(".25"), Some(250_000_000));
    assert_eq!(parse_scaled("."), None);
    assert_eq!(parse_scaled("a"), None);
    // fraction digits past the ninth are cut off
    assert_eq!(parse_scaled("0.1234567891"), Some(123_456_789));
}

#[test]
fn splitting_text() {
    let parts = split_string("a,b,,c", ',');
    assert_eq!(parts.len(), 4);
    assert_eq!(parts[0], "a");
    assert_eq!(parts[2], "");
    let one = split_string("", ',');
    assert_eq!(one.len(), 1);
    assert!(str_eq(one[0].as_str(), ""));
}

#[test]
fn keyspace_strings() {
    assert_eq!(Key::Network.to_key_string(), "network");
    assert_eq!(Key::ActiveEra.to_key_string(), "era:active");
    assert_eq!(Key::Era(527).to_key_string(), "527:era");
    assert_eq!(
        Key::ValidatorAtEra(100, String::from("STASH")).to_key_string(),
        "100:era:STASH:val"
    );
    assert_eq!(
        Key::BoardAtEra(100, String::from("all:val")).to_key_string(),
        "100:era:all:val:board"
    );
    assert_eq!(Key::Validator(String::from("S")).to_key_string(), "S:val");
    assert_eq!(
        Key::ActiveErasByValidator(String::from("S")).to_key_string(),
        "S:val:eras:active"
    );
    assert_eq!(
        Key::ValidatorAtEraScan(String::from("S")).to_key_string(),
        "*:era:S:val"
    );
}

#[test]
fn redis_url_shape() {
    let config = Config {
        turboflakes_host: String::from("0.0.0.0"),
        turboflakes_port: 5010,
        rust_backtrace: 0,
        rust_log: String::from("info"),
        substrate_ws_url: String::from("ws://localhost:9944"),
        redis_hostname: String::from("localhost"),
        redis_password: String::from("SECRET-REDACTED"),
        redis_database: 1,
    };
    assert_eq!(get_redis_url(config), "redis://:SECRET-REDACTED@localhost/1");
}
