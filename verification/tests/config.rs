use ping_template::cli_args::{ConfigParser, ConfigParserError};
use ping_template::config::{
    Config, ConfigError, PING_COUNT_MAX, PING_COUNT_MIN, PING_INTERVAL_MAX_MS,
    PING_INTERVAL_MIN_MS,
};
use ping_template::net::{Ipv4Addr, SocketAddrV4};

#[test]
fn test_parse_config() {
    let c_left = "0.0.0.0,5,1000".parse::<Config>().unwrap();
    let c_right = Config::new(
        {
            let ipv4 = Ipv4Addr::new(0, 0, 0, 0);
            SocketAddrV4::new(ipv4, 8080)
        },
        5,
        1000,
    )
    .expect("Config expected to be valid in the test_parse_config unit test");
    assert_eq!(c_left, c_right);
}

#[test]
fn test_check_range() {
    // List of ping count assertions
    assert_eq!(Config::check_range(1, PING_COUNT_MIN, PING_COUNT_MAX), Ok(1));
    assert_eq!(Config::check_range(10, PING_COUNT_MIN, PING_COUNT_MAX), Ok(10));
    assert_eq!(Config::check_range(0, PING_COUNT_MIN, PING_COUNT_MAX), Err(ConfigError::OutOfRange));
    assert_eq!(Config::check_range(11, PING_COUNT_MIN, PING_COUNT_MAX), Err(ConfigError::OutOfRange));

    // List of ping interval assertions
    assert_eq!(Config::check_range(500, PING_INTERVAL_MIN_MS, PING_INTERVAL_MAX_MS), Ok(500));
    assert_eq!(
        Config::check_range(PING_INTERVAL_MIN_MS, PING_INTERVAL_MIN_MS, PING_INTERVAL_MAX_MS),
        Ok(PING_INTERVAL_MIN_MS)
    );
    assert_eq!(
        Config::check_range(PING_INTERVAL_MAX_MS, PING_INTERVAL_MIN_MS, PING_INTERVAL_MAX_MS),
        Ok(PING_INTERVAL_MAX_MS)
    );
    assert_eq!(Config::check_range(0, PING_INTERVAL_MIN_MS, PING_INTERVAL_MAX_MS), Err(ConfigError::OutOfRange));
    assert_eq!(Config::check_range(1001, PING_INTERVAL_MIN_MS, PING_INTERVAL_MAX_MS), Err(ConfigError::OutOfRange));
}

#[test]
fn test_parse_config_error() {
    // Bad IPv4 address
    assert_eq!("0.0.0.A,5,1000".parse::<Config>(), Err(ConfigError::InvalidIPv4Syntax));

    // Bad ping count number
    assert_eq!("0.0.0.0,B,1000".parse::<Config>(), Err(ConfigError::InvalidPingCountSyntax));

    // Bad ping interval number
    assert_eq!("0.0.0.0,5,C".parse::<Config>(), Err(ConfigError::InvalidPingIntervalSyntax));

    // Ping count is out of range
    assert_eq!("0.0.0.0,0,1000".parse::<Config>(), Err(ConfigError::PingCountOutOfRange(0)));

    // Ping interval is out of range
    assert_eq!("0.0.0.0,1,0".parse::<Config>(), Err(ConfigError::PingIntervalOutOfRange(0)));
}

fn addr(a: u8, b: u8, c: u8, d: u8) -> SocketAddrV4 {
    SocketAddrV4::new(Ipv4Addr::new(a, b, c, d), 8080)
}

#[test]
fn parse_reads_all_three_columns() {
    let c = Config::parse("1.1.1.1,3,1000").unwrap();
    assert_eq!(c.target_addr_ipv4, addr(1, 1, 1, 1));
    assert_eq!(c.target_addr_ipv4.port(), 8080);
    assert_eq!(c.ping_count, 3);
    assert_eq!(c.ping_interval, 1000);
}

#[test]
fn parse_reports_missing_columns() {
    assert_eq!(
        Config::parse("1.1.1.1"),
        Err(ConfigError::ParseError("Column Not Found".to_string()))
    );
    assert_eq!(
        Config::parse("1.1.1.1,3"),
        Err(ConfigError::ParseError("Column Not Found".to_string()))
    );
    // The address is checked before the columns that follow it.
    assert_eq!(Config::parse("1.1.1"), Err(ConfigError::InvalidIPv4Syntax));
    assert_eq!(Config::parse(""), Err(ConfigError::InvalidIPv4Syntax));
}

#[test]
fn parse_checks_count_range_before_interval_column() {
    assert_eq!(Config::parse("1.1.1.1,11"), Err(ConfigError::PingCountOutOfRange(11)));
    assert_eq!(Config::parse("1.1.1.1,0,0"), Err(ConfigError::PingCountOutOfRange(0)));
    assert_eq!(Config::parse("1.1.1.1,10,1001"), Err(ConfigError::PingIntervalOutOfRange(1001)));
}

#[test]
fn parse_reads_numbers_as_unsigned_decimals() {
    // An optional plus sign and leading zeros are accepted.
    assert_eq!(Config::parse("1.1.1.1,+3,0010").unwrap().ping_interval, 10);
    assert_eq!(Config::parse("1.1.1.1,007,1").unwrap().ping_count, 7);
    // A minus sign, a lone plus sign, spaces and overflow are not.
    assert_eq!(Config::parse("1.1.1.1,-3,10"), Err(ConfigError::InvalidPingCountSyntax));
    assert_eq!(Config::parse("1.1.1.1,+,10"), Err(ConfigError::InvalidPingCountSyntax));
    assert_eq!(Config::parse("1.1.1.1, 3,10"), Err(ConfigError::InvalidPingCountSyntax));
    assert_eq!(Config::parse("1.1.1.1,65536,10"), Err(ConfigError::InvalidPingCountSyntax));
    assert_eq!(Config::parse("1.1.1.1,65535,10"), Err(ConfigError::PingCountOutOfRange(65535)));
    assert_eq!(
        Config::parse("1.1.1.1,3,18446744073709551616"),
        Err(ConfigError::InvalidPingIntervalSyntax)
    );
    assert_eq!(
        Config::parse("1.1.1.1,3,18446744073709551615"),
        Err(ConfigError::PingIntervalOutOfRange(u64::MAX))
    );
    // A fourth column belongs to the interval column.
    assert_eq!(Config::parse("1.1.1.1,3,10,4"), Err(ConfigError::InvalidPingIntervalSyntax));
}

#[test]
fn parse_reads_dotted_decimal_addresses_strictly() {
    assert_eq!(Config::parse("255.255.255.255,1,1").unwrap().target_addr_ipv4, addr(255, 255, 255, 255));
    assert_eq!(Config::parse("10.0.200.9,1,1").unwrap().target_addr_ipv4, addr(10, 0, 200, 9));
    for bad in [
        "256.0.0.1", "01.0.0.1", "1.2.3", "1.2.3.4.5", "1..3.4", "+1.2.3.4", " 1.2.3.4", "1.2.3.4 ",
        "1000.1.1.1", "a.b.c.d", "1.2.3.",
    ] {
        assert_eq!(
            Config::parse(&format!("{},1,1", bad)),
            Err(ConfigError::InvalidIPv4Syntax),
            "{}",
            bad
        );
    }
}

#[test]
fn new_checks_count_before_interval() {
    assert_eq!(Config::new(addr(1, 2, 3, 4), 0, 0), Err(ConfigError::PingCountOutOfRange(0)));
    assert_eq!(Config::new(addr(1, 2, 3, 4), 1, 0), Err(ConfigError::PingIntervalOutOfRange(0)));
    assert_eq!(
        Config::new(addr(1, 2, 3, 4), 10, 1),
        Ok(Config { target_addr_ipv4: addr(1, 2, 3, 4), ping_count: 10, ping_interval: 1 })
    );
}

#[test]
fn written_line_parses_as_new_builds() {
    for (ip, count, interval) in [((9, 8, 7, 6), 4u16, 250u64), ((0, 0, 0, 0), 11, 5), ((127, 0, 0, 1), 3, 0)] {
        let line = format!("{}.{}.{}.{},{},{}", ip.0, ip.1, ip.2, ip.3, count, interval);
        assert_eq!(
            Config::parse(&line),
            Config::new(addr(ip.0, ip.1, ip.2, ip.3), count, interval)
        );
    }
}

#[test]
fn display_string_lists_address_port_count_interval() {
    let c = Config::parse("1.1.1.1,3,1000").unwrap();
    assert_eq!(c.to_display_string(), "1.1.1.1:8080:3:1000");
}

#[test]
fn config_parser_maps_failures() {
    let p = ConfigParser;
    assert_eq!(p.parse_value(None), Err(ConfigParserError::ValueValidation));
    assert_eq!(
        p.parse_value(Some("1.1.1.1,x,1")),
        Err(ConfigParserError::InvalidValue(ConfigError::InvalidPingCountSyntax))
    );
    assert_eq!(p.parse_value(Some("1.1.1.1,2,3")), Config::parse("1.1.1.1,2,3").map_err(ConfigParserError::InvalidValue));
}
