//! The ping configuration: target address, number of requests and interval
//! between them, read from one line of comma-separated values.
use vstd::prelude::*;

use crate::net::{
    ipv4_chars, lemma_ipv4_chars_digits_and_dots, lemma_ipv4_roundtrip, lemma_split_once_concat,
    lemma_split_once_parts,
    parse_ipv4, push_ipv4, spec_parse_ipv4, split_once, split_once_exec, Ipv4Addr, SocketAddrV4,
};
use crate::text::{
    chars_of, decimal_chars, is_digit, lemma_decimal_chars, lemma_decimal_roundtrip,
    parse_unsigned, push_decimal, spec_parse_unsigned,
};

verus! {

/// Shortest interval between two requests, in milliseconds.
pub const PING_INTERVAL_MIN_MS: u64 = 1;

/// Longest interval between two requests, in milliseconds.
pub const PING_INTERVAL_MAX_MS: u64 = 1000;

/// Fewest requests that a run sends.
pub const PING_COUNT_MIN: u16 = 1;

/// Most requests that a run sends.
pub const PING_COUNT_MAX: u16 = 10;

/// Port given to the target address read from a configuration line.
pub const TARGET_PORT: u16 = 8080;

/// How long one request, or the wait for its reply, may take, in seconds.
pub const ICMP_ECHO_TIMEOUT_DURATION_SECONDS: u64 = 5;

/// Why a configuration was refused.
#[derive(Debug, PartialEq)]
pub enum ConfigError {
    OutOfRange,
    PingIntervalOutOfRange(u64),
    PingCountOutOfRange(u16),
    ParseError(String),
    InvalidIPv4Syntax,
    InvalidPingIntervalSyntax,
    InvalidPingCountSyntax,
}

/// A `ConfigError` with its message taken as a character sequence.
pub enum ConfigErrorView {
    OutOfRange,
    PingIntervalOutOfRange(u64),
    PingCountOutOfRange(u16),
    ParseError(Seq<char>),
    InvalidIPv4Syntax,
    InvalidPingIntervalSyntax,
    InvalidPingCountSyntax,
}

impl View for ConfigError {
    type V = ConfigErrorView;

    open spec fn view(&self) -> ConfigErrorView {
        match self {
            ConfigError::OutOfRange => ConfigErrorView::OutOfRange,
            ConfigError::PingIntervalOutOfRange(v) => ConfigErrorView::PingIntervalOutOfRange(*v),
            ConfigError::PingCountOutOfRange(v) => ConfigErrorView::PingCountOutOfRange(*v),
            ConfigError::ParseError(m) => ConfigErrorView::ParseError(m@),
            ConfigError::InvalidIPv4Syntax => ConfigErrorView::InvalidIPv4Syntax,
            ConfigError::InvalidPingIntervalSyntax => ConfigErrorView::InvalidPingIntervalSyntax,
            ConfigError::InvalidPingCountSyntax => ConfigErrorView::InvalidPingCountSyntax,
        }
    }
}

/// A validated ping configuration.
#[derive(Debug, Clone, Copy, PartialEq, Eq, Structural)]
pub struct Config {
    pub target_addr_ipv4: SocketAddrV4,
    pub ping_count: u16,
    pub ping_interval: u64,
}

/// A number whose order the range check reads.
pub trait RangeValue: Copy + Sized {
    /// The value as an integer.
    spec fn as_int(self) -> int;

    /// `self <= other`.
    fn at_most(&self, other: &Self) -> (res: bool)
        ensures
            res == (self.as_int() <= other.as_int()),
    ;
}

impl RangeValue for u16 {
    open spec fn as_int(self) -> int {
        self as int
    }

    fn at_most(&self, other: &Self) -> (res: bool) {
        *self <= *other
    }
}

impl RangeValue for u64 {
    open spec fn as_int(self) -> int {
        self as int
    }

    fn at_most(&self, other: &Self) -> (res: bool) {
        *self <= *other
    }
}

/// The message of the error given for a missing column.
pub open spec fn column_not_found() -> Seq<char> {
    "Column Not Found"@
}

/// `s` cut at its first comma: the first column and, if there is a comma,
/// everything after it.
pub open spec fn first_column(s: Seq<char>) -> (Seq<char>, Option<Seq<char>>) {
    match split_once(s, ',') {
        Some((a, b)) => (a, Some(b)),
        None => (s, None),
    }
}

/// The configuration that a line of comma-separated values describes, or
/// the error with which it is refused. The line holds the IPv4 address, the
/// number of requests and the interval in milliseconds; a third comma and
/// what follows belong to the interval column. The columns are checked in
/// order, each for its syntax and then for its range.
pub open spec fn spec_parse_config(s: Seq<char>) -> Result<Config, ConfigErrorView> {
    let (col1, rest1) = first_column(s);
    match spec_parse_ipv4(col1) {
        None => Err(ConfigErrorView::InvalidIPv4Syntax),
        Some(ip) => match rest1 {
            None => Err(ConfigErrorView::ParseError(column_not_found())),
            Some(r1) => {
                let (col2, rest2) = first_column(r1);
                match spec_parse_unsigned(col2, 0xffff) {
                    None => Err(ConfigErrorView::InvalidPingCountSyntax),
                    Some(count) => if !(1 <= count <= 10) {
                        Err(ConfigErrorView::PingCountOutOfRange(count as u16))
                    } else {
                        match rest2 {
                            None => Err(ConfigErrorView::ParseError(column_not_found())),
                            Some(col3) => match spec_parse_unsigned(col3, 0xffff_ffff_ffff_ffff) {
                                None => Err(ConfigErrorView::InvalidPingIntervalSyntax),
                                Some(interval) => if !(1 <= interval <= 1000) {
                                    Err(ConfigErrorView::PingIntervalOutOfRange(interval as u64))
                                } else {
                                    Ok(
                                        Config {
                                            target_addr_ipv4: SocketAddrV4 {
                                                ip,
                                                port: 8080,
                                            },
                                            ping_count: count as u16,
                                            ping_interval: interval as u64,
                                        },
                                    )
                                },
                            },
                        }
                    },
                }
            },
        },
    }
}

/// What building a configuration from its parts gives: the request count
/// must lie in `1..=10` (checked first) and the interval in `1..=1000`
/// milliseconds.
pub open spec fn spec_new_config(
    target_addr_ipv4: SocketAddrV4,
    ping_count: u16,
    ping_interval: u64,
) -> Result<Config, ConfigErrorView> {
    if !(PING_COUNT_MIN <= ping_count <= PING_COUNT_MAX) {
        Err(ConfigErrorView::PingCountOutOfRange(ping_count))
    } else if !(PING_INTERVAL_MIN_MS <= ping_interval <= PING_INTERVAL_MAX_MS) {
        Err(ConfigErrorView::PingIntervalOutOfRange(ping_interval))
    } else {
        Ok(Config { target_addr_ipv4, ping_count, ping_interval })
    }
}

/// The configuration line `address,count,interval` written with decimal
/// numbers.
pub open spec fn config_line(ip: Ipv4Addr, ping_count: u16, ping_interval: u64) -> Seq<char> {
    ipv4_chars(ip) + seq![','] + decimal_chars(ping_count as nat) + seq![','] + decimal_chars(
        ping_interval as nat,
    )
}

/// Reading the line written from an address, a request count and an
/// interval gives what building the configuration from them gives, with the
/// target port 8080.
pub proof fn lemma_parse_config_line(ip: Ipv4Addr, ping_count: u16, ping_interval: u64)
    ensures
        spec_parse_config(config_line(ip, ping_count, ping_interval)) == spec_new_config(
            SocketAddrV4 { ip, port: TARGET_PORT },
            ping_count,
            ping_interval,
        ),
{
    let ips = ipv4_chars(ip);
    let cs = decimal_chars(ping_count as nat);
    let is = decimal_chars(ping_interval as nat);
    lemma_ipv4_chars_digits_and_dots(ip);
    lemma_decimal_chars(ping_count as nat);
    lemma_decimal_chars(ping_interval as nat);
    assert forall|j: int| 0 <= j < ips.len() implies ips[j] != ',' by {
        assert(is_digit(ips[j]) || ips[j] == '.');
    }
    assert forall|j: int| 0 <= j < cs.len() implies cs[j] != ',' by {
        assert(is_digit(cs[j]));
    }
    let r1 = cs + seq![','] + is;
    assert(config_line(ip, ping_count, ping_interval) =~= ips + seq![','] + r1);
    lemma_split_once_concat(ips, ',', r1);
    lemma_split_once_concat(cs, ',', is);
    lemma_ipv4_roundtrip(ip);
    lemma_decimal_roundtrip(ping_count as nat, 0xffff);
    lemma_decimal_roundtrip(ping_interval as nat, 0xffff_ffff_ffff_ffff);
}

/// `s` holds no comma.
pub open spec fn no_comma(s: Seq<char>) -> bool {
    forall|j: int| 0 <= j < s.len() ==> s[j] != ','
}

/// `s` is the line `a,n,m`, where `a` and `n` hold no comma (`m`, the rest
/// of the line, may).
pub open spec fn line_columns(s: Seq<char>, a: Seq<char>, n: Seq<char>, m: Seq<char>) -> bool {
    &&& s == a + seq![','] + n + seq![','] + m
    &&& no_comma(a)
    &&& no_comma(n)
}

/// The columns hold a dotted-decimal address, a request count in `1..=10`
/// and an interval in `1..=1000`, both unsigned decimal numerals.
pub open spec fn columns_valid(a: Seq<char>, n: Seq<char>, m: Seq<char>) -> bool {
    &&& spec_parse_ipv4(a) is Some
    &&& spec_parse_unsigned(n, 0xffff) matches Some(k) && 1 <= k <= 10
    &&& spec_parse_unsigned(m, 0xffff_ffff_ffff_ffff) matches Some(v) && 1 <= v <= 1000
}

/// The configuration that valid columns describe, with target port 8080.
pub open spec fn columns_config(a: Seq<char>, n: Seq<char>, m: Seq<char>) -> Config {
    Config {
        target_addr_ipv4: SocketAddrV4 { ip: spec_parse_ipv4(a)->0, port: 8080 },
        ping_count: spec_parse_unsigned(n, 0xffff)->0 as u16,
        ping_interval: spec_parse_unsigned(m, 0xffff_ffff_ffff_ffff)->0 as u64,
    }
}

/// A line is accepted exactly when it is `a,n,m` with no comma in `a` or `n`
/// and valid columns, and then it gives the configuration those columns
/// describe.
pub proof fn lemma_parse_config_columns(s: Seq<char>)
    ensures
        spec_parse_config(s) is Ok <==> exists|a: Seq<char>, n: Seq<char>, m: Seq<char>|
            #![trigger line_columns(s, a, n, m)]
            line_columns(s, a, n, m) && columns_valid(a, n, m),
        forall|a: Seq<char>, n: Seq<char>, m: Seq<char>|
            #![trigger line_columns(s, a, n, m)]
            line_columns(s, a, n, m) && columns_valid(a, n, m) ==> spec_parse_config(s) == Ok::<
                Config,
                ConfigErrorView,
            >(columns_config(a, n, m)),
{
    assert forall|a: Seq<char>, n: Seq<char>, m: Seq<char>|
        #![trigger line_columns(s, a, n, m)]
        line_columns(s, a, n, m) && columns_valid(a, n, m) implies spec_parse_config(s) == Ok::<
        Config,
        ConfigErrorView,
    >(columns_config(a, n, m)) by {
        let r1 = n + seq![','] + m;
        assert(s =~= a + seq![','] + r1);
        lemma_split_once_concat(a, ',', r1);
        lemma_split_once_concat(n, ',', m);
    }
    if spec_parse_config(s) is Ok {
        lemma_split_once_parts(s, ',');
        let (a, r1) = split_once(s, ',')->0;
        lemma_split_once_parts(r1, ',');
        let (n, m) = split_once(r1, ',')->0;
        assert(s =~= a + seq![','] + n + seq![','] + m);
        assert(line_columns(s, a, n, m) && columns_valid(a, n, m));
    }
}

/// The text form `address:port:count:interval` of a configuration.
pub open spec fn config_chars(c: Config) -> Seq<char> {
    ipv4_chars(c.target_addr_ipv4.ip) + seq![':'] + decimal_chars(c.target_addr_ipv4.port as nat)
        + seq![':'] + decimal_chars(c.ping_count as nat) + seq![':'] + decimal_chars(
        c.ping_interval as nat,
    )
}

/// `s` cut at its first colon, with nothing left when there is none.
pub open spec fn colon_split(s: Seq<char>) -> (Seq<char>, Seq<char>) {
    match split_once(s, ':') {
        Some((a, b)) => (a, b),
        None => (s, Seq::empty()),
    }
}

/// The text form of a configuration reads back, field by field at its
/// colons, as the configuration's address, port, request count and
/// interval.
pub proof fn lemma_config_chars_read_back(c: Config)
    ensures
        ({
            let line = config_chars(c);
            let (a, r1) = colon_split(line);
            let (p, r2) = colon_split(r1);
            let (n, m) = colon_split(r2);
            &&& split_once(line, ':') is Some
            &&& split_once(r1, ':') is Some
            &&& split_once(r2, ':') is Some
            &&& spec_parse_ipv4(a) == Some(c.target_addr_ipv4.ip)
            &&& spec_parse_unsigned(p, 0xffff) == Some(c.target_addr_ipv4.port as nat)
            &&& spec_parse_unsigned(n, 0xffff) == Some(c.ping_count as nat)
            &&& spec_parse_unsigned(m, 0xffff_ffff_ffff_ffff) == Some(c.ping_interval as nat)
        }),
{
    let ips = ipv4_chars(c.target_addr_ipv4.ip);
    let ps = decimal_chars(c.target_addr_ipv4.port as nat);
    let ns = decimal_chars(c.ping_count as nat);
    let ms = decimal_chars(c.ping_interval as nat);
    lemma_ipv4_chars_digits_and_dots(c.target_addr_ipv4.ip);
    lemma_decimal_chars(c.target_addr_ipv4.port as nat);
    lemma_decimal_chars(c.ping_count as nat);
    assert forall|j: int| 0 <= j < ips.len() implies ips[j] != ':' by {
        assert(is_digit(ips[j]) || ips[j] == '.');
    }
    assert forall|j: int| 0 <= j < ps.len() implies ps[j] != ':' by {
        assert(is_digit(ps[j]));
    }
    assert forall|j: int| 0 <= j < ns.len() implies ns[j] != ':' by {
        assert(is_digit(ns[j]));
    }
    let r2 = ns + seq![':'] + ms;
    let r1 = ps + seq![':'] + r2;
    assert(config_chars(c) =~= ips + seq![':'] + r1);
    lemma_split_once_concat(ips, ':', r1);
    lemma_split_once_concat(ps, ':', r2);
    lemma_split_once_concat(ns, ':', ms);
    lemma_ipv4_roundtrip(c.target_addr_ipv4.ip);
    lemma_decimal_roundtrip(c.target_addr_ipv4.port as nat, 0xffff);
    lemma_decimal_roundtrip(c.ping_count as nat, 0xffff);
    lemma_decimal_roundtrip(c.ping_interval as nat, 0xffff_ffff_ffff_ffff);
}

/// `res` is the outcome `spec` describes, with the error taken by its view.
pub open spec fn config_result_is(
    res: Result<Config, ConfigError>,
    spec: Result<Config, ConfigErrorView>,
) -> bool {
    match res {
        Ok(c) => spec == Ok::<Config, ConfigErrorView>(c),
        Err(e) => spec == Err::<Config, ConfigErrorView>(e@),
    }
}

fn column_split(s: &[char]) -> (res: (Vec<char>, Option<Vec<char>>))
    ensures
        first_column(s@).0 == res.0@,
        match res.1 {
            Some(r) => first_column(s@).1 == Some(r@),
            None => first_column(s@).1 is None,
        },
{
    match split_once_exec(s, ',') {
        Some((a, b)) => (a, Some(b)),
        None => {
            let mut v: Vec<char> = Vec::new();
            let mut i: usize = 0;
            while i < s.len()
                invariant
                    0 <= i <= s@.len(),
                    v@ == s@.take(i as int),
                decreases s@.len() - i,
            {
                v.push(s[i]);
                assert(s@.take(i + 1) =~= s@.take(i as int).push(s@[i as int]));
                i = i + 1;
            }
            assert(s@.take(i as int) =~= s@);
            (v, None)
        },
    }
}

impl Config {
    /// The configuration keeps its request count and interval in range.
    pub open spec fn valid(self) -> bool {
        &&& PING_COUNT_MIN <= self.ping_count <= PING_COUNT_MAX
        &&& PING_INTERVAL_MIN_MS <= self.ping_interval <= PING_INTERVAL_MAX_MS
    }

    /// Builds a configuration, refusing a request count out of `1..=10`
    /// (checked first) and an interval out of `1..=1000` milliseconds.
    pub fn new(target_addr_ipv4: SocketAddrV4, ping_count: u16, ping_interval: u64) -> (res:
        Result<Config, ConfigError>)
        ensures
            config_result_is(res, spec_new_config(target_addr_ipv4, ping_count, ping_interval)),
            res matches Ok(c) ==> c.valid(),
    {
        let ping_count = match Config::check_range(ping_count, PING_COUNT_MIN, PING_COUNT_MAX) {
            Ok(v) => v,
            Err(_) => return Err(ConfigError::PingCountOutOfRange(ping_count)),
        };
        let ping_interval = match Config::check_range(
            ping_interval,
            PING_INTERVAL_MIN_MS,
            PING_INTERVAL_MAX_MS,
        ) {
            Ok(v) => v,
            Err(_) => return Err(ConfigError::PingIntervalOutOfRange(ping_interval)),
        };
        Ok(Config { target_addr_ipv4, ping_count, ping_interval })
    }

    /// Gives back `number` when `lower <= number <= upper`, and
    /// `ConfigError::OutOfRange` otherwise.
    pub fn check_range<T: RangeValue>(number: T, lower: T, upper: T) -> (res: Result<
        T,
        ConfigError,
    >)
        ensures
            lower.as_int() <= number.as_int() <= upper.as_int() ==> res == Ok::<T, ConfigError>(
                number,
            ),
            !(lower.as_int() <= number.as_int() <= upper.as_int()) ==> res == Err::<
                T,
                ConfigError,
            >(ConfigError::OutOfRange),
    {
        if lower.at_most(&number) && number.at_most(&upper) {
            Ok(number)
        } else {
            Err(ConfigError::OutOfRange)
        }
    }

    /// Reads a configuration line `address,count,interval`, such as
    /// `1.1.1.1,3,1000`, as `spec_parse_config` describes.
    pub fn parse(s: &str) -> (res: Result<Config, ConfigError>)
        ensures
            config_result_is(res, spec_parse_config(s@)),
            res matches Ok(c) ==> c.valid(),
    {
        let chars = chars_of(s);
        let (col1, rest1) = column_split(chars.as_slice());
        let ip = match parse_ipv4(col1.as_slice()) {
            Some(ip) => ip,
            None => return Err(ConfigError::InvalidIPv4Syntax),
        };
        let target_addr_ipv4 = SocketAddrV4::new(ip, TARGET_PORT);
        let r1 = match rest1 {
            Some(r) => r,
            None => return Err(ConfigError::ParseError(String::from_str("Column Not Found"))),
        };
        let (col2, rest2) = column_split(r1.as_slice());
        let count = match parse_unsigned(col2.as_slice(), 0xffff) {
            Some(v) => v as u16,
            None => return Err(ConfigError::InvalidPingCountSyntax),
        };
        let ping_count = match Config::check_range(count, PING_COUNT_MIN, PING_COUNT_MAX) {
            Ok(v) => v,
            Err(_) => return Err(ConfigError::PingCountOutOfRange(count)),
        };
        let col3 = match rest2 {
            Some(r) => r,
            None => return Err(ConfigError::ParseError(String::from_str("Column Not Found"))),
        };
        let interval = match parse_unsigned(col3.as_slice(), 0xffff_ffff_ffff_ffff) {
            Some(v) => v,
            None => return Err(ConfigError::InvalidPingIntervalSyntax),
        };
        let ping_interval = match Config::check_range(
            interval,
            PING_INTERVAL_MIN_MS,
            PING_INTERVAL_MAX_MS,
        ) {
            Ok(v) => v,
            Err(_) => return Err(ConfigError::PingIntervalOutOfRange(interval)),
        };
        Ok(Config { target_addr_ipv4, ping_count, ping_interval })
    }

    /// The text form `address:port:count:interval`, such as `1.1.1.1:8080:3:1000`.
    pub fn to_display_string(&self) -> (res: String)
        ensures
            res@ == config_chars(*self),
    {
        proof {
            reveal_strlit(":");
        }
        let mut s = String::new();
        push_ipv4(&mut s, self.target_addr_ipv4.ip);
        s.append(":");
        push_decimal(&mut s, self.target_addr_ipv4.port as u128);
        s.append(":");
        push_decimal(&mut s, self.ping_count as u128);
        s.append(":");
        push_decimal(&mut s, self.ping_interval as u128);
        assert(s@ =~= config_chars(*self));
        s
    }
}

impl core::str::FromStr for Config {
    type Err = ConfigError;

    /// Reads a configuration line, as `Config::parse` does.
    fn from_str(s: &str) -> (res: Result<Config, ConfigError>)
        ensures
            config_result_is(res, spec_parse_config(s@)),
            res matches Ok(c) ==> c.valid(),
    {
        Config::parse(s)
    }
}

} // verus!
