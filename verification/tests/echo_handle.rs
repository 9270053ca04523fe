use ping_template::connection_handle::ConnectionHandle;
use ping_template::echo_handle::{timeout_output_format, EchoHandle, EchoStatus, Instant};
use ping_template::net::{parse_ipv4, Ipv4Addr};
use ping_template::text::{decimal_string, parse_unsigned};

fn at_micros(us: u128) -> Instant {
    Instant::from_nanos(us * 1000)
}

#[test]
fn test_to_output_format() {
    let start = Instant::from_nanos(1_000_000);
    let handle = EchoHandle::new(Ipv4Addr::new(127, 0, 0, 1), 1, 1, start, start, EchoStatus::Pending);
    assert_eq!(handle.to_output_format(), "127.0.0.1,1,0 - Pending");

    let handle = EchoHandle::new(Ipv4Addr::new(127, 0, 0, 1), 2, 1, start, start, EchoStatus::Sent);
    assert_eq!(handle.to_output_format(), "127.0.0.1,2,0 - Sent");

    let later = Instant::from_nanos(start.nanos + 650_000);
    let handle = EchoHandle::new(Ipv4Addr::new(127, 0, 0, 1), 3, 1, start, later, EchoStatus::Received);
    assert_eq!(handle.to_output_format(), "127.0.0.1,3,650");

    let handle = EchoHandle::new(Ipv4Addr::new(127, 0, 0, 1), 4, 1, start, start, EchoStatus::Elapsed);
    assert_eq!(handle.to_output_format(), "127.0.0.1,4,timeout");

    let handle = EchoHandle::new(Ipv4Addr::new(127, 0, 0, 1), 5, 1, start, start, EchoStatus::Failed);
    assert_eq!(handle.to_output_format(), "127.0.0.1,5,0 - Failed");
}

#[test]
fn elapsed_time_is_whole_microseconds_and_never_negative() {
    let ip = Ipv4Addr::new(10, 0, 0, 1);
    let h = EchoHandle::new(ip, 0, 9, Instant::from_nanos(500), Instant::from_nanos(2_499), EchoStatus::Sent);
    assert_eq!(h.elapsed_micros, 1);
    let h = EchoHandle::new(ip, 0, 9, Instant::from_nanos(5_000), Instant::from_nanos(1_000), EchoStatus::Sent);
    assert_eq!(h.elapsed_micros, 0);
    assert_eq!(at_micros(7).micros_since(at_micros(2)), 5);
}

#[test]
fn to_received_keeps_the_request_and_retimes_it() {
    let ip = Ipv4Addr::new(192, 168, 1, 20);
    let h = EchoHandle::new(ip, 7, 42, at_micros(100), at_micros(100), EchoStatus::Sent);
    let r = h.to_received(at_micros(1_350));
    assert_eq!(r.destination_ipv4, ip);
    assert_eq!((r.seq, r.identifier, r.earlier), (7, 42, at_micros(100)));
    assert_eq!(r.now, at_micros(1_350));
    assert_eq!(r.elapsed_micros, 1_250);
    assert_eq!(r.status, EchoStatus::Received);
    assert_eq!(r.to_display_string(), "192.168.1.20,7,1250 - Received");

    let c = ConnectionHandle::new(ip, 7, 42, at_micros(100), at_micros(100), EchoStatus::Pending);
    let c = c.to_received(at_micros(400));
    assert_eq!((c.elapsed_micros, c.status), (300, EchoStatus::Received));
    assert_eq!(c.to_display_string(), "192.168.1.20,7,300 - Received");
}

#[test]
fn status_names() {
    assert_eq!(EchoStatus::Pending.to_string(), "Pending");
    assert_eq!(EchoStatus::Sent.name(), "Sent");
    assert_eq!(EchoStatus::Received.to_string(), "Received");
    assert_eq!(EchoStatus::Elapsed.to_string(), "Elapsed");
    assert_eq!(EchoStatus::Failed.to_string(), "Failed");
}

#[test]
fn decimal_numerals() {
    assert_eq!(decimal_string(0), "0");
    assert_eq!(decimal_string(1205), "1205");
    assert_eq!(decimal_string(u128::MAX), u128::MAX.to_string());
    let chars: Vec<char> = "+0042".chars().collect();
    assert_eq!(parse_unsigned(&chars, 100), Some(42));
    assert_eq!(parse_unsigned(&chars, 41), None);
    let chars: Vec<char> = "18446744073709551615".chars().collect();
    assert_eq!(parse_unsigned(&chars, u64::MAX), Some(u64::MAX));
}

#[test]
fn address_text_form_reads_back() {
    for ip in [Ipv4Addr::new(0, 0, 0, 0), Ipv4Addr::new(255, 10, 100, 9), Ipv4Addr::new(127, 0, 0, 1)] {
        let text = ip.to_string();
        let chars: Vec<char> = text.chars().collect();
        assert_eq!(parse_ipv4(&chars), Some(ip));
    }
    assert_eq!(Ipv4Addr::new(255, 10, 100, 9).to_string(), "255.10.100.9");
    assert_eq!(Ipv4Addr::new(1, 2, 3, 4).octets(), [1, 2, 3, 4]);
}

#[test]
fn timeout_line() {
    assert_eq!(
        timeout_output_format(Ipv4Addr::new(1, 1, 1, 1), 3),
        "1.1.1.1,3,time out"
    );
    assert_eq!(
        timeout_output_format(Ipv4Addr::new(10, 0, 0, 255), 65535),
        "10.0.0.255,65535,time out"
    );
}
