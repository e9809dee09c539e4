use alternative_link_core::ipv4::Ipv4Addr;
use alternative_link_core::protocol::{ack_line, discover_line, ping_line, Code, Message};

#[test]
fn test_code_to_string() {
    assert_eq!(Code { code_uint: 1337 }.to_string(), "1-3-3-7")
}

#[test]
fn test_code_try_from() {
    assert!(Code::try_from("1-3-3-7").is_ok());
    assert!(Code::try_from("foo-bar").is_err())
}

#[test]
fn test_message_try_from_ping() {
    assert_eq!(Message::try_from("PING 127.0.0.1"), Ok(Message::Ping(Ipv4Addr::new(127, 0, 0, 1))));
    assert!(Message::try_from("PING 127.0.0.").is_err());
    assert!(Message::try_from("PONG 127.0.0.1").is_err());
}

#[test]
fn test_message_try_from_ack() {
    assert_eq!(Message::try_from("ACK 127.0.0.1"), Ok(Message::Ack(Ipv4Addr::new(127, 0, 0, 1))));
    assert!(Message::try_from("ACK 127.0.0.").is_err());
    assert!(Message::try_from("A 127.0.0.1").is_err());
}

#[test]
fn test_message_try_from_discover() {
    assert_eq!(Message::try_from("1-3-3-7 127.0.0.1"), Ok(Message::Discover(Code {code_uint:1337}, Ipv4Addr::new(127, 0, 0, 1))));
    assert!(Message::try_from("1-3-3-7 127.0.0.1").is_ok());
    assert!(Message::try_from("1-3-3-b 127.0.0.1").is_err());
}

#[test]
fn code_values_and_errors() {
    assert_eq!(Code::try_from("1337"), Ok(Code { code_uint: 1337 }));
    assert_eq!(Code::try_from("--4-2--"), Ok(Code { code_uint: 42 }));
    assert_eq!(Code::try_from("+7"), Ok(Code { code_uint: 7 }));
    assert_eq!(Code::try_from("0"), Ok(Code { code_uint: 0 }));
    assert_eq!(Code::try_from(""), Err("Parsing didn't work"));
    assert_eq!(Code::try_from("-"), Err("Parsing didn't work"));
    assert_eq!(Code::try_from("+"), Err("Parsing didn't work"));
    assert_eq!(Code::try_from("1 2"), Err("Parsing didn't work"));
    assert_eq!(Code::try_from("99999999999999999999999"), Err("Parsing didn't work"));
    assert_eq!(Code { code_uint: 0 }.to_string(), "0");
    assert_eq!(Code { code_uint: 5 }.to_string(), "5");
    assert_eq!(Code { code_uint: 1000 }.to_string(), "1-0-0-0");
}

#[test]
fn code_text_reads_back() {
    for n in [0usize, 7, 10, 1337, 90210, usize::MAX] {
        let c = Code { code_uint: n };
        assert_eq!(Code::try_from(c.to_string().as_str()), Ok(c));
    }
}

#[test]
fn message_error_texts() {
    assert_eq!(Message::try_from("PING 300.0.0.1"), Err("Parsing str to Ipv4Addr"));
    assert_eq!(Message::try_from("ACK x"), Err("Parsing str to Ipv4Addr"));
    assert_eq!(Message::try_from("abc 10.0.0.1"), Err("Creating the code didn't work"));
    assert_eq!(Message::try_from("1337 10.0.0"), Err("Conversion didn't work"));
    assert_eq!(Message::try_from("PING"), Err("Conversion didn't work"));
    assert_eq!(Message::try_from("PING  10.0.0.1"), Err("Conversion didn't work"));
    assert_eq!(Message::try_from("PING 10.0.0.1 x"), Err("Conversion didn't work"));
    assert_eq!(Message::try_from(""), Err("Conversion didn't work"));
    assert_eq!(Message::try_from("ping 10.0.0.1"), Err("Creating the code didn't work"));
}

#[test]
fn message_trims_surrounding_whitespace() {
    assert_eq!(
        Message::try_from("  \tPING 10.1.2.3\r\n"),
        Ok(Message::Ping(Ipv4Addr::new(10, 1, 2, 3)))
    );
    assert_eq!(
        Message::try_from("\u{3000}ACK 10.1.2.3\u{a0}"),
        Ok(Message::Ack(Ipv4Addr::new(10, 1, 2, 3)))
    );
}

#[test]
fn sender_ip_of_each_kind() {
    let ip = Ipv4Addr::new(192, 168, 1, 20);
    assert_eq!(Message::Ping(ip).sender_ip(), ip);
    assert_eq!(Message::Ack(ip).sender_ip(), ip);
    assert_eq!(Message::Discover(Code { code_uint: 1 }, ip).sender_ip(), ip);
}

#[test]
fn lines_read_back() {
    let ip = Ipv4Addr::new(192, 168, 0, 7);
    assert_eq!(ping_line(ip), "PING 192.168.0.7\n");
    assert_eq!(ack_line(ip), "ACK 192.168.0.7\n");
    assert_eq!(discover_line("1-3-3-7", ip), "1-3-3-7 192.168.0.7\n");
    assert_eq!(Message::try_from(ping_line(ip).as_str()), Ok(Message::Ping(ip)));
    assert_eq!(Message::try_from(ack_line(ip).as_str()), Ok(Message::Ack(ip)));
    let code = Code { code_uint: 4711 };
    assert_eq!(
        Message::try_from(discover_line(code.to_string().as_str(), ip).as_str()),
        Ok(Message::Discover(code, ip))
    );
}
