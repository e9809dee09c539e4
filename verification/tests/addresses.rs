use alternative_link_core::discovery::{
    choose_ipaddr, get_ip_addresses, ip_choice_line, validate_interface, InterfaceAddr,
};
use alternative_link_core::errors::DiscoveryError;
use alternative_link_core::ipv4::Ipv4Addr;

#[test]
fn ipv4_parse_accepts_dotted_decimal() {
    assert_eq!(Ipv4Addr::parse("127.0.0.1"), Some(Ipv4Addr::new(127, 0, 0, 1)));
    assert_eq!(Ipv4Addr::parse("255.255.255.255"), Some(Ipv4Addr::new(255, 255, 255, 255)));
    assert_eq!(Ipv4Addr::parse("0.0.0.0"), Some(Ipv4Addr::new(0, 0, 0, 0)));
}

#[test]
fn ipv4_parse_refuses_what_std_refuses() {
    for s in [
        "", "1.2.3", "1.2.3.4.5", "256.0.0.1", "01.2.3.4", "1.2.3.04", "1..2.3", "1.2.3.4 ",
        " 1.2.3.4", "+1.2.3.4", "1.2.3.a", "0001.2.3.4", "1.2.3.1000", "१.2.3.4",
    ] {
        assert_eq!(Ipv4Addr::parse(s), None, "{s}");
    }
}

#[test]
fn ipv4_octets_and_text() {
    for (s, o) in [
        ("10.0.0.1", [10, 0, 0, 1]),
        ("192.168.100.200", [192, 168, 100, 200]),
        ("8.8.4.4", [8, 8, 4, 4]),
        ("1.0.10.100", [1, 0, 10, 100]),
    ] {
        let ip = Ipv4Addr::parse(s).unwrap();
        assert_eq!(ip.octets(), o);
        assert_eq!(ip.to_string(), s);
    }
}

#[test]
fn ipv4_text_reads_back() {
    for (a, b, c, d) in [(0, 0, 0, 0), (9, 10, 99, 100), (255, 1, 200, 7)] {
        let ip = Ipv4Addr::new(a, b, c, d);
        assert_eq!(Ipv4Addr::parse(ip.to_string().as_str()), Some(ip));
    }
}

#[test]
fn loopback_is_127_slash_8() {
    assert!(Ipv4Addr::new(127, 0, 0, 1).is_loopback());
    assert!(Ipv4Addr::new(127, 255, 3, 9).is_loopback());
    assert!(!Ipv4Addr::new(128, 0, 0, 1).is_loopback());
}

fn listed() -> Vec<InterfaceAddr> {
    vec![
        InterfaceAddr::V4(Ipv4Addr::new(127, 0, 0, 1)),
        InterfaceAddr::V6,
        InterfaceAddr::V4(Ipv4Addr::new(192, 168, 1, 5)),
        InterfaceAddr::V4(Ipv4Addr::new(10, 0, 0, 2)),
    ]
}

#[test]
fn candidates_skip_loopback_and_v6() {
    assert_eq!(
        get_ip_addresses(Ok(listed())),
        Ok(vec![Ipv4Addr::new(192, 168, 1, 5), Ipv4Addr::new(10, 0, 0, 2)])
    );
    assert_eq!(
        get_ip_addresses(Err("denied".to_string())),
        Err(DiscoveryError::UnableToEnumInterfaces { os_error: "denied".to_string() })
    );
}

#[test]
fn validate_interface_checks_membership() {
    assert_eq!(validate_interface(Ok(listed()), Ipv4Addr::new(10, 0, 0, 2)), Ok(true));
    assert_eq!(validate_interface(Ok(listed()), Ipv4Addr::new(127, 0, 0, 1)), Ok(false));
    assert_eq!(validate_interface(Ok(vec![]), Ipv4Addr::new(10, 0, 0, 2)), Ok(false));
    assert!(matches!(
        validate_interface(Err("x".to_string()), Ipv4Addr::new(10, 0, 0, 2)),
        Err(DiscoveryError::UnableToEnumInterfaces { .. })
    ));
}

#[test]
fn choose_ipaddr_reads_the_index() {
    let ips = vec![Ipv4Addr::new(192, 168, 1, 5), Ipv4Addr::new(10, 0, 0, 2)];
    assert_eq!(choose_ipaddr(&ips, "1\n"), Ok(Some(Ipv4Addr::new(10, 0, 0, 2))));
    assert_eq!(choose_ipaddr(&ips, " 0 "), Ok(Some(Ipv4Addr::new(192, 168, 1, 5))));
    assert_eq!(choose_ipaddr(&ips, "2"), Ok(None));
    assert_eq!(
        choose_ipaddr(&ips, "x\n"),
        Err(DiscoveryError::InputParsing { os_error: "x".parse::<usize>().unwrap_err().to_string() })
    );
    assert_eq!(
        choose_ipaddr(&ips, "\n"),
        Err(DiscoveryError::InputParsing { os_error: "".parse::<usize>().unwrap_err().to_string() })
    );
    assert_eq!(
        choose_ipaddr(&ips, "99999999999999999999999"),
        Err(DiscoveryError::InputParsing {
            os_error: "99999999999999999999999".parse::<usize>().unwrap_err().to_string()
        })
    );
}

#[test]
fn choice_lines_pad_the_index() {
    let ip = Ipv4Addr::new(10, 0, 0, 2);
    assert_eq!(ip_choice_line(0, ip), format!("- {number:0>2}: {}", "10.0.0.2", number = 0));
    assert_eq!(ip_choice_line(7, ip), "- 07: 10.0.0.2");
    assert_eq!(ip_choice_line(123, ip), "- 123: 10.0.0.2");
}

#[test]
fn discovery_error_texts() {
    let e = DiscoveryError::UnableToEnumInterfaces { os_error: "boom".to_string() };
    assert_eq!(e.to_string(), "unable to enumerate interfaces: boom");
    let e = DiscoveryError::StdInRead { os_error: "eof".to_string() };
    assert_eq!(e.to_string(), "unable to get user input: eof");
    let e = DiscoveryError::InputParsing { os_error: "bad".to_string() };
    assert_eq!(e.to_string(), "unable to parse user input to a usize: bad");
}
