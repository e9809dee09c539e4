use alternative_link_core::cli::{
    get_long_version, log_level, menu_choice, menu_message, verbosity_note, LogLevel, MenuChoice,
};
use alternative_link_core::engine::{
    found_peer_message, give_up_message, probe_report, retry_message, status_line,
    stops_after_answer, u64_text, working_report, EngineArgs,
    ListenAction, Listener, ProbeAction, Prober,
};
use alternative_link_core::ipv4::Ipv4Addr;
use alternative_link_core::protocol::{discover_line, ping_line, Code};
use alternative_link_core::prompts::{list_answer, list_item_line, yes_no_answer, yes_no_hint};

fn args(json: bool) -> EngineArgs {
    EngineArgs { code: "1-3-3-7".to_string(), port: 1337, json, auto_test: false, no_stop: false }
}

#[test]
fn status_line_prose_and_json() {
    assert_eq!(status_line(&args(false), "Connection working", &[("peer_ip", "10.0.0.2")]), "Connection working");
    assert_eq!(
        status_line(&args(true), "Connection working", &[("peer_ip", "10.0.0.2")]),
        "{\"status\":\"Connection working\",\"peer_ip\":\"10.0.0.2\"}"
    );
    assert_eq!(
        status_line(&args(true), "Retrying 1/20", &[("retries", "1"), ("max_retries", "20")]),
        "{\"status\":\"Retrying 1/20\",\"retries\":\"1\",\"max_retries\":\"20\"}"
    );
    assert_eq!(status_line(&args(true), "x", &[]), "{\"status\":\"x\"}");
    assert_eq!(
        status_line(&args(true), "say \"hi\"\\\n", &[("k\t", "\u{1}v")]),
        "{\"status\":\"say \\\"hi\\\"\\\\\\n\",\"k\\t\":\"\\u0001v\"}"
    );
    assert_eq!(status_line(&args(true), "\u{1f}\u{8}\u{c}\r/é", &[]), "{\"status\":\"\\u001f\\b\\f\\r/é\"}");
}

#[test]
fn task_decisions() {
    let mut a = args(false);
    assert!(stops_after_answer(&a));
    a.auto_test = true;
    assert!(!stops_after_answer(&a));
    a.auto_test = false;
    a.no_stop = true;
    assert!(!stops_after_answer(&a));
    assert_eq!(working_report(&args(false), false, Some(PEER)), None);
    assert_eq!(working_report(&args(false), true, None), None);
    assert_eq!(working_report(&args(false), true, Some(PEER)), Some("Connection working".to_string()));
    assert_eq!(
        working_report(&args(true), true, Some(PEER)),
        Some("{\"status\":\"Connection working\",\"peer_ip\":\"10.0.0.2\"}".to_string())
    );
    assert_eq!(probe_report(&args(false), ProbeAction::Wait, 20), None);
    assert_eq!(probe_report(&args(false), ProbeAction::Ping { attempt: 0 }, 20), None);
    assert_eq!(probe_report(&args(false), ProbeAction::Ping { attempt: 2 }, 20), Some("Retrying 2/20".to_string()));
    assert_eq!(
        probe_report(&args(true), ProbeAction::GiveUp { attempt: 21 }, 20),
        Some("{\"status\":\"Didn't get a Ack in time, exhausted retries (21/20). Exiting.\",\"retries\":\"21\",\"max_retries\":\"20\"}".to_string())
    );
}

#[test]
fn prober_gives_up_at_the_largest_count() {
    let mut p = Prober { timeout_counter: u64::MAX - 1, max_tries: u64::MAX - 1 };
    assert_eq!(p.tick(true), ProbeAction::Ping { attempt: u64::MAX - 1 });
    assert_eq!(p.tick(true), ProbeAction::GiveUp { attempt: u64::MAX });
}

#[test]
fn report_texts() {
    assert_eq!(retry_message(3, 20), "Retrying 3/20");
    assert_eq!(give_up_message(21, 20), "Didn't get a Ack in time, exhausted retries (21/20). Exiting.");
    assert_eq!(found_peer_message(Ipv4Addr::new(10, 0, 0, 2)), "Found peer at 10.0.0.2");
    assert_eq!(u64_text(u64::MAX), u64::MAX.to_string());
    assert_eq!(u64_text(0), "0");
}

const OWN: Ipv4Addr = Ipv4Addr { a: 10, b: 0, c: 0, d: 1 };
const PEER: Ipv4Addr = Ipv4Addr { a: 10, b: 0, c: 0, d: 2 };
const OTHER: Ipv4Addr = Ipv4Addr { a: 10, b: 0, c: 0, d: 3 };

#[test]
fn listener_defaults_the_code() {
    assert_eq!(Listener::new("4-2", OWN).my_code, Code { code_uint: 42 });
    assert_eq!(Listener::new("nope", OWN).my_code, Code { code_uint: 1337 });
    assert!(Listener::new("4-2", OWN).peer.is_none());
}

#[test]
fn listener_finds_the_peer_once() {
    let mut l = Listener::new("1-3-3-7", OWN);
    assert!(matches!(l.receive(b"1-3-3-7 10.0.0.1\n"), ListenAction::Ignore));
    assert!(matches!(l.receive(b"9-9 10.0.0.2\n"), ListenAction::Ignore));
    assert!(l.peer.is_none());
    assert!(matches!(l.receive(b"1-3-3-7 10.0.0.2\n"), ListenAction::PeerFound(ip) if ip == PEER));
    assert_eq!(l.peer, Some(PEER));
    assert!(matches!(l.receive(b"1337 10.0.0.3\n"), ListenAction::Ignore));
    assert_eq!(l.peer, Some(PEER));
}

#[test]
fn listener_answers_probes_and_confirms_acks() {
    let mut l = Listener::new("1-3-3-7", OWN);
    match l.receive(b"PING 10.0.0.3\n") {
        ListenAction::SendAck { to, line } => {
            assert_eq!(to, OTHER);
            assert_eq!(line, "ACK 10.0.0.1\n");
        }
        other => panic!("unexpected {:?}", other),
    }
    assert!(matches!(l.receive(b"ACK 10.0.0.2\n"), ListenAction::Ignore));
    l.receive(b"1-3-3-7 10.0.0.2\n");
    assert!(matches!(l.receive(b"ACK 10.0.0.3\n"), ListenAction::Ignore));
    assert!(matches!(l.receive(b"ACK 10.0.0.2\n"), ListenAction::DirectWorking));
    assert!(matches!(l.receive(b"PING 10.0.0.1\n"), ListenAction::Ignore));
    assert!(matches!(l.receive(&[0xff, 0xfe, 0x20]), ListenAction::Ignore));
    assert!(matches!(l.receive(b"garbage"), ListenAction::Ignore));
}

#[test]
fn prober_counts_and_gives_up() {
    let mut p = Prober::new(2);
    assert_eq!(p.tick(false), ProbeAction::Wait);
    assert_eq!(p.timeout_counter, 0);
    assert_eq!(p.tick(true), ProbeAction::Ping { attempt: 0 });
    assert_eq!(p.tick(true), ProbeAction::Ping { attempt: 1 });
    assert_eq!(p.tick(true), ProbeAction::Ping { attempt: 2 });
    assert_eq!(p.tick(true), ProbeAction::GiveUp { attempt: 3 });
    assert_eq!(p.tick(true), ProbeAction::GiveUp { attempt: 3 });
    assert_eq!(p.timeout_counter, 3);
}

#[test]
fn yes_no_answers() {
    assert_eq!(yes_no_answer("y\n", None), Some(true));
    assert_eq!(yes_no_answer("  YeS ", None), Some(true));
    assert_eq!(yes_no_answer("N", Some(true)), Some(false));
    assert_eq!(yes_no_answer("no\r\n", None), Some(false));
    assert_eq!(yes_no_answer("maybe", None), None);
    assert_eq!(yes_no_answer("", Some(true)), Some(true));
    assert_eq!(yes_no_answer("yess", Some(false)), Some(false));
    assert_eq!(yes_no_hint(Some(true)), "Y/n: ");
    assert_eq!(yes_no_hint(Some(false)), "y/N: ");
    assert_eq!(yes_no_hint(None), "y/n: ");
}

#[test]
fn list_answers() {
    assert_eq!(list_answer(" 3\n", None), Some(3));
    assert_eq!(list_answer("x", Some(1)), Some(1));
    assert_eq!(list_answer("", None), None);
    assert_eq!(list_item_line(4, "first"), "- 004: first");
    assert_eq!(list_item_line(1234, "big"), "- 1234: big");
}

#[test]
fn cli_choices() {
    assert_eq!(log_level(0), LogLevel::Warn);
    assert_eq!(log_level(1), LogLevel::Info);
    assert_eq!(log_level(2), LogLevel::Debug);
    assert_eq!(log_level(3), LogLevel::Trace);
    assert_eq!(log_level(9), LogLevel::Info);
    assert_eq!(verbosity_note(2), None);
    assert_eq!(verbosity_note(5), Some("We don't have v*5. Using Info level as fall back.".to_string()));
    assert_eq!(menu_choice("1\n"), MenuChoice::Quit);
    assert_eq!(menu_choice(" 2 "), MenuChoice::TestConnection);
    assert_eq!(menu_choice("x"), MenuChoice::AskAgain);
    assert_eq!(menu_choice("3"), MenuChoice::AskAgain);
    assert_eq!(menu_message(PEER), "1: Quit\n2: Test Connection to 10.0.0.2");
    assert_eq!(get_long_version("0.1.0", "Ann"), "0.1.0 by Ann");
}

#[test]
fn two_links_pair_and_confirm() {
    let mut a = Listener::new("4-2", OWN);
    let mut b = Listener::new("42", PEER);
    assert!(matches!(b.receive(discover_line("4-2", OWN).as_bytes()), ListenAction::PeerFound(ip) if ip == OWN));
    assert!(matches!(a.receive(discover_line("42", PEER).as_bytes()), ListenAction::PeerFound(ip) if ip == PEER));
    let ack = match b.receive(ping_line(OWN).as_bytes()) {
        ListenAction::SendAck { to, line } => {
            assert_eq!(to, OWN);
            line
        }
        other => panic!("unexpected {:?}", other),
    };
    assert!(matches!(a.receive(ack.as_bytes()), ListenAction::DirectWorking));
}
