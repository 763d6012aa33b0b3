use clowder::hook::{parse_args, report};
use clowder::proto::auth::{cert_fingerprint_hex, constant_time_eq};
use clowder::proto::message::{HookKind, PaneId};
use clowder::proto::remote::{read_hello, write_hello, Channel, HelloRead};

#[test]
fn constant_time_eq_matches_and_mismatches() {
    assert!(constant_time_eq(b"abc", b"abc"));
    assert!(!constant_time_eq(b"abc", b"abd"));
    assert!(!constant_time_eq(b"abc", b"ab"));
    assert!(constant_time_eq(b"", b""));
}

#[test]
fn fingerprint_is_lowercase_hex_sha256() {
    let fp = cert_fingerprint_hex(b"");
    assert_eq!(fp.len(), 64);
    assert_eq!(&fp[..8], "e3b0c442");
    assert!(fp.chars().all(|c| c.is_ascii_hexdigit() && !c.is_ascii_uppercase()));
}

#[test]
fn hello_roundtrips_channel_and_token() {
    for (ch, tok) in [
        (Channel::Control, None),
        (Channel::Render, Some("s3cr3t-token".to_string())),
    ] {
        let bytes = write_hello(ch, tok.as_deref()).unwrap();
        match read_hello(&bytes) {
            HelloRead::Done { channel, token, used } => {
                assert_eq!(channel, ch);
                assert_eq!(token, tok);
                assert_eq!(used, bytes.len());
            }
            other => panic!("expected a hello, got {other:?}"),
        }
    }
}

#[test]
fn unknown_channel_byte_errors() {
    assert!(matches!(read_hello(&[9]), HelloRead::Refused(_)));
}

#[test]
fn a_hello_is_read_as_far_as_it_has_come() {
    let bytes = write_hello(Channel::Control, Some("tok")).unwrap();
    assert!(matches!(read_hello(&[]), HelloRead::Need(_)));
    assert!(matches!(read_hello(&bytes[..bytes.len() - 1]), HelloRead::Need(n) if n == bytes.len()));
}

#[test]
fn a_token_must_be_short_and_utf8() {
    assert!(write_hello(Channel::Control, Some(&"x".repeat(65536))).is_err());
    let mut bytes = write_hello(Channel::Control, Some("ab")).unwrap();
    let last = bytes.len() - 1;
    bytes[last] = 0xff;
    match read_hello(&bytes) {
        HelloRead::Refused(e) => assert!(e.contains("utf-8"), "{e}"),
        other => panic!("expected a refusal, got {other:?}"),
    }
}

fn args(v: &[&str]) -> Vec<String> {
    v.iter().map(|s| s.to_string()).collect()
}

#[test]
fn the_hook_names_what_it_reports() {
    assert_eq!(parse_args(&args(&["--event", "notification"])), Ok(HookKind::Notification));
    assert_eq!(parse_args(&args(&["--event", "stop"])), Ok(HookKind::Stop));
    assert_eq!(parse_args(&args(&["x", "--event", "stop", "--event", "active"])), Ok(HookKind::Active));
    assert_eq!(parse_args(&[]), Err("--event <notification|stop> is required".to_string()));
    assert_eq!(
        parse_args(&args(&["--event", "what"])),
        Err("unknown --event value: Some(\"what\")".to_string())
    );
    assert_eq!(parse_args(&args(&["--event"])), Err("unknown --event value: None".to_string()));
}

#[test]
fn the_hook_reads_its_agent_from_the_environment() {
    let (event, sock) = report(HookKind::Stop, Some("42"), Some("/run/h.sock")).unwrap();
    assert_eq!(event.agent_id, PaneId(42));
    assert_eq!(event.kind, HookKind::Stop);
    assert_eq!(sock, "/run/h.sock");
    assert_eq!(report(HookKind::Stop, None, None), Err("CLOWDER_AGENT_ID not set".to_string()));
    assert_eq!(
        report(HookKind::Stop, Some("x"), Some("/s")),
        Err("CLOWDER_AGENT_ID not a u64".to_string())
    );
    assert_eq!(
        report(HookKind::Stop, Some("1"), None),
        Err("CLOWDER_HOOK_SOCK not set".to_string())
    );
}
