use clowder::client::forward::RemoteTarget;
use clowder::client::probe::{probe, ProbeAction, ProbeEvent, ProbeResult};
use clowder::client::tofu::{check, check_pin, Verdict};
use clowder::daemon::remote::authorize;
use clowder::daemon::remote_tls::{fingerprint, generate_creds, load_creds, RemoteCreds};
use clowder::proto::remote::{read_hello, write_hello, Channel, HelloRead};

fn target(tls: bool, token: Option<&str>) -> RemoteTarget {
    RemoteTarget {
        label: "test".into(),
        address: "127.0.0.1:7777".into(),
        token: token.map(String::from),
        tls,
        fingerprint: None,
    }
}

/// What the daemon reads of a hello that a client sends.
fn received(channel: Channel, token: Option<&str>) -> (Channel, Option<String>) {
    match read_hello(&write_hello(channel, token).unwrap()) {
        HelloRead::Done { channel, token, .. } => (channel, token),
        other => panic!("{other:?}"),
    }
}

#[test]
fn a_token_is_never_sent_over_plaintext() {
    let t = target(false, Some("s3cr3t"));
    assert_eq!(received(Channel::Control, t.hello_token()), (Channel::Control, None));
}

#[test]
fn a_token_is_sent_over_tls() {
    let t = target(true, Some("s3cr3t"));
    let (channel, token) = received(Channel::Control, t.hello_token());
    assert_eq!(channel.to_byte(), 1);
    assert_eq!(token.as_deref(), Some("s3cr3t"));
}

#[test]
fn control_hello_routes_to_control_handler() {
    let (channel, token) = received(Channel::Control, None);
    assert_eq!(channel, Channel::Control);
    assert_eq!(authorize(None, token.as_deref()), Ok(()));
}

#[test]
fn render_hello_routes_to_render_handler() {
    assert_eq!(received(Channel::Render, None).0, Channel::Render);
}

#[test]
fn tls_control_channel_round_trips_with_token() {
    let creds = generate_creds().unwrap();
    let (channel, token) = received(Channel::Control, Some(&creds.token));
    assert_eq!(channel, Channel::Control);
    assert_eq!(authorize(Some(&creds.token), token.as_deref()), Ok(()));
}

#[test]
fn tls_wrong_token_is_rejected() {
    let creds = generate_creds().unwrap();
    let (_, token) = received(Channel::Control, Some("wrong"));
    assert!(authorize(Some(&creds.token), token.as_deref()).is_err());
    let (_, token) = received(Channel::Control, None);
    assert!(authorize(Some(&creds.token), token.as_deref()).is_err());
}

#[test]
fn credentials_load_as_they_were_made() {
    let a = generate_creds().unwrap();
    assert!(a.token.len() >= 32, "token is non-trivial");
    let b = load_creds(a.cert_pem.clone(), a.key_pem.clone(), &format!("{}\n", a.token)).unwrap();
    assert_eq!(a.token, b.token);
    assert_eq!(a.cert_pem, b.cert_pem);
    assert_eq!(fingerprint(&a), fingerprint(&b));
    assert_eq!(fingerprint(&a).len(), 64);
}

#[test]
fn e2e_tls_tofu_records_then_refuses_on_cert_change() {
    let first = fingerprint(&generate_creds().unwrap());
    let known = match check("", "known_hosts", "e2e-host", &first) {
        Verdict::Record(all) => all,
        other => panic!("{other:?}"),
    };
    assert_eq!(check(&known, "known_hosts", "e2e-host", &first), Verdict::Trusted);
    let rotated = fingerprint(&generate_creds().unwrap());
    assert_ne!(first, rotated);
    assert!(matches!(check(&known, "known_hosts", "e2e-host", &rotated), Verdict::Refused(_)));
    assert!(check_pin(&first, &first).is_ok() && check_pin(&first, &rotated).is_err());
}

/// Probe a daemon with these credentials.
fn probed(creds: &RemoteCreds, shown: &str) -> ProbeResult {
    let t = target(true, Some(shown));
    let mut seen = None;
    let mut event = ProbeEvent::Dialed;
    loop {
        event = match probe(event, &t, seen.clone(), "5s") {
            ProbeAction::Handshake => {
                seen = Some(fingerprint(creds));
                ProbeEvent::HandshakeDone
            }
            ProbeAction::SendHello(token) => {
                let (_, token) = received(Channel::Control, token.as_deref());
                if authorize(Some(&creds.token), token.as_deref()).is_ok() {
                    ProbeEvent::HelloSent
                } else {
                    ProbeEvent::GreetingClosed
                }
            }
            ProbeAction::AwaitGreeting => ProbeEvent::Greeted,
            ProbeAction::Report(r) => return r,
        };
    }
}

#[test]
fn a_tls_daemon_with_the_right_token_authenticates_and_reports_its_fingerprint() {
    let creds = generate_creds().unwrap();
    let good = probed(&creds, &creds.token);
    assert!(good.reachable);
    assert!(good.authenticated, "{:?}", good.error);
    assert_eq!(good.fingerprint, Some(fingerprint(&creds)));

    let bad = probed(&creds, "wrong");
    assert!(bad.reachable);
    assert!(!bad.authenticated);
    assert_eq!(bad.fingerprint, Some(fingerprint(&creds)), "it was seen all the same");
}
