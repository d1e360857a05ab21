use std::time::Duration;

use transport_azure_event_hubs::{
    ceiling, Arrived, Denial, Event, EventHubsTransport, Outgoing, Session, Token,
    TransportError,
};

const ADDRESS: &str = "127.0.0.1:49152";

fn node(endpoint: &str, key: &str) -> EventHubsTransport {
    EventHubsTransport::new(endpoint, "telemetry")
        .with_policy("policy", key)
        .timing_out_after(Duration::from_secs(2))
}

fn host() -> Result<String, TransportError> {
    Ok(ADDRESS.to_string())
}

fn malformed() -> Result<String, TransportError> {
    Err(TransportError::permanent("ns.local is not an HTTP URL".to_string()))
}

fn send(near: &EventHubsTransport, target: &str, bytes: &[u8]) -> Result<Outgoing, TransportError> {
    near.send(target, bytes, host(), 1000, 60)
}

fn failure(sent: Result<Outgoing, TransportError>) -> TransportError {
    sent.err().expect("refused")
}

/// The far end's verdict on what was sent: good where both ends hold the
/// same policy and key.
fn verify(session: &Session, outgoing: &Outgoing) -> Result<Token, Denial> {
    if (outgoing.policy.as_str(), outgoing.key.as_str()) == (session.policy(), session.key()) {
        Ok(Token { resource: outgoing.resource.clone() })
    } else {
        Err(Denial {
            detail: "40103: Invalid signature".to_string(),
            subcode: "40103".to_string(),
        })
    }
}

fn serve(session: &mut Session, outgoing: &Outgoing) -> (Event, u16) {
    let verified = verify(session, outgoing);
    let (event, response) = session.answer(&outgoing.request, verified);
    (event, response.status)
}

/// One payload through the near end, the far end and back.
fn round(transport: &EventHubsTransport, payload: &[u8]) -> Result<Arrived, String> {
    let mut far = transport.session();
    let near = transport.near_end(ADDRESS);
    let outgoing = send(&near, "", payload).map_err(|failure| failure.message)?;
    serve(&mut far, &outgoing).0.taken()
}

#[test]
fn what_is_sent_lands_on_the_hub_or_the_partition_the_target_names() {
    let near = node(&format!("http://{ADDRESS}"), "secret").on_partition("2");
    let mut session = near.session();
    let sends = [
        send(&near, "", b"UNA:+.? '").expect("its own partition"),
        send(&near, "telemetry", b"").expect("the hub chooses"),
        send(&near, "audit/partitions/1", &[0xff]).expect("another hub's partition"),
    ];
    let events: Vec<Event> =
        sends.iter().map(|outgoing| serve(&mut session, outgoing).0).collect();
    let base = format!("http://{ADDRESS}");
    assert_eq!(
        events[0],
        Event::Sent(Arrived::new(
            format!("{base}/telemetry/partitions/2#1"),
            b"UNA:+.? '".to_vec()
        ))
    );
    let origin = |event: &Event| match event {
        Event::Sent(arrived) => arrived.origin_uri.clone(),
        Event::Refused(code) => code.clone(),
    };
    assert!(origin(&events[1]).ends_with("/telemetry/partitions/1#2"));
    assert!(origin(&events[2]).ends_with("/audit/partitions/1#3"));
    assert_eq!(session.events().len(), 3);
}

#[test]
fn a_wrong_key_is_refused_with_the_namespaces_own_status_and_subcode() {
    let mut session = node("http://x", "secret").session();
    let outgoing = send(&node(&format!("http://{ADDRESS}"), "wrong"), "", b"x").expect("sent");
    assert_eq!(
        serve(&mut session, &outgoing),
        (Event::Refused("40103".to_string()), 401)
    );
    assert!(session.events().is_empty());
}

#[test]
fn a_hub_sends_only_and_says_that_reading_is_amqp() {
    let near = node("http://127.0.0.1:1", "secret");
    assert_eq!(near.name(), "azure-event-hubs");
    assert!(near.directions().sends() && !near.directions().receives());
    let reading = near.receive().expect_err("AMQP");
    assert!(reading.message.contains("AMQP"), "{}", reading.message);
    assert_eq!(
        reading.message,
        "reading an Event Hub is AMQP 1.0, which the REST API does not speak; \
         this transport sends, and the amqp technology reads"
    );
    assert!(!reading.retryable);
    let no_scheme = failure(node("ns.local", "s").send("", b"x", malformed(), 1000, 60));
    assert!(!no_scheme.retryable);
    assert_eq!(no_scheme.message, "ns.local is not an HTTP URL");
}

#[test]
fn what_is_over_the_ceiling_is_refused_before_the_wire_with_the_reason() {
    let near = node("http://127.0.0.1:1", "secret");
    let over = vec![b'x'; ceiling() + 1];
    let failure = failure(send(&near, "", &over));
    assert!(!failure.retryable);
    assert!(failure.message.contains("1048576"), "{}", failure.message);
    assert_eq!(
        failure.message,
        "1048577 bytes is over the 1048576 one Event Hubs event carries"
    );
}

#[test]
fn the_ceiling_is_tried_before_the_endpoint() {
    let near = node("ns.local", "secret");
    let over = vec![b'x'; ceiling() + 1];
    let failure = failure(near.send("", &over, malformed(), u64::MAX, 1));
    assert!(failure.message.contains("1048576"), "{}", failure.message);
}

#[test]
fn an_event_rounds_through_the_loopback_session() {
    let loopback = EventHubsTransport::loopback(Duration::from_secs(5));
    let arrived = round(&loopback, b"UNA:+.? '").expect("round");
    assert_eq!(arrived.bytes, b"UNA:+.? '");
    assert!(arrived.origin_uri.starts_with("http://127.0.0.1:"), "{}", arrived.origin_uri);
    assert!(
        arrived.origin_uri.contains("/telemetry/partitions/0#1"),
        "{}",
        arrived.origin_uri
    );
    assert_eq!(loopback.name(), "azure-event-hubs");
    assert_eq!(loopback.ceiling(), Some(ceiling()));
    assert_eq!(loopback.endpoint(), "http://127.0.0.1:0");
}

fn edge_payloads() -> Vec<(&'static str, Vec<u8>)> {
    vec![
        ("empty", Vec::new()),
        ("one byte", vec![0x2a]),
        ("every byte", (0..=255).collect()),
        ("nul run", vec![0; 512]),
        ("high bytes", vec![0xff; 512]),
        ("crlf storm", b"\r\n".repeat(400)),
        ("the brim", vec![b'x'; ceiling()]),
    ]
}

#[test]
fn the_loopback_returns_the_edge_payloads_whole_and_refuses_over_the_brim() {
    let loopback = EventHubsTransport::loopback(Duration::from_secs(5));
    for (name, payload) in edge_payloads() {
        let arrived = round(&loopback, &payload).expect(name);
        assert_eq!(arrived.bytes, payload, "{name}");
    }
    let over = vec![b'x'; ceiling() + 1];
    let failure = round(&loopback, &over).expect_err("over the brim");
    assert!(failure.contains("1048576"), "{failure}");
}

#[test]
fn both_ends_hold_the_same_key_and_timeout() {
    let near = node("http://127.0.0.1:1", "secret").on_partition("1");
    let session = near.session();
    assert_eq!((session.policy(), session.key()), ("policy", "secret"));
    assert_eq!(session.timeout(), Some(Duration::from_secs(2)));
    let outgoing = send(&near.near_end(ADDRESS), "", b"x").expect("sent");
    assert_eq!(outgoing.endpoint, format!("http://{ADDRESS}"));
    assert_eq!((outgoing.policy.as_str(), outgoing.key.as_str()), ("policy", "secret"));
    assert_eq!(outgoing.timeout, Some(Duration::from_secs(2)));
    assert_eq!(outgoing.request.path, "/telemetry/partitions/1/messages");
    assert_eq!(near.endpoint(), "http://127.0.0.1:1");
}

#[test]
fn a_target_names_a_hub_a_partition_or_neither() {
    let near = node("http://h", "secret");
    assert_eq!(near.resolve(""), ("telemetry", None));
    assert_eq!(near.resolve("audit"), ("audit", None));
    assert_eq!(near.resolve("audit/partitions/3"), ("audit", Some("3")));
    assert_eq!(near.resolve("/partitions/"), ("", Some("")));
    assert_eq!(near.resolve("a/partitions"), ("a/partitions", None));
    assert_eq!(
        near.resolve("a/partitions/partitions/3"),
        ("a", Some("partitions/3"))
    );
    let placed = near.on_partition("2");
    assert_eq!(placed.resolve(""), ("telemetry", Some("2")));
    assert_eq!(placed.resolve("telemetry"), ("telemetry", None));
    assert_eq!(placed.clone().resolve(""), ("telemetry", Some("2")));
}

#[test]
fn a_transport_makes_its_client_or_says_why_not() {
    let near = EventHubsTransport::new("http://h/", "telemetry");
    let client = near.client(host()).expect("a client");
    assert_eq!(client.resource("x"), "http://h/x");
    assert!(client.send("x", None, b"", 0, 0).timeout.is_none());
    assert!(near.session().timeout().is_none());
    assert_eq!(
        near.client(malformed()).err().expect("no client").message,
        "ns.local is not an HTTP URL"
    );
}

#[test]
fn both_ends_have_the_same_ceiling() {
    let near = node(&format!("http://{ADDRESS}"), "secret");
    let client = near.client(host()).expect("a client");
    for (len, status) in [(ceiling(), 201), (ceiling() + 1, 413)] {
        let bytes = vec![7; len];
        let outgoing = client.send("telemetry", None, &bytes, 0, 60);
        assert_eq!(serve(&mut near.session(), &outgoing).1, status);
        assert_eq!(send(&near, "", &bytes).is_ok(), status == 201);
    }
}
