use std::time::Duration;

use transport_azure_event_hubs::{
    Client, Event, Outgoing, Session, Token, TransportError, Arrived, CONTENT_TYPE,
};

const ADDRESS: &str = "127.0.0.1:49152";

fn client(endpoint: &str) -> Client {
    Client::new(endpoint, "policy", "secret", Ok(ADDRESS.to_string())).expect("endpoint")
}

fn serve(session: &mut Session, outgoing: Outgoing) -> (Event, u16) {
    let token = Token { resource: outgoing.resource };
    let (event, response) = session.answer(&outgoing.request, Ok(token));
    (event, response.status)
}

#[test]
fn an_event_reaches_a_session_at_the_hub_or_at_one_of_its_partitions() {
    let mut session = Session::new("policy", "secret");
    let client = client(&format!("http://{ADDRESS}/"));
    let sends = [
        client.send("telemetry", None, b"UNA:+.? '", 1000, 60),
        client.send("telemetry", Some("3"), &[0, 0xff, b'\n'], 1000, 60),
        client.send("telemetry", Some("32"), b"x", 1000, 60),
    ];
    let events: Vec<(Event, u16)> =
        sends.into_iter().map(|outgoing| serve(&mut session, outgoing)).collect();
    assert_eq!(events[2].1, 404);
    assert_eq!(session.events().len(), 2);
    let base = format!("http://{ADDRESS}/telemetry/partitions");
    assert_eq!(
        events[0].0,
        Event::Sent(Arrived::new(format!("{base}/0#1"), b"UNA:+.? '".to_vec()))
    );
    assert_eq!(
        events[1].0,
        Event::Sent(Arrived::new(format!("{base}/3#2"), vec![0, 0xff, b'\n']))
    );
    assert_eq!(events[2].0, Event::Refused("40400".to_string()));
    assert_eq!(
        client.resource("telemetry"),
        format!("http://{ADDRESS}/telemetry")
    );
}

#[test]
fn a_missing_endpoint_is_retryable_and_a_malformed_one_is_not() {
    let nobody =
        Client::new("http://127.0.0.1:1", "p", "k", Ok("127.0.0.1:1".to_string())).expect("ok");
    let outgoing = nobody.send("h", None, b"x", 1000, 60);
    assert_eq!(outgoing.endpoint, "http://127.0.0.1:1");
    assert_eq!(outgoing.request.path, "/h/messages");
    let failure = TransportError::permanent("ns.local is not an HTTP URL".to_string());
    let malformed = Client::new("ns.local", "p", "k", Err(failure));
    assert!(malformed.is_err());
    let failure = malformed.err().expect("no client");
    assert_eq!(failure.message, "ns.local is not an HTTP URL");
    assert!(!failure.retryable);
}

#[test]
fn a_send_is_one_signed_post_to_the_endpoint() {
    let client = client("http://127.0.0.1:49152///").timing_out_after(Duration::from_secs(2));
    let outgoing = client.send("telemetry", None, b"event", 1_700_000_000, 3600);
    assert_eq!(outgoing.endpoint, "http://127.0.0.1:49152");
    assert_eq!(outgoing.timeout, Some(Duration::from_secs(2)));
    assert_eq!((outgoing.policy, outgoing.key), ("policy".to_string(), "secret".to_string()));
    assert_eq!(outgoing.resource, "http://127.0.0.1:49152/telemetry");
    assert_eq!(outgoing.expiry, 1_700_003_600);
    let request = outgoing.request;
    assert_eq!((request.method.as_str(), request.path.as_str()), ("POST", "/telemetry/messages"));
    assert_eq!(
        request.headers,
        vec![
            ("Content-Type".to_string(), CONTENT_TYPE.to_string()),
            ("Host".to_string(), ADDRESS.to_string()),
        ]
    );
    assert_eq!(CONTENT_TYPE, "application/atom+xml;type=entry;charset=utf-8");
    assert_eq!(request.body, b"event");
    let outgoing = client.send("telemetry", Some("3"), b"", 0, 60);
    assert_eq!(outgoing.request.path, "/telemetry/partitions/3/messages");
    assert_eq!(outgoing.resource, "http://127.0.0.1:49152/telemetry");
    assert!(outgoing.request.body.is_empty());
}

#[test]
fn a_trailing_slash_makes_no_difference() {
    let plain = client("http://127.0.0.1:49152");
    let slashed = client("http://127.0.0.1:49152/");
    assert_eq!(plain.resource("h"), slashed.resource("h"));
    assert_eq!(client("////").resource("h"), "/h");
    assert_eq!(client("").resource("h"), "/h");
}
