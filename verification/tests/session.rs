use std::time::Duration;

use transport_azure_event_hubs::{
    ceiling, Arrived, Denial, Event, Request, Session, Token, PARTITIONS,
};

const RESOURCE: &str = "http://ns.local/telemetry";

fn request(method: &str, path: &str, body: &[u8]) -> Request {
    Request {
        method: method.to_string(),
        path: path.to_string(),
        headers: vec![("Host".to_string(), "ns.local".to_string())],
        body: body.to_vec(),
    }
}

fn verified(resource: &str) -> Result<Token, Denial> {
    Ok(Token { resource: resource.to_string() })
}

fn denied() -> Result<Token, Denial> {
    Err(Denial {
        detail: "40103: Invalid signature".to_string(),
        subcode: "40103".to_string(),
    })
}

fn origin_of(session: &mut Session, path: &str, resource: &str) -> String {
    let (event, _) = session.answer(&request("POST", path, b"e"), verified(resource));
    match event {
        Event::Sent(arrived) => arrived.origin_uri,
        Event::Refused(code) => code,
    }
}

#[test]
fn a_session_deals_events_round_the_partitions_and_refuses_what_is_not_one() {
    let mut session = Session::new("policy", "secret");
    for expected in 0..=PARTITIONS {
        let (event, response) = session.answer(
            &request("POST", "/telemetry/messages", b"e"),
            verified(RESOURCE),
        );
        assert_eq!(response.status, 201);
        let partition = expected % PARTITIONS;
        let sequence = expected + 1;
        assert_eq!(
            event,
            Event::Sent(Arrived::new(
                format!("http://ns.local/telemetry/partitions/{partition}#{sequence}"),
                b"e".to_vec()
            ))
        );
    }
    let chosen = request("POST", "/telemetry/partitions/3/messages", b"");
    let (event, _) = session.answer(&chosen, verified(RESOURCE));
    assert_eq!(
        event,
        Event::Sent(Arrived::new(
            "http://ns.local/telemetry/partitions/3#6".to_string(),
            Vec::new()
        ))
    );
    assert_eq!(session.events().len(), 6);
    assert!(session.events()[5].origin_uri.ends_with("/3#6"));
    let (event, response) = session.answer(
        &request("POST", "/telemetry/partitions/9/messages", b""),
        verified(RESOURCE),
    );
    assert_eq!(
        (event, response.status),
        (Event::Refused("40400".to_string()), 404)
    );
    let (_, response) = session.answer(
        &request("POST", "/telemetry/partitions/x/messages", b""),
        verified(RESOURCE),
    );
    assert_eq!(response.status, 404);
    let (_, response) = session.answer(
        &request("GET", "/telemetry/messages", b""),
        verified(RESOURCE),
    );
    assert_eq!(response.status, 405);
    let (_, response) =
        session.answer(&request("POST", "/telemetry", b""), verified(RESOURCE));
    assert_eq!(response.status, 404);
    let over = request("POST", "/telemetry/messages", &vec![0; ceiling() + 1]);
    let (event, response) = session.answer(&over, verified(RESOURCE));
    assert_eq!(
        (event, response.status),
        (Event::Refused("40000".to_string()), 413)
    );
    let (event, response) =
        session.answer(&request("POST", "/telemetry/messages", b""), denied());
    assert_eq!(
        (event, response.status),
        (Event::Refused("40103".to_string()), 401)
    );
}

#[test]
fn every_refusal_states_its_detail() {
    let mut session = Session::new("policy", "secret");
    let detail = |session: &mut Session, request: &Request| {
        let (event, response) = session.answer(request, verified(RESOURCE));
        (event, response.status, response.detail.expect("an error"))
    };
    assert_eq!(
        detail(&mut session, &request("POST", "/telemetry", b"")),
        (
            Event::Refused("40400".to_string()),
            404,
            "40400: Not a hub's messages".to_string()
        )
    );
    assert_eq!(
        detail(&mut session, &request("PUT", "/telemetry/messages", b"")),
        (
            Event::Refused("40500".to_string()),
            405,
            "40500: An event is sent, nothing else".to_string()
        )
    );
    assert_eq!(
        detail(&mut session, &request("POST", "/telemetry/partitions/4/messages", b"")),
        (
            Event::Refused("40400".to_string()),
            404,
            "40400: No such partition".to_string()
        )
    );
    assert_eq!(
        detail(
            &mut session,
            &request("POST", "/telemetry/messages", &vec![0; ceiling() + 1])
        ),
        (
            Event::Refused("40000".to_string()),
            413,
            "40000: An event is at most 1048576 bytes".to_string()
        )
    );
    let (event, response) =
        session.answer(&request("GET", "/elsewhere", b""), denied());
    assert_eq!(event, Event::Refused("40103".to_string()));
    assert_eq!(response.status, 401);
    assert_eq!(response.detail, Some("40103: Invalid signature".to_string()));
    assert!(session.events().is_empty());
    assert_eq!(session.next(), 1);
}

#[test]
fn an_event_is_answered_with_created_and_no_detail() {
    let mut session = Session::new("policy", "secret");
    let at_the_brim = request("POST", "/telemetry/messages", &vec![b'x'; ceiling()]);
    let (event, response) = session.answer(&at_the_brim, verified(RESOURCE));
    assert_eq!((response.status, response.detail), (201, None));
    assert_eq!(event.taken().expect("taken").bytes.len(), ceiling());
}

#[test]
fn events_of_several_hubs_stand_in_the_order_they_came() {
    let mut session = Session::new("policy", "secret");
    let hubs = ["b", "a", "c", "a", "b", "b", "c", "a", "d", "a", "b", "c"];
    for (i, hub) in hubs.iter().enumerate() {
        let (event, _) = session.answer(
            &request("POST", &format!("/{hub}/partitions/0/messages"), &[i as u8]),
            verified("https://ns.local:5671/any/where"),
        );
        assert!(matches!(event, Event::Sent(_)));
        let (event, _) = session.answer(&request("GET", "/", b""), verified(RESOURCE));
        assert!(matches!(event, Event::Refused(_)));
    }
    let events = session.events();
    assert_eq!(events.len(), hubs.len());
    for (i, hub) in hubs.iter().enumerate() {
        let sequence = i + 1;
        assert_eq!(
            events[i],
            Arrived::new(
                format!("https://ns.local:5671/{hub}/partitions/0#{sequence}"),
                vec![i as u8]
            )
        );
    }
    assert_eq!(session.next(), 13);
}

#[test]
fn the_origin_starts_at_the_scheme_and_authority_of_the_token() {
    let mut session = Session::new("policy", "secret");
    let path = "/h/partitions/1/messages";
    assert_eq!(
        origin_of(&mut session, path, "http://ns.local/a/b#c"),
        "http://ns.local/h/partitions/1#1"
    );
    assert_eq!(
        origin_of(&mut session, path, "http://ns.local"),
        "http://ns.local/h/partitions/1#2"
    );
    assert_eq!(
        origin_of(&mut session, path, "ns.local/h"),
        "ns.local/h/h/partitions/1#3"
    );
    assert_eq!(origin_of(&mut session, path, ""), "/h/partitions/1#4");
}

#[test]
fn a_path_is_read_as_it_is_written() {
    let mut session = Session::new("policy", "secret");
    assert_eq!(
        origin_of(&mut session, "h/messages", RESOURCE),
        "http://ns.local/h/partitions/0#1"
    );
    assert_eq!(
        origin_of(&mut session, "//h/messages", RESOURCE),
        "http://ns.local//h/partitions/1#2"
    );
    assert_eq!(origin_of(&mut session, "/messages", RESOURCE), "40400");
    assert_eq!(
        origin_of(&mut session, "//messages", RESOURCE),
        "http://ns.local//partitions/2#3"
    );
    assert_eq!(
        origin_of(&mut session, "/h/partitions/+003/messages", RESOURCE),
        "http://ns.local/h/partitions/3#4"
    );
    assert_eq!(
        origin_of(&mut session, "/h/partitions//messages", RESOURCE),
        "40400"
    );
    assert_eq!(
        origin_of(&mut session, "/h/partitions/4294967296/messages", RESOURCE),
        "40400"
    );
    assert_eq!(
        origin_of(&mut session, "/h/partitions/1/partitions/2/messages", RESOURCE),
        "40400"
    );
    assert_eq!(
        origin_of(&mut session, "/h\u{e9}\u{20ac}/messages", RESOURCE),
        "http://ns.local/h\u{e9}\u{20ac}/partitions/0#5"
    );
}

#[test]
fn a_session_holds_its_policy_key_and_timeout() {
    let session = Session::new("policy", "secret");
    assert_eq!((session.policy(), session.key()), ("policy", "secret"));
    assert_eq!((session.timeout(), session.next()), (None, 1));
    let session = session.timing_out_after(Duration::from_secs(2));
    assert_eq!(session.timeout(), Some(Duration::from_secs(2)));
    assert_eq!((session.policy(), session.key()), ("policy", "secret"));
}

#[test]
fn a_refused_event_says_its_subcode() {
    assert_eq!(
        Event::Refused("40400".to_string()).taken(),
        Err("the session refused: 40400".to_string())
    );
    let arrived = Arrived::new("http://h/a#1".to_string(), vec![1, 2]);
    let event = Event::Sent(arrived.clone());
    assert_eq!(event.clone(), event);
    assert_eq!(event.taken(), Ok(arrived));
}

#[test]
fn asking_for_a_place_takes_no_turn() {
    let mut session = Session::new("policy", "secret").timing_out_after(Duration::from_secs(2));
    for taken in 0..6 {
        assert_eq!(session.place("telemetry"), Ok(("telemetry", taken % PARTITIONS)));
        assert_eq!(session.place("telemetry"), Ok(("telemetry", taken % PARTITIONS)));
        assert_eq!(session.place("h/partitions/3"), Ok(("h", 3)));
        for chosen in ["4", "", "x", "-1", "3/partitions/1", "4294967296"] {
            assert_eq!(
                session.place(&format!("h/partitions/{chosen}")),
                Err("40400: No such partition")
            );
        }
        let (_, response) = session.answer(
            &request("POST", "/telemetry/messages", b"e"),
            verified(RESOURCE),
        );
        assert_eq!(response.status, 201);
    }
    assert_eq!(session.events().len(), 6);
    assert_eq!(session.timeout(), Some(Duration::from_secs(2)));
}
