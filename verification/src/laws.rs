//! What holds of both ends together.

use std::time::Duration;

use vstd::prelude::*;

use crate::client::ClientView;
use crate::message::{ArrivedView, ResponseView};
use crate::model::{EventView, SessionView};
use crate::session::PARTITIONS;
use crate::text;
use crate::TransportView;

verus! {

/// The hub's name, and the partition where there is one, can be told apart
/// in the path they are put in: the name does not hold the separator, nor
/// run into the one behind it.
pub open spec fn plain(hub: Seq<char>, partition: Option<Seq<char>>) -> bool {
    &&& !text::occurs(hub, "/partitions/"@)
    &&& partition is Some ==> text::without_suffix(hub, "/partitions"@) is None
}

/// The partition is one that every hub has.
pub open spec fn opens(partition: Seq<char>) -> bool {
    text::parsed(partition, u32::MAX as nat) matches Some(n) && n < PARTITIONS
}

/// The path a target is posted to is the target between `/` and
/// `/messages`.
pub proof fn law_a_target_is_its_path(transport: TransportView, target: Seq<char>)
    requires
        target.len() > 0,
    ensures
        ({
            let (hub, partition) = transport.resolved(target);
            crate::client::messages_path(hub, partition) == "/"@ + target + "/messages"@
        }),
{
    text::lemma_cut_parts(target, "/partitions/"@);
    let (hub, partition) = transport.resolved(target);
    assert(crate::client::messages_path(hub, partition) =~= "/"@ + target + "/messages"@);
}

/// A hub and partition that can be told apart in a path are cut apart where
/// they were joined.
proof fn lemma_plain(hub: Seq<char>, partition: Seq<char>)
    requires
        plain(hub, Some(partition)),
    ensures
        text::cut(hub + "/partitions/"@ + partition, "/partitions/"@) == Some((hub, partition)),
{
    let mark = "/partitions/"@;
    let whole = hub + mark + partition;
    let end = hub.len() as int;
    reveal_strlit("/partitions/");
    reveal_strlit("/partitions");
    assert(whole.subrange(end, end + mark.len()) =~= mark);
    assert forall|j: int| 0 <= j < end implies !text::occurs_at(whole, mark, j) by {
        if text::occurs_at(whole, mark, j) {
            let found = whole.subrange(j, j + mark.len());
            if j + mark.len() <= end {
                assert(hub.subrange(j, j + mark.len()) =~= found);
                assert(text::occurs_at(hub, mark, j));
            } else {
                assert(found[end - j] == whole[end]);
                assert(whole[end] == '/');
                assert(end - j == 11);
                assert(hub.subrange(end - 11, end) =~= "/partitions"@) by {
                    assert forall|k: int| 0 <= k < 11 implies hub[end - 11 + k]
                        == "/partitions"@[k] by {
                        assert(found[k] == whole[j + k]);
                    }
                }
            }
        }
    }
    text::lemma_cut_at(whole, mark, end);
    assert(whole.subrange(0, end) =~= hub);
    assert(whole.subrange(end + mark.len(), whole.len() as int) =~= partition);
}

/// What stands between `/` and `/messages` is taken out of a path again.
proof fn lemma_path(target: Seq<char>)
    ensures
        text::without_suffix(
            text::without_prefix("/"@ + target + "/messages"@, "/"@),
            "/messages"@,
        ) == Some(target),
{
    let path = "/"@ + target + "/messages"@;
    let rest = target + "/messages"@;
    reveal_strlit("/");
    assert(path.subrange(0, 1) =~= "/"@);
    assert(path.subrange(1, path.len() as int) =~= rest);
    assert(rest.subrange(target.len() as int, rest.len() as int) =~= "/messages"@);
    assert(rest.subrange(0, target.len() as int) =~= target);
}

/// The far end reads out of a path the hub and partition that it was made
/// of.
proof fn lemma_posted(hub: Seq<char>, partition: Option<Seq<char>>)
    requires
        plain(hub, partition),
    ensures
        ({
            let target = text::without_suffix(
                text::without_prefix(crate::client::messages_path(hub, partition), "/"@),
                "/messages"@,
            );
            &&& target is Some
            &&& match partition {
                Some(partition) => text::cut(target->0, "/partitions/"@) == Some((hub, partition)),
                None => target->0 == hub,
            }
        }),
{
    match partition {
        Some(partition) => {
            let target = hub + "/partitions/"@ + partition;
            assert(crate::client::messages_path(hub, Some(partition)) =~= "/"@ + target
                + "/messages"@);
            lemma_path(target);
            lemma_plain(hub, partition);
        },
        None => {
            lemma_path(hub);
        },
    }
}

/// The partition that the far end places an event on: the one that was
/// named, or the next in turn.
pub open spec fn landing(partition: Option<Seq<char>>, next: nat) -> nat {
    match partition {
        Some(partition) => text::parsed(partition, u32::MAX as nat)->0,
        None => ((next - 1) % PARTITIONS as int) as nat,
    }
}

/// What a client sends arrives at a session that verified its token: on the
/// hub and partition that were named, or the next partition in turn where
/// none was, its bytes whole, and it is answered with 201.
pub proof fn law_what_a_client_sends_arrives(
    client: ClientView,
    session: SessionView,
    hub: Seq<char>,
    partition: Option<Seq<char>>,
    bytes: Seq<u8>,
    expiry: u64,
)
    requires
        session.next >= 1,
        plain(hub, partition),
        partition is Some ==> opens(partition->0),
        bytes.len() <= crate::most(),
    ensures
        ({
            let outgoing = client.outgoing(hub, partition, bytes, expiry);
            let landed = landing(partition, session.next);
            let arrived = ArrivedView {
                origin_uri: crate::model::origin(
                    crate::model::base_of(client.resource(hub)),
                    hub,
                    landed,
                    session.next,
                ),
                bytes,
            };
            session.answered(outgoing.request, Ok(outgoing.resource)) == (
                session.with(hub, arrived),
                EventView::Sent(arrived),
                ResponseView { status: 201, detail: None },
            )
        }),
{
    lemma_posted(hub, partition);
}

/// What a client sends to a partition that the hub does not have is
/// answered with 404 and subcode 40400, and nothing is taken.
pub proof fn law_no_such_partition_is_refused(
    client: ClientView,
    session: SessionView,
    hub: Seq<char>,
    partition: Seq<char>,
    bytes: Seq<u8>,
    expiry: u64,
)
    requires
        plain(hub, Some(partition)),
        !opens(partition),
    ensures
        ({
            let outgoing = client.outgoing(hub, Some(partition), bytes, expiry);
            session.answered(outgoing.request, Ok(outgoing.resource)) == (
                session,
                EventView::Refused("40400"@),
                ResponseView { status: 404, detail: Some("40400: No such partition"@) },
            )
        }),
{
    lemma_posted(hub, Some(partition));
}

/// The hub and partition that a target names can be told apart in a path.
proof fn lemma_resolved_plain(transport: TransportView, target: Seq<char>)
    requires
        target.len() > 0,
    ensures
        ({
            let (hub, partition) = transport.resolved(target);
            plain(hub, partition)
        }),
{
    let mark = "/partitions/"@;
    let (hub, partition) = transport.resolved(target);
    text::lemma_cut_parts(target, mark);
    if partition is Some {
        let end = hub.len() as int;
        assert forall|j: int| !text::occurs_at(hub, mark, j) by {
            if text::occurs_at(hub, mark, j) {
                reveal_strlit("/partitions/");
                assert(target.subrange(j, j + mark.len()) =~= hub.subrange(j, j + mark.len()));
                assert(text::occurs_at(target, mark, j));
            }
        }
        if text::without_suffix(hub, "/partitions"@) is Some {
            reveal_strlit("/partitions/");
            reveal_strlit("/partitions");
            let j = end - 11;
            assert(target.subrange(j, j + mark.len()) =~= mark) by {
                assert forall|k: int| 0 <= k < 12 implies target[j + k] == mark[k] by {
                    if k < 11 {
                        assert(hub.subrange(j, end)[k] == target[j + k]);
                    } else {
                        assert(target[end] == mark[0]);
                    }
                }
            }
            assert(text::occurs_at(target, mark, j));
        }
    }
}

/// What is sent to a target lands on the hub and partition that the target
/// names, or the transport's own where it names none: in a session that
/// verified its token, its bytes whole, and answered with 201.
pub proof fn law_what_is_sent_lands_where_the_target_names(
    transport: TransportView,
    session: SessionView,
    target: Seq<char>,
    bytes: Seq<u8>,
    host: Seq<char>,
    expiry: u64,
)
    requires
        session.next >= 1,
        target.len() == 0 ==> plain(transport.hub, transport.partition),
        transport.resolved(target).1 matches Some(partition) ==> opens(partition),
        bytes.len() <= crate::most(),
    ensures
        ({
            let outgoing = transport.outgoing(target, bytes, host, expiry);
            let (hub, partition) = transport.resolved(target);
            let arrived = ArrivedView {
                origin_uri: crate::model::origin(
                    crate::model::base_of(outgoing.resource),
                    hub,
                    landing(partition, session.next),
                    session.next,
                ),
                bytes,
            };
            session.answered(outgoing.request, Ok(outgoing.resource)) == (
                session.with(hub, arrived),
                EventView::Sent(arrived),
                ResponseView { status: 201, detail: None },
            )
        }),
{
    let (hub, partition) = transport.resolved(target);
    if target.len() > 0 {
        lemma_resolved_plain(transport, target);
    }
    law_what_a_client_sends_arrives(
        transport.client(host),
        session,
        hub,
        partition,
        bytes,
        expiry,
    );
}

/// The endpoint is a scheme and an authority, with no path but `/`.
pub open spec fn rooted(endpoint: Seq<char>) -> bool {
    text::cut(text::trimmed(endpoint, '/'), "://"@) matches Some((scheme, authority))
        && !text::occurs(authority, "/"@)
}

/// The hubs that a client's tokens are made for live at the client's
/// endpoint: that is where the origins of its events start.
pub proof fn law_origins_start_at_the_endpoint(
    endpoint: Seq<char>,
    host: Seq<char>,
    policy: Seq<char>,
    key: Seq<char>,
    hub: Seq<char>,
)
    requires
        rooted(endpoint),
    ensures
        crate::model::base_of(ClientView::at(endpoint, host, policy, key).resource(hub))
            == text::trimmed(endpoint, '/'),
{
    let root = text::trimmed(endpoint, '/');
    let url = root + "/"@ + hub;
    let (scheme, authority) = text::cut(root, "://"@)->0;
    reveal_strlit("://");
    reveal_strlit("/");
    text::lemma_cut_parts(root, "://"@);
    let at = scheme.len() as int;
    assert(url.subrange(at, at + 3) =~= root.subrange(at, at + 3));
    assert forall|j: int| 0 <= j < at implies !text::occurs_at(url, "://"@, j) by {
        assert(url.subrange(j, j + 3) =~= root.subrange(j, j + 3));
        assert(!text::occurs_at(root, "://"@, j));
    }
    text::lemma_cut_at(url, "://"@, at);
    let rest = authority + "/"@ + hub;
    assert(url.subrange(at + 3, url.len() as int) =~= rest);
    assert(url.subrange(0, at) =~= scheme);
    let end = authority.len() as int;
    assert(rest.subrange(end, end + 1) =~= "/"@);
    assert forall|j: int| 0 <= j < end implies !text::occurs_at(rest, "/"@, j) by {
        assert(rest.subrange(j, j + 1) =~= authority.subrange(j, j + 1));
        assert(!text::occurs_at(authority, "/"@, j));
    }
    text::lemma_cut_at(rest, "/"@, end);
    assert(rest.subrange(0, end) =~= authority);
    assert(crate::model::base_of(url) =~= root);
}

/// A `/` behind the endpoint makes no difference to the client.
pub proof fn law_a_trailing_slash_makes_no_difference(
    endpoint: Seq<char>,
    host: Seq<char>,
    policy: Seq<char>,
    key: Seq<char>,
)
    ensures
        ClientView::at(endpoint.push('/'), host, policy, key) == ClientView::at(
            endpoint,
            host,
            policy,
            key,
        ),
{
    assert(endpoint.push('/').drop_last() =~= endpoint);
}

/// The far end of a transport holds the policy and the key that its near
/// end signs with, whatever address the near end is given.
pub proof fn law_both_ends_hold_the_same_key(
    transport: TransportView,
    address: Seq<char>,
    host: Seq<char>,
)
    ensures
        transport.near(address).client(host).policy == transport.session().policy,
        transport.near(address).client(host).key == transport.session().key,
        transport.near(address).client(host).timeout == transport.session().timeout,
{
}

/// A far end refuses for its size, with 413 and subcode 40000, what the
/// near end refuses to put on the wire, and nothing else.
pub proof fn law_both_ends_have_the_same_ceiling(
    client: ClientView,
    session: SessionView,
    hub: Seq<char>,
    partition: Option<Seq<char>>,
    bytes: Seq<u8>,
    expiry: u64,
)
    requires
        plain(hub, partition),
        partition is Some ==> opens(partition->0),
    ensures
        ({
            let outgoing = client.outgoing(hub, partition, bytes, expiry);
            let (then, event, response) = session.answered(
                outgoing.request,
                Ok(outgoing.resource),
            );
            &&& response.status == 413 <==> bytes.len() > crate::most()
            &&& event == EventView::Refused("40000"@) <==> bytes.len() > crate::most()
            &&& bytes.len() > crate::most() ==> then == session
        }),
{
    lemma_posted(hub, partition);
}

/// A payload within the ceiling comes round the loopback whole, on the
/// first partition of the loopback's hub and numbered 1, and where the
/// address is one, from there.
pub proof fn law_the_loopback_returns_payloads_whole(
    timeout: Duration,
    address: Seq<char>,
    payload: Seq<u8>,
    host: Seq<char>,
    expiry: u64,
)
    requires
        payload.len() <= crate::most(),
    ensures
        ({
            let loopback = TransportView::looped(timeout);
            let outgoing = loopback.near(address).outgoing(Seq::empty(), payload, host, expiry);
            let (then, event, response) = loopback.session().answered(
                outgoing.request,
                Ok(outgoing.resource),
            );
            &&& event matches EventView::Sent(arrived)
            &&& arrived.bytes == payload
            &&& (address.len() > 0 && !address.contains('/')) ==> arrived.origin_uri == "http://"@
                + address + "/telemetry/partitions/0#1"@
            &&& then.events() == seq![arrived]
        }),
{
    let loopback = TransportView::looped(timeout);
    let near = loopback.near(address);
    let session = loopback.session();
    let outgoing = near.outgoing(Seq::empty(), payload, host, expiry);
    reveal_strlit("telemetry");
    reveal_strlit("/partitions/");
    assert(!text::occurs("telemetry"@, "/partitions/"@));
    law_what_is_sent_lands_where_the_target_names(
        near,
        session,
        Seq::empty(),
        payload,
        host,
        expiry,
    );
    crate::model::law_a_session_starts_empty(loopback.policy, loopback.key);
    assert(session.numbered());
    assert(session.events() =~= Seq::empty());
    crate::model::law_events_stand_in_the_order_they_came(
        session,
        outgoing.request,
        Ok(outgoing.resource),
    );
    let arrived = session.answered(outgoing.request, Ok(outgoing.resource)).1->Sent_0;
    assert(Seq::<ArrivedView>::empty().push(arrived) =~= seq![arrived]);
    if address.len() > 0 && !address.contains('/') {
        lemma_rooted(address);
        law_origins_start_at_the_endpoint(
            near.endpoint,
            host,
            near.policy,
            near.key,
            "telemetry"@,
        );
        reveal_strlit("/");
        reveal_strlit("#");
        reveal_strlit("/telemetry/partitions/0#1");
        assert(text::decimal(0) =~= seq!['0']);
        assert(text::decimal(1) =~= seq!['1']);
        assert(arrived.origin_uri =~= near.endpoint + "/telemetry/partitions/0#1"@);
    }
}

/// An address behind `http://` is the root of a namespace.
proof fn lemma_rooted(address: Seq<char>)
    requires
        address.len() > 0,
        !address.contains('/'),
    ensures
        text::trimmed("http://"@ + address, '/') == "http://"@ + address,
        rooted("http://"@ + address),
{
    let endpoint = "http://"@ + address;
    reveal_strlit("http://");
    reveal_strlit("://");
    reveal_strlit("/");
    assert(endpoint.last() == address.last());
    assert(address.contains(address.last()));
    assert(endpoint.subrange(4, 7) =~= "://"@);
    assert forall|j: int| 0 <= j < 4 implies !text::occurs_at(endpoint, "://"@, j) by {
        assert(endpoint.subrange(j, j + 3)[0] == endpoint[j]);
    }
    text::lemma_cut_at(endpoint, "://"@, 4);
    assert(endpoint.subrange(7, endpoint.len() as int) =~= address);
    assert forall|j: int| !text::occurs_at(address, "/"@, j) by {
        if text::occurs_at(address, "/"@, j) {
            assert(address.subrange(j, j + 1)[0] == address[j]);
            assert(address.contains('/'));
        }
    }
}

/// The ceiling, in words.
pub proof fn lemma_ceiling_in_words()
    ensures
        text::decimal(crate::most()) == "1048576"@,
{
    reveal_strlit("1048576");
    reveal_with_fuel(text::decimal, 8);
    assert(text::decimal(crate::most()) =~= "1048576"@);
}

/// One event carries at most 1048576 bytes, and what is over that is refused
/// for good, in words that give its size and that number.
pub proof fn law_what_is_over_the_ceiling_says_so(len: nat)
    ensures
        crate::most() == 1_048_576,
        !crate::over(len).retryable,
        crate::over(len).message == text::decimal(len)
            + " bytes is over the 1048576 one Event Hubs event carries"@,
{
    lemma_ceiling_in_words();
    reveal_strlit(" bytes is over the ");
    reveal_strlit("1048576");
    reveal_strlit(" one Event Hubs event carries");
    reveal_strlit(" bytes is over the 1048576 one Event Hubs event carries");
    assert(crate::over(len).message =~= text::decimal(len)
        + " bytes is over the 1048576 one Event Hubs event carries"@);
}

/// What is sent to the empty target is posted to the transport's own hub,
/// and to its own partition wherever it has one, whichever that is; the
/// token is for its own hub.
pub proof fn law_the_empty_target_is_the_transports_own(
    transport: TransportView,
    bytes: Seq<u8>,
    host: Seq<char>,
    expiry: u64,
)
    ensures
        ({
            let outgoing = transport.outgoing(Seq::empty(), bytes, host, expiry);
            &&& transport.partition is Some ==> outgoing.request.path == "/"@ + transport.hub
                + "/partitions/"@ + transport.partition->0 + "/messages"@
            &&& transport.partition is None ==> outgoing.request.path == "/"@ + transport.hub
                + "/messages"@
            &&& outgoing.resource == outgoing.endpoint + "/"@ + transport.hub
            &&& transport.resolved(Seq::empty()).0 == transport.hub
            &&& transport.resolved(Seq::empty()).1 == transport.partition
        }),
{
}

/// What is sent to a target that is not empty is posted to that target,
/// whatever hub and partition the transport has; the token is for the hub
/// that stands before the first separator, for the whole target where none
/// stands in it.
pub proof fn law_a_target_overrides_the_transports_own(
    transport: TransportView,
    target: Seq<char>,
    hub: Seq<char>,
    partition: Seq<char>,
    bytes: Seq<u8>,
    host: Seq<char>,
    expiry: u64,
)
    requires
        target.len() > 0,
    ensures
        ({
            let outgoing = transport.outgoing(target, bytes, host, expiry);
            let resolved = transport.resolved(target);
            &&& outgoing.request.path == "/"@ + target + "/messages"@
            &&& crate::model::names(target, hub, partition) ==> {
                &&& outgoing.resource == outgoing.endpoint + "/"@ + hub
                &&& resolved.0 == hub
                &&& resolved.1 == Some(partition)
            }
            &&& crate::model::names_no_partition(target) ==> {
                &&& outgoing.resource == outgoing.endpoint + "/"@ + target
                &&& resolved.0 == target
                &&& resolved.1 is None
            }
        }),
{
    law_a_target_is_its_path(transport, target);
    if crate::model::names(target, hub, partition) {
        crate::model::lemma_names(target, hub, partition);
    }
    if crate::model::names_no_partition(target) {
        crate::model::lemma_names_no_partition(target);
    }
}

/// Whatever a transport sends, wherever to, is one `POST` of the bytes as
/// they are with its two headers, signed with the policy and the key that
/// the transport was given, until the time that was given, and goes to the
/// transport's endpoint, less the slashes it ends in, within the transport's
/// timeout.
pub proof fn law_what_a_transport_sends_is_signed_as_it(
    transport: TransportView,
    target: Seq<char>,
    bytes: Seq<u8>,
    host: Seq<char>,
    expiry: u64,
)
    ensures
        ({
            let outgoing = transport.outgoing(target, bytes, host, expiry);
            let kept = outgoing.endpoint.len() as int;
            &&& outgoing.policy == transport.policy
            &&& outgoing.key == transport.key
            &&& outgoing.timeout == transport.timeout
            &&& outgoing.expiry == expiry
            &&& outgoing.request.method == "POST"@
            &&& outgoing.request.body == bytes
            &&& outgoing.request.headers.len() == 2
            &&& outgoing.request.headers[0].0 == "Content-Type"@
            &&& outgoing.request.headers[0].1 == "application/atom+xml;type=entry;charset=utf-8"@
            &&& outgoing.request.headers[1].0 == "Host"@
            &&& outgoing.request.headers[1].1 == host
            &&& kept <= transport.endpoint.len()
            &&& outgoing.endpoint == transport.endpoint.take(kept)
            &&& kept > 0 ==> outgoing.endpoint.last() != '/'
            &&& forall|i: int|
                kept <= i < transport.endpoint.len() ==> transport.endpoint[i] == '/'
        }),
{
    text::law_trimming_takes_off_the_run_at_the_end(transport.endpoint, '/');
}

/// The client of a transport holds the transport's policy, key and timeout,
/// and the host that it is given.
pub proof fn law_a_transports_client_holds_what_it_holds(
    transport: TransportView,
    host: Seq<char>,
    hub: Seq<char>,
)
    ensures
        transport.client(host).policy == transport.policy,
        transport.client(host).key == transport.key,
        transport.client(host).timeout == transport.timeout,
        transport.client(host).host == host,
        transport.client(host).resource(hub) == transport.client(host).endpoint + "/"@ + hub,
        transport.client(host).endpoint == text::trimmed(transport.endpoint, '/'),
{
}

/// The far end of a transport holds the transport's policy, key and timeout,
/// and has taken nothing.
pub proof fn law_a_transports_session_holds_what_it_holds(transport: TransportView)
    ensures
        transport.session().policy == transport.policy,
        transport.session().key == transport.key,
        transport.session().timeout == transport.timeout,
        transport.session().next == 1,
        transport.session().events().len() == 0,
        transport.session().numbered(),
        forall|hub: Seq<char>| !#[trigger] transport.session().hubs.contains_key(hub),
{
    crate::model::law_a_session_starts_empty(transport.policy, transport.key);
    crate::model::lemma_numbered_by_hubs(
        SessionView::fresh(transport.policy, transport.key),
        transport.session(),
    );
}

/// A near end differs from its transport in the endpoint alone, which is the
/// address behind `http://`.
pub proof fn law_a_near_end_differs_in_its_endpoint_alone(
    transport: TransportView,
    address: Seq<char>,
)
    ensures
        transport.near(address).endpoint == "http://"@ + address,
        transport.near(address).hub == transport.hub,
        transport.near(address).partition == transport.partition,
        transport.near(address).policy == transport.policy,
        transport.near(address).key == transport.key,
        transport.near(address).timeout == transport.timeout,
{
}

/// Whatever the near end of a transport puts on the wire, at any address, is
/// to be signed with the policy and the key that the transport's far end
/// holds.
pub proof fn law_what_goes_out_is_signed_as_the_far_end_expects(
    transport: TransportView,
    address: Seq<char>,
    target: Seq<char>,
    bytes: Seq<u8>,
    host: Seq<char>,
    expiry: u64,
)
    ensures
        ({
            let outgoing = transport.near(address).outgoing(target, bytes, host, expiry);
            &&& outgoing.policy == transport.session().policy
            &&& outgoing.key == transport.session().key
            &&& outgoing.policy == transport.policy
            &&& outgoing.key == transport.key
        }),
{
}

/// What the near end of any transport sends to the empty target comes round
/// to the transport's own far end whole: under the address, on the
/// transport's own hub, and on its own partition or else the first, as number
/// 1.
pub proof fn law_a_near_end_reaches_its_own_far_end(
    transport: TransportView,
    address: Seq<char>,
    payload: Seq<u8>,
    host: Seq<char>,
    expiry: u64,
)
    requires
        address.len() > 0,
        !address.contains('/'),
        plain(transport.hub, transport.partition),
        transport.partition is Some ==> text::parsed(transport.partition->0, 3) is Some,
        payload.len() <= 1_048_576,
    ensures
        ({
            let outgoing = transport.near(address).outgoing(Seq::empty(), payload, host, expiry);
            let (then, event, response) = transport.session().answered(
                outgoing.request,
                Ok(outgoing.resource),
            );
            let partition = match transport.partition {
                Some(partition) => text::decimal(text::parsed(partition, 3)->0),
                None => "0"@,
            };
            &&& event matches EventView::Sent(arrived)
            &&& arrived.bytes == payload
            &&& arrived.origin_uri == "http://"@ + address + "/"@ + transport.hub
                + "/partitions/"@ + partition + "#1"@
            &&& response.status == 201
            &&& then.events() == seq![arrived]
            &&& outgoing.endpoint == "http://"@ + address
        }),
{
    let near = transport.near(address);
    let session = transport.session();
    let outgoing = near.outgoing(Seq::empty(), payload, host, expiry);
    law_what_is_sent_lands_where_the_target_names(
        near,
        session,
        Seq::empty(),
        payload,
        host,
        expiry,
    );
    law_a_transports_session_holds_what_it_holds(transport);
    crate::model::law_events_stand_in_the_order_they_came(
        session,
        outgoing.request,
        Ok(outgoing.resource),
    );
    let arrived = session.answered(outgoing.request, Ok(outgoing.resource)).1->Sent_0;
    assert(session.events() =~= Seq::empty());
    assert(Seq::<ArrivedView>::empty().push(arrived) =~= seq![arrived]);
    lemma_rooted(address);
    law_origins_start_at_the_endpoint(
        near.endpoint,
        host,
        near.policy,
        near.key,
        transport.hub,
    );
    reveal_strlit("#");
    reveal_strlit("0");
    reveal_strlit("#1");
    assert(text::decimal(0) =~= "0"@);
    assert(text::decimal(1) =~= seq!['1']);
    assert("#"@ + text::decimal(1) =~= "#1"@);
    let partition = match transport.partition {
        Some(partition) => text::decimal(text::parsed(partition, 3)->0),
        None => "0"@,
    };
    let url = "http://"@ + address + "/"@ + transport.hub + "/partitions/"@ + partition;
    assert(url + "#"@ + text::decimal(1) =~= url + "#1"@);
}

/// The loopback pair agrees on one hub, one policy and its key, on an
/// ephemeral port of this machine, and leaves the partition to the hub.
pub proof fn law_the_loopback_pair_agrees(timeout: Duration)
    ensures
        TransportView::looped(timeout).endpoint == "http://127.0.0.1:0"@,
        TransportView::looped(timeout).hub == "telemetry"@,
        TransportView::looped(timeout).partition is None,
        TransportView::looped(timeout).policy == "RootManageSharedAccessKey"@,
        TransportView::looped(timeout).key == "probe"@,
        TransportView::looped(timeout).timeout == Some(timeout),
{
}

/// What a transport sends to the empty target carries what the transport was
/// built with: it is posted to that partition of that hub, signed with that
/// policy and that key, and given up after that timeout.
pub proof fn law_a_transport_sends_as_it_was_built(
    endpoint: Seq<char>,
    hub: Seq<char>,
    policy: Seq<char>,
    key: Seq<char>,
    partition: Seq<char>,
    timeout: Duration,
    bytes: Seq<u8>,
    host: Seq<char>,
    expiry: u64,
)
    ensures
        ({
            let built = TransportView::about(endpoint, hub).signing_as(policy, key);
            let dealt = built.outgoing(Seq::empty(), bytes, host, expiry);
            let chosen = built.on(partition).within(timeout).outgoing(
                Seq::empty(),
                bytes,
                host,
                expiry,
            );
            &&& dealt.request.path == "/"@ + hub + "/messages"@
            &&& chosen.request.path == "/"@ + hub + "/partitions/"@ + partition + "/messages"@
            &&& dealt.policy == policy
            &&& chosen.policy == policy
            &&& dealt.key == key
            &&& chosen.key == key
            &&& dealt.timeout is None
            &&& chosen.timeout == Some(timeout)
            &&& dealt.endpoint == chosen.endpoint
            &&& dealt.resource == dealt.endpoint + "/"@ + hub
            &&& chosen.resource == dealt.resource
            &&& endpoint.len() > 0 && endpoint.last() != '/' ==> dealt.endpoint == endpoint
        }),
{
}

/// Each step of building a transport sets what it says and leaves the rest.
pub proof fn law_building_leaves_the_rest(
    transport: TransportView,
    policy: Seq<char>,
    key: Seq<char>,
    partition: Seq<char>,
    timeout: Duration,
)
    ensures
        transport.signing_as(policy, key).policy == policy,
        transport.signing_as(policy, key).key == key,
        transport.on(partition).partition == Some(partition),
        transport.within(timeout).timeout == Some(timeout),
        transport.signing_as(policy, key).signing_as(transport.policy, transport.key) == transport,
        transport.partition is Some ==> transport.on(partition).on(transport.partition->0)
            == transport,
        transport.timeout is Some ==> transport.within(timeout).within(transport.timeout->0)
            == transport,
        transport.on(partition).endpoint == transport.endpoint,
        transport.on(partition).hub == transport.hub,
        transport.on(partition).policy == transport.policy,
        transport.on(partition).key == transport.key,
        transport.on(partition).timeout == transport.timeout,
        transport.within(timeout).endpoint == transport.endpoint,
        transport.within(timeout).hub == transport.hub,
        transport.within(timeout).partition == transport.partition,
        transport.within(timeout).policy == transport.policy,
        transport.within(timeout).key == transport.key,
{
}

} // verus!
