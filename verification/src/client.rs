//! Xmip's side: the one call a Send Location makes, a request with a
//! Shared Access Signature over one connection to the namespace.
//!
//! A hub is a path under the namespace: `https://ns.servicebus.windows.
//! net/telemetry` in the cloud, `http://127.0.0.1:port/telemetry` for a
//! stand-in. One event is one `POST .../messages`, or `POST .../
//! partitions/<id>/messages` where the Location chooses the partition
//! rather than letting the hub. The body is the event; the REST API
//! documents `application/atom+xml;type=entry;charset=utf-8` as its
//! content type and takes any bytes under it.

use std::time::Duration;

use vstd::prelude::*;
use vstd::string::*;

use crate::message;
use crate::message::{Request, RequestView, TransportError};
use crate::text;

verus! {

/// The content type the REST API documents for one event.
pub const CONTENT_TYPE: &'static str = "application/atom+xml;type=entry;charset=utf-8";

/// A near end that speaks to one namespace as one shared access policy.
pub struct Client {
    endpoint: String,
    host: String,
    policy: String,
    key: String,
    timeout: Option<Duration>,
}

/// What a [`Client`] holds.
#[verifier::ext_equal]
pub struct ClientView {
    /// The namespace, without a trailing `/`.
    pub endpoint: Seq<char>,
    /// The authority of the namespace.
    pub host: Seq<char>,
    pub policy: Seq<char>,
    pub key: Seq<char>,
    pub timeout: Option<Duration>,
}

/// One send, ready for the wire: connect to `endpoint` within `timeout`,
/// sign `request` as `policy` with `key` for `resource` until `expiry`,
/// and exchange it for the namespace's answer.
pub struct Outgoing {
    pub endpoint: String,
    pub timeout: Option<Duration>,
    pub policy: String,
    pub key: String,
    pub request: Request,
    pub resource: String,
    pub expiry: u64,
}

/// What an [`Outgoing`] holds.
#[verifier::ext_equal]
pub struct OutgoingView {
    pub endpoint: Seq<char>,
    pub timeout: Option<Duration>,
    pub policy: Seq<char>,
    pub key: Seq<char>,
    pub request: RequestView,
    pub resource: Seq<char>,
    pub expiry: u64,
}

impl View for Outgoing {
    type V = OutgoingView;

    open spec fn view(&self) -> OutgoingView {
        OutgoingView {
            endpoint: self.endpoint@,
            timeout: self.timeout,
            policy: self.policy@,
            key: self.key@,
            request: self.request@,
            resource: self.resource@,
            expiry: self.expiry,
        }
    }
}

/// The path one event is posted to: the hub's messages, or those of the
/// partition of it that is named.
pub open spec fn messages_path(hub: Seq<char>, partition: Option<Seq<char>>) -> Seq<char> {
    match partition {
        Some(partition) => "/"@ + hub + "/partitions/"@ + partition + "/messages"@,
        None => "/"@ + hub + "/messages"@,
    }
}

impl View for Client {
    type V = ClientView;

    closed spec fn view(&self) -> ClientView {
        ClientView {
            endpoint: self.endpoint@,
            host: self.host@,
            policy: self.policy@,
            key: self.key@,
            timeout: self.timeout,
        }
    }
}

impl ClientView {
    /// The client of the namespace at `endpoint`, whose authority is
    /// `host`, with no timeout.
    pub open spec fn at(
        endpoint: Seq<char>,
        host: Seq<char>,
        policy: Seq<char>,
        key: Seq<char>,
    ) -> ClientView {
        ClientView { endpoint: text::trimmed(endpoint, '/'), host, policy, key, timeout: None }
    }

    /// The hub's own URL.
    pub open spec fn resource(self, hub: Seq<char>) -> Seq<char> {
        self.endpoint + "/"@ + hub
    }

    /// The request that posts `bytes` as one event.
    pub open spec fn request(
        self,
        hub: Seq<char>,
        partition: Option<Seq<char>>,
        bytes: Seq<u8>,
    ) -> RequestView {
        RequestView {
            method: "POST"@,
            path: messages_path(hub, partition),
            headers: seq![("Content-Type"@, CONTENT_TYPE@), ("Host"@, self.host)],
            body: bytes,
        }
    }

    /// What sending `bytes` as one event puts on the wire.
    pub open spec fn outgoing(
        self,
        hub: Seq<char>,
        partition: Option<Seq<char>>,
        bytes: Seq<u8>,
        expiry: u64,
    ) -> OutgoingView {
        OutgoingView {
            endpoint: self.endpoint,
            timeout: self.timeout,
            policy: self.policy,
            key: self.key,
            request: self.request(hub, partition, bytes),
            resource: self.resource(hub),
            expiry,
        }
    }
}

impl Client {
    /// Speak to the namespace at `endpoint` (`http://host:port` or
    /// `https://host:port`), signing as `policy` with `key`. `authority` is
    /// what the endpoint's URL gave for its authority.
    ///
    /// # Errors
    /// Where `endpoint` is not an HTTP URL, which `authority` then says.
    pub fn new(
        endpoint: &str,
        policy: &str,
        key: &str,
        authority: Result<String, TransportError>,
    ) -> (client: Result<Self, TransportError>)
        ensures
            match authority {
                Ok(host) => client is Ok && client->Ok_0@ == ClientView::at(
                    endpoint@,
                    host@,
                    policy@,
                    key@,
                ),
                Err(failure) => client == Err::<Self, TransportError>(failure),
            },
    {
        match authority {
            Ok(host) => Ok(
                Self {
                    endpoint: String::from_str(text::trim_end(endpoint, '/')),
                    host,
                    policy: String::from_str(policy),
                    key: String::from_str(key),
                    timeout: None,
                },
            ),
            Err(failure) => Err(failure),
        }
    }

    /// Give up on an endpoint that stops answering after `timeout`.
    #[must_use]
    pub fn timing_out_after(self, timeout: Duration) -> (client: Self)
        ensures
            client@ == (ClientView { timeout: Some(timeout), ..self@ }),
    {
        let mut client = self;
        client.timeout = Some(timeout);
        client
    }

    /// The resource a token for `hub` names: the hub's own URL.
    #[must_use]
    pub fn resource(&self, hub: &str) -> (resource: String)
        ensures
            resource@ == self@.resource(hub@),
    {
        let mut resource = self.endpoint.clone();
        resource.append("/");
        resource.append(hub);
        resource
    }

    /// What sends `bytes` as one event to `hub`, to `partition` where one
    /// is named and to whichever the hub chooses where none is, under a
    /// token that is good from `now` for `lifetime` seconds.
    pub fn send(
        &self,
        hub: &str,
        partition: Option<&str>,
        bytes: &[u8],
        now: u64,
        lifetime: u64,
    ) -> (outgoing: Outgoing)
        requires
            now + lifetime <= u64::MAX,
        ensures
            outgoing@ == self@.outgoing(
                hub@,
                message::slice_of(partition),
                bytes@,
                (now + lifetime) as u64,
            ),
            outgoing.expiry == now + lifetime,
            outgoing.policy@ == self@.policy,
            outgoing.key@ == self@.key,
            outgoing.request.method@ == "POST"@,
            outgoing.request.body@ == bytes@,
            outgoing.request@.headers == seq![
                ("Content-Type"@, "application/atom+xml;type=entry;charset=utf-8"@),
                ("Host"@, self@.host),
            ],
    {
        let mut path = String::from_str("/");
        path.append(hub);
        if let Some(partition) = partition {
            path.append("/partitions/");
            path.append(partition);
        }
        path.append("/messages");
        let mut headers: Vec<(String, String)> = Vec::new();
        headers.push((String::from_str("Content-Type"), String::from_str(CONTENT_TYPE)));
        headers.push((String::from_str("Host"), self.host.clone()));
        let request = Request {
            method: String::from_str("POST"),
            path,
            headers,
            body: vstd::slice::slice_to_vec(bytes),
        };
        assert(request@.headers =~= seq![("Content-Type"@, CONTENT_TYPE@), ("Host"@, self@.host)]);
        Outgoing {
            endpoint: self.endpoint.clone(),
            timeout: self.timeout,
            policy: self.policy.clone(),
            key: self.key.clone(),
            request,
            resource: self.resource(hub),
            expiry: now + lifetime,
        }
    }
}

/// Every request on the wire carries two headers and no more: the content
/// type that the REST API documents, and the host that the client was made
/// with.
pub proof fn law_every_send_carries_its_two_headers(
    client: ClientView,
    hub: Seq<char>,
    partition: Option<Seq<char>>,
    bytes: Seq<u8>,
    expiry: u64,
)
    ensures
        ({
            let headers = client.outgoing(hub, partition, bytes, expiry).request.headers;
            &&& headers.len() == 2
            &&& headers[0].0 == "Content-Type"@
            &&& headers[0].1 == "application/atom+xml;type=entry;charset=utf-8"@
            &&& headers[1].0 == "Host"@
            &&& headers[1].1 == client.host
        }),
{
}

/// A send is one `POST` of the bytes as they are, to the messages of the
/// hub, or to those of the partition where one is named.
pub proof fn law_a_send_posts_the_bytes_to_what_is_named(
    client: ClientView,
    hub: Seq<char>,
    partition: Seq<char>,
    bytes: Seq<u8>,
    expiry: u64,
)
    ensures
        ({
            let dealt = client.outgoing(hub, None, bytes, expiry).request;
            let chosen = client.outgoing(hub, Some(partition), bytes, expiry).request;
            &&& dealt.method == "POST"@
            &&& chosen.method == "POST"@
            &&& dealt.body == bytes
            &&& chosen.body == bytes
            &&& dealt.path == "/"@ + hub + "/messages"@
            &&& chosen.path == "/"@ + hub + "/partitions/"@ + partition + "/messages"@
        }),
{
}

/// A send is signed with the policy and key that the client holds, for the
/// URL of the hub whichever partition is named, until the time that was
/// given, and goes to the client's endpoint within its timeout.
pub proof fn law_a_send_is_signed_for_the_hub_as_the_client(
    client: ClientView,
    hub: Seq<char>,
    partition: Option<Seq<char>>,
    bytes: Seq<u8>,
    expiry: u64,
)
    ensures
        ({
            let outgoing = client.outgoing(hub, partition, bytes, expiry);
            &&& outgoing.policy == client.policy
            &&& outgoing.key == client.key
            &&& outgoing.resource == client.endpoint + "/"@ + hub
            &&& client.resource(hub) == client.endpoint + "/"@ + hub
            &&& outgoing.expiry == expiry
            &&& outgoing.endpoint == client.endpoint
            &&& outgoing.timeout == client.timeout
        }),
{
}

/// A client holds the policy, the key and the host that it was made with, no
/// timeout, and the endpoint without the slashes it ends in and with all
/// that stands before them.
pub proof fn law_a_client_holds_what_it_was_made_with(
    endpoint: Seq<char>,
    host: Seq<char>,
    policy: Seq<char>,
    key: Seq<char>,
)
    ensures
        ({
            let client = ClientView::at(endpoint, host, policy, key);
            let kept = client.endpoint.len() as int;
            &&& client.policy == policy
            &&& client.key == key
            &&& client.host == host
            &&& client.timeout is None
            &&& kept <= endpoint.len()
            &&& client.endpoint == endpoint.take(kept)
            &&& kept > 0 ==> client.endpoint.last() != '/'
            &&& forall|i: int| kept <= i < endpoint.len() ==> endpoint[i] == '/'
        }),
{
    text::law_trimming_takes_off_the_run_at_the_end(endpoint, '/');
}

/// What is seen of a send is what it holds.
pub proof fn law_an_outgoing_is_seen_as_it_is(outgoing: Outgoing)
    ensures
        outgoing@.endpoint == outgoing.endpoint@,
        outgoing@.timeout == outgoing.timeout,
        outgoing@.policy == outgoing.policy@,
        outgoing@.key == outgoing.key@,
        outgoing@.request == outgoing.request@,
        outgoing@.resource == outgoing.resource@,
        outgoing@.expiry == outgoing.expiry,
{
}

} // verus!
