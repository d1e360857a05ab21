//! Streams that travel as events into an Event Hub. One event is one
//! Stream, the partition it landed on and its sequence number kept beside
//! it.
//!
//! Event Hubs is the event log of every organisation that lives in Azure:
//! a hub, partitions under it, consumers reading each partition from an
//! offset. Its REST API is one call: send an event to the hub, or to one
//! of its partitions. A Send Location sends a Stream as one event, with a
//! Shared Access Signature over plain HTTP/1.1 on a socket.
//!
//! **Reading is AMQP.** Event Hubs hands events to a consumer over AMQP
//! 1.0 and nothing else; the REST API sends and does not read. This
//! transport says so: [`EventHubsTransport::directions`] is send only, and
//! [`EventHubsTransport::receive`] answers with the reason rather than an
//! empty vector, so a Receive Location configured on it learns at once what
//! it has.
//!
//! ```text
//! client.rs    Xmip's side: send to the hub or to a partition
//! session.rs   the far end a test or the playground runs on loopback
//! message.rs   what passes between them and the wire
//! text.rs      the text that targets, paths and origins are written in
//! model.rs     what a session comes to, and what holds of every one
//! laws.rs      what holds of both ends together
//! ```
//!
//! Nothing here opens a socket, reads a clock or makes a signature. The
//! authority of the endpoint, the time and the verdict on a token are
//! handed in as values, and what to put on the wire is handed back.
//!
//! An event is bytes: the body as it is, one mebibyte at most on the
//! Standard tier, which is [`ceiling`]. Nothing is refused for its content,
//! an empty body included.
//!
//! The origin URI is the partition's URL with the sequence number as its
//! fragment. A send target is a hub name under this transport's namespace,
//! `hub/partitions/<id>` for one of its partitions, or empty for this
//! transport's own hub and partition.

pub mod client;
pub mod laws;
pub mod message;
pub mod model;
pub mod session;
pub mod text;

use std::time::Duration;

use vstd::prelude::*;
use vstd::string::*;

pub use client::{Client, Outgoing, CONTENT_TYPE};
pub use message::{Arrived, Directions, Request, Response, TransportError};
pub use session::{Denial, Event, Session, Token, PARTITIONS};

use client::{ClientView, OutgoingView};
use message::TransportErrorView;
use model::SessionView;

verus! {

/// One mebibyte, in bytes.
pub open spec fn most() -> nat {
    1_048_576
}

/// The largest event a Standard namespace carries: one mebibyte.
#[must_use]
pub fn ceiling() -> (bytes: usize)
    ensures
        bytes == most(),
        bytes == 1_048_576,
{
    1024 * 1024
}

/// What the loopback pair agrees on: one hub, one policy and its key.
const LOOPBACK_HUB: &'static str = "telemetry";

const LOOPBACK_POLICY: &'static str = "RootManageSharedAccessKey";

const LOOPBACK_KEY: &'static str = "probe";

/// A Location on one hub of one namespace.
pub struct EventHubsTransport {
    endpoint: String,
    hub: String,
    partition: Option<String>,
    policy: String,
    key: String,
    timeout: Option<Duration>,
}

/// What an [`EventHubsTransport`] holds.
#[verifier::ext_equal]
pub struct TransportView {
    pub endpoint: Seq<char>,
    pub hub: Seq<char>,
    pub partition: Option<Seq<char>>,
    pub policy: Seq<char>,
    pub key: Seq<char>,
    pub timeout: Option<Duration>,
}

impl View for EventHubsTransport {
    type V = TransportView;

    closed spec fn view(&self) -> TransportView {
        TransportView {
            endpoint: self.endpoint@,
            hub: self.hub@,
            partition: message::text_of(self.partition),
            policy: self.policy@,
            key: self.key@,
            timeout: self.timeout,
        }
    }
}

impl Clone for EventHubsTransport {
    fn clone(&self) -> (copy: Self)
        ensures
            copy@ == self@,
    {
        Self {
            endpoint: self.endpoint.clone(),
            hub: self.hub.clone(),
            partition: match &self.partition {
                Some(partition) => Some(partition.clone()),
                None => None,
            },
            policy: self.policy.clone(),
            key: self.key.clone(),
            timeout: self.timeout,
        }
    }
}

impl TransportView {
    /// A transport about `hub` at `endpoint`, and nothing else yet.
    pub open spec fn about(endpoint: Seq<char>, hub: Seq<char>) -> TransportView {
        TransportView {
            endpoint,
            hub,
            partition: None,
            policy: Seq::empty(),
            key: Seq::empty(),
            timeout: None,
        }
    }

    /// This transport, signing as `policy` with `key`.
    pub open spec fn signing_as(self, policy: Seq<char>, key: Seq<char>) -> TransportView {
        TransportView { policy, key, ..self }
    }

    /// This transport, sending to `partition`.
    pub open spec fn on(self, partition: Seq<char>) -> TransportView {
        TransportView { partition: Some(partition), ..self }
    }

    /// This transport, giving up after `timeout`.
    pub open spec fn within(self, timeout: Duration) -> TransportView {
        TransportView { timeout: Some(timeout), ..self }
    }

    /// The hub and partition that `target` names, this transport's own
    /// where it names none.
    pub open spec fn resolved(self, target: Seq<char>) -> (Seq<char>, Option<Seq<char>>) {
        if target.len() == 0 {
            (self.hub, self.partition)
        } else {
            match text::cut(target, "/partitions/"@) {
                Some((hub, partition)) => (hub, Some(partition)),
                None => (target, None),
            }
        }
    }

    /// The client of this transport's namespace, whose authority is `host`.
    pub open spec fn client(self, host: Seq<char>) -> ClientView {
        ClientView {
            timeout: self.timeout,
            ..ClientView::at(self.endpoint, host, self.policy, self.key)
        }
    }

    /// The far end of this transport, before it has taken anything.
    pub open spec fn session(self) -> SessionView {
        SessionView { timeout: self.timeout, ..SessionView::fresh(self.policy, self.key) }
    }

    /// What sending `bytes` to `target` puts on the wire.
    pub open spec fn outgoing(
        self,
        target: Seq<char>,
        bytes: Seq<u8>,
        host: Seq<char>,
        expiry: u64,
    ) -> OutgoingView {
        let (hub, partition) = self.resolved(target);
        self.client(host).outgoing(hub, partition, bytes, expiry)
    }

    /// This transport, at the namespace on `address`.
    pub open spec fn near(self, address: Seq<char>) -> TransportView {
        TransportView { endpoint: "http://"@ + address, ..self }
    }

    /// Both ends on this machine.
    pub open spec fn looped(timeout: Duration) -> TransportView {
        TransportView {
            endpoint: "http://127.0.0.1:0"@,
            hub: "telemetry"@,
            partition: None,
            policy: "RootManageSharedAccessKey"@,
            key: "probe"@,
            timeout: Some(timeout),
        }
    }
}

/// Why `len` bytes are not sent: they are more than one event carries.
pub open spec fn over(len: nat) -> TransportErrorView {
    TransportErrorView {
        message: text::decimal(len) + " bytes is over the "@ + text::decimal(most())
            + " one Event Hubs event carries"@,
        retryable: false,
    }
}

impl EventHubsTransport {
    /// Speak to the namespace at `endpoint` (`https://<ns>.servicebus.
    /// windows.net` in the cloud, `http://host:port` for a stand-in) about
    /// `hub`.
    #[must_use]
    pub fn new(endpoint: &str, hub: &str) -> (transport: Self)
        ensures
            transport@ == TransportView::about(endpoint@, hub@),
            transport@ == (TransportView {
                endpoint: endpoint@,
                hub: hub@,
                partition: None,
                policy: Seq::empty(),
                key: Seq::empty(),
                timeout: None,
            }),
    {
        Self {
            endpoint: String::from_str(endpoint),
            hub: String::from_str(hub),
            partition: None,
            policy: String::new(),
            key: String::new(),
            timeout: None,
        }
    }

    /// Sign as this shared access policy with its key.
    #[must_use]
    pub fn with_policy(self, policy: &str, key: &str) -> (transport: Self)
        ensures
            transport@ == self@.signing_as(policy@, key@),
            transport@ == (TransportView { policy: policy@, key: key@, ..self@ }),
    {
        let mut transport = self;
        transport.policy = String::from_str(policy);
        transport.key = String::from_str(key);
        transport
    }

    /// Send to this partition of the hub rather than letting the hub
    /// choose.
    #[must_use]
    pub fn on_partition(self, partition: &str) -> (transport: Self)
        ensures
            transport@ == self@.on(partition@),
            transport@ == (TransportView { partition: Some(partition@), ..self@ }),
    {
        let mut transport = self;
        transport.partition = Some(String::from_str(partition));
        transport
    }

    /// Give up on an endpoint that stops answering after `timeout`.
    #[must_use]
    pub fn timing_out_after(self, timeout: Duration) -> (transport: Self)
        ensures
            transport@ == self@.within(timeout),
            transport@ == (TransportView { timeout: Some(timeout), ..self@ }),
    {
        let mut transport = self;
        transport.timeout = Some(timeout);
        transport
    }

    /// The namespace this transport speaks to.
    #[must_use]
    pub fn endpoint(&self) -> (endpoint: &str)
        ensures
            endpoint@ == self@.endpoint,
    {
        self.endpoint.as_str()
    }

    /// The client this transport speaks through. `authority` is what the
    /// endpoint's URL gave for its authority.
    ///
    /// # Errors
    /// Where the endpoint is not an HTTP URL, which `authority` then says.
    pub fn client(&self, authority: Result<String, TransportError>) -> (client: Result<
        Client,
        TransportError,
    >)
        ensures
            match authority {
                Ok(host) => client is Ok && client->Ok_0@ == self@.client(host@),
                Err(failure) => client == Err::<Client, TransportError>(failure),
            },
    {
        match Client::new(
            self.endpoint.as_str(),
            self.policy.as_str(),
            self.key.as_str(),
            authority,
        ) {
            Ok(client) => Ok(
                match self.timeout {
                    Some(timeout) => client.timing_out_after(timeout),
                    None => client,
                },
            ),
            Err(failure) => Err(failure),
        }
    }

    /// A far end that holds this transport's policy and key, for a test or
    /// the playground to run on loopback.
    #[must_use]
    pub fn session(&self) -> (session: Session)
        ensures
            session.wf(),
            session@ == self@.session(),
    {
        let session = Session::new(self.policy.as_str(), self.key.as_str());
        match self.timeout {
            Some(timeout) => session.timing_out_after(timeout),
            None => session,
        }
    }

    /// The hub and partition a target names (`hub`, `hub/partitions/3`),
    /// or this transport's own where it names none.
    pub fn resolve<'a>(&'a self, target: &'a str) -> (place: (&'a str, Option<&'a str>))
        ensures
            (place.0@, message::slice_of(place.1)) == self@.resolved(target@),
            target@.len() == 0 ==> place.0@ == self@.hub && message::slice_of(place.1)
                == self@.partition,
    {
        if target.is_empty() {
            let partition = match &self.partition {
                Some(partition) => Some(partition.as_str()),
                None => None,
            };
            return (self.hub.as_str(), partition);
        }
        match text::split_once(target, "/partitions/") {
            Some((hub, partition)) => (hub, Some(partition)),
            None => (target, None),
        }
    }

    /// What this transport is called.
    pub fn name(&self) -> (name: &'static str)
        ensures
            name@ == "azure-event-hubs"@,
    {
        "azure-event-hubs"
    }

    /// A hub is sent to and not read.
    pub fn directions(&self) -> (directions: Directions)
        ensures
            directions.send,
            !directions.receive,
    {
        Directions { send: true, receive: false }
    }

    /// Never anything: reading a hub is AMQP, and this transport says so.
    pub fn receive(&self) -> (received: Result<Vec<Arrived>, TransportError>)
        ensures
            received is Err,
            received->Err_0@ == (TransportErrorView {
                message:
                    "reading an Event Hub is AMQP 1.0, which the REST API does not speak; this transport sends, and the amqp technology reads"@,
                retryable: false,
            }),
    {
        Err(
            TransportError::permanent(
                String::from_str(
                    "reading an Event Hub is AMQP 1.0, which the REST API does not speak; this transport sends, and the amqp technology reads",
                ),
            ),
        )
    }

    /// What sends `bytes` as one event to `target`, under a token that is
    /// good from `now` for `lifetime` seconds. `authority` is what the
    /// endpoint's URL gave for its authority.
    ///
    /// # Errors
    /// Where `bytes` are over the [`ceiling`], or else the endpoint is not
    /// an HTTP URL.
    pub fn send(
        &self,
        target: &str,
        bytes: &[u8],
        authority: Result<String, TransportError>,
        now: u64,
        lifetime: u64,
    ) -> (sent: Result<Outgoing, TransportError>)
        requires
            bytes@.len() <= most() && authority is Ok ==> now + lifetime <= u64::MAX,
        ensures
            match (sent, authority) {
                (Ok(outgoing), Ok(host)) => bytes@.len() <= most() && outgoing@ == self@.outgoing(
                    target@,
                    bytes@,
                    host@,
                    (now + lifetime) as u64,
                ),
                (Ok(_), Err(_)) => false,
                (Err(failure), Ok(_)) => bytes@.len() > most() && failure@ == over(bytes@.len()),
                (Err(failure), Err(malformed)) => if bytes@.len() > most() {
                    failure@ == over(bytes@.len())
                } else {
                    failure == malformed
                },
            },
    {
        if bytes.len() > ceiling() {
            let mut reason = text::render(bytes.len() as u64);
            reason.append(" bytes is over the ");
            reason.append(text::render(ceiling() as u64).as_str());
            reason.append(" one Event Hubs event carries");
            return Err(TransportError::permanent(reason));
        }
        let (hub, partition) = self.resolve(target);
        match self.client(authority) {
            Ok(client) => Ok(client.send(hub, partition, bytes, now, lifetime)),
            Err(failure) => Err(failure),
        }
    }

    /// Both ends on this machine: an ephemeral local port, one policy and
    /// key the far end expects and the near end signs with, the loopback
    /// `timeout`.
    #[must_use]
    pub fn loopback(timeout: Duration) -> (transport: Self)
        ensures
            transport@ == TransportView::looped(timeout),
    {
        Self::new("http://127.0.0.1:0", LOOPBACK_HUB).with_policy(
            LOOPBACK_POLICY,
            LOOPBACK_KEY,
        ).timing_out_after(timeout)
    }

    /// The largest payload that goes round the loopback.
    pub fn ceiling(&self) -> (bytes: Option<usize>)
        ensures
            bytes is Some,
            bytes->0 == most(),
    {
        Some(ceiling())
    }

    /// A fresh near end signing as this transport does, at the namespace
    /// on `address`.
    #[must_use]
    pub fn near_end(&self, address: &str) -> (near: Self)
        ensures
            near@ == self@.near(address@),
            near@ == (TransportView { endpoint: "http://"@ + address@, ..self@ }),
    {
        let mut near = self.clone();
        let mut endpoint = String::from_str("http://");
        endpoint.append(address);
        near.endpoint = endpoint;
        near
    }
}

} // verus!
