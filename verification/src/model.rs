//! What a session comes to: how a request is decided, what an event leaves
//! behind, and what holds of every session.

use std::time::Duration;

use vstd::prelude::*;

use crate::message::{ArrivedView, RequestView, ResponseView};
use crate::session::PARTITIONS;
use crate::text;

verus! {

/// What an event says.
#[verifier::ext_equal]
pub enum EventView {
    Sent(ArrivedView),
    Refused(Seq<char>),
}

/// What a denial says.
#[verifier::ext_equal]
pub struct DenialView {
    pub detail: Seq<char>,
    pub subcode: Seq<char>,
}

/// The hub and partition that `target` names, for the event numbered
/// `next`: the partition the target chose where it chose one of the hub's,
/// the next in turn where it chose none. `None` where the hub has no such
/// partition.
pub open spec fn placed(target: Seq<char>, next: nat) -> Option<(Seq<char>, nat)> {
    match text::cut(target, "/partitions/"@) {
        None => Some((target, ((next - 1) % PARTITIONS as int) as nat)),
        Some((hub, partition)) => match text::parsed(partition, u32::MAX as nat) {
            Some(partition) => if partition < PARTITIONS {
                Some((hub, partition))
            } else {
                None
            },
            None => None,
        },
    }
}

/// The scheme and authority of `resource`, all of it where it has no
/// scheme.
pub open spec fn base_of(resource: Seq<char>) -> Seq<char> {
    match text::cut(resource, "://"@) {
        Some((scheme, rest)) => scheme + "://"@ + match text::cut(rest, "/"@) {
            Some((authority, path)) => authority,
            None => rest,
        },
        None => resource,
    }
}

/// The URL of a partition, with the sequence number of one event on it as
/// the fragment.
pub open spec fn origin(base: Seq<char>, hub: Seq<char>, partition: nat, sequence: nat) -> Seq<char> {
    base + "/"@ + hub + "/partitions/"@ + text::decimal(partition) + "#"@ + text::decimal(sequence)
}

/// The sequence number in an origin's fragment.
pub open spec fn sequence(arrived: ArrivedView) -> Option<nat> {
    text::parsed(text::after_last(arrived.origin_uri, '#'), u64::MAX as nat)
}

/// What a request comes to.
#[verifier::ext_equal]
pub enum Decision {
    /// The event lands on this partition of this hub.
    Take { hub: Seq<char>, partition: nat },
    /// The request is answered with this status, error subcode and detail.
    Refuse { status: u16, code: Seq<char>, detail: Seq<char> },
}

/// What a session holds.
#[verifier::ext_equal]
pub struct SessionView {
    pub policy: Seq<char>,
    pub key: Seq<char>,
    /// Each hub's events, in the order they came.
    pub hubs: Map<Seq<char>, Seq<ArrivedView>>,
    /// The sequence number of the next event.
    pub next: nat,
    pub timeout: Option<Duration>,
}

impl SessionView {
    /// A session that has taken nothing.
    pub open spec fn fresh(policy: Seq<char>, key: Seq<char>) -> SessionView {
        SessionView { policy, key, hubs: Map::empty(), next: 1, timeout: None }
    }

    /// `hub` holds an `i`th event.
    pub open spec fn held(self, hub: Seq<char>, i: int) -> bool {
        self.hubs.contains_key(hub) && 0 <= i < self.hubs[hub].len()
    }

    /// The sequence number of the `i`th event of `hub`.
    pub open spec fn number(self, hub: Seq<char>, i: int) -> Option<nat> {
        sequence(self.hubs[hub][i])
    }

    /// Some event carries the number `n`.
    pub open spec fn has(self, n: nat) -> bool {
        exists|hub: Seq<char>, i: int| #[trigger]
            self.held(hub, i) && self.number(hub, i) == Some(n)
    }

    /// The events carry the numbers from 1 up to the next, each once.
    pub open spec fn numbered(self) -> bool {
        &&& self.next >= 1
        &&& forall|hub: Seq<char>, i: int| #[trigger]
            self.held(hub, i) ==> {
                &&& self.number(hub, i) is Some
                &&& 1 <= self.number(hub, i)->0 < self.next
            }
        &&& forall|n: nat| 1 <= n < self.next ==> #[trigger] self.has(n)
        &&& forall|hub1: Seq<char>, i1: int, hub2: Seq<char>, i2: int|
            #![trigger self.held(hub1, i1), self.held(hub2, i2)]
            self.held(hub1, i1) && self.held(hub2, i2) && self.number(hub1, i1) == self.number(
                hub2,
                i2,
            ) ==> hub1 == hub2 && i1 == i2
    }

    /// The event numbered `n`.
    pub open spec fn event(self, n: nat) -> ArrivedView {
        let (hub, i) = choose|hub: Seq<char>, i: int| #[trigger]
            self.held(hub, i) && self.number(hub, i) == Some(n);
        self.hubs[hub][i]
    }

    /// Every event taken so far, in the order of their numbers.
    pub open spec fn events(self) -> Seq<ArrivedView> {
        Seq::new((self.next - 1) as nat, |i: int| self.event((i + 1) as nat))
    }

    /// The session once `hub` has taken `arrived`.
    pub open spec fn with(self, hub: Seq<char>, arrived: ArrivedView) -> SessionView {
        let held = if self.hubs.contains_key(hub) {
            self.hubs[hub]
        } else {
            Seq::empty()
        };
        SessionView {
            hubs: self.hubs.insert(hub, held.push(arrived)),
            next: self.next + 1,
            ..self
        }
    }

    /// What `request` comes to, its token verified as `verdict` says.
    pub open spec fn decide(
        self,
        request: RequestView,
        verdict: Result<Seq<char>, DenialView>,
    ) -> Decision {
        let target = text::without_suffix(
            text::without_prefix(request.path, "/"@),
            "/messages"@,
        );
        if verdict is Err {
            Decision::Refuse {
                status: 401,
                code: verdict->Err_0.subcode,
                detail: verdict->Err_0.detail,
            }
        } else if target is None {
            Decision::Refuse {
                status: 404,
                code: "40400"@,
                detail: "40400: Not a hub's messages"@,
            }
        } else if request.method != "POST"@ {
            Decision::Refuse {
                status: 405,
                code: "40500"@,
                detail: "40500: An event is sent, nothing else"@,
            }
        } else if placed(target->0, self.next) is None {
            Decision::Refuse { status: 404, code: "40400"@, detail: "40400: No such partition"@ }
        } else if request.body.len() > crate::most() {
            Decision::Refuse {
                status: 413,
                code: "40000"@,
                detail: "40000: An event is at most "@ + text::decimal(crate::most()) + " bytes"@,
            }
        } else {
            let (hub, partition) = placed(target->0, self.next)->0;
            Decision::Take { hub, partition }
        }
    }

    /// The Stream that `request` leaves on a partition, under a token made
    /// for `resource`.
    pub open spec fn arrival(
        self,
        hub: Seq<char>,
        partition: nat,
        resource: Seq<char>,
        request: RequestView,
    ) -> ArrivedView {
        ArrivedView {
            origin_uri: origin(base_of(resource), hub, partition, self.next),
            bytes: request.body,
        }
    }

    /// The session behind `request`, what the client did, and the answer it
    /// is given.
    pub open spec fn answered(
        self,
        request: RequestView,
        verdict: Result<Seq<char>, DenialView>,
    ) -> (SessionView, EventView, ResponseView) {
        match self.decide(request, verdict) {
            Decision::Take { hub, partition } => {
                let arrived = self.arrival(hub, partition, verdict->Ok_0, request);
                (
                    self.with(hub, arrived),
                    EventView::Sent(arrived),
                    ResponseView { status: 201, detail: None },
                )
            },
            Decision::Refuse { status, code, detail } => (
                self,
                EventView::Refused(code),
                ResponseView { status, detail: Some(detail) },
            ),
        }
    }
}

/// The fragment of an origin is the sequence number it was made with.
pub proof fn lemma_origin_sequence(base: Seq<char>, hub: Seq<char>, partition: nat, number: nat)
    requires
        number <= u64::MAX,
    ensures
        text::parsed(
            text::after_last(origin(base, hub, partition, number), '#'),
            u64::MAX as nat,
        ) == Some(number),
{
    let url = base + "/"@ + hub + "/partitions/"@ + text::decimal(partition);
    let digits = text::decimal(number);
    reveal_strlit("#");
    assert("#"@ =~= seq!['#']);
    assert(origin(base, hub, partition, number) =~= url.push('#') + digits);
    text::lemma_decimal(number);
    assert forall|i: int| 0 <= i < digits.len() implies digits[i] != '#' by {
        assert(text::is_digit(digits[i]));
    }
    text::lemma_after_last(url, '#', digits);
    text::law_parsing_undoes_rendering(number, u64::MAX as nat);
}

/// The number of an event finds that event.
pub proof fn lemma_event_at(session: SessionView, hub: Seq<char>, i: int)
    requires
        session.numbered(),
        session.held(hub, i),
    ensures
        session.event(session.number(hub, i)->0) == session.hubs[hub][i],
{
    let n = session.number(hub, i)->0;
    let (hub1, i1) = choose|hub1: Seq<char>, i1: int| #[trigger]
        session.held(hub1, i1) && session.number(hub1, i1) == Some(n);
    assert(session.held(hub, i) && session.number(hub, i) == Some(n));
    assert(session.held(hub1, i1) && session.number(hub1, i1) == Some(n));
}

/// The event found under a number carries that number.
proof fn lemma_event_number(session: SessionView, n: nat)
    requires
        session.numbered(),
        1 <= n < session.next,
    ensures
        sequence(session.event(n)) == Some(n),
{
    assert(session.has(n));
    let (hub, i) = choose|hub: Seq<char>, i: int| #[trigger]
        session.held(hub, i) && session.number(hub, i) == Some(n);
    assert(session.held(hub, i) && session.number(hub, i) == Some(n));
}

/// Taking an event that carries the next number keeps the numbering and
/// puts the event behind all that came before.
pub proof fn lemma_taking(session: SessionView, hub: Seq<char>, arrived: ArrivedView)
    requires
        session.numbered(),
        sequence(arrived) == Some(session.next),
    ensures
        session.with(hub, arrived).numbered(),
        session.with(hub, arrived).events() == session.events().push(arrived),
{
    let then = session.with(hub, arrived);
    let last = then.hubs[hub].len() - 1;
    assert(then.held(hub, last));
    assert(then.hubs[hub][last] == arrived);
    assert forall|h: Seq<char>, i: int| #[trigger] then.held(h, i) && !(h == hub && i == last) implies {
        &&& session.held(h, i)
        &&& then.hubs[h][i] == session.hubs[h][i]
    } by {}
    assert forall|h: Seq<char>, i: int| #[trigger] session.held(h, i) implies {
        &&& then.held(h, i)
        &&& then.hubs[h][i] == session.hubs[h][i]
        &&& !(h == hub && i == last)
    } by {}
    assert forall|n: nat| 1 <= n < then.next implies #[trigger] then.has(n) by {
        if n == session.next {
            assert(then.held(hub, last) && then.number(hub, last) == Some(n));
        } else {
            assert(session.has(n));
            let (h, i) = choose|h: Seq<char>, i: int| #[trigger]
                session.held(h, i) && session.number(h, i) == Some(n);
            assert(then.held(h, i) && then.number(h, i) == Some(n));
        }
    }
    assert(then.numbered());
    assert forall|k: int| 0 <= k < session.next implies then.events()[k]
        == session.events().push(arrived)[k] by {
        let n = (k + 1) as nat;
        if n == session.next {
            lemma_event_at(then, hub, last);
        } else {
            assert(session.has(n));
            let (h, i) = choose|h: Seq<char>, i: int| #[trigger]
                session.held(h, i) && session.number(h, i) == Some(n);
            assert(then.held(h, i));
            lemma_event_at(session, h, i);
            lemma_event_at(then, h, i);
        }
    }
    assert(then.events() =~= session.events().push(arrived));
}

/// Whether the events are numbered as they should rests on the hubs and
/// the next number alone.
pub proof fn lemma_numbered_by_hubs(a: SessionView, b: SessionView)
    requires
        a.hubs == b.hubs,
        a.next == b.next,
    ensures
        a.numbered() ==> b.numbered(),
{
    if a.numbered() {
        assert forall|hub: Seq<char>, i: int| #[trigger] b.held(hub, i) implies a.held(hub, i) by {}
        assert forall|n: nat| 1 <= n < b.next implies #[trigger] b.has(n) by {
            assert(a.has(n));
            let (hub, i) = choose|hub: Seq<char>, i: int| #[trigger]
                a.held(hub, i) && a.number(hub, i) == Some(n);
            assert(b.held(hub, i));
        }
        assert forall|hub1: Seq<char>, i1: int, hub2: Seq<char>, i2: int|
            #![trigger b.held(hub1, i1), b.held(hub2, i2)]
            b.held(hub1, i1) && b.held(hub2, i2) && b.number(hub1, i1) == b.number(
                hub2,
                i2,
            ) implies hub1 == hub2 && i1 == i2 by {
            assert(a.held(hub1, i1) && a.held(hub2, i2));
        }
    }
}

/// A session starts with no events, and the first it takes is number 1.
pub proof fn law_a_session_starts_empty(policy: Seq<char>, key: Seq<char>)
    ensures
        SessionView::fresh(policy, key).numbered(),
        SessionView::fresh(policy, key).events() == Seq::<ArrivedView>::empty(),
        SessionView::fresh(policy, key).next == 1,
{
    let session = SessionView::fresh(policy, key);
    assert(session.events() =~= Seq::empty());
}

/// An event that is taken comes behind all that came before, under an
/// origin whose fragment is the next number; a request that is refused
/// leaves the session as it was. Either way the events stay numbered from 1
/// on, each number once.
pub proof fn law_events_stand_in_the_order_they_came(
    session: SessionView,
    request: RequestView,
    verdict: Result<Seq<char>, DenialView>,
)
    requires
        session.numbered(),
        session.next <= u64::MAX,
    ensures
        ({
            let (then, event, response) = session.answered(request, verdict);
            &&& then.numbered()
            &&& match event {
                EventView::Sent(arrived) => {
                    &&& then.events() == session.events().push(arrived)
                    &&& sequence(arrived) == Some(session.next)
                    &&& then.next == session.next + 1
                },
                EventView::Refused(_) => then == session,
            }
        }),
{
    match session.decide(request, verdict) {
        Decision::Take { hub, partition } => {
            let arrived = session.arrival(hub, partition, verdict->Ok_0, request);
            lemma_origin_sequence(base_of(verdict->Ok_0), hub, partition, session.next);
            lemma_taking(session, hub, arrived);
        },
        Decision::Refuse { status, code, detail } => {},
    }
}

/// The session once it has answered `requests`, each with the verdict on its
/// token, one after the other.
pub open spec fn after(
    session: SessionView,
    requests: Seq<(RequestView, Result<Seq<char>, DenialView>)>,
) -> SessionView
    decreases requests.len(),
{
    if requests.len() == 0 {
        session
    } else {
        let (request, verdict) = requests.last();
        after(session, requests.drop_last()).answered(request, verdict).0
    }
}

/// The Streams that `requests` left with the session, in the order they came.
pub open spec fn sent(
    session: SessionView,
    requests: Seq<(RequestView, Result<Seq<char>, DenialView>)>,
) -> Seq<ArrivedView>
    decreases requests.len(),
{
    if requests.len() == 0 {
        Seq::empty()
    } else {
        let (request, verdict) = requests.last();
        let before = sent(session, requests.drop_last());
        match after(session, requests.drop_last()).answered(request, verdict).1 {
            EventView::Sent(arrived) => before.push(arrived),
            EventView::Refused(_) => before,
        }
    }
}

/// Whatever a session is asked, its events are those it had and behind them
/// every Stream it was then sent, in the order they came; they stay numbered
/// from 1 on, each number once, and the policy, the key and the timeout stay
/// as they were.
pub proof fn law_a_session_holds_what_it_was_sent(
    session: SessionView,
    requests: Seq<(RequestView, Result<Seq<char>, DenialView>)>,
)
    requires
        session.numbered(),
        session.next + requests.len() <= u64::MAX,
    ensures
        ({
            let then = after(session, requests);
            &&& then.numbered()
            &&& then.events() == session.events() + sent(session, requests)
            &&& then.next == session.next + sent(session, requests).len()
            &&& sent(session, requests).len() <= requests.len()
            &&& then.policy == session.policy
            &&& then.key == session.key
            &&& then.timeout == session.timeout
        }),
    decreases requests.len(),
{
    if requests.len() == 0 {
        assert(session.events() =~= session.events() + sent(session, requests));
    } else {
        let earlier = requests.drop_last();
        law_a_session_holds_what_it_was_sent(session, earlier);
        let (request, verdict) = requests.last();
        law_events_stand_in_the_order_they_came(after(session, earlier), request, verdict);
        assert(after(session, requests).events() =~= session.events() + sent(session, requests));
    }
}

/// The events of a session that was made empty, with or without a timeout,
/// are every Stream it was sent, in the order they came, and the next is
/// numbered one more than they are.
pub proof fn law_a_new_session_holds_only_what_it_was_sent(
    policy: Seq<char>,
    key: Seq<char>,
    timeout: Option<Duration>,
    requests: Seq<(RequestView, Result<Seq<char>, DenialView>)>,
)
    requires
        requests.len() < u64::MAX,
    ensures
        ({
            let session = SessionView { timeout, ..SessionView::fresh(policy, key) };
            &&& after(session, requests).events() == sent(session, requests)
            &&& after(session, requests).next == sent(session, requests).len() + 1
        }),
{
    let session = SessionView { timeout, ..SessionView::fresh(policy, key) };
    law_a_session_starts_empty(policy, key);
    lemma_numbered_by_hubs(SessionView::fresh(policy, key), session);
    law_a_session_holds_what_it_was_sent(session, requests);
    assert(session.events() + sent(session, requests) =~= sent(session, requests));
}

/// No two events have the same origin.
pub proof fn law_origins_are_distinct(session: SessionView, i: int, j: int)
    requires
        session.numbered(),
        0 <= i < session.events().len(),
        0 <= j < session.events().len(),
        session.events()[i].origin_uri == session.events()[j].origin_uri,
    ensures
        i == j,
{
    lemma_event_number(session, (i + 1) as nat);
    lemma_event_number(session, (j + 1) as nat);
}

/// An event lands on a partition that the hub has.
pub proof fn law_a_partition_is_one_of_the_hubs(target: Seq<char>, next: nat)
    requires
        next >= 1,
        placed(target, next) is Some,
    ensures
        (placed(target, next)->0).1 < PARTITIONS,
{
}

/// Events sent to the hub rather than to a partition are dealt round the
/// partitions in turn, from the first.
pub proof fn law_events_are_dealt_in_turn(target: Seq<char>, next: nat)
    requires
        next >= 1,
        !text::occurs(target, "/partitions/"@),
    ensures
        placed(target, 1) == Some((target, 0nat)),
        placed(target, next) is Some,
        placed(target, next + 1) == Some(
            (target, ((placed(target, next)->0).1 + 1) % PARTITIONS as nat),
        ),
{
}

/// The partition that an event sent to the hub is dealt rests on how many
/// events the session has taken, and on nothing else.
pub proof fn law_the_turn_is_the_count_of_events(session: SessionView, target: Seq<char>)
    requires
        session.numbered(),
        !text::occurs(target, "/partitions/"@),
    ensures
        placed(target, session.next) == Some(
            (target, session.events().len() % PARTITIONS as nat),
        ),
{
}

/// A target that names a partition is placed on it where the text behind the
/// first separator is the number of one that the hub has, and nowhere where
/// it is not, however many events were taken before.
pub proof fn law_a_named_partition_is_the_one_or_none(
    target: Seq<char>,
    hub: Seq<char>,
    partition: Seq<char>,
    next: nat,
)
    requires
        text::cut(target, "/partitions/"@) == Some((hub, partition)),
    ensures
        placed(target, next) == match text::parsed(partition, u32::MAX as nat) {
            Some(n) => if n < PARTITIONS {
                Some((hub, n))
            } else {
                None
            },
            None => None,
        },
{
}

/// A request whose token is denied is answered with 401 and the denial's
/// own subcode, whatever it asks for.
pub proof fn law_a_denied_token_is_refused(
    session: SessionView,
    request: RequestView,
    denial: DenialView,
)
    ensures
        session.answered(request, Err(denial)) == (
            session,
            EventView::Refused(denial.subcode),
            ResponseView { status: 401, detail: Some(denial.detail) },
        ),
{
}

/// The answer is 201, and states no detail, where an event was taken, and
/// an error where none was.
pub proof fn law_an_event_is_answered_with_created(
    session: SessionView,
    request: RequestView,
    verdict: Result<Seq<char>, DenialView>,
)
    ensures
        ({
            let (then, event, response) = session.answered(request, verdict);
            &&& event is Sent <==> response.status == 201
            &&& event is Sent <==> response.detail is None
            &&& event is Refused ==> (response.status == 401 || response.status == 404
                || response.status == 405 || response.status == 413)
        }),
{
}

/// Behind a token that is good, the detail of an error opens with the
/// error's subcode.
pub proof fn law_a_detail_opens_with_its_subcode(
    session: SessionView,
    request: RequestView,
    resource: Seq<char>,
)
    ensures
        session.decide(request, Ok(resource)) matches Decision::Refuse { status, code, detail }
            ==> text::occurs_at(detail, code + ": "@, 0),
{
    reveal_strlit(": ");
    reveal_strlit("40400");
    reveal_strlit("40500");
    reveal_strlit("40000");
    reveal_strlit("40400: Not a hub's messages");
    reveal_strlit("40500: An event is sent, nothing else");
    reveal_strlit("40400: No such partition");
    reveal_strlit("40000: An event is at most ");
    if let Decision::Refuse { status, code, detail } = session.decide(request, Ok(resource)) {
        assert(detail.subrange(0, 7) =~= code + ": "@);
    }
}

/// What is refused is never refused for its content: of two events within
/// the ceiling that are sent alike, both are taken or neither is, and on
/// the same partition.
pub proof fn law_content_does_not_decide(
    session: SessionView,
    request: RequestView,
    body: Seq<u8>,
    verdict: Result<Seq<char>, DenialView>,
)
    requires
        request.body.len() <= crate::most(),
        body.len() <= crate::most(),
    ensures
        session.decide(request, verdict) == session.decide(
            RequestView { body, ..request },
            verdict,
        ),
{
}

/// The path is the target with `/messages` behind it, and `/` before it
/// where there is one to take off.
pub open spec fn leads_to(path: Seq<char>, target: Seq<char>) -> bool {
    ||| path == "/"@ + target + "/messages"@
    ||| path == target + "/messages"@ && target.len() > 0 && target[0] != '/'
}

/// The target is the hub and the partition around a separator, and no
/// separator stands in it any earlier.
pub open spec fn names(target: Seq<char>, hub: Seq<char>, partition: Seq<char>) -> bool {
    &&& target == hub + "/partitions/"@ + partition
    &&& forall|j: int|
        0 <= j < hub.len() ==> #[trigger] target.subrange(j, j + 12) != "/partitions/"@
}

/// No separator stands in the target.
pub open spec fn names_no_partition(target: Seq<char>) -> bool {
    forall|j: int|
        0 <= j <= target.len() - 12 ==> #[trigger] target.subrange(j, j + 12) != "/partitions/"@
}

/// What is read out of a path is the target that it leads to.
proof fn lemma_leads_to(path: Seq<char>, target: Seq<char>)
    ensures
        leads_to(path, target) <==> text::without_suffix(
            text::without_prefix(path, "/"@),
            "/messages"@,
        ) == Some(target),
{
    reveal_strlit("/");
    reveal_strlit("/messages");
    let rest = text::without_prefix(path, "/"@);
    let whole = target + "/messages"@;
    text::law_a_suffix_is_taken_off_once(rest, "/messages"@, target);
    text::law_a_prefix_is_taken_off_once(path, "/"@, whole);
    assert("/"@ + target + "/messages"@ =~= "/"@ + whole);
    if path.len() > 0 && path[0] == '/' {
        assert(path =~= "/"@ + path.subrange(1, path.len() as int));
        assert(path.subrange(0, 1) =~= "/"@);
        assert(rest =~= path.subrange(1, path.len() as int));
    } else {
        if text::occurs_at(path, "/"@, 0) {
            assert(path.subrange(0, 1)[0] == path[0]);
        }
        assert(rest == path);
    }
    if text::without_suffix(rest, "/messages"@) == Some(target) {
        assert(rest.subrange(rest.len() - 9, rest.len() as int) == "/messages"@);
        assert(rest =~= whole) by {
            assert forall|k: int| 0 <= k < 9 implies rest[rest.len() - 9 + k] == "/messages"@[k] by {
                assert(rest.subrange(rest.len() - 9, rest.len() as int)[k] == rest[rest.len() - 9
                    + k]);
            }
        }
        if path.len() > 0 && path[0] == '/' {
            assert(path =~= "/"@ + target + "/messages"@);
        } else {
            assert(path[0] == whole[0]);
            if target.len() == 0 {
                assert(whole[0] == '/');
            }
        }
    }
    if leads_to(path, target) {
        if path == "/"@ + target + "/messages"@ {
            assert(path[0] == '/');
            assert(rest == whole);
        } else {
            assert(path[0] == target[0]);
        }
    }
}

/// A target that names a hub and a partition is cut into the two.
pub proof fn lemma_names(target: Seq<char>, hub: Seq<char>, partition: Seq<char>)
    requires
        names(target, hub, partition),
    ensures
        text::cut(target, "/partitions/"@) == Some((hub, partition)),
{
    reveal_strlit("/partitions/");
    let end = hub.len() as int;
    assert(target.subrange(end, end + 12) =~= "/partitions/"@);
    assert forall|j: int| 0 <= j < end implies !text::occurs_at(target, "/partitions/"@, j) by {
        assert(target.subrange(j, j + 12) != "/partitions/"@);
    }
    text::lemma_cut_at(target, "/partitions/"@, end);
    assert(target.subrange(0, end) =~= hub);
    assert(target.subrange(end + 12, target.len() as int) =~= partition);
}

/// A target that names no partition is not cut.
pub proof fn lemma_names_no_partition(target: Seq<char>)
    requires
        names_no_partition(target),
    ensures
        text::cut(target, "/partitions/"@) is None,
{
    reveal_strlit("/partitions/");
    assert forall|j: int| !text::occurs_at(target, "/partitions/"@, j) by {
        if text::occurs_at(target, "/partitions/"@, j) {
            assert(target.subrange(j, j + 12) == "/partitions/"@);
        }
    }
}

/// The detail of a refusal for size, in words.
proof fn lemma_too_large_in_words()
    ensures
        "40000: An event is at most "@ + text::decimal(crate::most()) + " bytes"@
            == "40000: An event is at most 1048576 bytes"@,
{
    crate::laws::lemma_ceiling_in_words();
    reveal_strlit("40000: An event is at most ");
    reveal_strlit(" bytes");
    reveal_strlit("1048576");
    reveal_strlit("40000: An event is at most 1048576 bytes");
    assert("40000: An event is at most "@ + "1048576"@ + " bytes"@
        =~= "40000: An event is at most 1048576 bytes"@);
}

/// Only a `POST` is ever taken. Any other method is refused and changes
/// nothing: with 405 and 40500 on every path that leads to messages, those
/// of a partition too, and with 404 and 40400 elsewhere.
pub proof fn law_only_a_post_is_taken(
    session: SessionView,
    request: RequestView,
    verdict: Result<Seq<char>, DenialView>,
    target: Seq<char>,
)
    ensures
        session.answered(request, verdict).1 is Sent ==> request.method == "POST"@ && verdict is Ok,
        request.method != "POST"@ ==> session.answered(request, verdict).0 == session,
        request.method != "POST"@ && verdict is Ok && leads_to(request.path, target) ==> {
            let (then, event, response) = session.answered(request, verdict);
            &&& event == EventView::Refused("40500"@)
            &&& response.status == 405
            &&& response.detail == Some("40500: An event is sent, nothing else"@)
        },
{
    lemma_leads_to(request.path, target);
}

/// A path that leads to no messages is refused with 404 and 40400, whatever
/// the method and the body, and nothing is taken.
pub proof fn law_what_is_not_messages_is_refused(
    session: SessionView,
    request: RequestView,
    resource: Seq<char>,
)
    requires
        forall|target: Seq<char>| !#[trigger] leads_to(request.path, target),
    ensures
        ({
            let (then, event, response) = session.answered(request, Ok(resource));
            &&& then == session
            &&& event == EventView::Refused("40400"@)
            &&& response.status == 404
            &&& response.detail == Some("40400: Not a hub's messages"@)
        }),
{
    let target = text::without_suffix(text::without_prefix(request.path, "/"@), "/messages"@);
    if target is Some {
        lemma_leads_to(request.path, target->0);
    }
}

/// A `POST` to a partition whose name does not read as a number from 0 to 3
/// is refused with 404 and 40400, whatever the body, and nothing is taken.
pub proof fn law_a_partition_that_the_hub_lacks_is_refused(
    session: SessionView,
    request: RequestView,
    resource: Seq<char>,
    target: Seq<char>,
    hub: Seq<char>,
    partition: Seq<char>,
)
    requires
        request.method == "POST"@,
        leads_to(request.path, target),
        names(target, hub, partition),
        text::parsed(partition, 3) is None,
    ensures
        ({
            let (then, event, response) = session.answered(request, Ok(resource));
            &&& then == session
            &&& event == EventView::Refused("40400"@)
            &&& response.status == 404
            &&& response.detail == Some("40400: No such partition"@)
        }),
{
    lemma_leads_to(request.path, target);
    lemma_names(target, hub, partition);
}

/// A `POST` of at most 1048576 bytes to a partition whose name reads as a
/// number from 0 to 3 is taken, its bytes whole, under the URL of that
/// partition of that hub with the next number behind `#`, and answered with
/// 201.
pub proof fn law_an_event_for_a_partition_lands_on_it(
    session: SessionView,
    request: RequestView,
    resource: Seq<char>,
    target: Seq<char>,
    hub: Seq<char>,
    partition: Seq<char>,
)
    requires
        request.method == "POST"@,
        leads_to(request.path, target),
        names(target, hub, partition),
        text::parsed(partition, 3) is Some,
        request.body.len() <= 1_048_576,
    ensures
        ({
            let (then, event, response) = session.answered(request, Ok(resource));
            &&& event matches EventView::Sent(arrived)
            &&& arrived.bytes == request.body
            &&& arrived.origin_uri == base_of(resource) + "/"@ + hub + "/partitions/"@
                + text::decimal(text::parsed(partition, 3)->0) + "#"@ + text::decimal(session.next)
            &&& response.status == 201
            &&& response.detail is None
            &&& then == session.with(hub, arrived)
        }),
{
    lemma_leads_to(request.path, target);
    lemma_names(target, hub, partition);
}

/// A `POST` of at most 1048576 bytes to a hub is taken, its bytes whole,
/// under the URL of the partition whose turn it is with the next number
/// behind `#`, and answered with 201.
pub proof fn law_an_event_for_a_hub_lands_in_turn(
    session: SessionView,
    request: RequestView,
    resource: Seq<char>,
    target: Seq<char>,
)
    requires
        session.next >= 1,
        request.method == "POST"@,
        leads_to(request.path, target),
        names_no_partition(target),
        request.body.len() <= 1_048_576,
    ensures
        ({
            let (then, event, response) = session.answered(request, Ok(resource));
            &&& event matches EventView::Sent(arrived)
            &&& arrived.bytes == request.body
            &&& arrived.origin_uri == base_of(resource) + "/"@ + target + "/partitions/"@
                + text::decimal(((session.next - 1) % 4) as nat) + "#"@ + text::decimal(session.next)
            &&& response.status == 201
            &&& response.detail is None
            &&& then == session.with(target, arrived)
        }),
{
    lemma_leads_to(request.path, target);
    lemma_names_no_partition(target);
}

/// A `POST` of more than 1048576 bytes to a hub, or to a partition it has,
/// is refused with 413 and 40000, and nothing is taken.
pub proof fn law_what_is_too_large_is_refused(
    session: SessionView,
    request: RequestView,
    resource: Seq<char>,
    target: Seq<char>,
    hub: Seq<char>,
    partition: Seq<char>,
)
    requires
        request.method == "POST"@,
        leads_to(request.path, target),
        names_no_partition(target) || (names(target, hub, partition) && text::parsed(
            partition,
            3,
        ) is Some),
        request.body.len() > 1_048_576,
    ensures
        ({
            let (then, event, response) = session.answered(request, Ok(resource));
            &&& then == session
            &&& event == EventView::Refused("40000"@)
            &&& response.status == 413
            &&& response.detail == Some("40000: An event is at most 1048576 bytes"@)
        }),
{
    lemma_leads_to(request.path, target);
    if names_no_partition(target) {
        lemma_names_no_partition(target);
    } else {
        lemma_names(target, hub, partition);
    }
    lemma_too_large_in_words();
}

/// An event is filed last under its hub; every other hub, the policy, the
/// key and the timeout stay as they were, and the next number is one more.
pub proof fn law_an_event_is_filed_last_under_its_hub(
    session: SessionView,
    hub: Seq<char>,
    other: Seq<char>,
    arrived: ArrivedView,
)
    ensures
        ({
            let then = session.with(hub, arrived);
            &&& then.hubs.contains_key(hub)
            &&& then.hubs[hub].len() > 0
            &&& then.hubs[hub].last() == arrived
            &&& session.hubs.contains_key(hub) ==> then.hubs[hub].drop_last() == session.hubs[hub]
            &&& !session.hubs.contains_key(hub) ==> then.hubs[hub].len() == 1
            &&& other != hub ==> then.hubs.contains_key(other) == session.hubs.contains_key(other)
            &&& other != hub ==> then.hubs[other] == session.hubs[other]
            &&& then.next == session.next + 1
            &&& then.policy == session.policy
            &&& then.key == session.key
            &&& then.timeout == session.timeout
        }),
{
    let then = session.with(hub, arrived);
    if session.hubs.contains_key(hub) {
        assert(then.hubs[hub].drop_last() =~= session.hubs[hub]);
    }
}

/// A session is made with its policy and its key, no hub, no timeout, and 1
/// as its next number.
pub proof fn law_a_session_holds_what_it_was_made_with(policy: Seq<char>, key: Seq<char>)
    ensures
        SessionView::fresh(policy, key).policy == policy,
        SessionView::fresh(policy, key).key == key,
        SessionView::fresh(policy, key).next == 1,
        SessionView::fresh(policy, key).timeout is None,
        forall|hub: Seq<char>| !#[trigger] SessionView::fresh(policy, key).hubs.contains_key(hub),
{
}

/// A hub lives at what stands before its token's path: the scheme and the
/// authority behind the first `://`, up to the first `/`.
pub proof fn law_a_hub_lives_at_the_scheme_and_authority(
    resource: Seq<char>,
    scheme: Seq<char>,
    authority: Seq<char>,
    path: Seq<char>,
)
    requires
        resource == scheme + "://"@ + authority + path,
        forall|j: int| 0 <= j < scheme.len() ==> #[trigger] resource.subrange(j, j + 3) != "://"@,
        !authority.contains('/'),
        path.len() == 0 || path[0] == '/',
    ensures
        base_of(resource) == scheme + "://"@ + authority,
{
    reveal_strlit("://");
    reveal_strlit("/");
    let at = scheme.len() as int;
    assert(resource.subrange(at, at + 3) =~= "://"@);
    assert forall|j: int| 0 <= j < at implies !text::occurs_at(resource, "://"@, j) by {
        assert(resource.subrange(j, j + 3) != "://"@);
    }
    text::lemma_cut_at(resource, "://"@, at);
    assert(resource.subrange(0, at) =~= scheme);
    let rest = authority + path;
    assert(resource.subrange(at + 3, resource.len() as int) =~= rest);
    let end = authority.len() as int;
    assert forall|j: int| 0 <= j < end implies !text::occurs_at(rest, "/"@, j) by {
        assert(rest.subrange(j, j + 1)[0] == authority[j]);
        assert(authority.contains(authority[j]));
    }
    if path.len() > 0 {
        assert(rest.subrange(end, end + 1) =~= "/"@);
        text::lemma_cut_at(rest, "/"@, end);
        assert(rest.subrange(0, end) =~= authority);
    } else {
        assert forall|j: int| !text::occurs_at(rest, "/"@, j) by {}
        assert(rest =~= authority);
    }
}

/// Where a token's resource holds no `://`, its hub lives at all of it.
pub proof fn law_a_hub_without_a_scheme_lives_at_all_of_it(resource: Seq<char>)
    requires
        forall|j: int|
            0 <= j <= resource.len() - 3 ==> #[trigger] resource.subrange(j, j + 3) != "://"@,
    ensures
        base_of(resource) == resource,
{
    reveal_strlit("://");
    assert forall|j: int| !text::occurs_at(resource, "://"@, j) by {
        if text::occurs_at(resource, "://"@, j) {
            assert(resource.subrange(j, j + 3) == "://"@);
        }
    }
}

/// The number of an event is what stands behind the last `#` of its origin.
pub proof fn law_the_number_stands_in_the_fragment(url: Seq<char>, number: nat, bytes: Seq<u8>)
    requires
        number <= u64::MAX,
    ensures
        sequence(ArrivedView { origin_uri: url + "#"@ + text::decimal(number), bytes }) == Some(
            number,
        ),
{
    let digits = text::decimal(number);
    reveal_strlit("#");
    assert(url + "#"@ + digits =~= url.push('#') + digits);
    text::lemma_decimal(number);
    assert forall|i: int| 0 <= i < digits.len() implies digits[i] != '#' by {
        assert(text::is_digit(digits[i]));
    }
    text::lemma_after_last(url, '#', digits);
    text::law_parsing_undoes_rendering(number, u64::MAX as nat);
}

/// The events are all that the hubs hold, each at the place of its number:
/// the first carries 1, and there are as many as numbers were given.
pub proof fn law_the_events_are_what_the_hubs_hold(
    session: SessionView,
    i: int,
    hub: Seq<char>,
    k: int,
)
    requires
        session.numbered(),
    ensures
        session.events().len() == session.next - 1,
        0 <= i < session.events().len() ==> sequence(session.events()[i]) == Some((i + 1) as nat),
        0 <= i < session.events().len() ==> exists|h: Seq<char>, j: int|
            session.hubs.contains_key(h) && 0 <= j < session.hubs[h].len()
                && #[trigger] session.hubs[h][j] == session.events()[i],
        session.hubs.contains_key(hub) && 0 <= k < session.hubs[hub].len() ==> {
            let n = sequence(session.hubs[hub][k])->0;
            &&& 1 <= n <= session.events().len()
            &&& session.events()[n - 1] == session.hubs[hub][k]
        },
{
    if 0 <= i < session.events().len() {
        let n = (i + 1) as nat;
        lemma_event_number(session, n);
        assert(session.has(n));
        let (h, j) = choose|h: Seq<char>, j: int| #[trigger]
            session.held(h, j) && session.number(h, j) == Some(n);
        assert(session.held(h, j) && session.number(h, j) == Some(n));
        assert(session.events()[i] == session.hubs[h][j]);
    }
    if session.hubs.contains_key(hub) && 0 <= k < session.hubs[hub].len() {
        assert(session.held(hub, k));
        lemma_event_at(session, hub, k);
    }
}

} // verus!
