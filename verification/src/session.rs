//! The far end: enough of Event Hubs to take one Location's events, and
//! what a test or the playground puts on loopback.
//!
//! Not Event Hubs. One session holds the events sent to every hub it is
//! asked about in memory, by hub, takes every request's token as verified
//! against one policy, and answers the one call the way the service does:
//! 201 for an event, the error with its subcode. A hub here opens with
//! [`PARTITIONS`] partitions as a new hub does; an event sent to the hub
//! rather than to a partition is dealt round them in turn, which is what
//! the service does where no partition key is given.

use std::time::Duration;

use vstd::prelude::*;
use vstd::string::*;

use crate::ceiling;
use crate::message::{Arrived, ArrivedView, Request, Response, ResponseView};
use crate::model;
use crate::model::{DenialView, EventView, SessionView};
use crate::text;

verus! {

/// How many partitions a hub opens with.
pub const PARTITIONS: u32 = 4;

/// What the client did.
#[derive(Debug, PartialEq, Eq)]
pub enum Event {
    /// The client sent an event; here is the Stream, its origin the
    /// partition it landed on and the sequence number it was given.
    Sent(Arrived),
    /// The client was answered with this error subcode.
    Refused(String),
}

impl Clone for Event {
    fn clone(&self) -> (copy: Self)
        ensures
            copy@ == self@,
    {
        match self {
            Event::Sent(arrived) => Event::Sent(arrived.clone()),
            Event::Refused(code) => Event::Refused(code.clone()),
        }
    }
}

impl Event {
    /// The Stream that came.
    ///
    /// # Errors
    /// Where the client was refused, with the words that say so.
    pub fn taken(self) -> (taken: Result<Arrived, String>)
        ensures
            match self {
                Event::Sent(arrived) => taken == Ok::<Arrived, String>(arrived),
                Event::Refused(code) => taken is Err && taken->Err_0@
                    == "the session refused: "@ + code@,
            },
    {
        match self {
            Event::Sent(arrived) => Ok(arrived),
            Event::Refused(code) => {
                let mut words = String::from_str("the session refused: ");
                words.append(code.as_str());
                Err(words)
            },
        }
    }
}

impl View for Event {
    type V = EventView;

    open spec fn view(&self) -> EventView {
        match self {
            Event::Sent(arrived) => EventView::Sent(arrived@),
            Event::Refused(code) => EventView::Refused(code@),
        }
    }
}

/// A token that was verified: the URL it was made for.
#[derive(Debug, PartialEq, Eq)]
pub struct Token {
    pub resource: String,
}

/// Why a token was not verified, and the subcode of that.
#[derive(Debug, PartialEq, Eq)]
pub struct Denial {
    pub detail: String,
    pub subcode: String,
}

/// What the verification of a token came to: the URL it was made for, or
/// why it was denied.
pub open spec fn verdict_of(verified: Result<Token, Denial>) -> Result<Seq<char>, DenialView> {
    match verified {
        Ok(token) => Ok(token.resource@),
        Err(denial) => Err(
            DenialView { detail: denial.detail@, subcode: denial.subcode@ },
        ),
    }
}

/// One hub and the events sent to it, in the order they came.
struct Hub {
    name: String,
    events: Vec<Arrived>,
}

/// A far end that holds what it was sent.
pub struct Session {
    policy: String,
    key: String,
    hubs: Vec<Hub>,
    next: u64,
    timeout: Option<Duration>,
}

/// What each of the Streams holds.
pub open spec fn arrivals(streams: Seq<Arrived>) -> Seq<ArrivedView> {
    streams.map_values(|arrived: Arrived| arrived@)
}

/// The hub of that name is the `k`th.
spec fn named(hubs: Seq<Hub>, name: Seq<char>, k: int) -> bool {
    0 <= k < hubs.len() && hubs[k].name@ == name
}

/// The hubs by name.
spec fn by_name(hubs: Seq<Hub>) -> Map<Seq<char>, Seq<ArrivedView>> {
    Map::new(
        |name: Seq<char>| exists|k: int| named(hubs, name, k),
        |name: Seq<char>| arrivals(hubs[choose|k: int| named(hubs, name, k)].events@),
    )
}

/// No two hubs have the same name.
spec fn distinct(hubs: Seq<Hub>) -> bool {
    forall|j: int, k: int|
        0 <= j < hubs.len() && 0 <= k < hubs.len() && #[trigger] hubs[j].name@
            == #[trigger] hubs[k].name@ ==> j == k
}

impl View for Session {
    type V = SessionView;

    closed spec fn view(&self) -> SessionView {
        SessionView {
            policy: self.policy@,
            key: self.key@,
            hubs: by_name(self.hubs@),
            next: self.next as nat,
            timeout: self.timeout,
        }
    }
}

impl Session {
    /// Every hub is held once, and the events carry the numbers from 1 up
    /// to the next, each once.
    pub open spec fn wf(&self) -> bool {
        &&& self.hubs_are_distinct()
        &&& self@.numbered()
    }

    /// Every hub is held once.
    pub closed spec fn hubs_are_distinct(&self) -> bool {
        distinct(self.hubs@)
    }

    /// Answer requests whose token `policy` made with `key`.
    #[must_use]
    pub fn new(policy: &str, key: &str) -> (session: Self)
        ensures
            session.wf(),
            session@ == SessionView::fresh(policy@, key@),
    {
        let session = Self {
            policy: String::from_str(policy),
            key: String::from_str(key),
            hubs: Vec::new(),
            next: 1,
            timeout: None,
        };
        assert(session@.hubs =~= Map::empty()) by {
            assert forall|name: Seq<char>| !session@.hubs.contains_key(name) by {
                assert forall|k: int| !named(session.hubs@, name, k) by {}
            }
        }
        session
    }

    /// Give up on a client that stops mid-request after `timeout`.
    #[must_use]
    pub fn timing_out_after(self, timeout: Duration) -> (session: Self)
        ensures
            session.wf() == self.wf(),
            session@ == (SessionView { timeout: Some(timeout), ..self@ }),
    {
        let mut session = self;
        session.timeout = Some(timeout);
        proof {
            assert(session@.numbered() == self@.numbered()) by {
                model::lemma_numbered_by_hubs(session@, self@);
                model::lemma_numbered_by_hubs(self@, session@);
            }
        }
        session
    }

    /// The policy whose tokens are good here.
    #[must_use]
    pub fn policy(&self) -> (policy: &str)
        ensures
            policy@ == self@.policy,
    {
        self.policy.as_str()
    }

    /// The key that policy signs with.
    #[must_use]
    pub fn key(&self) -> (key: &str)
        ensures
            key@ == self@.key,
    {
        self.key.as_str()
    }

    /// How long a client may stop mid-request.
    #[must_use]
    pub fn timeout(&self) -> (timeout: Option<Duration>)
        ensures
            timeout == self@.timeout,
    {
        self.timeout
    }

    /// The sequence number of the next event.
    #[must_use]
    pub fn next(&self) -> (next: u64)
        ensures
            next == self@.next,
    {
        self.next
    }

    /// Every event taken so far, in the order they came, each under its
    /// origin.
    #[must_use]
    pub fn events(&self) -> (all: Vec<Arrived>)
        requires
            self.wf(),
        ensures
            arrivals(all@) == self@.events(),
    {
        let mut all: Vec<Arrived> = Vec::new();
        let mut numbers: Vec<Option<u64>> = Vec::new();
        let ghost mut from: Seq<(int, int)> = Seq::empty();
        let mut h: usize = 0;
        while h < self.hubs.len()
            invariant
                self.wf(),
                h <= self.hubs.len(),
                self.gathered(h as int, 0, all@, numbers@, from),
            decreases self.hubs.len() - h,
        {
            let events = &self.hubs[h].events;
            let mut i: usize = 0;
            while i < events.len()
                invariant
                    self.wf(),
                    h < self.hubs.len(),
                    i <= events.len(),
                    events@ == self.hubs@[h as int].events@,
                    self.gathered(h as int, i as int, all@, numbers@, from),
                decreases events.len() - i,
            {
                let event = events[i].clone();
                let number = number_of(&event);
                let at: usize = rank(&numbers, number);
                proof {
                    self.lemma_gathers(
                        h as int,
                        i as int,
                        all@,
                        numbers@,
                        from,
                        event,
                        number,
                        at as int,
                    );
                    from = from.insert(at as int, (h as int, i as int));
                }
                all.insert(at, event);
                numbers.insert(at, number);
                i = i + 1;
            }
            proof {
                self.lemma_gathered_hub(h as int, all@, numbers@, from);
            }
            h = h + 1;
        }
        proof {
            self.lemma_gathered_all(all@, numbers@, from);
        }
        all
    }

    /// The event `i` of the hub `h`.
    spec fn stored(&self, h: int, i: int) -> ArrivedView {
        self.hubs@[h].events@[i]@
    }

    /// The hub `h` holds an event `i`, which stands before the event `j` of
    /// the hub `g`.
    spec fn before(&self, h: int, i: int, g: int, j: int) -> bool {
        &&& 0 <= h < self.hubs@.len()
        &&& 0 <= i < self.hubs@[h].events@.len()
        &&& h < g || (h == g && i < j)
    }

    /// `all` holds the events before the event `i` of the hub `h`, each
    /// once, in the order of their `numbers`; `from` says where each is
    /// stored.
    spec fn gathered(
        &self,
        h: int,
        i: int,
        all: Seq<Arrived>,
        numbers: Seq<Option<u64>>,
        from: Seq<(int, int)>,
    ) -> bool {
        &&& all.len() == numbers.len() == from.len()
        &&& forall|k: int| #![trigger from[k]]
            0 <= k < from.len() ==> {
                &&& self.before(from[k].0, from[k].1, h, i)
                &&& all[k]@ == self.stored(from[k].0, from[k].1)
                &&& numbers[k] is Some
                &&& model::sequence(all[k]@) == Some(numbers[k]->0 as nat)
            }
        &&& forall|g: int, j: int| #[trigger] self.before(g, j, h, i) ==> from.contains((g, j))
        &&& forall|j: int, k: int| 0 <= j < k < numbers.len() ==> numbers[j]->0 < numbers[k]->0
    }

    /// What stands in a hub is held under the hub's name.
    proof fn lemma_stored(&self, h: int, i: int)
        requires
            distinct(self.hubs@),
            0 <= h < self.hubs@.len(),
            0 <= i < self.hubs@[h].events@.len(),
        ensures
            self@.held(self.hubs@[h].name@, i),
            self@.hubs[self.hubs@[h].name@][i] == self.stored(h, i),
    {
        lemma_by_name(self.hubs@, h);
    }

    /// Gathering one more event, at its rank among the numbers.
    proof fn lemma_gathers(
        &self,
        h: int,
        i: int,
        all: Seq<Arrived>,
        numbers: Seq<Option<u64>>,
        from: Seq<(int, int)>,
        event: Arrived,
        number: Option<u64>,
        at: int,
    )
        requires
            self.wf(),
            self.gathered(h, i, all, numbers, from),
            0 <= h < self.hubs@.len(),
            0 <= i < self.hubs@[h].events@.len(),
            event@ == self.stored(h, i),
            numeral(number) == model::sequence(event@),
            ranks(numbers, number, at),
        ensures
            self.gathered(
                h,
                i + 1,
                all.insert(at, event),
                numbers.insert(at, number),
                from.insert(at, (h, i)),
            ),
    {
        let (all1, numbers1, from1) = (
            all.insert(at, event),
            numbers.insert(at, number),
            from.insert(at, (h, i)),
        );
        self.lemma_stored(h, i);
        assert(number is Some);
        assert forall|k: int| 0 <= k < from.len() implies #[trigger] numbers[k]->0 != number->0 by {
            let (g, j) = from[k];
            assert(self.before(g, j, h, i));
            self.lemma_stored(g, j);
            if numbers[k]->0 == number->0 {
                assert(self@.held(self.hubs@[g].name@, j) && self@.held(self.hubs@[h].name@, i));
                assert(g == h && j == i);
            }
        }
        assert forall|k: int| 0 <= k < numbers.len() implies if k < at {
            #[trigger] numbers[k]->0 < number->0
        } else {
            numbers[k]->0 > number->0
        } by {
            if k < at {
                assert(!behind(numbers[k], number));
                assert(from[k] == from[k]);
            } else {
                assert(from[k] == from[k] && from[at] == from[at]);
                assert(behind(numbers[at], number));
            }
        }
        assert forall|k: int| #![trigger from1[k]] 0 <= k < from1.len() implies {
            &&& self.before(from1[k].0, from1[k].1, h, i + 1)
            &&& all1[k]@ == self.stored(from1[k].0, from1[k].1)
            &&& numbers1[k] is Some
            &&& model::sequence(all1[k]@) == Some(numbers1[k]->0 as nat)
        } by {
            if k < at {
                assert(from1[k] == from[k]);
            } else if k > at {
                assert(from1[k] == from[k - 1]);
            }
        }
        assert forall|g: int, j: int| #[trigger] self.before(g, j, h, i + 1) implies from1.contains(
            (g, j),
        ) by {
            if g == h && j == i {
                assert(from1[at] == (g, j));
            } else {
                assert(self.before(g, j, h, i));
                let k = from.index_of((g, j));
                assert(from[k] == (g, j));
                assert(from1[if k < at { k } else { k + 1 }] == (g, j));
            }
        }
        assert forall|j: int, k: int| 0 <= j < k < numbers1.len() implies numbers1[j]->0
            < numbers1[k]->0 by {
            let j0 = if j < at { j } else { j - 1 };
            let k0 = if k < at { k } else { k - 1 };
            if j != at {
                assert(numbers1[j] == numbers[j0]);
            }
            if k != at {
                assert(numbers1[k] == numbers[k0]);
            }
        }
    }

    /// Behind the last event of a hub comes the next hub.
    proof fn lemma_gathered_hub(
        &self,
        h: int,
        all: Seq<Arrived>,
        numbers: Seq<Option<u64>>,
        from: Seq<(int, int)>,
    )
        requires
            0 <= h < self.hubs@.len(),
            self.gathered(h, self.hubs@[h].events@.len() as int, all, numbers, from),
        ensures
            self.gathered(h + 1, 0, all, numbers, from),
    {
        let end = self.hubs@[h].events@.len() as int;
        assert forall|g: int, j: int| self.before(g, j, h, end) == #[trigger] self.before(
            g,
            j,
            h + 1,
            0,
        ) by {}
    }

    /// All the hubs gathered are the events in the order of their numbers.
    proof fn lemma_gathered_all(
        &self,
        all: Seq<Arrived>,
        numbers: Seq<Option<u64>>,
        from: Seq<(int, int)>,
    )
        requires
            self.wf(),
            self.gathered(self.hubs@.len() as int, 0, all, numbers, from),
        ensures
            arrivals(all) == self@.events(),
    {
        let end = self.hubs@.len() as int;
        let next = self@.next as int;
        let values = numbers.map_values(|number: Option<u64>| number->0 as int);
        assert forall|k: int| 0 <= k < values.len() implies 1 <= #[trigger] values[k] < next by {
            assert(self.before(from[k].0, from[k].1, end, 0));
            self.lemma_stored(from[k].0, from[k].1);
        }
        assert forall|n: int| 1 <= n < next implies #[trigger] values.contains(n) by {
            assert(self@.has(n as nat));
            let (name, i) = choose|name: Seq<char>, i: int| #[trigger]
                self@.held(name, i) && self@.number(name, i) == Some(n as nat);
            let h = choose|h: int| named(self.hubs@, name, h);
            lemma_by_name(self.hubs@, h);
            assert(self.before(h, i, end, 0));
            let k = from.index_of((h, i));
            assert(from[k] == (h, i));
            assert(values[k] == n);
        }
        lemma_consecutive(values, next);
        assert forall|k: int| 0 <= k < all.len() implies #[trigger] arrivals(all)[k]
            == self@.events()[k] by {
            let (h, i) = from[k];
            self.lemma_stored(h, i);
            assert(values[k] == k + 1);
            model::lemma_event_at(self@, self.hubs@[h].name@, i);
        }
        assert(arrivals(all) =~= self@.events());
    }

    /// Answer `request`, its token verified as `verified` says, and say
    /// what the client did.
    pub fn answer(&mut self, request: &Request, verified: Result<Token, Denial>) -> (answer: (
        Event,
        Response,
    ))
        requires
            old(self).wf(),
            old(self)@.decide(request@, verdict_of(verified)) is Take ==> old(self)@.next
                < u64::MAX,
        ensures
            final(self).wf(),
            (final(self)@, answer.0@, answer.1@) == old(self)@.answered(
                request@,
                verdict_of(verified),
            ),
            match answer.0@ {
                EventView::Sent(arrived) => final(self)@.events() == old(self)@.events().push(
                    arrived,
                ),
                EventView::Refused(_) => final(self)@ == old(self)@,
            },
            answer.0 is Sent ==> request.method@ == "POST"@ && verified is Ok
                && request.body@.len() <= 1_048_576,
    {
        let token = match verified {
            Ok(token) => token,
            Err(denial) => return refused(401, denial.subcode, denial.detail),
        };
        let path = text::strip_prefix(request.path.as_str(), "/");
        let target = match text::strip_suffix(path, "/messages") {
            Some(target) => target,
            None => return refused(
                404,
                String::from_str("40400"),
                String::from_str("40400: Not a hub's messages"),
            ),
        };
        if !text::same(request.method.as_str(), "POST") {
            return refused(
                405,
                String::from_str("40500"),
                String::from_str("40500: An event is sent, nothing else"),
            );
        }
        let (hub, partition) = match self.place(target) {
            Ok(placed) => placed,
            Err(detail) => return refused(404, String::from_str("40400"), String::from_str(detail)),
        };
        if request.body.len() > ceiling() {
            let mut detail = String::from_str("40000: An event is at most ");
            detail.append(text::render(ceiling() as u64).as_str());
            detail.append(" bytes");
            return refused(413, String::from_str("40000"), detail);
        }
        let sequence: u64 = self.next;
        let mut origin = String::from_str(base(token.resource.as_str()));
        origin.append("/");
        origin.append(hub);
        origin.append("/partitions/");
        origin.append(text::render(partition as u64).as_str());
        origin.append("#");
        origin.append(text::render(sequence).as_str());
        let arrived = Arrived::new(origin, request.body.clone());
        proof {
            model::lemma_origin_sequence(
                model::base_of(token.resource@),
                hub@,
                partition as nat,
                sequence as nat,
            );
            model::lemma_taking(self@, hub@, arrived@);
        }
        self.next = sequence + 1;
        file(&mut self.hubs, hub, arrived.clone());
        (Event::Sent(arrived), Response { status: 201, detail: None })
    }

    /// The hub and partition `target` names: the partition the target
    /// chose where it chose one, the next in turn where it did not. Asking
    /// takes no turn.
    ///
    /// # Errors
    /// Where the hub has no partition such as the target chose.
    pub fn place<'a>(&self, target: &'a str) -> (place: Result<(&'a str, u32), &'static str>)
        requires
            self.wf(),
        ensures
            !text::occurs(target@, "/partitions/"@) ==> place is Ok && (place->Ok_0).0@ == target@
                && (place->Ok_0).1 == self@.events().len() % PARTITIONS as nat,
            place is Ok ==> (place->Ok_0).1 < PARTITIONS,
            match place {
                Ok((hub, partition)) => model::placed(target@, self@.next) == Some(
                    (hub@, partition as nat),
                ),
                Err(detail) => model::placed(target@, self@.next) is None && detail@
                    == "40400: No such partition"@,
            },
    {
        match text::split_once(target, "/partitions/") {
            None => {
                let dealt: u64 = (self.next - 1) % PARTITIONS as u64;
                Ok((target, dealt as u32))
            },
            Some((hub, partition)) => match text::parse(partition, u32::MAX as u64) {
                Some(partition) if partition < PARTITIONS as u64 => Ok((hub, partition as u32)),
                _ => Err("40400: No such partition"),
            },
        }
    }
}

/// Increasing numbers that are those from 1 up to `next` are 1, 2, and so
/// on.
proof fn lemma_consecutive(values: Seq<int>, next: int)
    requires
        next >= 1,
        forall|j: int, k: int| 0 <= j < k < values.len() ==> values[j] < values[k],
        forall|k: int| 0 <= k < values.len() ==> 1 <= #[trigger] values[k] < next,
        forall|n: int| 1 <= n < next ==> #[trigger] values.contains(n),
    ensures
        values.len() == next - 1,
        forall|k: int| 0 <= k < values.len() ==> #[trigger] values[k] == k + 1,
{
    assert forall|k: int| 0 <= k < values.len() implies #[trigger] values[k] == k + 1 by {
        lemma_counts(values, next, k);
    }
    let len = values.len() as int;
    if len > 0 {
        assert(values[len - 1] == len);
    }
    if len < next - 1 {
        assert(values.contains(len + 1));
        let k = values.index_of(len + 1);
        assert(values[k] == k + 1);
    }
}

/// The `k`th of such numbers is `k + 1`.
proof fn lemma_counts(values: Seq<int>, next: int, k: int)
    requires
        forall|i: int, j: int| 0 <= i < j < values.len() ==> values[i] < values[j],
        forall|j: int| 0 <= j < values.len() ==> 1 <= #[trigger] values[j] < next,
        forall|n: int| 1 <= n < next ==> #[trigger] values.contains(n),
        0 <= k < values.len(),
    ensures
        values[k] == k + 1,
    decreases k,
{
    if k > 0 {
        lemma_counts(values, next, k - 1);
    }
    if values[k] > k + 1 {
        assert(values.contains(k + 1));
        let j = values.index_of(k + 1);
        assert(values[j] == k + 1);
        if j < k {
            assert(j < k - 1 ==> values[j] < values[k - 1]);
        } else if j > k {
            assert(values[k] < values[j]);
        }
    }
}

/// A sequence number as a mathematical one.
spec fn numeral(number: Option<u64>) -> Option<nat> {
    match number {
        Some(number) => Some(number as nat),
        None => None,
    }
}

/// `a` comes behind `b`, where what has no number comes first.
spec fn behind(a: Option<u64>, b: Option<u64>) -> bool {
    match (a, b) {
        (Some(a), Some(b)) => a > b,
        (Some(_), None) => true,
        (None, _) => false,
    }
}

/// Before `at` nothing comes behind `number`, and what stands at it does.
spec fn ranks(numbers: Seq<Option<u64>>, number: Option<u64>, at: int) -> bool {
    &&& 0 <= at <= numbers.len()
    &&& forall|k: int| 0 <= k < at ==> !behind(#[trigger] numbers[k], number)
    &&& at < numbers.len() ==> behind(numbers[at], number)
}

/// The sequence number in the origin of `event`.
fn number_of(event: &Arrived) -> (number: Option<u64>)
    ensures
        numeral(number) == model::sequence(event@),
{
    text::parse(text::tail(event.origin_uri.as_str(), '#'), u64::MAX)
}

/// Where `number` goes among `numbers`: in front of the first that comes
/// behind it.
fn rank(numbers: &Vec<Option<u64>>, number: Option<u64>) -> (at: usize)
    ensures
        ranks(numbers@, number, at as int),
{
    let mut at: usize = 0;
    while at < numbers.len()
        invariant
            at <= numbers.len(),
            forall|k: int| 0 <= k < at ==> !behind(#[trigger] numbers@[k], number),
        decreases numbers.len() - at,
    {
        let later = match (numbers[at], number) {
            (Some(a), Some(b)) => a > b,
            (Some(_), None) => true,
            (None, _) => false,
        };
        if later {
            return at;
        }
        at = at + 1;
    }
    at
}

/// The token's scheme and authority, which is where the hub lives.
fn base(resource: &str) -> (base: &str)
    ensures
        base@ == model::base_of(resource@),
{
    match text::split_once(resource, "://") {
        None => resource,
        Some((scheme, rest)) => {
            let authority = match text::split_once(rest, "/") {
                Some((authority, _)) => authority,
                None => rest,
            };
            proof {
                reveal_strlit("://");
                text::lemma_cut_parts(resource@, "://"@);
                text::lemma_cut_parts(rest@, "/"@);
            }
            let end: usize = resource.unicode_len() - (rest.unicode_len()
                - authority.unicode_len());
            assert(resource@.subrange(0, end as int) =~= model::base_of(resource@));
            resource.substring_char(0, end)
        },
    }
}

/// An error answer, and what the client did to get it.
fn refused(status: u16, code: String, detail: String) -> (answer: (Event, Response))
    ensures
        answer.0@ == EventView::Refused(code@),
        answer.1@ == (ResponseView { status, detail: Some(detail@) }),
{
    (Event::Refused(code), Response { status, detail: Some(detail) })
}

/// Puts `arrived` behind the events of the hub called `name`, which opens
/// where it is not held yet.
fn file(hubs: &mut Vec<Hub>, name: &str, arrived: Arrived)
    requires
        distinct(old(hubs)@),
    ensures
        distinct(final(hubs)@),
        by_name(final(hubs)@) == by_name(old(hubs)@).insert(
            name@,
            (if by_name(old(hubs)@).contains_key(name@) {
                by_name(old(hubs)@)[name@]
            } else {
                Seq::empty()
            }).push(arrived@),
        ),
{
    let mut k: usize = 0;
    while k < hubs.len()
        invariant
            k <= hubs.len(),
            *hubs == *old(hubs),
            distinct(hubs@),
            forall|j: int| 0 <= j < k ==> hubs@[j].name@ != name@,
        decreases hubs.len() - k,
    {
        if text::same(hubs[k].name.as_str(), name) {
            hubs[k].events.push(arrived);
            proof {
                lemma_filed(old(hubs)@, hubs@, k as int, arrived);
            }
            return ;
        }
        k = k + 1;
    }
    let mut events: Vec<Arrived> = Vec::new();
    events.push(arrived);
    hubs.push(Hub { name: String::from_str(name), events });
    proof {
        lemma_opened(old(hubs)@, hubs@.last(), arrived);
    }
}

/// A hub is found under its name.
proof fn lemma_by_name(hubs: Seq<Hub>, k: int)
    requires
        distinct(hubs),
        0 <= k < hubs.len(),
    ensures
        by_name(hubs).contains_key(hubs[k].name@),
        by_name(hubs)[hubs[k].name@] == arrivals(hubs[k].events@),
{
    let name = hubs[k].name@;
    assert(named(hubs, name, k));
    let j = choose|j: int| named(hubs, name, j);
    assert(named(hubs, name, j));
}

/// What filing an event under a hub that is held does to the hubs by name.
proof fn lemma_filed(before: Seq<Hub>, after: Seq<Hub>, k: int, arrived: Arrived)
    requires
        distinct(before),
        0 <= k < before.len(),
        after.len() == before.len(),
        forall|j: int| 0 <= j < before.len() && j != k ==> after[j] == before[j],
        after[k].name@ == before[k].name@,
        after[k].events@ == before[k].events@.push(arrived),
    ensures
        distinct(after),
        by_name(before).contains_key(before[k].name@),
        by_name(after) == by_name(before).insert(
            before[k].name@,
            by_name(before)[before[k].name@].push(arrived@),
        ),
{
    let name = before[k].name@;
    assert forall|j: int| 0 <= j < before.len() implies #[trigger] after[j].name@
        == before[j].name@ by {}
    assert(distinct(after));
    lemma_by_name(before, k);
    lemma_by_name(after, k);
    assert(arrivals(after[k].events@) =~= arrivals(before[k].events@).push(arrived@));
    let then = by_name(before).insert(name, by_name(before)[name].push(arrived@));
    assert forall|other: Seq<char>| by_name(after).contains_key(other) == then.contains_key(
        other,
    ) by {
        if by_name(after).contains_key(other) {
            let j = choose|j: int| named(after, other, j);
            assert(named(before, other, j));
        }
        if by_name(before).contains_key(other) {
            let j = choose|j: int| named(before, other, j);
            assert(named(after, other, j));
        }
    }
    assert forall|other: Seq<char>| by_name(after).contains_key(other) implies by_name(after)[other]
        == then[other] by {
        let j = choose|j: int| named(after, other, j);
        lemma_by_name(after, j);
        lemma_by_name(before, j);
    }
    assert(by_name(after) =~= then);
}

/// What opening a hub with its first event does to the hubs by name.
proof fn lemma_opened(before: Seq<Hub>, hub: Hub, arrived: Arrived)
    requires
        distinct(before),
        forall|j: int| 0 <= j < before.len() ==> before[j].name@ != hub.name@,
        hub.events@ == seq![arrived],
    ensures
        distinct(before.push(hub)),
        !by_name(before).contains_key(hub.name@),
        by_name(before.push(hub)) == by_name(before).insert(hub.name@, seq![arrived@]),
{
    let after = before.push(hub);
    let then = by_name(before).insert(hub.name@, seq![arrived@]);
    lemma_by_name(after, before.len() as int);
    assert(arrivals(hub.events@) =~= seq![arrived@]);
    assert forall|other: Seq<char>| by_name(after).contains_key(other) == then.contains_key(
        other,
    ) by {
        if by_name(after).contains_key(other) {
            let j = choose|j: int| named(after, other, j);
            if j < before.len() {
                assert(named(before, other, j));
            }
        }
        if by_name(before).contains_key(other) {
            let j = choose|j: int| named(before, other, j);
            assert(named(after, other, j));
        }
    }
    assert forall|other: Seq<char>| by_name(after).contains_key(other) implies by_name(after)[other]
        == then[other] by {
        let j = choose|j: int| named(after, other, j);
        lemma_by_name(after, j);
        if j < before.len() {
            lemma_by_name(before, j);
        }
    }
    assert(by_name(after) =~= then);
}

/// What is seen of an event is what it holds.
pub proof fn law_an_event_is_seen_as_it_is(event: Event)
    ensures
        match event {
            Event::Sent(arrived) => event@ is Sent && event@->Sent_0 == arrived@,
            Event::Refused(code) => event@ is Refused && event@->Refused_0 == code@,
        },
{
}

/// A verdict is seen as the token's resource, or as the denial's words and
/// subcode.
pub proof fn law_a_verdict_is_seen_as_it_is(verified: Result<Token, Denial>)
    ensures
        match verified {
            Ok(token) => verdict_of(verified) is Ok && verdict_of(verified)->Ok_0
                == token.resource@,
            Err(denial) => {
                &&& verdict_of(verified) is Err
                &&& verdict_of(verified)->Err_0.detail == denial.detail@
                &&& verdict_of(verified)->Err_0.subcode == denial.subcode@
            },
        },
{
}

/// Streams are seen each as it is, in their order.
pub proof fn law_streams_are_seen_in_their_order(streams: Seq<Arrived>, i: int)
    ensures
        arrivals(streams).len() == streams.len(),
        0 <= i < streams.len() ==> arrivals(streams)[i] == streams[i]@,
{
}

} // verus!
