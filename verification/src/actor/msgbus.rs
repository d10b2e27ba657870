//! The message bus: topics with patterns, priorities, and named endpoints.

use crate::actor::handler::Handler;
use crate::actor::handler::Turns;
use crate::filters;
use crate::name_map::NameMap;
use crate::text;
use crate::text::chars_of;
use crate::text::same_text;
use vstd::prelude::*;

verus! {

/// A topic matches a pattern: `*` stands for one or more characters, `?` for exactly one, any
/// other character for itself.
pub open spec fn matches_pattern(pattern: Seq<char>, topic: Seq<char>) -> bool
    decreases pattern.len() + topic.len(),
{
    if pattern.len() == 0 || topic.len() == 0 {
        pattern.len() == 0 && topic.len() == 0
    } else if pattern[0] == '*' {
        matches_pattern(pattern.skip(1), topic.skip(1)) || matches_pattern(pattern, topic.skip(1))
    } else {
        (pattern[0] == '?' || pattern[0] == topic[0]) && matches_pattern(
            pattern.skip(1),
            topic.skip(1),
        )
    }
}

/// A topic matches a pattern.
pub fn is_matching(pattern: &str, topic: &str) -> (r: bool)
    ensures
        r == matches_pattern(pattern@, topic@),
{
    let p = chars_of(pattern);
    let t = chars_of(topic);
    proof {
        assert(p@.skip(0) =~= p@);
        assert(t@.skip(0) =~= t@);
    }
    is_matching_from(&p, 0, &t, 0)
}

fn is_matching_from(p: &Vec<char>, i: usize, t: &Vec<char>, j: usize) -> (r: bool)
    requires
        i <= p@.len(),
        j <= t@.len(),
    ensures
        r == matches_pattern(p@.skip(i as int), t@.skip(j as int)),
    decreases p@.len() - i + (t@.len() - j),
{
    if i == p.len() || j == t.len() {
        return i == p.len() && j == t.len();
    }
    proof {
        assert(p@.skip(i as int)[0] == p@[i as int]);
        assert(t@.skip(j as int)[0] == t@[j as int]);
        assert(p@.skip(i as int).skip(1) =~= p@.skip(i + 1));
        assert(t@.skip(j as int).skip(1) =~= t@.skip(j + 1));
    }
    if p[i] == '*' {
        is_matching_from(p, i + 1, t, j + 1) || is_matching_from(p, i, t, j + 1)
    } else {
        (p[i] == '?' || p[i] == t[j]) && is_matching_from(p, i + 1, t, j + 1)
    }
}

/// A leading `*` takes one or more characters off the topic, and the rest of the pattern matches
/// what is left.
pub proof fn star_stands_for_one_or_more(rest: Seq<char>, topic: Seq<char>)
    ensures
        matches_pattern(seq!['*'] + rest, topic) <==> exists|n: int|
            1 <= n <= topic.len() && #[trigger] matches_pattern(rest, topic.skip(n)),
    decreases topic.len(),
{
    let p = seq!['*'] + rest;
    assert(p.skip(1) =~= rest);
    if topic.len() > 0 {
        star_stands_for_one_or_more(rest, topic.skip(1));
        if matches_pattern(p, topic) {
            if !matches_pattern(rest, topic.skip(1)) {
                let n = choose|n: int|
                    1 <= n <= topic.skip(1).len() && #[trigger] matches_pattern(
                        rest,
                        topic.skip(1).skip(n),
                    );
                assert(topic.skip(1).skip(n) =~= topic.skip(n + 1));
            }
        }
        if exists|n: int| 1 <= n <= topic.len() && #[trigger] matches_pattern(rest, topic.skip(n)) {
            let n = choose|n: int|
                1 <= n <= topic.len() && #[trigger] matches_pattern(rest, topic.skip(n));
            if n > 1 {
                assert(topic.skip(1).skip(n - 1) =~= topic.skip(n));
            }
        }
    }
}

/// The pattern `*` matches every topic but the empty one.
pub proof fn star_matches_all(topic: Seq<char>)
    ensures
        matches_pattern(seq!['*'], topic) == (topic.len() > 0),
{
    star_stands_for_one_or_more(seq![], topic);
    assert(seq!['*'] + Seq::<char>::empty() =~= seq!['*']);
    if topic.len() > 0 {
        assert(matches_pattern(Seq::<char>::empty(), topic.skip(topic.len() as int)));
    }
}

/// A pattern without `*` and `?` matches itself alone.
pub proof fn plain_pattern_matches_itself(pattern: Seq<char>, topic: Seq<char>)
    requires
        forall|i: int| 0 <= i < pattern.len() ==> #[trigger] pattern[i] != '*' && pattern[i] != '?',
    ensures
        matches_pattern(pattern, topic) == (pattern == topic),
    decreases pattern.len(),
{
    if pattern.len() > 0 {
        assert(pattern[0] != '*');
        if topic.len() > 0 {
            plain_pattern_matches_itself(pattern.skip(1), topic.skip(1));
            if pattern[0] == topic[0] && pattern.skip(1) == topic.skip(1) {
                assert(pattern =~= seq![pattern[0]] + pattern.skip(1));
                assert(topic =~= seq![topic[0]] + topic.skip(1));
            }
        }
    } else {
        assert(topic.len() == 0 ==> pattern =~= topic);
    }
}

/// A subscription.
#[derive(Debug)]
struct Entry<H> {
    topic: String,
    priority: i32,
    component_id: u64,
    handler: H,
}

/// A subscription of a component to the topics of a pattern.
pub struct Subscription<H> {
    pub topic: Seq<char>,
    pub priority: i32,
    pub component_id: u64,
    pub handler: H,
}

/// Where a subscription of a priority is put: behind all of its priority or a higher one.
pub open spec fn place<H>(subs: Seq<Subscription<H>>, priority: i32) -> int
    decreases subs.len(),
{
    if subs.len() == 0 || subs.last().priority >= priority {
        subs.len() as int
    } else {
        place(subs.drop_last(), priority)
    }
}

/// The subscriptions with one more.
pub open spec fn subscribed<H>(
    subs: Seq<Subscription<H>>,
    sub: Subscription<H>,
) -> Seq<Subscription<H>> {
    subs.insert(place(subs, sub.priority), sub)
}

/// The subscriptions without those of a component to a topic.
pub open spec fn unsubscribed<H>(
    subs: Seq<Subscription<H>>,
    topic: Seq<char>,
    component_id: u64,
) -> Seq<Subscription<H>> {
    subs.filter(|s: Subscription<H>| !(s.topic == topic && s.component_id == component_id))
}

/// The subscriptions without those of a component.
pub open spec fn without_component<H>(
    subs: Seq<Subscription<H>>,
    component_id: u64,
) -> Seq<Subscription<H>> {
    subs.filter(|s: Subscription<H>| s.component_id != component_id)
}

/// The subscriptions that get a message on a topic, in the order in which they get it.
pub open spec fn receivers<H>(subs: Seq<Subscription<H>>, topic: Seq<char>) -> Seq<
    Subscription<H>,
> {
    subs.filter(|s: Subscription<H>| matches_pattern(s.topic, topic))
}

/// No subscription has a higher priority than one before it.
pub open spec fn by_priority<H>(subs: Seq<Subscription<H>>) -> bool {
    forall|i: int, j: int|
        0 <= i < j < subs.len() ==> (#[trigger] subs[i]).priority >= (#[trigger] subs[j]).priority
}

spec fn subscriptions_of<H>(s: Seq<Entry<H>>) -> Seq<Subscription<H>> {
    Seq::new(
        s.len(),
        |i: int|
            Subscription {
                topic: s[i].topic@,
                priority: s[i].priority,
                component_id: s[i].component_id,
                handler: s[i].handler,
            },
    )
}

/// How many subscriptions get a message on a topic before a subscription of the list does.
pub open spec fn rank<H>(subs: Seq<Subscription<H>>, topic: Seq<char>, i: int) -> nat {
    receivers(subs.take(i), topic).len()
}

/// What a receiver's log gains when messages are published one after the other: each message once,
/// in the receiver's place among the `size` receivers. `n` calls had been made before.
pub open spec fn rounds<M>(msgs: Seq<M>, n: nat, size: nat, rank: nat) -> Seq<(nat, M)> {
    Seq::new(msgs.len(), |j: int| ((n + j * size + rank) as nat, msgs[j]))
}

/// What publishing makes of a subscription: its handler gets each message once if the topic
/// matches, and none otherwise.
pub open spec fn received<M, H: Handler<M>>(
    before: Seq<Subscription<H>>,
    i: int,
    after: Subscription<H>,
    topic: Seq<char>,
    msgs: Seq<M>,
    n: nat,
) -> bool {
    &&& after.topic == before[i].topic
    &&& after.priority == before[i].priority
    &&& after.component_id == before[i].component_id
    &&& if matches_pattern(before[i].topic, topic) {
        after.handler.log().calls == before[i].handler.log().calls + rounds(
            msgs,
            n,
            receivers(before, topic).len(),
            rank(before, topic, i),
        )
    } else {
        after.handler == before[i].handler
    }
}

/// Messages have been published on a topic, one after the other, and nothing else has happened:
/// each was given to the receivers of the topic, in their order and to each of them once.
pub open spec fn published<M, H: Handler<M>>(
    before: &MessageBus<M, H>,
    after: &MessageBus<M, H>,
    topic: Seq<char>,
    msgs: Seq<M>,
) -> bool {
    &&& after.number() == before.number()
    &&& after.endpoints() == before.endpoints()
    &&& after.subscriptions().len() == before.subscriptions().len()
    &&& forall|i: int|
        0 <= i < before.subscriptions().len() ==> received(
            before.subscriptions(),
            i,
            #[trigger] after.subscriptions()[i],
            topic,
            msgs,
            before.calls(),
        )
    &&& after.calls() == before.calls() + msgs.len() * receivers(
        before.subscriptions(),
        topic,
    ).len()
}

/// A message has been sent to an endpoint, and nothing else has happened: the handler of the
/// endpoint, where there is one, was given it once, and nobody else was.
pub open spec fn sent<M, H: Handler<M>>(
    before: &MessageBus<M, H>,
    after: &MessageBus<M, H>,
    endpoint: Seq<char>,
    msg: M,
) -> bool {
    &&& after.number() == before.number()
    &&& after.subscriptions() == before.subscriptions()
    &&& after.endpoints().dom() == before.endpoints().dom()
    &&& forall|k: Seq<char>| #[trigger]
        before.endpoints().dom().contains(k) && k != endpoint ==> after.endpoints()[k]
            == before.endpoints()[k]
    &&& if before.endpoints().dom().contains(endpoint) {
        &&& after.endpoints()[endpoint].log().calls
            == before.endpoints()[endpoint].log().calls.push((before.calls(), msg))
        &&& after.calls() == before.calls() + 1
    } else {
        after.calls() == before.calls()
    }
}

/// A message bus that delivers at once. Handlers take messages of the type `M`.
pub struct MessageBus<M, H: Handler<M>> {
    subscriptions: Vec<Entry<H>>,
    endpoints: NameMap<H>,
    turns: Turns,
    number: u64,
    messages: std::marker::PhantomData<M>,
}

impl<M, H: Handler<M>> MessageBus<M, H> {
    /// The subscriptions in the order in which they get messages.
    pub closed spec fn subscriptions(&self) -> Seq<Subscription<H>> {
        subscriptions_of(self.subscriptions@)
    }

    /// The handlers of the endpoints.
    pub closed spec fn endpoints(&self) -> Map<Seq<char>, H> {
        self.endpoints@
    }

    /// The number of calls of handlers that the bus has made.
    pub closed spec fn calls(&self) -> nat {
        self.turns.count()
    }

    /// The number of the bus.
    pub closed spec fn number(&self) -> u64 {
        self.number
    }

    /// The number of the bus.
    pub fn own_number(&self) -> (r: u64)
        ensures
            r == self.number(),
    {
        self.number
    }

    /// The subscriptions are in order of priority.
    pub closed spec fn wf(&self) -> bool {
        self.endpoints.wf() && by_priority(self.subscriptions())
    }

    /// What a usable bus gives: the subscriptions are in order of priority.
    pub proof fn subscriptions_are_by_priority(&self)
        requires
            self.wf(),
        ensures
            by_priority(self.subscriptions()),
    {
    }

    /// A bus without subscriptions and endpoints, with the number 0.
    pub fn new() -> (r: Self)
        ensures
            r.wf(),
            r.subscriptions() == Seq::<Subscription<H>>::empty(),
            r.endpoints() == Map::<Seq<char>, H>::empty(),
            r.calls() == 0,
            r.number() == 0,
    {
        Self::numbered(0)
    }

    /// A bus without subscriptions and endpoints, with a number that tells it from others.
    pub fn numbered(number: u64) -> (r: Self)
        ensures
            r.wf(),
            r.subscriptions() == Seq::<Subscription<H>>::empty(),
            r.endpoints() == Map::<Seq<char>, H>::empty(),
            r.calls() == 0,
            r.number() == number,
    {
        let r = MessageBus {
            subscriptions: Vec::new(),
            endpoints: NameMap::new(),
            turns: Turns::new(),
            number,
            messages: std::marker::PhantomData,
        };
        assert(r.subscriptions() =~= Seq::<Subscription<H>>::empty());
        r
    }

    /// Publishes a message: every subscription whose pattern matches the topic gets it, those of
    /// higher priority first and those of equal priority in the order in which they were made.
    pub fn publish(&mut self, topic: &str, msg: &M)
        requires
            old(self).wf(),
        ensures
            final(self).wf(),
            published(old(self), final(self), topic@, seq![*msg]),
    {
        let ghost subs = self.subscriptions();
        let ghost pred = |s: Subscription<H>| matches_pattern(s.topic, topic@);
        let ghost n = self.calls();
        let mut i: usize = 0;
        assert(subs.take(0).filter(pred) =~= Seq::<Subscription<H>>::empty()) by {
            reveal(Seq::filter);
        }
        while i < self.subscriptions.len()
            invariant
                old(self).wf(),
                self.endpoints == old(self).endpoints,
                self.number == old(self).number,
                subs == old(self).subscriptions(),
                n == old(self).calls(),
                pred == (|s: Subscription<H>| matches_pattern(s.topic, topic@)),
                self.subscriptions().len() == subs.len(),
                i <= subs.len(),
                self.calls() == n + subs.take(i as int).filter(pred).len(),
                forall|j: int|
                    0 <= j < i ==> received(
                        subs,
                        j,
                        #[trigger] self.subscriptions()[j],
                        topic@,
                        seq![*msg],
                        n,
                    ),
                forall|j: int|
                    i <= j < subs.len() ==> #[trigger] self.subscriptions()[j] == subs[j],
            decreases subs.len() - i,
        {
            let ghost here = self.subscriptions();
            proof {
                assert(subs.take(i + 1) =~= subs.take(i as int).push(subs[i as int]));
                filters::filter_of_push(subs.take(i as int), subs[i as int], pred);
                assert(here[i as int] == subs[i as int]);
            }
            if is_matching(self.subscriptions[i].topic.as_str(), topic) {
                let ghost had = subs[i as int].handler.log().calls;
                self.subscriptions[i].handler.handle(msg, &mut self.turns);
                proof {
                    let got = rounds(
                        seq![*msg],
                        n,
                        receivers(subs, topic@).len(),
                        rank(subs, topic@, i as int),
                    );
                    assert(had + got =~= had.push(
                        ((n + rank(subs, topic@, i as int)) as nat, *msg),
                    )) by {
                        assert(0 * receivers(subs, topic@).len() == 0) by (nonlinear_arith);
                    }
                }
            }
            assert forall|j: int| 0 <= j < i + 1 implies received(
                subs,
                j,
                #[trigger] self.subscriptions()[j],
                topic@,
                seq![*msg],
                n,
            ) by {
                if j < i {
                    assert(self.subscriptions()[j] == here[j]);
                }
            }
            assert forall|j: int| i + 1 <= j < subs.len() implies #[trigger] self.subscriptions()[j]
                == subs[j] by {
                assert(self.subscriptions()[j] == here[j]);
            }
            i = i + 1;
        }
        proof {
            assert(subs.take(subs.len() as int) =~= subs);
            assert(1 * receivers(subs, topic@).len() == receivers(subs, topic@).len())
                by (nonlinear_arith);
            let after = self.subscriptions();
            assert forall|a: int, b: int| 0 <= a < b < after.len() implies (
            #[trigger] after[a]).priority >= (#[trigger] after[b]).priority by {
                assert(received(subs, a, after[a], topic@, seq![*msg], n));
                assert(received(subs, b, after[b], topic@, seq![*msg], n));
                assert(subs[a].priority >= subs[b].priority);
            }
        }
    }

    /// Sends a message to an endpoint, if there is one of the name.
    pub fn send(&mut self, endpoint: &str, msg: &M)
        requires
            old(self).wf(),
        ensures
            final(self).wf(),
            sent(old(self), final(self), endpoint@, *msg),
    {
        match self.endpoints.remove(endpoint) {
            Some(handler) => {
                let mut called = handler;
                called.handle(msg, &mut self.turns);
                self.endpoints.insert(endpoint, called);
                assert(self.endpoints().dom() =~= old(self).endpoints().dom());
            },
            None => {
                assert(self.endpoints() =~= old(self).endpoints());
            },
        }
    }

    /// Subscribes a component to the topics of a pattern.
    pub fn subscribe(&mut self, topic: &str, component_id: u64, handler: H, priority: i32)
        requires
            old(self).wf(),
        ensures
            final(self).wf(),
            final(self).endpoints() == old(self).endpoints(),
            final(self).calls() == old(self).calls(),
            final(self).number() == old(self).number(),
            final(self).subscriptions() == subscribed(
                old(self).subscriptions(),
                (Subscription { topic: topic@, priority, component_id, handler }),
            ),
    {
        let ghost subs = self.subscriptions();
        let ghost sub = Subscription { topic: topic@, priority, component_id, handler };
        let mut at: usize = self.subscriptions.len();
        assert(subs.take(subs.len() as int) =~= subs);
        while at > 0 && self.subscriptions[at - 1].priority < priority
            invariant
                self == old(self),
                subs == self.subscriptions(),
                at <= subs.len(),
                place(subs, priority) == place(subs.take(at as int), priority),
            decreases at,
        {
            assert(subs.take(at as int).drop_last() =~= subs.take(at - 1));
            at = at - 1;
        }
        let entry = Entry { topic: topic.to_owned(), priority, component_id, handler };
        self.subscriptions.insert(at, entry);
        proof {
            assert(self.subscriptions() =~= subscribed(subs, sub));
            subscribing_keeps_the_order(subs, sub);
        }
    }

    /// Drops the subscriptions of a component, to one topic or to all.
    fn drop_subscriptions(&mut self, topic: Option<&str>, component_id: u64)
        requires
            old(self).wf(),
        ensures
            final(self).wf(),
            final(self).endpoints() == old(self).endpoints(),
            final(self).calls() == old(self).calls(),
            final(self).number() == old(self).number(),
            final(self).subscriptions() == old(self).subscriptions().filter(
                |s: Subscription<H>|
                    !(s.component_id == component_id && (topic is None || s.topic == topic->0@)),
            ),
    {
        let ghost subs = self.subscriptions();
        let ghost pred = |s: Subscription<H>|
            !(s.component_id == component_id && (topic is None || s.topic == topic->0@));
        let mut i: usize = 0;
        assert(subs.skip(0) =~= subs);
        assert(subs.take(0).filter(pred) =~= Seq::<Subscription<H>>::empty()) by {
            reveal(Seq::filter);
        }
        let mut done: Ghost<int> = Ghost(0);
        while i < self.subscriptions.len()
            invariant
                self.endpoints == old(self).endpoints,
                self.endpoints.wf(),
                subs == old(self).subscriptions(),
                old(self).wf(),
                pred == (|s: Subscription<H>|
                    !(s.component_id == component_id && (topic is None || s.topic == topic->0@))),
                0 <= done@ <= subs.len(),
                i <= self.subscriptions@.len(),
                self.subscriptions@.len() - i == subs.len() - done@,
                self.subscriptions() == subs.take(done@).filter(pred) + subs.skip(done@),
                i == subs.take(done@).filter(pred).len(),
                self.turns == old(self).turns,
                self.number == old(self).number,
            decreases self.subscriptions@.len() - i,
        {
            let ghost front = subs.take(done@).filter(pred);
            let ghost here = self.subscriptions();
            let entry = &self.subscriptions[i];
            let hit = match topic {
                Some(t) => same_text(entry.topic.as_str(), t),
                None => true,
            };
            let drop = entry.component_id == component_id && hit;
            proof {
                assert(here[i as int] == subs.skip(done@)[0]);
                assert(subs.skip(done@)[0] == subs[done@]);
                assert(subs.take(done@ + 1) =~= subs.take(done@).push(subs[done@]));
                filters::filter_of_push(subs.take(done@), subs[done@], pred);
                assert(drop == !pred(subs[done@]));
                assert(subs.skip(done@).skip(1) =~= subs.skip(done@ + 1));
            }
            if drop {
                self.subscriptions.remove(i);
                assert(self.subscriptions() =~= here.remove(i as int));
                assert(here.remove(i as int) =~= front + subs.skip(done@ + 1));
            } else {
                assert(here =~= front.push(subs[done@]) + subs.skip(done@ + 1));
                i = i + 1;
            }
            proof {
                done@ = done@ + 1;
            }
        }
        proof {
            assert(done@ == subs.len());
            assert(subs.take(done@) =~= subs);
            assert(subs.skip(done@).len() == 0);
            assert(self.subscriptions() =~= subs.filter(pred));
            filtering_keeps_the_order(subs, pred);
        }
    }

    /// Drops the subscriptions of a component to a topic.
    pub fn unsubscribe(&mut self, topic: &str, component_id: u64)
        requires
            old(self).wf(),
        ensures
            final(self).wf(),
            final(self).endpoints() == old(self).endpoints(),
            final(self).calls() == old(self).calls(),
            final(self).number() == old(self).number(),
            final(self).subscriptions() == unsubscribed(
                old(self).subscriptions(),
                topic@,
                component_id,
            ),
    {
        self.drop_subscriptions(Some(topic), component_id);
        proof {
            let one = Some(topic);
            assert((|s: Subscription<H>|
                !(s.component_id == component_id && (one is None || s.topic == one->0@))) =~= (
            |s: Subscription<H>| !(s.topic == topic@ && s.component_id == component_id)));
        }
    }

    /// Drops all subscriptions of a component.
    pub fn unsubscribe_all(&mut self, component_id: u64)
        requires
            old(self).wf(),
        ensures
            final(self).wf(),
            final(self).endpoints() == old(self).endpoints(),
            final(self).calls() == old(self).calls(),
            final(self).number() == old(self).number(),
            final(self).subscriptions() == without_component(
                old(self).subscriptions(),
                component_id,
            ),
    {
        self.drop_subscriptions(None, component_id);
        proof {
            let none = None::<&str>;
            assert((|s: Subscription<H>|
                !(s.component_id == component_id && (none is None || s.topic == none->0@))) =~= (
            |s: Subscription<H>| s.component_id != component_id));
        }
    }

    /// Registers an endpoint. One of the same name is replaced.
    pub fn register(&mut self, endpoint: &str, handler: H)
        requires
            old(self).wf(),
        ensures
            final(self).wf(),
            final(self).subscriptions() == old(self).subscriptions(),
            final(self).calls() == old(self).calls(),
            final(self).number() == old(self).number(),
            final(self).endpoints() == old(self).endpoints().insert(endpoint@, handler),
    {
        self.endpoints.insert(endpoint, handler);
    }
}

/// In a list in order of priority, a subscription is put behind all of its priority or a higher
/// one and before all others.
pub proof fn place_is_by_priority<H>(subs: Seq<Subscription<H>>, priority: i32)
    requires
        by_priority(subs),
    ensures
        0 <= place(subs, priority) <= subs.len(),
        forall|i: int|
            0 <= i < place(subs, priority) ==> (#[trigger] subs[i]).priority >= priority,
        forall|i: int|
            place(subs, priority) <= i < subs.len() ==> (#[trigger] subs[i]).priority < priority,
    decreases subs.len(),
{
    if subs.len() > 0 && subs.last().priority < priority {
        let front = subs.drop_last();
        assert forall|i: int, j: int| 0 <= i < j < front.len() implies (#[trigger] front[i]).priority
            >= (#[trigger] front[j]).priority by {
            assert(subs[i].priority >= subs[j].priority);
        }
        place_is_by_priority(front, priority);
        assert forall|i: int| 0 <= i < place(subs, priority) implies (#[trigger] subs[i]).priority
            >= priority by {
            assert(front[i] == subs[i]);
        }
        assert forall|i: int| place(subs, priority) <= i < subs.len() implies (
        #[trigger] subs[i]).priority < priority by {
            if i < front.len() {
                assert(front[i] == subs[i]);
            }
        }
    } else if subs.len() > 0 {
        assert forall|i: int| 0 <= i < subs.len() implies (#[trigger] subs[i]).priority
            >= priority by {
            if i < subs.len() - 1 {
                assert(subs[i].priority >= subs[subs.len() - 1].priority);
            }
        }
    }
}

/// Subscribing keeps the order of priority.
pub proof fn subscribing_keeps_the_order<H>(subs: Seq<Subscription<H>>, sub: Subscription<H>)
    requires
        by_priority(subs),
    ensures
        by_priority(subscribed(subs, sub)),
{
    place_is_by_priority(subs, sub.priority);
    let at = place(subs, sub.priority);
    let r = subscribed(subs, sub);
    assert forall|i: int, j: int| 0 <= i < j < r.len() implies (#[trigger] r[i]).priority >= (
    #[trigger] r[j]).priority by {
        let a = if i < at { i } else { i - 1 };
        let b = if j < at { j } else { j - 1 };
        if i != at {
            assert(r[i] == subs[a]);
        }
        if j != at {
            assert(r[j] == subs[b]);
        }
    }
}

/// Dropping subscriptions keeps the order of priority of the others.
pub proof fn filtering_keeps_the_order<H>(
    subs: Seq<Subscription<H>>,
    pred: spec_fn(Subscription<H>) -> bool,
)
    requires
        by_priority(subs),
    ensures
        by_priority(subs.filter(pred)),
    decreases subs.len(),
{
    reveal(Seq::filter);
    if subs.len() > 0 {
        let front = subs.drop_last();
        assert forall|i: int, j: int| 0 <= i < j < front.len() implies (#[trigger] front[i]).priority
            >= (#[trigger] front[j]).priority by {
            assert(subs[i].priority >= subs[j].priority);
        }
        filtering_keeps_the_order(front, pred);
        let kept = front.filter(pred);
        let r = subs.filter(pred);
        if pred(subs.last()) {
            assert(r == kept.push(subs.last()));
            assert forall|i: int, j: int| 0 <= i < j < r.len() implies (#[trigger] r[i]).priority
                >= (#[trigger] r[j]).priority by {
                assert(r[i] == kept[i]);
                if j < kept.len() {
                    assert(r[j] == kept[j]);
                } else {
                    assert(kept.contains(kept[i]));
                    front.lemma_filter_contains_rev(pred, kept[i]);
                    let k = choose|k: int| 0 <= k < front.len() && front[k] == kept[i];
                    assert(subs[k].priority >= subs[subs.len() - 1].priority);
                }
            }
        }
    }
}

/// Those of higher priority get a message first.
pub proof fn higher_priority_receives_first<H>(subs: Seq<Subscription<H>>, topic: Seq<char>)
    requires
        by_priority(subs),
    ensures
        by_priority(receivers(subs, topic)),
{
    filtering_keeps_the_order(subs, |s: Subscription<H>| matches_pattern(s.topic, topic));
}

/// Unsubscribing takes a subscription back, where the component had none to the topic before.
pub proof fn unsubscribing_undoes_subscribing<H>(
    subs: Seq<Subscription<H>>,
    sub: Subscription<H>,
)
    requires
        by_priority(subs),
        forall|i: int|
            0 <= i < subs.len() ==> !((#[trigger] subs[i]).topic == sub.topic
                && subs[i].component_id == sub.component_id),
    ensures
        unsubscribed(subscribed(subs, sub), sub.topic, sub.component_id) == subs,
{
    let pred = |s: Subscription<H>|
        !(s.topic == sub.topic && s.component_id == sub.component_id);
    place_is_by_priority(subs, sub.priority);
    let at = place(subs, sub.priority);
    let a = subs.take(at);
    let b = subs.skip(at);
    assert(subs =~= a + b);
    assert(subscribed(subs, sub) =~= a.push(sub) + b);
    filters::filter_of_parts(a.push(sub), b, pred);
    filters::filter_of_push(a, sub, pred);
    filters::filter_of_all(a, pred);
    filters::filter_of_all(b, pred);
}

/// Two publishings on one topic, one after the other.
pub proof fn publishing_twice<M, H: Handler<M>>(
    before: &MessageBus<M, H>,
    between: &MessageBus<M, H>,
    after: &MessageBus<M, H>,
    topic: Seq<char>,
    first: M,
    second: M,
)
    requires
        published(before, between, topic, seq![first]),
        published(between, after, topic, seq![second]),
    ensures
        published(before, after, topic, seq![first, second]),
{
    let a = before.subscriptions();
    let b = between.subscriptions();
    let c = after.subscriptions();
    let n = before.calls();
    lemma_same_receivers(before, between, topic, seq![first], a.len() as int);
    assert(a.take(a.len() as int) =~= a);
    assert(b.take(b.len() as int) =~= b);
    let size = receivers(a, topic).len();
    assert(1 * size == size && 2 * size == size + size && 0 * size == 0) by (nonlinear_arith);
    assert forall|i: int| 0 <= i < a.len() implies received(
        a,
        i,
        #[trigger] c[i],
        topic,
        seq![first, second],
        n,
    ) by {
        assert(received(a, i, b[i], topic, seq![first], n));
        assert(received(b, i, c[i], topic, seq![second], between.calls()));
        if matches_pattern(a[i].topic, topic) {
            lemma_same_receivers(before, between, topic, seq![first], i);
            let k = rank(a, topic, i);
            assert(rank(b, topic, i) == k);
            let one = rounds(seq![first], n, size, k);
            let two = rounds(seq![second], between.calls(), size, k);
            let both = rounds(seq![first, second], n, size, k);
            assert(one.len() == 1 && two.len() == 1 && both.len() == 2);
            assert(one[0] == both[0]);
            assert(two[0] == both[1]);
            assert(one + two =~= both);
            assert(a[i].handler.log().calls + one + two =~= a[i].handler.log().calls + both);
        }
    }
}

/// Publishing leaves the receivers of a topic in their places.
proof fn lemma_same_receivers<M, H: Handler<M>>(
    before: &MessageBus<M, H>,
    after: &MessageBus<M, H>,
    topic: Seq<char>,
    msgs: Seq<M>,
    i: int,
)
    requires
        published(before, after, topic, msgs),
        0 <= i <= before.subscriptions().len(),
    ensures
        receivers(after.subscriptions().take(i), topic).len() == receivers(
            before.subscriptions().take(i),
            topic,
        ).len(),
    decreases i,
{
    let a = before.subscriptions();
    let b = after.subscriptions();
    let pred = |s: Subscription<H>| matches_pattern(s.topic, topic);
    if i > 0 {
        lemma_same_receivers(before, after, topic, msgs, i - 1);
        assert(a.take(i) =~= a.take(i - 1).push(a[i - 1]));
        assert(b.take(i) =~= b.take(i - 1).push(b[i - 1]));
        filters::filter_of_push(a.take(i - 1), a[i - 1], pred);
        filters::filter_of_push(b.take(i - 1), b[i - 1], pred);
        assert(received(a, i - 1, b[i - 1], topic, msgs, before.calls()));
    } else {
        assert(a.take(0) =~= Seq::<Subscription<H>>::empty());
        assert(b.take(0) =~= Seq::<Subscription<H>>::empty());
        reveal(Seq::filter);
    }
}

/// The number of receivers before a place grows by each receiver.
proof fn lemma_rank_grows<H>(subs: Seq<Subscription<H>>, topic: Seq<char>, i: int, j: int)
    requires
        0 <= i < j <= subs.len(),
        matches_pattern(subs[i].topic, topic),
    ensures
        rank(subs, topic, i) < rank(subs, topic, j),
    decreases j,
{
    let pred = |s: Subscription<H>| matches_pattern(s.topic, topic);
    assert(subs.take(j) =~= subs.take(j - 1).push(subs[j - 1]));
    filters::filter_of_push(subs.take(j - 1), subs[j - 1], pred);
    if i < j - 1 {
        lemma_rank_grows(subs, topic, i, j - 1);
    }
}

/// A subscription whose pattern matches gets a published message exactly once, and one whose
/// pattern does not match is not called.
pub proof fn receiver_gets_a_message_once<M, H: Handler<M>>(
    before: &MessageBus<M, H>,
    after: &MessageBus<M, H>,
    topic: Seq<char>,
    msg: M,
    i: int,
)
    requires
        published(before, after, topic, seq![msg]),
        0 <= i < before.subscriptions().len(),
    ensures
        matches_pattern(before.subscriptions()[i].topic, topic)
            ==> after.subscriptions()[i].handler.log().calls
            == before.subscriptions()[i].handler.log().calls.push(
            ((before.calls() + rank(before.subscriptions(), topic, i)) as nat, msg),
        ),
        !matches_pattern(before.subscriptions()[i].topic, topic)
            ==> after.subscriptions()[i].handler == before.subscriptions()[i].handler,
{
    let a = before.subscriptions();
    let size = receivers(a, topic).len();
    assert(received(a, i, after.subscriptions()[i], topic, seq![msg], before.calls()));
    assert(0 * size == 0) by (nonlinear_arith);
    let had = a[i].handler.log().calls;
    let k = rank(a, topic, i);
    assert(had + rounds(seq![msg], before.calls(), size, k) =~= had.push(
        ((before.calls() + k) as nat, msg),
    ));
}

/// Of two receivers of a message, the one of higher priority is called first.
pub proof fn higher_priority_is_called_first<M, H: Handler<M>>(
    before: &MessageBus<M, H>,
    after: &MessageBus<M, H>,
    topic: Seq<char>,
    msg: M,
    i: int,
    j: int,
)
    requires
        before.wf(),
        published(before, after, topic, seq![msg]),
        0 <= i < before.subscriptions().len(),
        0 <= j < before.subscriptions().len(),
        matches_pattern(before.subscriptions()[i].topic, topic),
        matches_pattern(before.subscriptions()[j].topic, topic),
        before.subscriptions()[i].priority > before.subscriptions()[j].priority,
    ensures
        after.subscriptions()[i].handler.log().calls.last().0
            < after.subscriptions()[j].handler.log().calls.last().0,
{
    let subs = before.subscriptions();
    receiver_gets_a_message_once(before, after, topic, msg, i);
    receiver_gets_a_message_once(before, after, topic, msg, j);
    if j < i {
        assert(subs[j].priority >= subs[i].priority);
    }
    assert(i != j);
    lemma_rank_grows(subs, topic, i, j);
}

/// Of two receivers of a message, the one before the other in the list is called first. A new
/// subscription is put behind all of its priority.
pub proof fn receivers_are_called_in_their_order<M, H: Handler<M>>(
    before: &MessageBus<M, H>,
    after: &MessageBus<M, H>,
    topic: Seq<char>,
    msg: M,
    i: int,
    j: int,
)
    requires
        published(before, after, topic, seq![msg]),
        0 <= i < j < before.subscriptions().len(),
        matches_pattern(before.subscriptions()[i].topic, topic),
        matches_pattern(before.subscriptions()[j].topic, topic),
    ensures
        after.subscriptions()[i].handler.log().calls.last().0
            < after.subscriptions()[j].handler.log().calls.last().0,
{
    receiver_gets_a_message_once(before, after, topic, msg, i);
    receiver_gets_a_message_once(before, after, topic, msg, j);
    lemma_rank_grows(before.subscriptions(), topic, i, j);
}

/// A component that has dropped all its subscriptions receives nothing, and dropping them again
/// changes nothing.
pub proof fn dropped_component_receives_nothing<H>(
    subs: Seq<Subscription<H>>,
    component_id: u64,
    topic: Seq<char>,
)
    ensures
        forall|i: int|
            0 <= i < receivers(without_component(subs, component_id), topic).len() ==> (
            #[trigger] receivers(without_component(subs, component_id), topic)[i]).component_id
                != component_id,
        without_component(without_component(subs, component_id), component_id)
            == without_component(subs, component_id),
{
    let pred = |s: Subscription<H>| s.component_id != component_id;
    let left = without_component(subs, component_id);
    let topics = |s: Subscription<H>| matches_pattern(s.topic, topic);
    lemma_kept_pass(subs, pred);
    filters::filter_of_all(left, pred);
    let got = receivers(left, topic);
    assert forall|i: int| 0 <= i < got.len() implies (#[trigger] got[i]).component_id
        != component_id by {
        assert(got.contains(got[i]));
        left.lemma_filter_contains_rev(topics, got[i]);
        let k = choose|k: int| 0 <= k < left.len() && left[k] == got[i];
        assert(pred(left[k]));
    }
}

/// A component that has dropped its subscriptions to a topic has none left under that topic.
pub proof fn dropped_topic_is_gone<H>(
    subs: Seq<Subscription<H>>,
    topic: Seq<char>,
    component_id: u64,
)
    ensures
        forall|i: int|
            0 <= i < unsubscribed(subs, topic, component_id).len() ==> !((
            #[trigger] unsubscribed(subs, topic, component_id)[i]).topic == topic
                && unsubscribed(subs, topic, component_id)[i].component_id == component_id),
{
    lemma_kept_pass(
        subs,
        |s: Subscription<H>| !(s.topic == topic && s.component_id == component_id),
    );
}

proof fn lemma_kept_pass<H>(
    subs: Seq<Subscription<H>>,
    pred: spec_fn(Subscription<H>) -> bool,
)
    ensures
        forall|i: int|
            0 <= i < subs.filter(pred).len() ==> pred(#[trigger] subs.filter(pred)[i]),
    decreases subs.len(),
{
    reveal(Seq::filter);
    if subs.len() > 0 {
        lemma_kept_pass(subs.drop_last(), pred);
    }
}

/// A question mark stands for exactly one character, whatever it is, and any character but a star
/// for itself.
pub proof fn question_mark_stands_for_one(c: char, d: char, rest: Seq<char>, topic: Seq<char>)
    requires
        c != '*',
    ensures
        matches_pattern(seq!['?'] + rest, seq![d] + topic) == matches_pattern(rest, topic),
        c != '?' ==> matches_pattern(seq![c] + rest, seq![d] + topic) == (c == d && matches_pattern(
            rest,
            topic,
        )),
        !matches_pattern(seq![c] + rest, seq![]),
        !matches_pattern(seq![], seq![d] + topic),
        matches_pattern(seq![], seq![]),
{
    assert((seq!['?'] + rest).skip(1) =~= rest);
    assert((seq![c] + rest).skip(1) =~= rest);
    assert((seq![d] + topic).skip(1) =~= topic);
}

/// Dropping the subscriptions of a component to a topic, or of a component, drops those and leaves all
/// others; a message goes to those whose topic matches and to no others.
pub proof fn only_those_are_dropped<H>(
    subs: Seq<Subscription<H>>,
    topic: Seq<char>,
    component_id: u64,
    i: int,
)
    requires
        0 <= i < subs.len(),
    ensures
        unsubscribed(subs, topic, component_id).contains(subs[i]) <==> !(subs[i].topic == topic
            && subs[i].component_id == component_id),
        without_component(subs, component_id).contains(subs[i]) <==> subs[i].component_id
            != component_id,
        receivers(subs, topic).contains(subs[i]) <==> matches_pattern(subs[i].topic, topic),
{
    lemma_kept_exactly(
        subs,
        |s: Subscription<H>| !(s.topic == topic && s.component_id == component_id),
        i,
    );
    lemma_kept_exactly(subs, |s: Subscription<H>| s.component_id != component_id, i);
    lemma_kept_exactly(subs, |s: Subscription<H>| matches_pattern(s.topic, topic), i);
}

proof fn lemma_kept_exactly<H>(
    subs: Seq<Subscription<H>>,
    pred: spec_fn(Subscription<H>) -> bool,
    i: int,
)
    requires
        0 <= i < subs.len(),
    ensures
        subs.filter(pred).contains(subs[i]) <==> pred(subs[i]),
{
    if pred(subs[i]) {
        subs.lemma_filter_contains(pred, i);
    }
    if subs.filter(pred).contains(subs[i]) {
        let k = choose|k: int| 0 <= k < subs.filter(pred).len() && subs.filter(pred)[k] == subs[i];
        subs.lemma_filter_pred(pred, k);
    }
}

/// A new subscription stands behind all of its priority or a higher one and before all of a lower
/// one, and changes nothing in the order of the others.
pub proof fn subscribing_adds_one<H>(subs: Seq<Subscription<H>>, sub: Subscription<H>)
    requires
        by_priority(subs),
    ensures
        ({
            let r = subscribed(subs, sub);
            &&& r.len() == subs.len() + 1
            &&& exists|at: int|
                {
                    &&& 0 <= at <= subs.len()
                    &&& #[trigger] r[at] == sub
                    &&& r.remove(at) == subs
                    &&& forall|i: int| 0 <= i < at ==> (#[trigger] r[i]).priority >= sub.priority
                    &&& forall|i: int|
                        at < i < r.len() ==> (#[trigger] r[i]).priority < sub.priority
                }
        }),
{
    place_is_by_priority(subs, sub.priority);
    let at = place(subs, sub.priority);
    let r = subscribed(subs, sub);
    assert(r[at] == sub);
    assert(r.remove(at) =~= subs);
    assert forall|i: int| 0 <= i < at implies (#[trigger] r[i]).priority >= sub.priority by {
        assert(r[i] == subs[i]);
    }
    assert forall|i: int| at < i < r.len() implies (#[trigger] r[i]).priority < sub.priority by {
        assert(r[i] == subs[i - 1]);
    }
}

/// A message to an endpoint is given to its handler once, and to nobody else; where the endpoint is
/// not known, to nobody.
pub proof fn endpoint_gets_a_message_once<M, H: Handler<M>>(
    before: &MessageBus<M, H>,
    after: &MessageBus<M, H>,
    endpoint: Seq<char>,
    msg: M,
    other: Seq<char>,
)
    requires
        sent(before, after, endpoint, msg),
        other != endpoint,
        before.endpoints().dom().contains(other),
    ensures
        after.endpoints()[other] == before.endpoints()[other],
        after.subscriptions() == before.subscriptions(),
        before.endpoints().dom().contains(endpoint) ==> {
            let calls = after.endpoints()[endpoint].log().calls;
            &&& calls.len() == before.endpoints()[endpoint].log().calls.len() + 1
            &&& calls.last().1 == msg
            &&& calls.drop_last() == before.endpoints()[endpoint].log().calls
        },
        !before.endpoints().dom().contains(endpoint) ==> after.calls() == before.calls(),
{
    if before.endpoints().dom().contains(endpoint) {
        let calls = after.endpoints()[endpoint].log().calls;
        assert(calls.drop_last() =~= before.endpoints()[endpoint].log().calls);
    }
}

} // verus!
