//! Handlers of messages, and the order in which they are called.

use vstd::prelude::*;

verus! {

/// How many calls of handlers have been made.
pub struct Turns {
    count: Ghost<nat>,
}

impl Turns {
    /// The number of calls.
    pub closed spec fn count(&self) -> nat {
        self.count@
    }

    /// No call has been made.
    pub fn new() -> (r: Self)
        ensures
            r.count() == 0,
    {
        Turns { count: Ghost(0) }
    }

    /// One more call is made.
    pub fn pass(&mut self)
        ensures
            final(self).count() == old(self).count() + 1,
    {
        self.count = Ghost(self.count@ + 1);
    }
}

/// What a handler was called with: each message, with the number of calls of any handler that had
/// been made before.
pub struct Log<M> {
    pub calls: Seq<(nat, M)>,
}

/// What is called with a message.
pub trait Handler<M>: Sized {
    /// What the handler was called with so far.
    spec fn log(&self) -> Log<M>;

    /// Handles a message.
    fn handle(&mut self, msg: &M, turns: &mut Turns)
        ensures
            final(self).log().calls == old(self).log().calls.push((old(turns).count(), *msg)),
            final(turns).count() == old(turns).count() + 1,
    ;
}

/// A function takes any message.
pub open spec fn takes_all<M, F: Fn(&M)>(f: F) -> bool {
    forall|m: &M| #[trigger] call_requires(f, (m,))
}

/// A function that takes any message.
struct Action<M, F: Fn(&M)> {
    f: F,
    messages: std::marker::PhantomData<M>,
}

impl<M, F: Fn(&M)> Action<M, F> {
    #[verifier::type_invariant]
    spec fn inv(self) -> bool {
        takes_all::<M, F>(self.f)
    }

    fn run(&self, msg: &M)
        ensures
            call_ensures(self.f, (msg,), ()),
    {
        proof {
            use_type_invariant(self);
        }
        (self.f)(msg)
    }
}

/// A handler that calls a function.
pub struct Callback<M, F: Fn(&M)> {
    action: Action<M, F>,
    calls: Ghost<Seq<(nat, M)>>,
}

impl<M, F: Fn(&M)> Callback<M, F> {
    /// The function.
    pub closed spec fn function(&self) -> F {
        self.action.f
    }

    /// A handler that calls a function, and was not called yet.
    pub fn new(f: F) -> (r: Self)
        requires
            takes_all::<M, F>(f),
        ensures
            r.function() == f,
            r.log().calls == Seq::<(nat, M)>::empty(),
    {
        Callback {
            action: Action { f, messages: std::marker::PhantomData },
            calls: Ghost(Seq::empty()),
        }
    }
}

impl<M, F: Fn(&M)> Handler<M> for Callback<M, F> {
    closed spec fn log(&self) -> Log<M> {
        Log { calls: self.calls@ }
    }

    /// The function has been called with the message.
    fn handle(&mut self, msg: &M, turns: &mut Turns)
        ensures
            final(self).function() == old(self).function(),
            call_ensures(old(self).function(), (msg,), ()),
    {
        self.action.run(msg);
        self.calls = Ghost(self.calls@.push((turns.count(), *msg)));
        turns.pass();
    }
}

} // verus!
