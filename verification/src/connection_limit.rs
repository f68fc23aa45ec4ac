//! A limit on how many connections are served at once.

use vstd::prelude::*;

verus! {

/// How many connections are served, and how many may be.
#[derive(Debug)]
pub struct ConnectionLimiter {
    active: usize,
    max: usize,
}

/// What a [`ConnectionLimiter`] counts.
pub struct LimiterView {
    /// How many connections are served.
    pub active: int,
    /// How many connections may be served.
    pub max: int,
}

impl View for ConnectionLimiter {
    type V = LimiterView;

    closed spec fn view(&self) -> LimiterView {
        LimiterView { active: self.active as int, max: self.max as int }
    }
}

impl LimiterView {
    /// Whether another connection may be served.
    pub open spec fn has_room(self) -> bool {
        self.active < self.max
    }

    /// The count once a connection asked for a slot.
    pub open spec fn acquired(self) -> LimiterView {
        if self.has_room() {
            LimiterView { active: self.active + 1, max: self.max }
        } else {
            self
        }
    }

    /// The count once a connection has ended.
    pub open spec fn released(self) -> LimiterView {
        LimiterView { active: self.active - 1, max: self.max }
    }
}

impl ConnectionLimiter {
    #[verifier::type_invariant]
    spec fn within(self) -> bool {
        self.active <= self.max
    }

    /// A limit of `max` connections, none of which is served.
    pub fn new(max: usize) -> (r: Self)
        ensures
            r@ == (LimiterView { active: 0, max: max as int }),
    {
        ConnectionLimiter { active: 0, max }
    }

    /// Takes a slot for a connection, if one is free.
    pub fn acquire(&mut self) -> (r: bool)
        ensures
            r == old(self)@.has_room(),
            final(self)@ == old(self)@.acquired(),
    {
        proof {
            use_type_invariant(&*self);
        }
        if self.active >= self.max {
            return false;
        }
        self.active = self.active + 1;
        true
    }

    /// Gives back the slot of a connection that has ended.
    pub fn release(&mut self)
        requires
            old(self)@.active > 0,
        ensures
            final(self)@ == old(self)@.released(),
    {
        proof {
            use_type_invariant(&*self);
        }
        self.active = self.active - 1;
    }

    /// How many connections are served: never more than the limit.
    pub fn active(&self) -> (r: usize)
        ensures
            r == self@.active,
            0 <= self@.active <= self@.max,
    {
        proof {
            use_type_invariant(self);
        }
        self.active
    }
}

/// A slot that is given back leaves the count as it was before it was taken.
pub proof fn law_release_undoes_acquire(s: LimiterView)
    requires
        s.has_room(),
    ensures
        s.acquired().released() == s,
{
}

/// The count stays within the limit, and a full limit grants nothing until a slot is given
/// back.
pub proof fn law_limit_holds(s: LimiterView)
    requires
        0 <= s.active <= s.max,
    ensures
        0 <= s.acquired().active <= s.max,
        !s.has_room() ==> s.acquired() == s,
        s.active > 0 ==> s.released().has_room(),
{
}

/// There is room for a connection exactly while fewer are served than may be; a connection that
/// gets room is counted, one that has ended is counted no longer, and the limit stays.
pub proof fn law_connections_are_counted(s: LimiterView)
    ensures
        s.has_room() <==> s.active < s.max,
        s.active < s.max ==> s.acquired().active == s.active + 1,
        s.active >= s.max ==> s.acquired().active == s.active,
        s.acquired().max == s.max,
        s.released().active == s.active - 1,
        s.released().max == s.max,
{
}

} // verus!
