//! The diagnostics debouncer: of the items sent to it, it emits the latest,
//! once, after a quiet period.
//!
//! Time is a count of milliseconds that the caller reads from its clock and
//! hands in. An item that is sent replaces the one that waits and restarts
//! the wait.

use vstd::prelude::*;

verus! {

/// When an item that is sent at `now` is due.
pub open spec fn due(now: u64, delay: u64) -> u64 {
    if now + delay <= u64::MAX {
        (now + delay) as u64
    } else {
        u64::MAX
    }
}

/// The state after an item was sent: it waits, and whatever waited is gone.
pub open spec fn after_send<T>(state: Option<(T, u64)>, item: T, now: u64, delay: u64) -> Option<
    (T, u64),
> {
    Some((item, due(now, delay)))
}

/// What a poll at `now` emits: the item that waits, if it is due.
pub open spec fn emitted<T>(state: Option<(T, u64)>, now: u64) -> Option<T> {
    match state {
        Some((item, at)) => if now >= at {
            Some(item)
        } else {
            None
        },
        None => None,
    }
}

/// The state after a poll at `now`: an item that was emitted waits no more.
pub open spec fn after_poll<T>(state: Option<(T, u64)>, now: u64) -> Option<(T, u64)> {
    match state {
        Some((item, at)) => if now >= at {
            None
        } else {
            state
        },
        None => None,
    }
}

/// Of two items sent one after the other, only the later one waits, with its
/// own delay: the earlier one is never emitted.
pub proof fn lemma_latest_replaces<T>(
    state: Option<(T, u64)>,
    first: T,
    first_now: u64,
    first_delay: u64,
    second: T,
    second_now: u64,
    second_delay: u64,
)
    ensures
        after_send(after_send(state, first, first_now, first_delay), second, second_now, second_delay)
            == after_send(state, second, second_now, second_delay),
{
}

/// An item that was sent is emitted by the first poll at or after its due
/// time, and by no poll before and no poll after: one publication for each
/// quiet period.
pub proof fn lemma_emitted_once<T>(
    state: Option<(T, u64)>,
    item: T,
    now: u64,
    delay: u64,
    early: u64,
    first: u64,
    later: u64,
)
    requires
        early < due(now, delay) <= first,
    ensures
        emitted(after_send(state, item, now, delay), early) is None,
        after_poll(after_send(state, item, now, delay), early) == after_send(state, item, now, delay),
        emitted(after_send(state, item, now, delay), first) == Some(item),
        emitted(after_poll(after_send(state, item, now, delay), first), later) is None,
{
}

/// The item that waits for its quiet period to end.
pub struct Debouncer<T> {
    pending: Option<(T, u64)>,
}

impl<T> View for Debouncer<T> {
    type V = Option<(T, u64)>;

    closed spec fn view(&self) -> Option<(T, u64)> {
        self.pending
    }
}

impl<T> Debouncer<T> {
    /// A debouncer in which nothing waits.
    pub fn new() -> (debouncer: Debouncer<T>)
        ensures
            debouncer@ is None,
    {
        Debouncer { pending: None }
    }

    /// Sends an item at time `now`. It replaces the item that waits, and is
    /// due after `delay`.
    pub fn send(&mut self, item: T, now: u64, delay: u64)
        ensures
            final(self)@ == after_send(old(self)@, item, now, delay),
    {
        let at = if delay <= u64::MAX - now {
            now + delay
        } else {
            u64::MAX
        };
        self.pending = Some((item, at));
    }

    /// When the item that waits is due, if one waits.
    pub fn deadline(&self) -> (at: Option<u64>)
        ensures
            at == match self@ {
                Some((_, due)) => Some(due),
                None => None,
            },
    {
        match &self.pending {
            Some((_, at)) => Some(*at),
            None => None,
        }
    }

    /// Emits the item that waits, if it is due at `now`. It waits no more then.
    pub fn poll(&mut self, now: u64) -> (item: Option<T>)
        ensures
            item == emitted(old(self)@, now),
            final(self)@ == after_poll(old(self)@, now),
    {
        let ready = match &self.pending {
            Some((_, at)) => now >= *at,
            None => false,
        };
        if ready {
            let mut taken: Option<(T, u64)> = None;
            std::mem::swap(&mut self.pending, &mut taken);
            match taken {
                Some((item, _)) => Some(item),
                None => None,
            }
        } else {
            None
        }
    }
}

} // verus!
