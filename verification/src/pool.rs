//! The delayed-delivery pool and its per-tick processing pass.

use vstd::prelude::*;

use crate::timer::Countdown;
use crate::timer::TimedEntry;

verus! {

/// The payloads that come due when `entries` is advanced by `elapsed`: the
/// messages of the entries whose countdown is finished after the advance,
/// kept in enqueue order.
pub open spec fn due_messages<M>(entries: Seq<TimedEntry<M>>, elapsed: u64) -> Seq<M>
    decreases entries.len(),
{
    if entries.len() == 0 {
        Seq::empty()
    } else {
        let front = due_messages(entries.drop_last(), elapsed);
        let last = entries.last().advanced(elapsed);
        if last.countdown.finished {
            front.push(last.message)
        } else {
            front
        }
    }
}

/// The entries that stay queued when `entries` is advanced by `elapsed`: the
/// entries whose countdown is still running after the advance, with their
/// countdowns advanced, kept in enqueue order.
pub open spec fn kept_entries<M>(entries: Seq<TimedEntry<M>>, elapsed: u64) -> Seq<TimedEntry<M>>
    decreases entries.len(),
{
    if entries.len() == 0 {
        Seq::empty()
    } else {
        let front = kept_entries(entries.drop_last(), elapsed);
        let last = entries.last().advanced(elapsed);
        if last.countdown.finished {
            front
        } else {
            front.push(last)
        }
    }
}

/// Whether a processing pass over `entries` with `elapsed` drains the pool:
/// it delivers at least one payload and leaves no entry queued. Only such a
/// pass fires the drain action.
pub open spec fn drains<M>(entries: Seq<TimedEntry<M>>, elapsed: u64) -> bool {
    due_messages(entries, elapsed).len() > 0 && kept_entries(entries, elapsed).len() == 0
}

/// A payload type the pool can hand out repeatedly. The pool keeps one drain
/// payload for its whole lifetime and hands out a fresh copy each time the
/// pool drains, so the payload must be duplicable.
pub trait Duplicable: Sized {
    /// Produce a value equal to `self`.
    fn duplicate(&self) -> (r: Self)
        ensures
            r == *self,
    ;
}

impl Duplicable for u64 {
    fn duplicate(&self) -> u64 {
        *self
    }
}

impl Duplicable for u32 {
    fn duplicate(&self) -> u32 {
        *self
    }
}

impl Duplicable for i64 {
    fn duplicate(&self) -> i64 {
        *self
    }
}

impl Duplicable for i32 {
    fn duplicate(&self) -> i32 {
        *self
    }
}

impl Duplicable for bool {
    fn duplicate(&self) -> bool {
        *self
    }
}

/// Notification that a pool drained. Carries the identity of the drained
/// pool instance, as assigned by the host that owns the pools.
#[derive(Clone, Copy, PartialEq, Eq, Structural, Debug)]
pub struct MessagePoolEmptied(pub u64);

impl Duplicable for MessagePoolEmptied {
    fn duplicate(&self) -> MessagePoolEmptied {
        *self
    }
}

/// What one processing pass hands back to the caller.
pub struct ProcessOutcome<M, D> {
    /// The payloads that came due in this pass, in enqueue order. The caller
    /// routes them to the delivery sink.
    pub delivered: Vec<M>,
    /// A copy of the registered drain payload, present exactly when this
    /// pass delivered at least one payload and left the pool empty.
    pub drained: Option<D>,
}

/// A delayed-delivery queue: an ordered collection of timed entries plus an
/// optional drain payload. `M` is the delivered payload type; a host that
/// queues payloads of several concrete types wraps them in one adapter type,
/// typically an enum with a variant per payload type. `D` is the drain
/// payload type.
///
/// Each instance is independent: no state is shared between pools, so
/// operations on one instance never affect another.
pub struct MessagePool<M, D> {
    messages: Vec<TimedEntry<M>>,
    when_emptied: Option<D>,
}

impl<M, D> MessagePool<M, D> {
    /// The queued entries, in enqueue order.
    pub closed spec fn entries(self) -> Seq<TimedEntry<M>> {
        self.messages@
    }

    /// The registered drain payload, if any.
    pub closed spec fn drain_payload(self) -> Option<D> {
        self.when_emptied
    }

    /// An empty pool with no drain payload registered.
    pub fn new() -> (r: MessagePool<M, D>)
        ensures
            r.entries() == Seq::<TimedEntry<M>>::empty(),
            r.drain_payload() is None,
    {
        MessagePool { messages: Vec::new(), when_emptied: None }
    }

    /// Enqueue `message` for delivery `delay` time units from now: a fresh
    /// entry goes to the end of the queue. Nothing is delivered here, even
    /// for a zero delay; delivery only ever happens inside a processing
    /// pass.
    pub fn write_after(&mut self, message: M, delay: u64)
        ensures
            final(self).entries() == old(self).entries().push(
                TimedEntry::fresh(message, delay),
            ),
            final(self).drain_payload() == old(self).drain_payload(),
    {
        self.messages.push(TimedEntry::create(message, delay));
    }

    /// Register `message` as the drain payload: a copy of it is handed back
    /// by every later processing pass that empties the pool. Replaces any
    /// previously registered drain payload; at most one is kept.
    pub fn write_when_empty(&mut self, message: D)
        ensures
            final(self).entries() == old(self).entries(),
            final(self).drain_payload() == Some(message),
    {
        self.when_emptied = Some(message);
    }

    /// Whether no entry is queued. Pure query, no side effect.
    pub fn is_empty(&self) -> (r: bool)
        ensures
            r == (self.entries().len() == 0),
    {
        self.messages.is_empty()
    }
}

impl<M, D: Duplicable> MessagePool<M, D> {
    /// One processing pass, the per-tick algorithm: advance every entry's
    /// countdown by `elapsed`, remove the entries that are now due and hand
    /// their payloads back in enqueue order, and — exactly when this pass
    /// delivered something and left the pool empty — hand back a copy of the
    /// registered drain payload. A pass over an already-empty pool delivers
    /// nothing and never fires the drain action.
    pub fn process(&mut self, elapsed: u64) -> (r: ProcessOutcome<M, D>)
        ensures
            r.delivered@ == due_messages(old(self).entries(), elapsed),
            final(self).entries() == kept_entries(old(self).entries(), elapsed),
            final(self).drain_payload() == old(self).drain_payload(),
            r.drained == (if drains(old(self).entries(), elapsed) {
                old(self).drain_payload()
            } else {
                Option::<D>::None
            }),
    {
        let ghost start = self.messages@;
        let ghost drain0 = self.when_emptied;
        let mut kept: Vec<TimedEntry<M>> = Vec::new();
        let mut delivered: Vec<M> = Vec::new();
        let n: usize = self.messages.len();
        let mut i: usize = 0;
        while i < n
            invariant
                i <= n,
                n == start.len(),
                self.messages@ == start.skip(i as int),
                self.when_emptied == drain0,
                delivered@ == due_messages(start.take(i as int), elapsed),
                kept@ == kept_entries(start.take(i as int), elapsed),
            decreases n - i,
        {
            let mut entry = self.messages.remove(0);
            let due = entry.tick(elapsed);
            if due {
                delivered.push(entry.fire());
            } else {
                kept.push(entry);
            }
            i = i + 1;
            proof {
                assert(start.take(i as int).drop_last() =~= start.take(i as int - 1));
                assert(start.take(i as int).last() == start[i as int - 1]);
            }
        }
        proof {
            assert(start.take(n as int) =~= start);
        }
        self.messages = kept;
        let drained: Option<D> = if delivered.len() > 0 && self.messages.len() == 0 {
            match &self.when_emptied {
                Some(d) => Some(d.duplicate()),
                None => None,
            }
        } else {
            None
        };
        ProcessOutcome { delivered, drained }
    }
}

impl<M, D> Default for MessagePool<M, D> {
    /// An empty pool with no drain payload registered.
    fn default() -> (r: Self)
        ensures
            r.entries() == Seq::<TimedEntry<M>>::empty(),
            r.drain_payload() is None,
    {
        MessagePool::new()
    }
}

} // verus!
