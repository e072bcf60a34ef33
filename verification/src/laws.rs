//! Laws of the pool's processing algorithm, stated over whole sequences of
//! processing passes.

use vstd::prelude::*;

use crate::pool::drains;
use crate::pool::due_messages;
use crate::pool::kept_entries;
use crate::pool::MessagePool;
use crate::timer::Countdown;
use crate::timer::TimedEntry;

verus! {

/// The total elapsed time of a sequence of processing passes.
pub open spec fn total_elapsed(ticks: Seq<u64>) -> int
    decreases ticks.len(),
{
    if ticks.len() == 0 {
        0
    } else {
        ticks[0] + total_elapsed(ticks.skip(1))
    }
}

/// The entries still queued after a sequence of processing passes, one per
/// tick, starting from `entries`.
pub open spec fn entries_after<M>(entries: Seq<TimedEntry<M>>, ticks: Seq<u64>) -> Seq<
    TimedEntry<M>,
>
    decreases ticks.len(),
{
    if ticks.len() == 0 {
        entries
    } else {
        entries_after(kept_entries(entries, ticks[0]), ticks.skip(1))
    }
}

/// The payloads of `entries`, in enqueue order.
pub open spec fn messages_of<M>(entries: Seq<TimedEntry<M>>) -> Seq<M> {
    entries.map_values(|e: TimedEntry<M>| e.message)
}

/// Everything delivered over a sequence of processing passes, one per tick,
/// starting from `entries`, in delivery order.
pub open spec fn delivered_during<M>(entries: Seq<TimedEntry<M>>, ticks: Seq<u64>) -> Seq<M>
    decreases ticks.len(),
{
    if ticks.len() == 0 {
        Seq::empty()
    } else {
        due_messages(entries, ticks[0]) + delivered_during(
            kept_entries(entries, ticks[0]),
            ticks.skip(1),
        )
    }
}

/// A countdown's state after a sequence of advances, one per tick.
pub open spec fn advanced_by_all(c: Countdown, ticks: Seq<u64>) -> Countdown
    decreases ticks.len(),
{
    if ticks.len() == 0 {
        c
    } else {
        advanced_by_all(c.advanced(ticks[0]), ticks.skip(1))
    }
}

/// The total elapsed time of a sequence of passes is never negative.
pub proof fn lemma_total_elapsed_nonneg(ticks: Seq<u64>)
    ensures
        total_elapsed(ticks) >= 0,
    decreases ticks.len(),
{
    if ticks.len() > 0 {
        lemma_total_elapsed_nonneg(ticks.skip(1));
    }
}

/// Splitting a sequence of passes splits its total elapsed time.
pub proof fn lemma_total_elapsed_add(a: Seq<u64>, b: Seq<u64>)
    ensures
        total_elapsed(a + b) == total_elapsed(a) + total_elapsed(b),
    decreases a.len(),
{
    if a.len() == 0 {
        assert(a + b =~= b);
    } else {
        assert((a + b).skip(1) =~= a.skip(1) + b);
        lemma_total_elapsed_add(a.skip(1), b);
    }
}

/// Extending a prefix of passes by one pass adds that pass's elapsed time to
/// the prefix's total.
pub proof fn lemma_total_elapsed_take_succ(ticks: Seq<u64>, j: int)
    requires
        0 <= j < ticks.len(),
    ensures
        total_elapsed(ticks.take(j + 1)) == total_elapsed(ticks.take(j)) + ticks[j],
{
    assert(ticks.take(j + 1) =~= ticks.take(j) + seq![ticks[j]]);
    lemma_total_elapsed_add(ticks.take(j), seq![ticks[j]]);
    assert(seq![ticks[j]].skip(1) =~= Seq::<u64>::empty());
    assert(total_elapsed(Seq::<u64>::empty()) == 0);
    assert(total_elapsed(seq![ticks[j]]) == ticks[j]);
}

/// A countdown is single-shot: once finished, any further advances leave it
/// exactly as it is.
pub proof fn lemma_single_shot(c: Countdown, ticks: Seq<u64>)
    requires
        c.finished,
    ensures
        advanced_by_all(c, ticks) == c,
    decreases ticks.len(),
{
    if ticks.len() > 0 {
        lemma_single_shot(c.advanced(ticks[0]), ticks.skip(1));
    }
}

/// A running countdown finishes exactly when the cumulative elapsed time of
/// its advances reaches its remaining wait; until then it counts the wait
/// down exactly.
pub proof fn lemma_countdown_accuracy(c: Countdown, ticks: Seq<u64>)
    requires
        !c.finished,
    ensures
        total_elapsed(ticks) < c.remaining ==> advanced_by_all(c, ticks) == (Countdown {
            remaining: (c.remaining - total_elapsed(ticks)) as u64,
            finished: false,
        }),
        ticks.len() > 0 && total_elapsed(ticks) >= c.remaining ==> advanced_by_all(
            c,
            ticks,
        ).finished,
    decreases ticks.len(),
{
    if ticks.len() > 0 {
        let c1 = c.advanced(ticks[0]);
        lemma_total_elapsed_nonneg(ticks.skip(1));
        if c1.finished {
            lemma_single_shot(c1, ticks.skip(1));
        } else {
            lemma_countdown_accuracy(c1, ticks.skip(1));
        }
    }
}

/// One pass keeps every entry whose countdown is still running after the
/// advance: the entry survives, advanced, at some position of the kept
/// sequence.
proof fn lemma_kept_keeps_pending<M>(entries: Seq<TimedEntry<M>>, elapsed: u64, i: int)
    requires
        0 <= i < entries.len(),
        !entries[i].advanced(elapsed).countdown.finished,
    ensures
        exists|k: int|
            0 <= k < kept_entries(entries, elapsed).len() && kept_entries(entries, elapsed)[k]
                == entries[i].advanced(elapsed),
    decreases entries.len(),
{
    let s = entries.drop_last();
    if i == entries.len() - 1 {
        let k = kept_entries(s, elapsed).len() as int;
        assert(kept_entries(entries, elapsed)[k] == entries[i].advanced(elapsed));
    } else {
        lemma_kept_keeps_pending(s, elapsed, i);
        let k = choose|k: int|
            0 <= k < kept_entries(s, elapsed).len() && kept_entries(s, elapsed)[k] == s[i].advanced(
                elapsed,
            );
        assert(kept_entries(entries, elapsed)[k] == entries[i].advanced(elapsed));
    }
}

/// One pass delivers the payload of every entry whose countdown finishes by
/// the advance: the payload is at some position of the due sequence.
proof fn lemma_step_delivers_due<M>(entries: Seq<TimedEntry<M>>, elapsed: u64, i: int)
    requires
        0 <= i < entries.len(),
        entries[i].advanced(elapsed).countdown.finished,
    ensures
        exists|k: int|
            0 <= k < due_messages(entries, elapsed).len() && due_messages(entries, elapsed)[k]
                == entries[i].message,
    decreases entries.len(),
{
    let s = entries.drop_last();
    if i == entries.len() - 1 {
        let k = due_messages(s, elapsed).len() as int;
        assert(due_messages(entries, elapsed)[k] == entries[i].message);
    } else {
        lemma_step_delivers_due(s, elapsed, i);
        let k = choose|k: int|
            0 <= k < due_messages(s, elapsed).len() && due_messages(s, elapsed)[k] == s[i].message;
        assert(due_messages(entries, elapsed)[k] == entries[i].message);
    }
}

/// No early delivery: an entry whose remaining wait exceeds the total
/// elapsed time of a whole sequence of processing passes is still queued
/// after all of them, with its countdown advanced by exactly that total and
/// still running.
pub proof fn lemma_no_early_delivery<M>(entries: Seq<TimedEntry<M>>, ticks: Seq<u64>, i: int)
    requires
        0 <= i < entries.len(),
        !entries[i].countdown.finished,
        total_elapsed(ticks) < entries[i].countdown.remaining,
    ensures
        exists|k: int|
            0 <= k < entries_after(entries, ticks).len()
                && #[trigger] entries_after(entries, ticks)[k] == (TimedEntry {
                countdown: Countdown {
                    remaining: (entries[i].countdown.remaining - total_elapsed(ticks)) as u64,
                    finished: false,
                },
                message: entries[i].message,
            }),
    decreases ticks.len(),
{
    let survivor = TimedEntry {
        countdown: Countdown {
            remaining: (entries[i].countdown.remaining - total_elapsed(ticks)) as u64,
            finished: false,
        },
        message: entries[i].message,
    };
    if ticks.len() == 0 {
        assert(entries_after(entries, ticks)[i] == survivor);
    } else {
        let e0 = ticks[0];
        lemma_total_elapsed_nonneg(ticks.skip(1));
        lemma_kept_keeps_pending(entries, e0, i);
        let kept = kept_entries(entries, e0);
        let k0 = choose|k: int|
            0 <= k < kept.len() && kept[k] == entries[i].advanced(e0);
        lemma_no_early_delivery(kept, ticks.skip(1), k0);
        let rest = entries_after(kept, ticks.skip(1));
        let k1 = choose|k: int|
            0 <= k < rest.len() && #[trigger] rest[k] == (TimedEntry {
                countdown: Countdown {
                    remaining: (kept[k0].countdown.remaining - total_elapsed(ticks.skip(1))) as u64,
                    finished: false,
                },
                message: kept[k0].message,
            });
        assert(entries_after(entries, ticks)[k1] == survivor);
    }
}

/// Eventual delivery: an entry is delivered by the first processing pass at
/// which the cumulative elapsed time reaches its remaining wait — its
/// payload is among that pass's deliveries.
pub proof fn lemma_eventual_delivery<M>(entries: Seq<TimedEntry<M>>, ticks: Seq<u64>, i: int, j: int)
    requires
        0 <= i < entries.len(),
        !entries[i].countdown.finished,
        0 <= j < ticks.len(),
        total_elapsed(ticks.take(j)) < entries[i].countdown.remaining,
        total_elapsed(ticks.take(j + 1)) >= entries[i].countdown.remaining,
    ensures
        exists|k: int|
            0 <= k < due_messages(entries_after(entries, ticks.take(j)), ticks[j]).len()
                && #[trigger] due_messages(entries_after(entries, ticks.take(j)), ticks[j])[k]
                == entries[i].message,
{
    let pending = entries_after(entries, ticks.take(j));
    lemma_no_early_delivery(entries, ticks.take(j), i);
    lemma_total_elapsed_take_succ(ticks, j);
    let survivor = TimedEntry {
        countdown: Countdown {
            remaining: (entries[i].countdown.remaining - total_elapsed(ticks.take(j))) as u64,
            finished: false,
        },
        message: entries[i].message,
    };
    let k0 = choose|k: int| 0 <= k < pending.len() && pending[k] == survivor;
    assert(pending[k0].advanced(ticks[j]).countdown.finished);
    lemma_step_delivers_due(pending, ticks[j], k0);
}

/// A due entry's payload sits in the due sequence exactly at the number of
/// due entries enqueued before it.
proof fn lemma_due_position<M>(entries: Seq<TimedEntry<M>>, elapsed: u64, i: int)
    requires
        0 <= i < entries.len(),
        entries[i].advanced(elapsed).countdown.finished,
    ensures
        due_messages(entries.take(i), elapsed).len() < due_messages(entries, elapsed).len(),
        due_messages(entries, elapsed)[due_messages(entries.take(i), elapsed).len() as int]
            == entries[i].message,
    decreases entries.len(),
{
    let s = entries.drop_last();
    if i == entries.len() - 1 {
        assert(entries.take(i) =~= s);
    } else {
        assert(s.take(i) =~= entries.take(i));
        lemma_due_position(s, elapsed, i);
    }
}

/// Taking a longer prefix of the entries never shortens the due sequence.
proof fn lemma_due_len_monotone<M>(entries: Seq<TimedEntry<M>>, elapsed: u64, a: int, b: int)
    requires
        0 <= a <= b <= entries.len(),
    ensures
        due_messages(entries.take(a), elapsed).len() <= due_messages(entries.take(b), elapsed).len(),
    decreases b - a,
{
    if a < b {
        lemma_due_len_monotone(entries, elapsed, a, b - 1);
        assert(entries.take(b).drop_last() =~= entries.take(b - 1));
    }
}

/// Enqueue-order tie-break: when two entries come due in the same processing
/// pass, the one enqueued earlier is delivered earlier, whatever their
/// delays were.
pub proof fn lemma_enqueue_order_tie_break<M>(
    entries: Seq<TimedEntry<M>>,
    elapsed: u64,
    i: int,
    j: int,
)
    requires
        0 <= i < j < entries.len(),
        entries[i].advanced(elapsed).countdown.finished,
        entries[j].advanced(elapsed).countdown.finished,
    ensures
        exists|ki: int, kj: int|
            0 <= ki < kj < due_messages(entries, elapsed).len()
                && #[trigger] due_messages(entries, elapsed)[ki] == entries[i].message
                && #[trigger] due_messages(entries, elapsed)[kj] == entries[j].message,
{
    let due = due_messages(entries, elapsed);
    let pi = due_messages(entries.take(i), elapsed).len() as int;
    let pj = due_messages(entries.take(j), elapsed).len() as int;
    lemma_due_position(entries, elapsed, i);
    lemma_due_position(entries, elapsed, j);
    assert(entries.take(i + 1).drop_last() =~= entries.take(i));
    assert(due_messages(entries.take(i + 1), elapsed).len() == pi + 1);
    lemma_due_len_monotone(entries, elapsed, i + 1, j);
    assert(0 <= pi < pj < due.len() && due[pi] == entries[i].message && due[pj]
        == entries[j].message);
}

/// One pass accounts for every queued payload exactly once: the payloads of
/// the starting entries are, as a multiset, the payloads delivered by the
/// pass plus the payloads of the kept entries.
proof fn lemma_step_conservation<M>(entries: Seq<TimedEntry<M>>, elapsed: u64)
    ensures
        messages_of(entries).to_multiset() == due_messages(entries, elapsed).to_multiset().add(
            messages_of(kept_entries(entries, elapsed)).to_multiset(),
        ),
    decreases entries.len(),
{
    broadcast use vstd::seq_lib::group_to_multiset_ensures;
    broadcast use vstd::multiset::group_multiset_axioms;

    if entries.len() == 0 {
        assert(messages_of(entries) =~= Seq::<M>::empty());
        assert(messages_of(kept_entries(entries, elapsed)) =~= Seq::<M>::empty());
        assert(messages_of(entries).to_multiset() =~= due_messages(entries, elapsed).to_multiset()
            .add(messages_of(kept_entries(entries, elapsed)).to_multiset()));
    } else {
        let s = entries.drop_last();
        let l = entries.last();
        lemma_step_conservation(s, elapsed);
        assert(messages_of(entries) =~= messages_of(s).push(l.message));
        if l.advanced(elapsed).countdown.finished {
            assert(due_messages(entries, elapsed) =~= due_messages(s, elapsed).push(l.message));
        } else {
            assert(messages_of(kept_entries(entries, elapsed)) =~= messages_of(
                kept_entries(s, elapsed),
            ).push(l.message));
        }
        assert(messages_of(entries).to_multiset() =~= due_messages(entries, elapsed).to_multiset()
            .add(messages_of(kept_entries(entries, elapsed)).to_multiset()));
    }
}

/// Delivery happens exactly once: over any sequence of processing passes,
/// the payloads enqueued at the start are, as a multiset, exactly the
/// payloads delivered during the passes plus the payloads still queued
/// afterwards. No payload is delivered early and then again, duplicated, or
/// lost.
pub proof fn lemma_delivery_conservation<M>(entries: Seq<TimedEntry<M>>, ticks: Seq<u64>)
    ensures
        messages_of(entries).to_multiset() == delivered_during(entries, ticks).to_multiset().add(
            messages_of(entries_after(entries, ticks)).to_multiset(),
        ),
    decreases ticks.len(),
{
    broadcast use vstd::seq_lib::group_to_multiset_ensures;
    broadcast use vstd::multiset::group_multiset_axioms;

    if ticks.len() == 0 {
        assert(delivered_during(entries, ticks) =~= Seq::<M>::empty());
        assert(messages_of(entries).to_multiset() =~= delivered_during(
            entries,
            ticks,
        ).to_multiset().add(messages_of(entries_after(entries, ticks)).to_multiset()));
    } else {
        let e0 = ticks[0];
        let kept = kept_entries(entries, e0);
        lemma_step_conservation(entries, e0);
        lemma_delivery_conservation(kept, ticks.skip(1));
        vstd::seq_lib::lemma_multiset_commutative(
            due_messages(entries, e0),
            delivered_during(kept, ticks.skip(1)),
        );
        let a = due_messages(entries, e0).to_multiset();
        let b = delivered_during(kept, ticks.skip(1)).to_multiset();
        let c = messages_of(entries_after(entries, ticks)).to_multiset();
        assert(delivered_during(entries, ticks) == due_messages(entries, e0) + delivered_during(
            kept,
            ticks.skip(1),
        ));
        assert(entries_after(entries, ticks) == entries_after(kept, ticks.skip(1)));
        assert(messages_of(entries).to_multiset() == a.add(b.add(c)));
        assert(a.add(b.add(c)) =~= a.add(b).add(c));
    }
}

/// Idempotent emptiness: a processing pass over an empty pool delivers
/// nothing, leaves the pool empty, and never drains, whatever the elapsed
/// time.
pub proof fn lemma_idempotent_emptiness<M, D>(pool: MessagePool<M, D>, elapsed: u64)
    requires
        pool.entries().len() == 0,
    ensures
        due_messages(pool.entries(), elapsed) == Seq::<M>::empty(),
        kept_entries(pool.entries(), elapsed) == pool.entries(),
        !drains(pool.entries(), elapsed),
{
    assert(kept_entries(pool.entries(), elapsed) =~= pool.entries());
}

} // verus!
