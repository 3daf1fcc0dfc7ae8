//! The retry engine's tick: reconcile the store against the chain-state
//! oracle, evict, and retransmit in bounded batches.
//!
//! One tick walks the store once. Per entry it queries the oracle, marks
//! the entry for removal when confirmed, stale or out of retries, marks it
//! for retransmission when retries remain, and takes one retry off. Marked
//! entries are then removed, and the retransmission list is handed to the
//! downstream sender in chunks of at most `MAX_BATCH_SIZE`. The embedding
//! runtime drives the schedule: one call per retry interval, stopped by
//! whatever cancellation it uses.

use vstd::prelude::*;
use vstd::slice::slice_to_vec;
use crate::server::{
    ChainStateClient, IrisRpcServerImpl, SendTransactionClient, MAX_BATCH_SIZE, STALE_AFTER_MS,
};
use crate::store::{
    decrement_retry, remove_key, store_contains, EntryView, TxDataView,
};

verus! {

/// `a - b`, saturating at zero.
pub open spec fn sat_sub_u64(a: u64, b: u64) -> u64 {
    if a >= b {
        (a - b) as u64
    } else {
        0u64
    }
}

/// Whether a tick evicts this entry: its signature was confirmed, it has
/// been stored longer than `STALE_AFTER_MS`, or its retries are exhausted.
/// The three reasons are independent and additive.
pub open spec fn marked_for_removal(d: TxDataView, status: Option<u64>, now_ms: u64) -> bool {
    status is Some || sat_sub_u64(now_ms, d.sent_at) > STALE_AFTER_MS || d.retry_count == 0
}

/// An entry as one tick leaves it: same signature, one retry fewer.
pub open spec fn entry_after_tick(e: EntryView) -> EntryView {
    EntryView { sig: e.sig, data: decrement_retry(e.data) }
}

/// Everything one tick decides, given the store's entries, the oracle's
/// answer for each and the clock: the surviving entries in order (each with
/// one retry fewer), the signatures to remove, the wire transactions to
/// resend, the number of confirmations observed, and the slot latency of
/// each confirmation.
pub ghost struct TickView {
    pub survivors: Seq<EntryView>,
    pub removals: Seq<Seq<char>>,
    pub resends: Seq<Seq<u8>>,
    pub landed: int,
    pub latencies: Seq<u64>,
}

/// The decisions of one tick, entry by entry.
pub open spec fn tick_spec(entries: Seq<EntryView>, sts: Seq<Option<u64>>, now_ms: u64) -> TickView
    decreases entries.len(),
{
    if entries.len() == 0 {
        TickView {
            survivors: Seq::empty(),
            removals: Seq::empty(),
            resends: Seq::empty(),
            landed: 0,
            latencies: Seq::empty(),
        }
    } else {
        let rest = tick_spec(entries.drop_first(), sts.drop_first(), now_ms);
        let e = entries[0];
        let st = sts[0];
        TickView {
            survivors: if marked_for_removal(e.data, st, now_ms) {
                rest.survivors
            } else {
                seq![entry_after_tick(e)] + rest.survivors
            },
            removals: if marked_for_removal(e.data, st, now_ms) {
                seq![e.sig] + rest.removals
            } else {
                rest.removals
            },
            resends: if e.data.retry_count > 0 {
                seq![e.data.wire_transaction] + rest.resends
            } else {
                rest.resends
            },
            landed: rest.landed + if st is Some {
                1int
            } else {
                0int
            },
            latencies: match st {
                Some(s) => seq![sat_sub_u64(s, e.data.slot)] + rest.latencies,
                None => rest.latencies,
            },
        }
    }
}

/// One tick over a sequence extended at the back extends each decision at
/// the back.
pub proof fn lemma_tick_spec_push(
    entries: Seq<EntryView>,
    sts: Seq<Option<u64>>,
    e: EntryView,
    st: Option<u64>,
    now_ms: u64,
)
    requires
        entries.len() == sts.len(),
    ensures
        ({
            let t1 = tick_spec(entries.push(e), sts.push(st), now_ms);
            let t = tick_spec(entries, sts, now_ms);
            &&& t1.survivors == if marked_for_removal(e.data, st, now_ms) {
                t.survivors
            } else {
                t.survivors.push(entry_after_tick(e))
            }
            &&& t1.removals == if marked_for_removal(e.data, st, now_ms) {
                t.removals.push(e.sig)
            } else {
                t.removals
            }
            &&& t1.resends == if e.data.retry_count > 0 {
                t.resends.push(e.data.wire_transaction)
            } else {
                t.resends
            }
            &&& t1.landed == t.landed + if st is Some {
                1int
            } else {
                0int
            }
            &&& t1.latencies == match st {
                Some(s) => t.latencies.push(sat_sub_u64(s, e.data.slot)),
                None => t.latencies,
            }
        }),
    decreases entries.len(),
{
    let t1 = tick_spec(entries.push(e), sts.push(st), now_ms);
    let t = tick_spec(entries, sts, now_ms);
    if entries.len() == 0 {
        assert(entries.push(e).drop_first() =~= entries);
        assert(sts.push(st).drop_first() =~= sts);
        assert(entries.push(e)[0] == e);
        assert(sts.push(st)[0] == st);
        assert(t1.survivors =~= if marked_for_removal(e.data, st, now_ms) {
            t.survivors
        } else {
            t.survivors.push(entry_after_tick(e))
        });
        assert(t1.removals =~= if marked_for_removal(e.data, st, now_ms) {
            t.removals.push(e.sig)
        } else {
            t.removals
        });
        assert(t1.resends =~= if e.data.retry_count > 0 {
            t.resends.push(e.data.wire_transaction)
        } else {
            t.resends
        });
        assert(t1.latencies =~= match st {
            Some(s) => t.latencies.push(sat_sub_u64(s, e.data.slot)),
            None => t.latencies,
        });
    } else {
        assert(entries.push(e).drop_first() =~= entries.drop_first().push(e));
        assert(sts.push(st).drop_first() =~= sts.drop_first().push(st));
        assert(entries.push(e)[0] == entries[0]);
        assert(sts.push(st)[0] == sts[0]);
        lemma_tick_spec_push(entries.drop_first(), sts.drop_first(), e, st, now_ms);
        let r1 = tick_spec(entries.drop_first().push(e), sts.drop_first().push(st), now_ms);
        let r = tick_spec(entries.drop_first(), sts.drop_first(), now_ms);
        assert(t1.survivors =~= if marked_for_removal(e.data, st, now_ms) {
            t.survivors
        } else {
            t.survivors.push(entry_after_tick(e))
        });
        assert(t1.removals =~= if marked_for_removal(e.data, st, now_ms) {
            t.removals.push(e.sig)
        } else {
            t.removals
        });
        assert(t1.resends =~= if e.data.retry_count > 0 {
            t.resends.push(e.data.wire_transaction)
        } else {
            t.resends
        });
        assert(t1.latencies =~= match st {
            Some(s) => t.latencies.push(sat_sub_u64(s, e.data.slot)),
            None => t.latencies,
        });
    }
}

/// `entries` with the first `k` entries as a tick leaves them and the rest
/// untouched.
pub open spec fn dec_prefix(entries: Seq<EntryView>, k: int) -> Seq<EntryView> {
    Seq::new(
        entries.len(),
        |j: int| if j < k {
            entry_after_tick(entries[j])
        } else {
            entries[j]
        },
    )
}

/// `entries` after removing each key of `keys`, first to last.
pub open spec fn remove_all(entries: Seq<EntryView>, keys: Seq<Seq<char>>) -> Seq<EntryView>
    decreases keys.len(),
{
    if keys.len() == 0 {
        entries
    } else {
        remove_all(remove_key(entries, keys[0]), keys.drop_first())
    }
}

/// Whether `k` is one of `keys`.
pub open spec fn key_in(keys: Seq<Seq<char>>, k: Seq<char>) -> bool {
    exists|j: int| 0 <= j < keys.len() && keys[j] == k
}

/// Every signature a tick removes belongs to some entry.
proof fn lemma_removals_are_keys(
    entries: Seq<EntryView>,
    sts: Seq<Option<u64>>,
    now_ms: u64,
    k: Seq<char>,
)
    requires
        key_in(tick_spec(entries, sts, now_ms).removals, k),
    ensures
        store_contains(entries, k),
    decreases entries.len(),
{
    if entries.len() == 0 {
    } else {
        let t = tick_spec(entries, sts, now_ms);
        let rest = tick_spec(entries.drop_first(), sts.drop_first(), now_ms);
        if entries[0].sig == k && marked_for_removal(entries[0].data, sts[0], now_ms) {
            assert(store_contains(entries, k));
        } else {
            let j = choose|j: int| 0 <= j < t.removals.len() && t.removals[j] == k;
            if marked_for_removal(entries[0].data, sts[0], now_ms) {
                assert(rest.removals[j - 1] == k);
            } else {
                assert(rest.removals[j] == k);
            }
            lemma_removals_are_keys(entries.drop_first(), sts.drop_first(), now_ms, k);
            let i = choose|i: int|
                0 <= i < entries.drop_first().len() && entries.drop_first()[i].sig == k;
            assert(entries[i + 1].sig == k);
        }
    }
}

/// Removing keys that never name the head leaves the head in place.
proof fn lemma_remove_all_head(x: EntryView, s: Seq<EntryView>, keys: Seq<Seq<char>>)
    requires
        forall|j: int| 0 <= j < keys.len() ==> keys[j] != x.sig,
    ensures
        remove_all(seq![x] + s, keys) == seq![x] + remove_all(s, keys),
    decreases keys.len(),
{
    if keys.len() == 0 {
    } else {
        assert((seq![x] + s)[0] == x);
        assert((seq![x] + s).drop_first() =~= s);
        assert(remove_key(seq![x] + s, keys[0]) =~= seq![x] + remove_key(s, keys[0]));
        lemma_remove_all_head(x, remove_key(s, keys[0]), keys.drop_first());
    }
}

/// A sequence without `k` stays without `k` after any `remove_key`.
proof fn lemma_remove_key_keeps_absent(entries: Seq<EntryView>, k1: Seq<char>, k2: Seq<char>)
    requires
        !store_contains(entries, k2),
    ensures
        !store_contains(remove_key(entries, k1), k2),
    decreases entries.len(),
{
    if entries.len() == 0 {
    } else {
        assert forall|i: int| 0 <= i < entries.drop_first().len()
            implies entries.drop_first()[i].sig != k2 by {
            assert(entries[i + 1].sig == entries.drop_first()[i].sig);
        }
        lemma_remove_key_keeps_absent(entries.drop_first(), k1, k2);
        if entries[0].sig != k1 {
            let r = seq![entries[0]] + remove_key(entries.drop_first(), k1);
            assert forall|i: int| 0 <= i < r.len() implies r[i].sig != k2 by {
                if i > 0 {
                    assert(r[i] == remove_key(entries.drop_first(), k1)[i - 1]);
                }
            }
        }
    }
}

/// Removing the keys a tick marks from the decremented entries yields
/// exactly the tick's survivors.
proof fn lemma_remove_marked(entries: Seq<EntryView>, sts: Seq<Option<u64>>, now_ms: u64)
    requires
        entries.len() == sts.len(),
        forall|p: int, q: int| 0 <= p < q < entries.len() ==> entries[p].sig != entries[q].sig,
    ensures
        remove_all(dec_prefix(entries, entries.len() as int), tick_spec(entries, sts, now_ms).removals)
            == tick_spec(entries, sts, now_ms).survivors,
    decreases entries.len(),
{
    let t = tick_spec(entries, sts, now_ms);
    let d = dec_prefix(entries, entries.len() as int);
    if entries.len() == 0 {
        assert(remove_all(d, t.removals) =~= t.survivors);
    } else {
        let erest = entries.drop_first();
        let strest = sts.drop_first();
        let rest = tick_spec(erest, strest, now_ms);
        let drest = dec_prefix(erest, erest.len() as int);
        assert forall|p: int, q: int| 0 <= p < q < erest.len()
            implies erest[p].sig != erest[q].sig by {
            assert(erest[p] == entries[p + 1] && erest[q] == entries[q + 1]);
        }
        lemma_remove_marked(erest, strest, now_ms);
        assert(d =~= seq![entry_after_tick(entries[0])] + drest);
        assert(!store_contains(erest, entries[0].sig)) by {
            if store_contains(erest, entries[0].sig) {
                let i = choose|i: int| 0 <= i < erest.len() && erest[i].sig == entries[0].sig;
                assert(entries[i + 1].sig == entries[0].sig);
            }
        }
        assert(!store_contains(drest, entries[0].sig)) by {
            if store_contains(drest, entries[0].sig) {
                let i = choose|i: int| 0 <= i < drest.len() && drest[i].sig == entries[0].sig;
                assert(erest[i].sig == entries[0].sig);
            }
        }
        if marked_for_removal(entries[0].data, sts[0], now_ms) {
            assert(t.removals == seq![entries[0].sig] + rest.removals);
            assert(t.removals[0] == entries[0].sig);
            assert(t.removals.drop_first() =~= rest.removals);
            assert(d[0] == entry_after_tick(entries[0]));
            assert(d.drop_first() =~= drest);
            assert(remove_key(d, entries[0].sig) =~= remove_key(drest, entries[0].sig));
            crate::store::lemma_remove_key_absent(drest, entries[0].sig);
            assert(remove_all(d, t.removals) == remove_all(drest, rest.removals));
        } else {
            assert(t.removals =~= rest.removals);
            assert forall|j: int| 0 <= j < rest.removals.len()
                implies rest.removals[j] != entries[0].sig by {
                if rest.removals[j] == entries[0].sig {
                    assert(key_in(rest.removals, entries[0].sig));
                    lemma_removals_are_keys(erest, strest, now_ms, entries[0].sig);
                }
            }
            lemma_remove_all_head(entry_after_tick(entries[0]), drest, rest.removals);
            assert(remove_all(d, t.removals) == seq![entry_after_tick(entries[0])]
                + remove_all(drest, rest.removals));
            assert(t.survivors == seq![entry_after_tick(entries[0])] + rest.survivors);
        }
    }
}

/// Every signature a tick removes is justified: it names an entry that was
/// confirmed by the oracle, stale, or out of retries.
pub proof fn lemma_removals_justified(
    entries: Seq<EntryView>,
    sts: Seq<Option<u64>>,
    now_ms: u64,
    j: int,
)
    requires
        entries.len() == sts.len(),
        0 <= j < tick_spec(entries, sts, now_ms).removals.len(),
    ensures
        exists|i: int|
            0 <= i < entries.len() && tick_spec(entries, sts, now_ms).removals[j]
                == entries[i].sig && #[trigger] marked_for_removal(entries[i].data, sts[i], now_ms),
    decreases entries.len(),
{
    let t = tick_spec(entries, sts, now_ms);
    let rest = tick_spec(entries.drop_first(), sts.drop_first(), now_ms);
    if entries.len() == 0 {
    } else if marked_for_removal(entries[0].data, sts[0], now_ms) {
        if j == 0 {
            assert(t.removals[0] == entries[0].sig);
            assert(marked_for_removal(entries[0].data, sts[0], now_ms));
        } else {
            lemma_removals_justified(entries.drop_first(), sts.drop_first(), now_ms, j - 1);
            let i = choose|i: int|
                0 <= i < entries.drop_first().len() && rest.removals[j - 1]
                    == entries.drop_first()[i].sig && #[trigger] marked_for_removal(
                    entries.drop_first()[i].data,
                    sts.drop_first()[i],
                    now_ms,
                );
            assert(t.removals[j] == rest.removals[j - 1]);
            assert(entries[i + 1].sig == entries.drop_first()[i].sig);
            assert(marked_for_removal(entries[i + 1].data, sts[i + 1], now_ms));
        }
    } else {
        lemma_removals_justified(entries.drop_first(), sts.drop_first(), now_ms, j);
        let i = choose|i: int|
            0 <= i < entries.drop_first().len() && rest.removals[j] == entries.drop_first()[i].sig
                && #[trigger] marked_for_removal(
                entries.drop_first()[i].data,
                sts.drop_first()[i],
                now_ms,
            );
        assert(t.removals[j] == rest.removals[j]);
        assert(entries[i + 1].sig == entries.drop_first()[i].sig);
        assert(marked_for_removal(entries[i + 1].data, sts[i + 1], now_ms));
    }
}

/// Across a tick no retry budget ever rises: every surviving entry is some
/// old entry with one retry taken off (saturating at zero), under the same
/// signature.
pub proof fn lemma_retry_nonincreasing(
    entries: Seq<EntryView>,
    sts: Seq<Option<u64>>,
    now_ms: u64,
    j: int,
)
    requires
        entries.len() == sts.len(),
        0 <= j < tick_spec(entries, sts, now_ms).survivors.len(),
    ensures
        exists|i: int|
            0 <= i < entries.len() && tick_spec(entries, sts, now_ms).survivors[j]
                == #[trigger] entry_after_tick(entries[i]),
    decreases entries.len(),
{
    let t = tick_spec(entries, sts, now_ms);
    let rest = tick_spec(entries.drop_first(), sts.drop_first(), now_ms);
    if entries.len() == 0 {
    } else if !marked_for_removal(entries[0].data, sts[0], now_ms) && j == 0 {
        assert(t.survivors[0] == entry_after_tick(entries[0]));
    } else {
        let jr = if marked_for_removal(entries[0].data, sts[0], now_ms) {
            j
        } else {
            j - 1
        };
        assert(t.survivors[jr + if marked_for_removal(entries[0].data, sts[0], now_ms) {
            0int
        } else {
            1int
        }] == t.survivors[j]);
        assert(rest.survivors[jr] == t.survivors[j]);
        lemma_retry_nonincreasing(entries.drop_first(), sts.drop_first(), now_ms, jr);
        let i = choose|i: int|
            0 <= i < entries.drop_first().len() && rest.survivors[jr] == #[trigger] entry_after_tick(
                entries.drop_first()[i],
            );
        assert(entries[i + 1] == entries.drop_first()[i]);
    }
}

/// What one tick reports back to the runtime: the oracle answer observed
/// for each entry in store order, the signatures removed (one per removed
/// entry, in store order), the wire transactions marked for retransmission
/// before chunking, how many transactions landed, and the slot latency of
/// each landing.
pub struct TickOutcome {
    pub confirmations: Vec<Option<u64>>,
    pub removed: Vec<String>,
    pub resent: Vec<Vec<u8>>,
    pub landed: u64,
    pub latencies: Vec<u64>,
}

impl<S: SendTransactionClient, C: ChainStateClient> IrisRpcServerImpl<S, C> {
    /// One tick of the retry engine. Walks the store once, querying the
    /// oracle per entry; evicts every entry that is confirmed, stale or out
    /// of retries; takes one retry off every entry it saw; and hands the
    /// wire transactions of entries that still had retries to the sender in
    /// chunks of at most `MAX_BATCH_SIZE`. The decision for every entry is
    /// pinned by `tick_spec` over whatever the oracle answered.
    pub fn retry_transactions_tick(&mut self, now_ms: u64) -> (out: TickOutcome)
        requires
            old(self).wf(),
        ensures
            final(self).wf(),
            final(self).same_config(old(self)),
            out.confirmations@.len() == old(self).store.entries().len(),
            final(self).store.entries() == tick_spec(
                old(self).store.entries(),
                out.confirmations@,
                now_ms,
            ).survivors,
            out.removed@.map_values(|s: String| s@) == tick_spec(
                old(self).store.entries(),
                out.confirmations@,
                now_ms,
            ).removals,
            out.resent@.map_values(|w: Vec<u8>| w@) == tick_spec(
                old(self).store.entries(),
                out.confirmations@,
                now_ms,
            ).resends,
            out.landed == tick_spec(old(self).store.entries(), out.confirmations@, now_ms).landed,
            out.latencies@ == tick_spec(
                old(self).store.entries(),
                out.confirmations@,
                now_ms,
            ).latencies,
    {
        let ghost entries0 = self.store.entries();
        let mut confirmations: Vec<Option<u64>> = Vec::new();
        let mut removed: Vec<String> = Vec::new();
        let mut resent: Vec<Vec<u8>> = Vec::new();
        let mut landed: u64 = 0;
        let mut latencies: Vec<u64> = Vec::new();
        let n = self.store.len();
        for i in 0..n
            invariant
                n == entries0.len(),
                entries0 == old(self).store.entries(),
                old(self).wf(),
                self.wf(),
                self.same_config(old(self)),
                self.store.entries() == dec_prefix(entries0, i as int),
                confirmations@.len() == i,
                landed <= i,
                removed@.map_values(|s: String| s@) == tick_spec(
                    entries0.take(i as int),
                    confirmations@,
                    now_ms,
                ).removals,
                resent@.map_values(|w: Vec<u8>| w@) == tick_spec(
                    entries0.take(i as int),
                    confirmations@,
                    now_ms,
                ).resends,
                landed == tick_spec(entries0.take(i as int), confirmations@, now_ms).landed,
                latencies@ == tick_spec(entries0.take(i as int), confirmations@, now_ms).latencies,
        {
            proof {
                assert(self.store.entries().len() == entries0.len());
                assert(self.store.entries()[i as int] == entries0[i as int]);
            }
            let ghost confs_pre = confirmations@;
            let ghost removed_pre = removed@;
            let ghost resent_pre = resent@;
            let ghost latencies_pre = latencies@;
            let sig = self.store.signature_at(i).clone();
            let status = self.chain_state.confirm_signature_status(&sig);
            confirmations.push(status);
            let d_slot = self.store.data_at(i).slot;
            let d_sent = self.store.data_at(i).sent_at;
            let d_retry = self.store.data_at(i).retry_count;
            let mut is_marked = false;
            match status {
                Some(s) => {
                    landed = landed + 1;
                    latencies.push(if s >= d_slot {
                        s - d_slot
                    } else {
                        0
                    });
                    is_marked = true;
                },
                None => {},
            }
            let elapsed = if now_ms >= d_sent {
                now_ms - d_sent
            } else {
                0
            };
            if elapsed > STALE_AFTER_MS {
                is_marked = true;
            }
            if d_retry == 0 {
                is_marked = true;
            }
            if d_retry > 0 {
                resent.push(slice_to_vec(self.store.data_at(i).wire_transaction.as_slice()));
            }
            if is_marked {
                removed.push(sig);
            }
            self.store.decrement_retry_at(i);
            proof {
                assert(entries0.take(i + 1 as int) =~= entries0.take(i as int).push(
                    entries0[i as int],
                ));
                assert(confirmations@ =~= confs_pre.push(status));
                lemma_tick_spec_push(
                    entries0.take(i as int),
                    confs_pre,
                    entries0[i as int],
                    status,
                    now_ms,
                );
                assert(is_marked == marked_for_removal(entries0[i as int].data, status, now_ms));
                if is_marked {
                    assert(removed@.map_values(|s: String| s@) =~= removed_pre.map_values(
                        |s: String| s@,
                    ).push(entries0[i as int].sig));
                }
                if d_retry > 0 {
                    assert(resent@.map_values(|w: Vec<u8>| w@) =~= resent_pre.map_values(
                        |w: Vec<u8>| w@,
                    ).push(entries0[i as int].data.wire_transaction));
                }
                match status {
                    Some(s) => {
                        assert(latencies@ =~= latencies_pre.push(
                            sat_sub_u64(s, entries0[i as int].data.slot),
                        ));
                    },
                    None => {},
                }
                assert(self.store.entries() =~= dec_prefix(entries0, i + 1 as int));
            }
        }
        proof {
            assert(entries0.take(n as int) =~= entries0);
            assert(dec_prefix(entries0, n as int) == self.store.entries());
        }
        let ghost t = tick_spec(entries0, confirmations@, now_ms);
        proof {
            assert(t.removals.skip(0) =~= t.removals);
        }
        let m = removed.len();
        for k in 0..m
            invariant
                m == removed@.len(),
                entries0 == old(self).store.entries(),
                removed@.map_values(|s: String| s@) == t.removals,
                t == tick_spec(entries0, confirmations@, now_ms),
                self.wf(),
                self.same_config(old(self)),
                remove_all(self.store.entries(), t.removals.skip(k as int)) == remove_all(
                    dec_prefix(entries0, entries0.len() as int),
                    t.removals,
                ),
        {
            let ghost entries_pre = self.store.entries();
            self.store.remove_transaction(&removed[k]);
            proof {
                assert(removed@[k as int]@ == t.removals[k as int]);
                assert(t.removals.skip(k as int)[0] == t.removals[k as int]);
                assert(t.removals.skip(k as int).drop_first() =~= t.removals.skip(k + 1 as int));
                assert(self.store.entries() == remove_key(entries_pre, t.removals[k as int]));
            }
        }
        proof {
            assert(t.removals.skip(m as int) =~= Seq::<Seq<char>>::empty());
            lemma_remove_marked(entries0, confirmations@, now_ms);
            assert(self.store.entries() == t.survivors);
        }
        let total = resent.len();
        let mut start: usize = 0;
        while start < total
            invariant
                total == resent.len(),
                self.wf(),
                self.same_config(old(self)),
                self.store.entries() == tick_spec(entries0, confirmations@, now_ms).survivors,
            decreases total - start,
        {
            let end = if total - start > MAX_BATCH_SIZE {
                start + MAX_BATCH_SIZE
            } else {
                total
            };
            let mut chunk: Vec<Vec<u8>> = Vec::new();
            let mut idx = start;
            while idx < end
                invariant
                    start <= idx <= end <= total,
                    total == resent.len(),
                decreases end - idx,
            {
                chunk.push(slice_to_vec(resent[idx].as_slice()));
                idx += 1;
            }
            self.txn_sender.send_transaction_batch(chunk);
            start = end;
        }
        TickOutcome { confirmations, removed, resent, landed, latencies }
    }
}

} // verus!
