//! The transaction store: a mapping from signature string to the data kept
//! for one admitted transaction.
//!
//! Admission is the sole inserter, the retry engine is the sole mutator of
//! `retry_count`, and both may remove. The store is modelled as a sequence
//! of key/value pairs with pairwise-distinct keys; `sent_at` and `slot` are
//! write-once, and `retry_count` only ever goes down.

use vstd::prelude::*;
use crate::codec::{ParsedTransaction, TxView};

verus! {

/// Everything kept for one admitted transaction.
pub struct TransactionData {
    /// The byte-exact decoded payload; what is handed downstream.
    pub wire_transaction: Vec<u8>,
    /// The structural form captured at admission.
    pub parsed_transaction: ParsedTransaction,
    /// The chain slot observed at admission.
    pub slot: u64,
    /// Milliseconds on the caller's monotonic clock at admission; never
    /// updated afterwards.
    pub sent_at: u64,
    /// Additional ticks this transaction is willing to be resent.
    pub retry_count: usize,
}

/// What a `TransactionData` abstracts to.
pub ghost struct TxDataView {
    pub wire_transaction: Seq<u8>,
    pub parsed_transaction: TxView,
    pub slot: u64,
    pub sent_at: u64,
    pub retry_count: usize,
}

impl View for TransactionData {
    type V = TxDataView;

    open spec fn view(&self) -> TxDataView {
        TxDataView {
            wire_transaction: self.wire_transaction@,
            parsed_transaction: self.parsed_transaction@,
            slot: self.slot,
            sent_at: self.sent_at,
            retry_count: self.retry_count,
        }
    }
}

impl TransactionData {
    /// Bundle the values captured at admission time.
    pub fn new(
        wire_transaction: Vec<u8>,
        parsed_transaction: ParsedTransaction,
        slot: u64,
        sent_at: u64,
        retry_count: usize,
    ) -> (r: TransactionData)
        ensures
            r@ == (TxDataView {
                wire_transaction: wire_transaction@,
                parsed_transaction: parsed_transaction@,
                slot: slot,
                sent_at: sent_at,
                retry_count: retry_count,
            }),
    {
        TransactionData { wire_transaction, parsed_transaction, slot, sent_at, retry_count }
    }
}

/// One stored association: a signature string and its data.
pub ghost struct EntryView {
    pub sig: Seq<char>,
    pub data: TxDataView,
}

/// Whether some entry of `entries` carries the key `sig`.
pub open spec fn store_contains(entries: Seq<EntryView>, sig: Seq<char>) -> bool {
    exists|i: int| 0 <= i < entries.len() && entries[i].sig == sig
}

/// `entries` with every entry keyed `sig` taken out.
pub open spec fn remove_key(entries: Seq<EntryView>, sig: Seq<char>) -> Seq<EntryView>
    decreases entries.len(),
{
    if entries.len() == 0 {
        Seq::empty()
    } else if entries[0].sig == sig {
        remove_key(entries.drop_first(), sig)
    } else {
        seq![entries[0]] + remove_key(entries.drop_first(), sig)
    }
}

/// The store proper. The key of each entry is the base-58 signature string
/// of the transaction it holds; keys are pairwise distinct.
pub struct TransactionStore {
    entries: Vec<(String, TransactionData)>,
}

impl TransactionStore {
    /// The stored entries, in insertion order.
    pub closed spec fn entries(&self) -> Seq<EntryView> {
        self.entries@.map_values(|e: (String, TransactionData)| EntryView { sig: e.0@, data: e.1@ })
    }

    /// Keys are pairwise distinct.
    pub open spec fn wf(&self) -> bool {
        forall|i: int, j: int|
            0 <= i < j < self.entries().len() ==> self.entries()[i].sig != self.entries()[j].sig
    }

    /// An empty store.
    pub fn new() -> (r: TransactionStore)
        ensures
            r.entries() == Seq::<EntryView>::empty(),
            r.wf(),
    {
        let r = TransactionStore { entries: Vec::new() };
        proof {
            assert(r.entries() =~= Seq::<EntryView>::empty());
        }
        r
    }

    /// How many transactions are stored.
    pub fn len(&self) -> (r: usize)
        ensures
            r == self.entries().len(),
    {
        self.entries.len()
    }

    /// Membership test on the signature key.
    pub fn has_signature(&self, signature: &String) -> (r: bool)
        ensures
            r == store_contains(self.entries(), signature@),
    {
        let n = self.entries.len();
        for i in 0..n
            invariant
                n == self.entries().len(),
                forall|k: int| 0 <= k < i ==> self.entries()[k].sig != signature@,
        {
            if self.entries[i].0.eq(signature) {
                proof {
                    assert(self.entries()[i as int].sig == signature@);
                }
                return true;
            }
        }
        false
    }

    /// Insert an entry under its signature key. A signature already present
    /// keeps its existing entry: uniqueness is enforced cooperatively, the
    /// admitting caller tests membership first, and a repeated insertion is
    /// ignored.
    pub fn add_transaction(&mut self, signature: String, data: TransactionData)
        requires
            old(self).wf(),
        ensures
            final(self).wf(),
            !store_contains(old(self).entries(), signature@) ==> final(self).entries()
                == old(self).entries().push(EntryView { sig: signature@, data: data@ }),
            store_contains(old(self).entries(), signature@) ==> final(self).entries()
                == old(self).entries(),
    {
        if self.has_signature(&signature) {
            return;
        }
        let ghost pre = self.entries();
        self.entries.push((signature, data));
        proof {
            assert(self.entries() =~= pre.push(
                EntryView { sig: self.entries@[pre.len() as int].0@, data: self.entries@[pre.len() as int].1@ },
            ));
        }
    }

    /// Remove the entry under this signature key; absent keys are a no-op.
    pub fn remove_transaction(&mut self, signature: &String)
        requires
            old(self).wf(),
        ensures
            final(self).wf(),
            final(self).entries() == remove_key(old(self).entries(), signature@),
    {
        let ghost pre = self.entries();
        let n = self.entries.len();
        let mut i: usize = 0;
        while i < n
            invariant
                n == pre.len(),
                i <= n,
                pre == old(self).entries(),
                self.entries() == pre,
                forall|p: int, q: int| 0 <= p < q < pre.len() ==> pre[p].sig != pre[q].sig,
                forall|k: int| 0 <= k < i ==> pre[k].sig != signature@,
            decreases n - i,
        {
            if self.entries[i].0.eq(signature) {
                proof {
                    assert(pre[i as int].sig == signature@);
                }
                self.entries.remove(i);
                proof {
                    lemma_remove_key_once(pre, signature@, i as int);
                    let ns = pre.subrange(0, i as int)
                        + pre.subrange(i as int + 1, pre.len() as int);
                    assert(self.entries() =~= ns);
                    assert forall|p: int, q: int|
                        0 <= p < q < ns.len() implies ns[p].sig != ns[q].sig by {
                        if p < i as int {
                            assert(ns[p] == pre[p]);
                        } else {
                            assert(ns[p] == pre.subrange(i as int + 1, pre.len() as int)[
                                p - i as int]);
                            assert(ns[p] == pre[p + 1]);
                        }
                        if q < i as int {
                            assert(ns[q] == pre[q]);
                        } else {
                            assert(ns[q] == pre[q + 1]);
                        }
                        let pp = if p < i as int { p } else { p + 1 };
                        let qq = if q < i as int { q } else { q + 1 };
                        assert(old(self).entries()[pp].sig != old(self).entries()[qq].sig);
                    }
                }
                return;
            }
            i += 1;
        }
        proof {
            lemma_remove_key_absent(pre, signature@);
        }
    }

    /// Borrow the signature key of the entry at `i`.
    pub fn signature_at(&self, i: usize) -> (r: &String)
        requires
            i < self.entries().len(),
        ensures
            r@ == self.entries()[i as int].sig,
    {
        &self.entries[i].0
    }

    /// Borrow the data of the entry at `i`.
    pub fn data_at(&self, i: usize) -> (r: &TransactionData)
        requires
            i < self.entries().len(),
        ensures
            r@ == self.entries()[i as int].data,
    {
        &self.entries[i].1
    }

    /// Take one retry off the entry at `i`, saturating at zero.
    pub fn decrement_retry_at(&mut self, i: usize)
        requires
            old(self).wf(),
            i < old(self).entries().len(),
        ensures
            final(self).wf(),
            final(self).entries() == old(self).entries().update(
                i as int,
                EntryView {
                    sig: old(self).entries()[i as int].sig,
                    data: decrement_retry(old(self).entries()[i as int].data),
                },
            ),
    {
        let ghost pre = self.entries();
        let rc = self.entries[i].1.retry_count;
        self.entries[i].1.retry_count = if rc > 0 { rc - 1 } else { 0 };
        proof {
            assert(self.entries() =~= pre.update(
                i as int,
                EntryView { sig: pre[i as int].sig, data: decrement_retry(pre[i as int].data) },
            ));
        }
    }
}

/// The same data with one retry taken off, saturating at zero.
pub open spec fn decrement_retry(d: TxDataView) -> TxDataView {
    TxDataView {
        retry_count: if d.retry_count > 0 { (d.retry_count - 1) as usize } else { 0 },
        ..d
    }
}

/// Removing a key that first occurs at `i` splices that entry out.
proof fn lemma_remove_key_once(entries: Seq<EntryView>, sig: Seq<char>, i: int)
    requires
        0 <= i < entries.len(),
        entries[i].sig == sig,
        forall|k: int| 0 <= k < i ==> entries[k].sig != sig,
        forall|p: int, q: int| 0 <= p < q < entries.len() ==> entries[p].sig != entries[q].sig,
    ensures
        remove_key(entries, sig) == entries.subrange(0, i) + entries.subrange(i + 1, entries.len() as int),
    decreases entries.len(),
{
    if i == 0 {
        lemma_remove_key_absent(entries.drop_first(), sig);
        assert(entries.subrange(0, 0) + entries.subrange(1, entries.len() as int)
            =~= entries.drop_first());
    } else {
        lemma_remove_key_once(entries.drop_first(), sig, i - 1);
        assert(entries.drop_first().subrange(0, i - 1) =~= entries.subrange(1, i));
        assert(entries.drop_first().subrange(i, entries.len() - 1)
            =~= entries.subrange(i + 1, entries.len() as int));
        assert(seq![entries[0]] + (entries.subrange(1, i)
            + entries.subrange(i + 1, entries.len() as int))
            =~= entries.subrange(0, i) + entries.subrange(i + 1, entries.len() as int));
    }
}

/// Removing an absent key changes nothing.
pub proof fn lemma_remove_key_absent(entries: Seq<EntryView>, sig: Seq<char>)
    requires
        !store_contains(entries, sig),
    ensures
        remove_key(entries, sig) == entries,
    decreases entries.len(),
{
    if entries.len() > 0 {
        assert(entries[0].sig != sig);
        assert(!store_contains(entries.drop_first(), sig)) by {
            if store_contains(entries.drop_first(), sig) {
                let i = choose|i: int|
                    0 <= i < entries.drop_first().len() && entries.drop_first()[i].sig == sig;
                assert(entries[i + 1].sig == sig);
            }
        }
        lemma_remove_key_absent(entries.drop_first(), sig);
        assert(seq![entries[0]] + entries.drop_first() =~= entries);
    } else {
        assert(remove_key(entries, sig) =~= entries);
    }
}

} // verus!
