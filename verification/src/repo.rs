use vstd::prelude::*;
use crate::codec::{decode_listing, decode_transaction, encode_listing, encode_transaction,
    listing_enc_v, listings_well_encoded, transaction_enc_v, transactions_well_encoded};
use crate::model::{has_listing, id_set, lemma_sorted_unique_same, listing_at, listing_ids,
    listing_index, listing_seq_view, strictly_sorted, transaction_ids, transaction_seq_view};
use crate::storage::{RecordStore, record_contents, record_entries, record_get, record_insert};
use crate::types::{Listing, ListingView, Transaction, TransactionView};

verus! {

// ---------------------------------------------------------------------------
// Listing repository
// ---------------------------------------------------------------------------

/// Owns the listing persistent map. The repository's value is the sequence
/// of listings in ascending id order; each one is persisted under its id as
/// its external encoding.
pub struct ListingRepo {
    store: RecordStore,
    model: Ghost<Seq<ListingView>>,
}

impl View for ListingRepo {
    type V = Seq<ListingView>;

    closed spec fn view(&self) -> Seq<ListingView> {
        self.model@
    }
}

impl ListingRepo {
    /// Ids are at least 1 and strictly ascending, and the store holds
    /// exactly the encodings of the modelled listings under their ids.
    pub closed spec fn wf(self) -> bool {
        &&& strictly_sorted(listing_ids(self.model@))
        &&& forall|i: int| 0 <= i < self.model@.len() ==> (#[trigger] self.model@[i]).id >= 1
        &&& record_contents(self.store).dom() == id_set(listing_ids(self.model@))
        &&& forall|i: int|
            0 <= i < self.model@.len() ==> record_contents(self.store)[(
            #[trigger] self.model@[i]).id] == listing_enc_v(self.model@[i])
    }

    /// Open the repository over a store as the memory handed it back,
    /// rebuilding the id-ordered model: every record is decoded, checked to
    /// sit under its own nonzero id, and re-encoded in place so that later
    /// reads are exact. A record that does not decode or sits under a
    /// foreign or zero key is unrecoverable corruption: the result is then
    /// `None`.
    #[verifier::loop_isolation(false)]
    pub fn open(store: RecordStore) -> (r: Option<ListingRepo>)
        ensures
            r matches Some(repo) ==> repo.wf(),
            listings_well_encoded(record_contents(store)) ==> r is Some,
    {
        let mut st = store;
        let ghost m0 = record_contents(st);
        let entries = record_entries(&st);
        let mut model: Ghost<Seq<ListingView>> = Ghost(Seq::empty());
        let mut i: usize = 0;
        while i < entries.len()
            invariant
                i <= entries@.len(),
                forall|j: int|
                    0 <= j < entries@.len() ==> m0.contains_pair(
                        (#[trigger] entries@[j]).0,
                        entries@[j].1@,
                    ),
                forall|k: u64|
                    m0.dom().contains(k) ==> exists|j: int|
                        0 <= j < entries@.len() && (#[trigger] entries@[j]).0 == k,
                forall|j: int, jj: int| 0 <= j < jj < entries@.len() ==> entries@[j].0 < entries@[jj].0,
                record_contents(st).dom() == m0.dom(),
                model@.len() == i,
                forall|j: int| 0 <= j < i ==> (#[trigger] model@[j]).id == entries@[j].0,
                forall|j: int| 0 <= j < i ==> (#[trigger] model@[j]).id >= 1,
                forall|j: int|
                    0 <= j < i ==> record_contents(st)[(#[trigger] model@[j]).id]
                        == listing_enc_v(model@[j]),
            decreases entries@.len() - i,
        {
            let key = entries[i].0;
            proof {
                assert(m0.contains_pair(entries@[i as int].0, entries@[i as int].1@));
                assert(m0.dom().contains(key));
            }
            if key < 1 {
                proof {
                    if listings_well_encoded(m0) {
                        assert(key >= 1);
                    }
                }
                return None;
            }
            let decoded = match decode_listing(&entries[i].1) {
                Some(l) => l,
                None => {
                    proof {
                        if listings_well_encoded(m0) {
                            let lv = choose|lv: ListingView|
                                m0[key] == #[trigger] listing_enc_v(lv) && lv.id == key;
                            assert(entries@[i as int].1@ == listing_enc_v(lv));
                            assert(false);
                        }
                    }
                    return None;
                },
            };
            if decoded.id != key {
                proof {
                    if listings_well_encoded(m0) {
                        let lv = choose|lv: ListingView|
                            m0[key] == #[trigger] listing_enc_v(lv) && lv.id == key;
                        assert(entries@[i as int].1@ == listing_enc_v(lv));
                        assert(decoded@ == lv);
                        assert(false);
                    }
                }
                return None;
            }
            let fresh = encode_listing(&decoded);
            record_insert(&mut st, key, fresh);
            proof {
                model@ = model@.push(decoded@);
                assert(record_contents(st).dom() =~= m0.dom());
                assert forall|j: int|
                    0 <= j < i + 1 implies record_contents(st)[(#[trigger] model@[j]).id]
                    == listing_enc_v(model@[j]) by {
                    if j < i {
                        assert(model@[j].id == entries@[j].0);
                        assert(entries@[j].0 < key);
                    } else {
                        assert(model@[j] == decoded@);
                    }
                }
            }
            i = i + 1;
        }
        let repo = ListingRepo { store: st, model };
        proof {
            assert forall|ia: int, ja: int|
                0 <= ia < ja < listing_ids(repo.model@).len() implies listing_ids(repo.model@)[ia]
                < listing_ids(repo.model@)[ja] by {
                assert(listing_ids(repo.model@)[ia] == repo.model@[ia].id);
                assert(listing_ids(repo.model@)[ja] == repo.model@[ja].id);
                assert(repo.model@[ia].id == entries@[ia].0);
                assert(repo.model@[ja].id == entries@[ja].0);
            }
            assert forall|k: u64|
                record_contents(repo.store).dom().contains(k) == id_set(
                    listing_ids(repo.model@),
                ).contains(k) by {
                if record_contents(repo.store).dom().contains(k) {
                    let j = choose|j: int| 0 <= j < entries@.len() && entries@[j].0 == k;
                    assert(listing_ids(repo.model@)[j] == k);
                    assert(listing_ids(repo.model@).contains(k));
                }
                if listing_ids(repo.model@).contains(k) {
                    let j = choose|j: int|
                        0 <= j < listing_ids(repo.model@).len() && listing_ids(repo.model@)[j]
                            == k;
                    assert(repo.model@[j].id == k);
                    assert(entries@[j].0 == k);
                    assert(m0.contains_pair(entries@[j].0, entries@[j].1@));
                    assert(m0.dom().contains(k));
                }
            }
            assert(record_contents(repo.store).dom() =~= id_set(listing_ids(repo.model@)));
        }
        Some(repo)
    }

    /// Read the listing stored under `id`, if any.
    pub fn get(&self, id: u64) -> (r: Option<Listing>)
        requires
            self.wf(),
        ensures
            match r {
                Some(l) => has_listing(self@, id) && l@ == listing_at(self@, id),
                None => !has_listing(self@, id),
            },
    {
        match record_get(&self.store, id) {
            Some(bytes) => {
                proof {
                    assert(id_set(listing_ids(self.model@)).contains(id));
                    assert(listing_ids(self.model@).contains(id));
                    let i = choose|i: int|
                        0 <= i < listing_ids(self.model@).len() && listing_ids(self.model@)[i]
                            == id;
                    assert(self.model@[i].id == id);
                    assert(has_listing(self@, id));
                    let j = listing_index(self@, id);
                    assert(0 <= j < self.model@.len() && self.model@[j].id == id);
                    assert(bytes@ == listing_enc_v(listing_at(self@, id)));
                }
                match decode_listing(&bytes) {
                    Some(l) => Some(l),
                    None => {
                        proof {
                            assert(false);
                        }
                        None
                    },
                }
            },
            None => {
                proof {
                    if has_listing(self@, id) {
                        let j = listing_index(self@, id);
                        assert(listing_ids(self.model@)[j] == id);
                        assert(listing_ids(self.model@).contains(id));
                        assert(id_set(listing_ids(self.model@)).contains(id));
                    }
                }
                None
            },
        }
    }

    /// Persist a listing whose id is larger than every stored id.
    pub fn append(&mut self, l: &Listing)
        requires
            old(self).wf(),
            l@.id >= 1,
            forall|i: int| 0 <= i < old(self)@.len() ==> (#[trigger] old(self)@[i]).id < l@.id,
        ensures
            final(self).wf(),
            final(self)@ == old(self)@.push(l@),
    {
        let bytes = encode_listing(l);
        record_insert(&mut self.store, l.id, bytes);
        proof {
            self.model@ = self.model@.push(l@);
            let m0 = old(self).model@;
            let m1 = self.model@;
            assert(listing_ids(m1) =~= listing_ids(m0).push(l@.id));
            assert forall|k: u64|
                record_contents(self.store).dom().contains(k) == id_set(
                    listing_ids(m1),
                ).contains(k) by {
                if record_contents(self.store).dom().contains(k) {
                    if k == l@.id {
                        assert(listing_ids(m1)[m0.len() as int] == k);
                        assert(listing_ids(m1).contains(k));
                    } else {
                        assert(id_set(listing_ids(m0)).contains(k));
                        let i = choose|i: int|
                            0 <= i < listing_ids(m0).len() && listing_ids(m0)[i] == k;
                        assert(listing_ids(m1)[i] == k);
                        assert(listing_ids(m1).contains(k));
                    }
                }
                if listing_ids(m1).contains(k) {
                    let i = choose|i: int|
                        0 <= i < listing_ids(m1).len() && listing_ids(m1)[i] == k;
                    if i < m0.len() {
                        assert(listing_ids(m0)[i] == k);
                        assert(listing_ids(m0).contains(k));
                        assert(id_set(listing_ids(m0)).contains(k));
                    }
                    assert(record_contents(self.store).dom().contains(k));
                }
            }
            assert(record_contents(self.store).dom() =~= id_set(listing_ids(m1)));
            assert forall|i: int, j: int|
                0 <= i < j < listing_ids(m1).len() implies listing_ids(m1)[i] < listing_ids(m1)[j] by {
                assert(listing_ids(m1)[i] == m1[i].id);
                assert(listing_ids(m1)[j] == m1[j].id);
                if j < m0.len() {
                    assert(listing_ids(m0)[i] < listing_ids(m0)[j]);
                } else {
                    assert(m1[j] == l@);
                    assert(m1[i] == m0[i]);
                    assert(old(self)@[i].id < l@.id);
                }
            }
            assert forall|i: int| 0 <= i < m1.len() implies (#[trigger] m1[i]).id >= 1 by {
                if i < m0.len() {
                    assert(m1[i] == m0[i]);
                    assert(old(self)@[i].id >= 1);
                } else {
                    assert(m1[i] == l@);
                }
            }
            assert forall|i: int|
                0 <= i < m1.len() implies record_contents(self.store)[(#[trigger] m1[i]).id]
                == listing_enc_v(m1[i]) by {
                if i < m0.len() {
                    assert(m1[i] == m0[i]);
                    assert(old(self)@[i].id < l@.id);
                    assert(m0[i] == old(self)@[i]);
                    assert(record_contents(old(self).store)[m0[i].id] == listing_enc_v(m0[i]));
                } else {
                    assert(m1[i] == l@);
                }
            }
        }
    }

    /// Overwrite the stored listing that carries the same id as `l`.
    pub fn replace(&mut self, l: &Listing)
        requires
            old(self).wf(),
            has_listing(old(self)@, l@.id),
        ensures
            final(self).wf(),
            final(self)@ == old(self)@.update(listing_index(old(self)@, l@.id), l@),
    {
        let bytes = encode_listing(l);
        record_insert(&mut self.store, l.id, bytes);
        proof {
            let m0 = old(self).model@;
            let j = listing_index(m0, l@.id);
            self.model@ = self.model@.update(j, l@);
            let m1 = self.model@;
            assert(0 <= j < m0.len() && m0[j].id == l@.id);
            assert(listing_ids(m1) =~= listing_ids(m0));
            assert(listing_ids(m0)[j] == l@.id);
            assert(listing_ids(m0).contains(l@.id));
            assert(id_set(listing_ids(m0)).contains(l@.id));
            assert(record_contents(self.store).dom() =~= id_set(listing_ids(m0)));
            assert forall|i: int|
                0 <= i < m1.len() implies record_contents(self.store)[(#[trigger] m1[i]).id]
                == listing_enc_v(m1[i]) by {
                if i != j {
                    assert(listing_ids(m0)[i] != listing_ids(m0)[j]);
                    assert(m1[i] == m0[i]);
                }
            }
        }
    }

    /// All stored listings, in ascending id order.
    pub fn all(&self) -> (r: Vec<Listing>)
        requires
            self.wf(),
        ensures
            listing_seq_view(r@) == self@,
    {
        let entries = record_entries(&self.store);
        proof {
            let keys = entries@.map_values(|p: (u64, Vec<u8>)| p.0);
            assert forall|k: u64| keys.contains(k) == listing_ids(self.model@).contains(k) by {
                if keys.contains(k) {
                    let i = choose|i: int| 0 <= i < keys.len() && keys[i] == k;
                    assert(entries@[i].0 == k);
                    assert(record_contents(self.store).contains_pair(entries@[i].0, entries@[i].1@));
                    assert(id_set(listing_ids(self.model@)).contains(k));
                    assert(listing_ids(self.model@).contains(k));
                }
                if listing_ids(self.model@).contains(k) {
                    assert(id_set(listing_ids(self.model@)).contains(k));
                    assert(record_contents(self.store).dom().contains(k));
                    let i = choose|i: int| 0 <= i < entries@.len() && entries@[i].0 == k;
                    assert(keys[i] == k);
                    assert(keys.contains(k));
                }
            }
            lemma_sorted_unique_same(keys, listing_ids(self.model@));
        }
        let mut out: Vec<Listing> = Vec::new();
        let mut i: usize = 0;
        while i < entries.len()
            invariant
                self.wf(),
                i <= entries@.len(),
                entries@.len() == self@.len(),
                forall|j: int| 0 <= j < entries@.len() ==> (#[trigger] entries@[j]).0 == self@[j].id,
                forall|j: int|
                    0 <= j < entries@.len() ==> record_contents(self.store).contains_pair(
                        (#[trigger] entries@[j]).0,
                        entries@[j].1@,
                    ),
                listing_seq_view(out@) == self@.subrange(0, i as int),
            decreases entries@.len() - i,
        {
            proof {
                assert(record_contents(self.store).contains_pair(
                    entries@[i as int].0,
                    entries@[i as int].1@,
                ));
                assert(entries@[i as int].0 == self@[i as int].id);
                assert(record_contents(self.store)[self@[i as int].id] == listing_enc_v(
                    self@[i as int],
                ));
                assert(entries@[i as int].1@ == listing_enc_v(self@[i as int]));
            }
            match decode_listing(&entries[i].1) {
                Some(l) => {
                    proof {
                        assert(l@ == self@[i as int]);
                    }
                    let ghost prev = out@;
                    out.push(l);
                    proof {
                        assert(listing_seq_view(prev).len() == prev.len());
                        assert(prev.len() == i as int);
                        assert(out@ == prev.push(l));
                        assert forall|j: int|
                            0 <= j <= i as int implies listing_seq_view(out@)[j] == self@[j] by {
                            assert(listing_seq_view(out@)[j] == out@[j]@);
                            if j < i as int {
                                assert(out@[j] == prev[j]);
                                assert(listing_seq_view(prev)[j] == prev[j]@);
                                assert(listing_seq_view(prev)[j] == self@.subrange(0, i as int)[j]);
                            } else {
                                assert(out@[j] == l);
                            }
                        }
                        assert(listing_seq_view(out@) =~= self@.subrange(0, i as int + 1));
                    }
                },
                None => {
                    proof {
                        assert(false);
                    }
                },
            }
            i = i + 1;
        }
        proof {
            assert(self@.subrange(0, self@.len() as int) =~= self@);
        }
        out
    }
}

// ---------------------------------------------------------------------------
// Transaction repository
// ---------------------------------------------------------------------------

/// Owns the transaction persistent map. The repository's value is the
/// sequence of transactions in ascending id order; each one is persisted
/// under its id as its external encoding.
pub struct TransactionRepo {
    store: RecordStore,
    model: Ghost<Seq<TransactionView>>,
}

impl View for TransactionRepo {
    type V = Seq<TransactionView>;

    closed spec fn view(&self) -> Seq<TransactionView> {
        self.model@
    }
}

impl TransactionRepo {
    /// Ids are at least 1 and strictly ascending, and the store holds
    /// exactly the encodings of the modelled transactions under their ids.
    pub closed spec fn wf(self) -> bool {
        &&& strictly_sorted(transaction_ids(self.model@))
        &&& forall|i: int| 0 <= i < self.model@.len() ==> (#[trigger] self.model@[i]).id >= 1
        &&& record_contents(self.store).dom() == id_set(transaction_ids(self.model@))
        &&& forall|i: int|
            0 <= i < self.model@.len() ==> record_contents(self.store)[(
            #[trigger] self.model@[i]).id] == transaction_enc_v(self.model@[i])
    }

    /// Open the repository over a store as the memory handed it back,
    /// rebuilding the id-ordered model: every record is decoded, checked to
    /// sit under its own nonzero id, and re-encoded in place so that later
    /// reads are exact. A record that does not decode or sits under a
    /// foreign or zero key is unrecoverable corruption: the result is then
    /// `None`.
    #[verifier::loop_isolation(false)]
    pub fn open(store: RecordStore) -> (r: Option<TransactionRepo>)
        ensures
            r matches Some(repo) ==> repo.wf(),
            transactions_well_encoded(record_contents(store)) ==> r is Some,
    {
        let mut st = store;
        let ghost m0 = record_contents(st);
        let entries = record_entries(&st);
        let mut model: Ghost<Seq<TransactionView>> = Ghost(Seq::empty());
        let mut i: usize = 0;
        while i < entries.len()
            invariant
                i <= entries@.len(),
                forall|j: int|
                    0 <= j < entries@.len() ==> m0.contains_pair(
                        (#[trigger] entries@[j]).0,
                        entries@[j].1@,
                    ),
                forall|k: u64|
                    m0.dom().contains(k) ==> exists|j: int|
                        0 <= j < entries@.len() && (#[trigger] entries@[j]).0 == k,
                forall|j: int, jj: int| 0 <= j < jj < entries@.len() ==> entries@[j].0 < entries@[jj].0,
                record_contents(st).dom() == m0.dom(),
                model@.len() == i,
                forall|j: int| 0 <= j < i ==> (#[trigger] model@[j]).id == entries@[j].0,
                forall|j: int| 0 <= j < i ==> (#[trigger] model@[j]).id >= 1,
                forall|j: int|
                    0 <= j < i ==> record_contents(st)[(#[trigger] model@[j]).id]
                        == transaction_enc_v(model@[j]),
            decreases entries@.len() - i,
        {
            let key = entries[i].0;
            proof {
                assert(m0.contains_pair(entries@[i as int].0, entries@[i as int].1@));
                assert(m0.dom().contains(key));
            }
            if key < 1 {
                proof {
                    if transactions_well_encoded(m0) {
                        assert(key >= 1);
                    }
                }
                return None;
            }
            let decoded = match decode_transaction(&entries[i].1) {
                Some(t) => t,
                None => {
                    proof {
                        if transactions_well_encoded(m0) {
                            let tv = choose|tv: TransactionView|
                                m0[key] == #[trigger] transaction_enc_v(tv) && tv.id == key;
                            assert(entries@[i as int].1@ == transaction_enc_v(tv));
                            assert(false);
                        }
                    }
                    return None;
                },
            };
            if decoded.id != key {
                proof {
                    if transactions_well_encoded(m0) {
                        let tv = choose|tv: TransactionView|
                            m0[key] == #[trigger] transaction_enc_v(tv) && tv.id == key;
                        assert(entries@[i as int].1@ == transaction_enc_v(tv));
                        assert(decoded@ == tv);
                        assert(false);
                    }
                }
                return None;
            }
            let fresh = encode_transaction(&decoded);
            record_insert(&mut st, key, fresh);
            proof {
                model@ = model@.push(decoded@);
                assert(record_contents(st).dom() =~= m0.dom());
                assert forall|j: int|
                    0 <= j < i + 1 implies record_contents(st)[(#[trigger] model@[j]).id]
                    == transaction_enc_v(model@[j]) by {
                    if j < i {
                        assert(model@[j].id == entries@[j].0);
                        assert(entries@[j].0 < key);
                    } else {
                        assert(model@[j] == decoded@);
                    }
                }
            }
            i = i + 1;
        }
        let repo = TransactionRepo { store: st, model };
        proof {
            assert forall|ia: int, ja: int|
                0 <= ia < ja < transaction_ids(repo.model@).len() implies transaction_ids(
                repo.model@)[ia] < transaction_ids(repo.model@)[ja] by {
                assert(transaction_ids(repo.model@)[ia] == repo.model@[ia].id);
                assert(transaction_ids(repo.model@)[ja] == repo.model@[ja].id);
                assert(repo.model@[ia].id == entries@[ia].0);
                assert(repo.model@[ja].id == entries@[ja].0);
            }
            assert forall|k: u64|
                record_contents(repo.store).dom().contains(k) == id_set(
                    transaction_ids(repo.model@),
                ).contains(k) by {
                if record_contents(repo.store).dom().contains(k) {
                    let j = choose|j: int| 0 <= j < entries@.len() && entries@[j].0 == k;
                    assert(transaction_ids(repo.model@)[j] == k);
                    assert(transaction_ids(repo.model@).contains(k));
                }
                if transaction_ids(repo.model@).contains(k) {
                    let j = choose|j: int|
                        0 <= j < transaction_ids(repo.model@).len() && transaction_ids(
                        repo.model@)[j] == k;
                    assert(repo.model@[j].id == k);
                    assert(entries@[j].0 == k);
                    assert(m0.contains_pair(entries@[j].0, entries@[j].1@));
                    assert(m0.dom().contains(k));
                }
            }
            assert(record_contents(repo.store).dom() =~= id_set(transaction_ids(repo.model@)));
        }
        Some(repo)
    }

    /// Persist a transaction whose id is larger than every stored id.
    pub fn append(&mut self, t: &Transaction)
        requires
            old(self).wf(),
            t@.id >= 1,
            forall|i: int| 0 <= i < old(self)@.len() ==> (#[trigger] old(self)@[i]).id < t@.id,
        ensures
            final(self).wf(),
            final(self)@ == old(self)@.push(t@),
    {
        let bytes = encode_transaction(t);
        record_insert(&mut self.store, t.id, bytes);
        proof {
            self.model@ = self.model@.push(t@);
            let m0 = old(self).model@;
            let m1 = self.model@;
            assert(transaction_ids(m1) =~= transaction_ids(m0).push(t@.id));
            assert forall|k: u64|
                record_contents(self.store).dom().contains(k) == id_set(
                    transaction_ids(m1),
                ).contains(k) by {
                if record_contents(self.store).dom().contains(k) {
                    if k == t@.id {
                        assert(transaction_ids(m1)[m0.len() as int] == k);
                        assert(transaction_ids(m1).contains(k));
                    } else {
                        assert(id_set(transaction_ids(m0)).contains(k));
                        let i = choose|i: int|
                            0 <= i < transaction_ids(m0).len() && transaction_ids(m0)[i] == k;
                        assert(transaction_ids(m1)[i] == k);
                        assert(transaction_ids(m1).contains(k));
                    }
                }
                if transaction_ids(m1).contains(k) {
                    let i = choose|i: int|
                        0 <= i < transaction_ids(m1).len() && transaction_ids(m1)[i] == k;
                    if i < m0.len() {
                        assert(transaction_ids(m0)[i] == k);
                        assert(transaction_ids(m0).contains(k));
                        assert(id_set(transaction_ids(m0)).contains(k));
                    }
                    assert(record_contents(self.store).dom().contains(k));
                }
            }
            assert(record_contents(self.store).dom() =~= id_set(transaction_ids(m1)));
            assert forall|i: int, j: int|
                0 <= i < j < transaction_ids(m1).len() implies transaction_ids(m1)[i] < transaction_ids(m1)[j] by {
                assert(transaction_ids(m1)[i] == m1[i].id);
                assert(transaction_ids(m1)[j] == m1[j].id);
                if j < m0.len() {
                    assert(transaction_ids(m0)[i] < transaction_ids(m0)[j]);
                } else {
                    assert(m1[j] == t@);
                    assert(m1[i] == m0[i]);
                    assert(old(self)@[i].id < t@.id);
                }
            }
            assert forall|i: int| 0 <= i < m1.len() implies (#[trigger] m1[i]).id >= 1 by {
                if i < m0.len() {
                    assert(m1[i] == m0[i]);
                    assert(old(self)@[i].id >= 1);
                } else {
                    assert(m1[i] == t@);
                }
            }
            assert forall|i: int|
                0 <= i < m1.len() implies record_contents(self.store)[(#[trigger] m1[i]).id]
                == transaction_enc_v(m1[i]) by {
                if i < m0.len() {
                    assert(m1[i] == m0[i]);
                    assert(old(self)@[i].id < t@.id);
                    assert(m0[i] == old(self)@[i]);
                    assert(record_contents(old(self).store)[m0[i].id] == transaction_enc_v(m0[i]));
                } else {
                    assert(m1[i] == t@);
                }
            }
        }
    }

    /// All stored transactions, in ascending id order.
    pub fn all(&self) -> (r: Vec<Transaction>)
        requires
            self.wf(),
        ensures
            transaction_seq_view(r@) == self@,
    {
        let entries = record_entries(&self.store);
        proof {
            let keys = entries@.map_values(|p: (u64, Vec<u8>)| p.0);
            assert forall|k: u64| keys.contains(k) == transaction_ids(self.model@).contains(
                k,
            ) by {
                if keys.contains(k) {
                    let i = choose|i: int| 0 <= i < keys.len() && keys[i] == k;
                    assert(entries@[i].0 == k);
                    assert(record_contents(self.store).contains_pair(entries@[i].0, entries@[i].1@));
                    assert(id_set(transaction_ids(self.model@)).contains(k));
                    assert(transaction_ids(self.model@).contains(k));
                }
                if transaction_ids(self.model@).contains(k) {
                    assert(id_set(transaction_ids(self.model@)).contains(k));
                    assert(record_contents(self.store).dom().contains(k));
                    let i = choose|i: int| 0 <= i < entries@.len() && entries@[i].0 == k;
                    assert(keys[i] == k);
                    assert(keys.contains(k));
                }
            }
            lemma_sorted_unique_same(keys, transaction_ids(self.model@));
        }
        let mut out: Vec<Transaction> = Vec::new();
        let mut i: usize = 0;
        while i < entries.len()
            invariant
                self.wf(),
                i <= entries@.len(),
                entries@.len() == self@.len(),
                forall|j: int| 0 <= j < entries@.len() ==> (#[trigger] entries@[j]).0 == self@[j].id,
                forall|j: int|
                    0 <= j < entries@.len() ==> record_contents(self.store).contains_pair(
                        (#[trigger] entries@[j]).0,
                        entries@[j].1@,
                    ),
                transaction_seq_view(out@) == self@.subrange(0, i as int),
            decreases entries@.len() - i,
        {
            proof {
                assert(record_contents(self.store).contains_pair(
                    entries@[i as int].0,
                    entries@[i as int].1@,
                ));
                assert(entries@[i as int].0 == self@[i as int].id);
                assert(record_contents(self.store)[self@[i as int].id] == transaction_enc_v(
                    self@[i as int],
                ));
                assert(entries@[i as int].1@ == transaction_enc_v(self@[i as int]));
            }
            match decode_transaction(&entries[i].1) {
                Some(t) => {
                    proof {
                        assert(t@ == self@[i as int]);
                    }
                    let ghost prev = out@;
                    out.push(t);
                    proof {
                        assert(transaction_seq_view(prev).len() == prev.len());
                        assert(prev.len() == i as int);
                        assert(out@ == prev.push(t));
                        assert forall|j: int|
                            0 <= j <= i as int implies transaction_seq_view(out@)[j] == self@[j] by {
                            assert(transaction_seq_view(out@)[j] == out@[j]@);
                            if j < i as int {
                                assert(out@[j] == prev[j]);
                                assert(transaction_seq_view(prev)[j] == prev[j]@);
                                assert(transaction_seq_view(prev)[j] == self@.subrange(0, i as int)[j]);
                            } else {
                                assert(out@[j] == t);
                            }
                        }
                        assert(transaction_seq_view(out@) =~= self@.subrange(0, i as int + 1));
                    }
                },
                None => {
                    proof {
                        assert(false);
                    }
                },
            }
            i = i + 1;
        }
        proof {
            assert(self@.subrange(0, self@.len() as int) =~= self@);
        }
        out
    }
}

} // verus!
