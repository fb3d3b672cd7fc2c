use vstd::prelude::*;
use crate::types::{Listing, ListingView, Transaction, TransactionStatus, TransactionView};

verus! {

// ---------------------------------------------------------------------------
// Views of executable sequences
// ---------------------------------------------------------------------------

/// The mathematical values of a sequence of listings.
pub open spec fn listing_seq_view(s: Seq<Listing>) -> Seq<ListingView> {
    s.map_values(|l: Listing| l@)
}

/// The mathematical values of a sequence of transactions.
pub open spec fn transaction_seq_view(s: Seq<Transaction>) -> Seq<TransactionView> {
    s.map_values(|t: Transaction| t@)
}

pub proof fn lemma_listing_view_push(prev: Seq<Listing>, l: Listing)
    ensures
        listing_seq_view(prev.push(l)) == listing_seq_view(prev).push(l@),
{
    assert forall|j: int|
        0 <= j < prev.len() + 1 implies listing_seq_view(prev.push(l))[j] == listing_seq_view(
        prev,
    ).push(l@)[j] by {
        assert(listing_seq_view(prev.push(l))[j] == prev.push(l)[j]@);
        if j < prev.len() {
            assert(prev.push(l)[j] == prev[j]);
            assert(listing_seq_view(prev)[j] == prev[j]@);
        } else {
            assert(prev.push(l)[j] == l);
        }
    }
    assert(listing_seq_view(prev.push(l)) =~= listing_seq_view(prev).push(l@));
}

pub proof fn lemma_transaction_view_push(prev: Seq<Transaction>, t: Transaction)
    ensures
        transaction_seq_view(prev.push(t)) == transaction_seq_view(prev).push(t@),
{
    assert forall|j: int|
        0 <= j < prev.len() + 1 implies transaction_seq_view(prev.push(t))[j]
        == transaction_seq_view(prev).push(t@)[j] by {
        assert(transaction_seq_view(prev.push(t))[j] == prev.push(t)[j]@);
        if j < prev.len() {
            assert(prev.push(t)[j] == prev[j]);
            assert(transaction_seq_view(prev)[j] == prev[j]@);
        } else {
            assert(prev.push(t)[j] == t);
        }
    }
    assert(transaction_seq_view(prev.push(t)) =~= transaction_seq_view(prev).push(t@));
}

// ---------------------------------------------------------------------------
// Identifier sequences
// ---------------------------------------------------------------------------

/// The ids of a sequence of listings, in the same order.
pub open spec fn listing_ids(s: Seq<ListingView>) -> Seq<u64> {
    s.map_values(|l: ListingView| l.id)
}

/// The ids of a sequence of transactions, in the same order.
pub open spec fn transaction_ids(s: Seq<TransactionView>) -> Seq<u64> {
    s.map_values(|t: TransactionView| t.id)
}

/// Strictly ascending order: later entries have strictly larger values.
pub open spec fn strictly_sorted(s: Seq<u64>) -> bool {
    forall|i: int, j: int| 0 <= i < j < s.len() ==> s[i] < s[j]
}

/// The set of values that occur in a sequence.
pub open spec fn id_set(s: Seq<u64>) -> Set<u64> {
    Set::new(|k: u64| s.contains(k))
}

/// Two strictly sorted sequences with the same members are the same sequence.
pub proof fn lemma_sorted_unique_same(a: Seq<u64>, b: Seq<u64>)
    requires
        strictly_sorted(a),
        strictly_sorted(b),
        forall|k: u64| a.contains(k) <==> b.contains(k),
    ensures
        a == b,
    decreases a.len(),
{
    if a.len() == 0 {
        if b.len() > 0 {
            assert(b.contains(b[0]));
            assert(a.contains(b[0]));
        }
        assert(a =~= b);
    } else {
        assert(a.contains(a[0]));
        assert(b.contains(a[0]));
        let ja = choose|j: int| 0 <= j < b.len() && b[j] == a[0];
        assert(b.contains(b[0]));
        assert(a.contains(b[0]));
        let jb = choose|j: int| 0 <= j < a.len() && a[j] == b[0];
        // Each head is the least member of its sequence, so the heads agree.
        assert(b[0] <= b[ja]);
        assert(a[0] <= a[jb]);
        assert(a[0] == b[0]);
        let at = a.subrange(1, a.len() as int);
        let bt = b.subrange(1, b.len() as int);
        assert forall|k: u64| at.contains(k) implies bt.contains(k) by {
            let i = choose|i: int| 0 <= i < at.len() && at[i] == k;
            assert(a[i + 1] == k);
            assert(a.contains(k));
            assert(b.contains(k));
            let j = choose|j: int| 0 <= j < b.len() && b[j] == k;
            assert(a[0] < k);
            assert(j != 0);
            assert(bt[j - 1] == k);
            assert(bt.contains(k));
        }
        assert forall|k: u64| bt.contains(k) implies at.contains(k) by {
            let i = choose|i: int| 0 <= i < bt.len() && bt[i] == k;
            assert(b[i + 1] == k);
            assert(b.contains(k));
            assert(a.contains(k));
            let j = choose|j: int| 0 <= j < a.len() && a[j] == k;
            assert(b[0] < k);
            assert(j != 0);
            assert(at[j - 1] == k);
            assert(at.contains(k));
        }
        lemma_sorted_unique_same(at, bt);
        assert(a.len() == b.len());
        assert forall|i: int| 0 <= i < a.len() implies a[i] == b[i] by {
            if i > 0 {
                assert(at[i - 1] == a[i]);
                assert(bt[i - 1] == b[i]);
            }
        }
        assert(a =~= b);
    }
}

// ---------------------------------------------------------------------------
// Looking a listing up by id
// ---------------------------------------------------------------------------

/// Whether some entry of `s` carries the id `id`.
pub open spec fn has_listing(s: Seq<ListingView>, id: u64) -> bool {
    exists|i: int| 0 <= i < s.len() && s[i].id == id
}

/// An index of the entry of `s` that carries the id `id`.
pub open spec fn listing_index(s: Seq<ListingView>, id: u64) -> int {
    choose|i: int| 0 <= i < s.len() && s[i].id == id
}

/// The entry of `s` that carries the id `id`.
pub open spec fn listing_at(s: Seq<ListingView>, id: u64) -> ListingView {
    s[listing_index(s, id)]
}

// ---------------------------------------------------------------------------
// Volume
// ---------------------------------------------------------------------------

/// The sum of `price` over the completed transactions of `s`.
pub open spec fn volume(s: Seq<TransactionView>) -> int
    decreases s.len(),
{
    if s.len() == 0 {
        0
    } else {
        volume(s.drop_last()) + if s.last().status == TransactionStatus::Completed {
            s.last().price as int
        } else {
            0
        }
    }
}

/// The volume of a prefix never exceeds the volume of the whole sequence.
pub proof fn lemma_volume_prefix(s: Seq<TransactionView>, i: int)
    requires
        0 <= i <= s.len(),
    ensures
        volume(s.subrange(0, i)) <= volume(s),
    decreases s.len() - i,
{
    if i == s.len() {
        assert(s.subrange(0, i) =~= s);
    } else {
        lemma_volume_prefix(s, i + 1);
        assert(s.subrange(0, i + 1).drop_last() =~= s.subrange(0, i));
        assert(s.subrange(0, i + 1).last() == s[i]);
    }
}

} // verus!
