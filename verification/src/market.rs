use vstd::prelude::*;
use crate::model::{has_listing, lemma_listing_view_push, lemma_transaction_view_push,
    lemma_volume_prefix, listing_at, listing_index, listing_seq_view, transaction_seq_view,
    volume};
use crate::repo::{ListingRepo, TransactionRepo};
use crate::storage::{SlotStore, open_stores, slot_contents, slot_get, slot_insert};
use crate::text::{listing_matches, lower_of, matches_listing, to_lowercase};
use crate::types::{Listing, ListingInput, ListingInputView, ListingView, MarketError,
    MarketplaceStats, Transaction, TransactionStatus, TransactionView, UserId, clone_listing};

verus! {

// ---------------------------------------------------------------------------
// The marketplace's mathematical state
// ---------------------------------------------------------------------------

/// The whole durable state: both record sequences in ascending id order and
/// the two id counters.
#[verifier::ext_equal]
pub struct MarketView {
    pub listings: Seq<ListingView>,
    pub transactions: Seq<TransactionView>,
    pub listing_ctr: u64,
    pub transaction_ctr: u64,
}

/// The slot a counter keeps its value in; an absent slot reads as zero.
pub open spec fn slot_value(m: Map<u8, u64>) -> u64 {
    if m.dom().contains(0u8) {
        m[0u8]
    } else {
        0u64
    }
}

/// A rejected listing command's result.
pub open spec fn listing_err(e: MarketError) -> Result<ListingView, MarketError> {
    Err(e)
}

/// A successful listing command's result.
pub open spec fn listing_ok(l: ListingView) -> Result<ListingView, MarketError> {
    Ok(l)
}

/// A rejected purchase's result.
pub open spec fn tx_err(e: MarketError) -> Result<TransactionView, MarketError> {
    Err(e)
}

/// A successful purchase's result.
pub open spec fn tx_ok(t: TransactionView) -> Result<TransactionView, MarketError> {
    Ok(t)
}

/// The value of a listing command's result.
pub open spec fn listing_result_view(r: Result<Listing, MarketError>) -> Result<
    ListingView,
    MarketError,
> {
    match r {
        Ok(l) => Ok(l@),
        Err(e) => Err(e),
    }
}

/// The value of a purchase's result.
pub open spec fn transaction_result_view(r: Result<Transaction, MarketError>) -> Result<
    TransactionView,
    MarketError,
> {
    match r {
        Ok(t) => Ok(t@),
        Err(e) => Err(e),
    }
}

// ---------------------------------------------------------------------------
// Selections over the stored records
// ---------------------------------------------------------------------------

/// The active listings of `s`, in order.
pub open spec fn active_listings_of(s: Seq<ListingView>) -> Seq<ListingView>
    decreases s.len(),
{
    if s.len() == 0 {
        Seq::empty()
    } else {
        let rest = active_listings_of(s.drop_last());
        if s.last().is_active {
            rest.push(s.last())
        } else {
            rest
        }
    }
}

/// The listings of `s` owned by `seller`, active or not, in order.
pub open spec fn seller_listings_of(s: Seq<ListingView>, seller: UserId) -> Seq<ListingView>
    decreases s.len(),
{
    if s.len() == 0 {
        Seq::empty()
    } else {
        let rest = seller_listings_of(s.drop_last(), seller);
        if s.last().seller == seller {
            rest.push(s.last())
        } else {
            rest
        }
    }
}

/// The active listings of `s` that match the lowercased query `q`, in order.
pub open spec fn matching_listings_of(s: Seq<ListingView>, q: Seq<char>) -> Seq<ListingView>
    decreases s.len(),
{
    if s.len() == 0 {
        Seq::empty()
    } else {
        let rest = matching_listings_of(s.drop_last(), q);
        if s.last().is_active && listing_matches(s.last(), q) {
            rest.push(s.last())
        } else {
            rest
        }
    }
}

/// The active listings of `s` whose category lowercases to `c`, in order.
pub open spec fn category_listings_of(s: Seq<ListingView>, c: Seq<char>) -> Seq<ListingView>
    decreases s.len(),
{
    if s.len() == 0 {
        Seq::empty()
    } else {
        let rest = category_listings_of(s.drop_last(), c);
        if s.last().is_active && lower_of(s.last().category) == c {
            rest.push(s.last())
        } else {
            rest
        }
    }
}

/// The transactions of `s` in which `user` took part on either side.
pub open spec fn user_transactions_of(s: Seq<TransactionView>, user: UserId) -> Seq<
    TransactionView,
>
    decreases s.len(),
{
    if s.len() == 0 {
        Seq::empty()
    } else {
        let rest = user_transactions_of(s.drop_last(), user);
        if s.last().buyer == user || s.last().seller == user {
            rest.push(s.last())
        } else {
            rest
        }
    }
}

/// The transactions of `s` bought by `buyer`, in order.
pub open spec fn purchases_of(s: Seq<TransactionView>, buyer: UserId) -> Seq<TransactionView>
    decreases s.len(),
{
    if s.len() == 0 {
        Seq::empty()
    } else {
        let rest = purchases_of(s.drop_last(), buyer);
        if s.last().buyer == buyer {
            rest.push(s.last())
        } else {
            rest
        }
    }
}

/// The transactions of `s` sold by `seller`, in order.
pub open spec fn sales_of(s: Seq<TransactionView>, seller: UserId) -> Seq<TransactionView>
    decreases s.len(),
{
    if s.len() == 0 {
        Seq::empty()
    } else {
        let rest = sales_of(s.drop_last(), seller);
        if s.last().seller == seller {
            rest.push(s.last())
        } else {
            rest
        }
    }
}

// ---------------------------------------------------------------------------
// Transitions
// ---------------------------------------------------------------------------

/// The listing a successful creation stores and returns.
pub open spec fn new_listing_view(
    id: u64,
    seller: UserId,
    input: ListingInputView,
    now: u64,
) -> ListingView {
    ListingView {
        id,
        asset_id: input.asset_id,
        seller,
        price: input.price,
        created_at: now,
        updated_at: now,
        is_active: true,
        title: input.title,
        description: input.description,
        category: input.category,
        tags: input.tags,
    }
}

/// A listing after deactivation at time `now`.
pub open spec fn deactivated(l: ListingView, now: u64) -> ListingView {
    ListingView {
        id: l.id,
        asset_id: l.asset_id,
        seller: l.seller,
        price: l.price,
        created_at: l.created_at,
        updated_at: now,
        is_active: false,
        title: l.title,
        description: l.description,
        category: l.category,
        tags: l.tags,
    }
}

/// A listing after a price change at time `now`.
pub open spec fn repriced(l: ListingView, price: u64, now: u64) -> ListingView {
    ListingView {
        id: l.id,
        asset_id: l.asset_id,
        seller: l.seller,
        price,
        created_at: l.created_at,
        updated_at: now,
        is_active: l.is_active,
        title: l.title,
        description: l.description,
        category: l.category,
        tags: l.tags,
    }
}

/// The transaction a successful purchase of `l` records: price and seller
/// are copied from the listing, and the status is immediately Completed.
pub open spec fn new_transaction_view(
    id: u64,
    l: ListingView,
    listing_id: u64,
    buyer: UserId,
    now: u64,
) -> TransactionView {
    TransactionView {
        id,
        asset_id: l.asset_id,
        listing_id,
        seller: l.seller,
        buyer,
        price: l.price,
        transaction_time: now,
        status: TransactionStatus::Completed,
    }
}

/// Once a listing is inactive, no command changes any field of it; in
/// particular none ever reactivates it.
pub open spec fn preserves_inactive(pre: Seq<ListingView>, post: Seq<ListingView>) -> bool {
    forall|i: int|
        0 <= i < pre.len() && !(#[trigger] pre[i]).is_active ==> i < post.len() && post[i]
            == pre[i]
}

/// What `create_listing` does: an anonymous seller is rejected and nothing
/// changes; otherwise the next listing id is allocated and a fresh active
/// listing is appended and returned.
pub open spec fn create_transition(
    pre: MarketView,
    seller: UserId,
    input: ListingInputView,
    now: u64,
    post: MarketView,
    r: Result<ListingView, MarketError>,
) -> bool {
    if seller.is_anonymous() {
        post == pre && r == listing_err(MarketError::Unauthorized)
    } else {
        let id = (pre.listing_ctr + 1) as u64;
        let l = new_listing_view(id, seller, input, now);
        r == listing_ok(l) && post == (MarketView {
            listings: pre.listings.push(l),
            transactions: pre.transactions,
            listing_ctr: id,
            transaction_ctr: pre.transaction_ctr,
        })
    }
}

/// What `buy_asset` does: the checks in order (anonymous buyer, missing
/// listing, inactive listing, own listing), and on success the single
/// atomic step that deactivates the listing and records the completed
/// transaction under the next transaction id.
pub open spec fn buy_transition(
    pre: MarketView,
    buyer: UserId,
    listing_id: u64,
    now: u64,
    post: MarketView,
    r: Result<TransactionView, MarketError>,
) -> bool {
    if buyer.is_anonymous() {
        post == pre && r == tx_err(MarketError::Unauthorized)
    } else if !has_listing(pre.listings, listing_id) {
        post == pre && r == tx_err(MarketError::NotFound)
    } else if !listing_at(pre.listings, listing_id).is_active {
        post == pre && r == tx_err(MarketError::InvalidState)
    } else if listing_at(pre.listings, listing_id).seller == buyer {
        post == pre && r == tx_err(MarketError::Forbidden)
    } else {
        let tid = (pre.transaction_ctr + 1) as u64;
        let t = new_transaction_view(tid, listing_at(pre.listings, listing_id), listing_id, buyer, now);
        r == tx_ok(t) && post == (MarketView {
            listings: pre.listings.update(
                listing_index(pre.listings, listing_id),
                deactivated(listing_at(pre.listings, listing_id), now),
            ),
            transactions: pre.transactions.push(t),
            listing_ctr: pre.listing_ctr,
            transaction_ctr: tid,
        })
    }
}

/// What `update_listing_price` does: the checks in order (missing listing,
/// non-seller caller, inactive listing), and on success the repriced
/// listing replaces the stored one and is returned.
pub open spec fn update_price_transition(
    pre: MarketView,
    caller: UserId,
    listing_id: u64,
    new_price: u64,
    now: u64,
    post: MarketView,
    r: Result<ListingView, MarketError>,
) -> bool {
    if !has_listing(pre.listings, listing_id) {
        post == pre && r == listing_err(MarketError::NotFound)
    } else if listing_at(pre.listings, listing_id).seller != caller {
        post == pre && r == listing_err(MarketError::Forbidden)
    } else if !listing_at(pre.listings, listing_id).is_active {
        post == pre && r == listing_err(MarketError::InvalidState)
    } else {
        let l = repriced(listing_at(pre.listings, listing_id), new_price, now);
        r == listing_ok(l) && post == (MarketView {
            listings: pre.listings.update(listing_index(pre.listings, listing_id), l),
            transactions: pre.transactions,
            listing_ctr: pre.listing_ctr,
            transaction_ctr: pre.transaction_ctr,
        })
    }
}

/// What `cancel_listing` does: the checks in order (missing listing,
/// non-seller caller), and on success the deactivated listing replaces the
/// stored one and is returned. Cancelling an already-inactive listing is
/// allowed, changes nothing, and returns the stored listing as it is: no
/// field of a listing changes once it is inactive.
pub open spec fn cancel_transition(
    pre: MarketView,
    caller: UserId,
    listing_id: u64,
    now: u64,
    post: MarketView,
    r: Result<ListingView, MarketError>,
) -> bool {
    if !has_listing(pre.listings, listing_id) {
        post == pre && r == listing_err(MarketError::NotFound)
    } else if listing_at(pre.listings, listing_id).seller != caller {
        post == pre && r == listing_err(MarketError::Forbidden)
    } else if !listing_at(pre.listings, listing_id).is_active {
        post == pre && r == listing_ok(listing_at(pre.listings, listing_id))
    } else {
        let l = deactivated(listing_at(pre.listings, listing_id), now);
        r == listing_ok(l) && post == (MarketView {
            listings: pre.listings.update(listing_index(pre.listings, listing_id), l),
            transactions: pre.transactions,
            listing_ctr: pre.listing_ctr,
            transaction_ctr: pre.transaction_ctr,
        })
    }
}

// ---------------------------------------------------------------------------
// The service
// ---------------------------------------------------------------------------

/// Orchestrates the repositories and the id allocators; owns all write
/// access to the durable state.
pub struct Marketplace {
    listings: ListingRepo,
    transactions: TransactionRepo,
    listing_counter: SlotStore,
    transaction_counter: SlotStore,
}

impl View for Marketplace {
    type V = MarketView;

    closed spec fn view(&self) -> MarketView {
        MarketView {
            listings: self.listings@,
            transactions: self.transactions@,
            listing_ctr: slot_value(slot_contents(self.listing_counter)),
            transaction_ctr: slot_value(slot_contents(self.transaction_counter)),
        }
    }
}

impl Marketplace {
    /// Both repositories are well formed and no stored id exceeds its
    /// allocator's counter, so a fresh allocation never collides.
    pub closed spec fn wf(self) -> bool {
        &&& self.listings.wf()
        &&& self.transactions.wf()
        &&& forall|i: int|
            0 <= i < self@.listings.len() ==> (#[trigger] self@.listings[i]).id
                <= self@.listing_ctr
        &&& forall|i: int|
            0 <= i < self@.transactions.len() ==> (#[trigger] self@.transactions[i]).id
                <= self@.transaction_ctr
    }

    /// Open the marketplace over its four durable regions, recovering
    /// whatever they persistently hold: on fresh storage an empty
    /// marketplace with both counters at zero, after a restart the state
    /// that was persisted. `None` means the persisted records are corrupt
    /// (a record that does not decode, sits under a foreign or zero id, or
    /// outruns its id counter): the unrecoverable-corruption case.
    pub fn open() -> (r: Option<Marketplace>)
        ensures
            r matches Some(m) ==> m.wf(),
    {
        let (listing_store, transaction_store, listing_counter, transaction_counter) =
            open_stores();
        let listings = match ListingRepo::open(listing_store) {
            Some(x) => x,
            None => {
                return None;
            },
        };
        let transactions = match TransactionRepo::open(transaction_store) {
            Some(x) => x,
            None => {
                return None;
            },
        };
        let m = Marketplace { listings, transactions, listing_counter, transaction_counter };
        // every recovered id must be covered by its counter, or a fresh
        // allocation could repeat an id
        let lctr = match slot_get(&m.listing_counter, 0) {
            Some(v) => v,
            None => 0,
        };
        let all_listings = m.listings.all();
        proof {
            assert(listing_seq_view(all_listings@).len() == all_listings@.len());
        }
        let mut i: usize = 0;
        while i < all_listings.len()
            invariant
                i <= all_listings@.len(),
                listing_seq_view(all_listings@) == m@.listings,
                all_listings@.len() == m@.listings.len(),
                lctr == m@.listing_ctr,
                forall|j: int| 0 <= j < i ==> (#[trigger] m@.listings[j]).id <= lctr,
            decreases all_listings@.len() - i,
        {
            proof {
                assert(listing_seq_view(all_listings@)[i as int] == all_listings@[i as int]@);
            }
            if all_listings[i].id > lctr {
                return None;
            }
            i = i + 1;
        }
        let tctr = match slot_get(&m.transaction_counter, 0) {
            Some(v) => v,
            None => 0,
        };
        let all_transactions = m.transactions.all();
        proof {
            assert(transaction_seq_view(all_transactions@).len() == all_transactions@.len());
        }
        let mut j: usize = 0;
        while j < all_transactions.len()
            invariant
                j <= all_transactions@.len(),
                transaction_seq_view(all_transactions@) == m@.transactions,
                all_transactions@.len() == m@.transactions.len(),
                tctr == m@.transaction_ctr,
                m.listings.wf(),
                m.transactions.wf(),
                forall|ja: int|
                    0 <= ja < m@.listings.len() ==> (#[trigger] m@.listings[ja]).id
                        <= m@.listing_ctr,
                forall|ja: int| 0 <= ja < j ==> (#[trigger] m@.transactions[ja]).id <= tctr,
            decreases all_transactions@.len() - j,
        {
            proof {
                assert(transaction_seq_view(all_transactions@)[j as int]
                    == all_transactions@[j as int]@);
            }
            if all_transactions[j].id > tctr {
                return None;
            }
            j = j + 1;
        }
        Some(m)
    }

    /// Allocate the next listing id: one more than the persisted counter,
    /// which is persisted back. Never zero, never repeated.
    pub fn get_next_listing_id(&mut self) -> (r: u64)
        requires
            old(self).wf(),
            old(self)@.listing_ctr < u64::MAX,
        ensures
            final(self).wf(),
            r == old(self)@.listing_ctr + 1,
            final(self)@ == (MarketView {
                listing_ctr: r,
                ..old(self)@
            }),
    {
        let current = match slot_get(&self.listing_counter, 0) {
            Some(v) => v,
            None => 0,
        };
        let next = current + 1;
        slot_insert(&mut self.listing_counter, 0, next);
        proof {
            assert(self@ =~= (MarketView { listing_ctr: next, ..old(self)@ }));
            assert forall|i: int|
                0 <= i < self@.listings.len() implies (#[trigger] self@.listings[i]).id
                <= self@.listing_ctr by {
                assert(old(self)@.listings[i].id <= old(self)@.listing_ctr);
            }
        }
        next
    }

    /// Allocate the next transaction id: one more than the persisted
    /// counter, which is persisted back. Never zero, never repeated.
    pub fn get_next_transaction_id(&mut self) -> (r: u64)
        requires
            old(self).wf(),
            old(self)@.transaction_ctr < u64::MAX,
        ensures
            final(self).wf(),
            r == old(self)@.transaction_ctr + 1,
            final(self)@ == (MarketView {
                transaction_ctr: r,
                ..old(self)@
            }),
    {
        let current = match slot_get(&self.transaction_counter, 0) {
            Some(v) => v,
            None => 0,
        };
        let next = current + 1;
        slot_insert(&mut self.transaction_counter, 0, next);
        proof {
            assert(self@ =~= (MarketView { transaction_ctr: next, ..old(self)@ }));
            assert forall|i: int|
                0 <= i < self@.transactions.len() implies (#[trigger] self@.transactions[i]).id
                <= self@.transaction_ctr by {
                assert(old(self)@.transactions[i].id <= old(self)@.transaction_ctr);
            }
        }
        next
    }

    /// Create a listing owned by `seller`, active, created and updated at
    /// `now`, under a fresh id that is strictly greater than every
    /// previously allocated listing id.
    pub fn create_listing(&mut self, seller: UserId, input: ListingInput, now: u64) -> (r: Result<
        Listing,
        MarketError,
    >)
        requires
            old(self).wf(),
            old(self)@.listing_ctr < u64::MAX,
        ensures
            final(self).wf(),
            create_transition(old(self)@, seller, input@, now, final(self)@, listing_result_view(r)),
            preserves_inactive(old(self)@.listings, final(self)@.listings),
            r is Ok ==> r.unwrap()@.id == old(self)@.listing_ctr + 1 && forall|i: int|
                0 <= i < old(self)@.listings.len() ==> r.unwrap()@.id > (
                #[trigger] old(self)@.listings[i]).id,
            r is Ok ==> r.unwrap()@.created_at == now && r.unwrap()@.updated_at == now
                && r.unwrap()@.is_active,
    {
        if seller.is_anon() {
            return Err(MarketError::Unauthorized);
        }
        let id = self.get_next_listing_id();
        let listing = Listing {
            id,
            asset_id: input.asset_id,
            seller,
            price: input.price,
            created_at: now,
            updated_at: now,
            is_active: true,
            title: input.title,
            description: input.description,
            category: input.category,
            tags: input.tags,
        };
        proof {
            assert(listing@ =~= new_listing_view(id, seller, input@, now));
            assert forall|i: int|
                0 <= i < self.listings@.len() implies (#[trigger] self.listings@[i]).id
                < listing@.id by {
                assert(old(self)@.listings[i].id <= old(self)@.listing_ctr);
            }
        }
        self.listings.append(&listing);
        proof {
            assert(self@ =~= (MarketView {
                listings: old(self)@.listings.push(new_listing_view(id, seller, input@, now)),
                transactions: old(self)@.transactions,
                listing_ctr: id,
                transaction_ctr: old(self)@.transaction_ctr,
            }));
            assert forall|i: int|
                0 <= i < self@.listings.len() implies (#[trigger] self@.listings[i]).id
                <= self@.listing_ctr by {
                if i < old(self)@.listings.len() {
                    assert(self@.listings[i] == old(self)@.listings[i]);
                    assert(old(self)@.listings[i].id <= old(self)@.listing_ctr);
                }
            }
        }
        Ok(listing)
    }

    /// Buy the listing `listing_id` as `buyer`: the one atomic step that
    /// deactivates the listing and records the completed transaction.
    pub fn buy_asset(&mut self, buyer: UserId, listing_id: u64, now: u64) -> (r: Result<
        Transaction,
        MarketError,
    >)
        requires
            old(self).wf(),
            old(self)@.transaction_ctr < u64::MAX,
        ensures
            final(self).wf(),
            buy_transition(old(self)@, buyer, listing_id, now, final(self)@, transaction_result_view(r)),
            preserves_inactive(old(self)@.listings, final(self)@.listings),
    {
        if buyer.is_anon() {
            return Err(MarketError::Unauthorized);
        }
        let found = self.listings.get(listing_id);
        match found {
            None => Err(MarketError::NotFound),
            Some(listing) => {
                if !listing.is_active {
                    return Err(MarketError::InvalidState);
                }
                if listing.seller.id == buyer.id {
                    return Err(MarketError::Forbidden);
                }
                let asset_id = listing.asset_id;
                let seller = listing.seller;
                let price = listing.price;
                let mut updated = listing;
                updated.is_active = false;
                updated.updated_at = now;
                proof {
                    assert(updated@ =~= deactivated(
                        listing_at(old(self)@.listings, listing_id),
                        now,
                    ));
                }
                self.listings.replace(&updated);
                proof {
                    let j = listing_index(old(self)@.listings, listing_id);
                    assert forall|i: int|
                        0 <= i < self@.listings.len() implies (#[trigger] self@.listings[i]).id
                        <= self@.listing_ctr by {
                        if i != j {
                            assert(self@.listings[i] == old(self)@.listings[i]);
                        }
                        assert(old(self)@.listings[i].id <= old(self)@.listing_ctr);
                    }
                }
                let tid = self.get_next_transaction_id();
                let tx = Transaction {
                    id: tid,
                    asset_id,
                    listing_id,
                    seller,
                    buyer,
                    price,
                    transaction_time: now,
                    status: TransactionStatus::Completed,
                };
                proof {
                    assert(tx@ =~= new_transaction_view(
                        (old(self)@.transaction_ctr + 1) as u64,
                        listing_at(old(self)@.listings, listing_id),
                        listing_id,
                        buyer,
                        now,
                    ));
                    assert forall|i: int|
                        0 <= i < self.transactions@.len() implies (
                        #[trigger] self.transactions@[i]).id < tx@.id by {
                        assert(old(self)@.transactions[i].id <= old(self)@.transaction_ctr);
                    }
                }
                self.transactions.append(&tx);
                proof {
                    assert(self@ =~= (MarketView {
                        listings: old(self)@.listings.update(
                            listing_index(old(self)@.listings, listing_id),
                            deactivated(listing_at(old(self)@.listings, listing_id), now),
                        ),
                        transactions: old(self)@.transactions.push(tx@),
                        listing_ctr: old(self)@.listing_ctr,
                        transaction_ctr: tid,
                    }));
                    assert forall|i: int|
                        0 <= i < self@.transactions.len() implies (
                        #[trigger] self@.transactions[i]).id <= self@.transaction_ctr by {
                        if i < old(self)@.transactions.len() {
                            assert(self@.transactions[i] == old(self)@.transactions[i]);
                            assert(old(self)@.transactions[i].id <= old(self)@.transaction_ctr);
                        }
                    }
                    assert forall|i: int|
                        0 <= i < self@.listings.len() implies (#[trigger] self@.listings[i]).id
                        <= self@.listing_ctr by {
                        let j = listing_index(old(self)@.listings, listing_id);
                        if i != j {
                            assert(self@.listings[i] == old(self)@.listings[i]);
                        }
                        assert(old(self)@.listings[i].id <= old(self)@.listing_ctr);
                    }
                }
                Ok(tx)
            },
        }
    }

    /// Change the price of an active listing; only its seller may.
    pub fn update_listing_price(
        &mut self,
        caller: UserId,
        listing_id: u64,
        new_price: u64,
        now: u64,
    ) -> (r: Result<Listing, MarketError>)
        requires
            old(self).wf(),
        ensures
            final(self).wf(),
            update_price_transition(
                old(self)@,
                caller,
                listing_id,
                new_price,
                now,
                final(self)@,
                listing_result_view(r),
            ),
            preserves_inactive(old(self)@.listings, final(self)@.listings),
    {
        let found = self.listings.get(listing_id);
        match found {
            None => Err(MarketError::NotFound),
            Some(listing) => {
                if listing.seller.id != caller.id {
                    return Err(MarketError::Forbidden);
                }
                if !listing.is_active {
                    return Err(MarketError::InvalidState);
                }
                let mut updated = listing;
                updated.price = new_price;
                updated.updated_at = now;
                proof {
                    assert(updated@ =~= repriced(
                        listing_at(old(self)@.listings, listing_id),
                        new_price,
                        now,
                    ));
                }
                self.listings.replace(&updated);
                let out = clone_listing(&updated);
                proof {
                    let j = listing_index(old(self)@.listings, listing_id);
                    assert forall|i: int|
                        0 <= i < self@.listings.len() implies (#[trigger] self@.listings[i]).id
                        <= self@.listing_ctr by {
                        if i != j {
                            assert(self@.listings[i] == old(self)@.listings[i]);
                        }
                        assert(old(self)@.listings[i].id <= old(self)@.listing_ctr);
                    }
                }
                Ok(out)
            },
        }
    }

    /// Deactivate a listing; only its seller may. Cancelling an
    /// already-inactive listing changes nothing and returns the stored
    /// listing as it is.
    pub fn cancel_listing(&mut self, caller: UserId, listing_id: u64, now: u64) -> (r: Result<
        Listing,
        MarketError,
    >)
        requires
            old(self).wf(),
        ensures
            final(self).wf(),
            cancel_transition(old(self)@, caller, listing_id, now, final(self)@, listing_result_view(r)),
            preserves_inactive(old(self)@.listings, final(self)@.listings),
    {
        let found = self.listings.get(listing_id);
        match found {
            None => Err(MarketError::NotFound),
            Some(listing) => {
                if listing.seller.id != caller.id {
                    return Err(MarketError::Forbidden);
                }
                if !listing.is_active {
                    return Ok(listing);
                }
                let mut updated = listing;
                updated.is_active = false;
                updated.updated_at = now;
                proof {
                    assert(updated@ =~= deactivated(
                        listing_at(old(self)@.listings, listing_id),
                        now,
                    ));
                }
                self.listings.replace(&updated);
                let out = clone_listing(&updated);
                proof {
                    let j = listing_index(old(self)@.listings, listing_id);
                    assert forall|i: int|
                        0 <= i < self@.listings.len() implies (#[trigger] self@.listings[i]).id
                        <= self@.listing_ctr by {
                        if i != j {
                            assert(self@.listings[i] == old(self)@.listings[i]);
                        }
                        assert(old(self)@.listings[i].id <= old(self)@.listing_ctr);
                    }
                }
                Ok(out)
            },
        }
    }

    /// The listing id counter as persisted; the next created listing gets
    /// one more than this.
    pub fn current_listing_counter(&self) -> (r: u64)
        ensures
            r == self@.listing_ctr,
    {
        match slot_get(&self.listing_counter, 0) {
            Some(v) => v,
            None => 0,
        }
    }

    /// The transaction id counter as persisted; the next recorded
    /// transaction gets one more than this.
    pub fn current_transaction_counter(&self) -> (r: u64)
        ensures
            r == self@.transaction_ctr,
    {
        match slot_get(&self.transaction_counter, 0) {
            Some(v) => v,
            None => 0,
        }
    }

    /// Read one listing by id.
    pub fn get_listing(&self, listing_id: u64) -> (r: Option<Listing>)
        requires
            self.wf(),
        ensures
            match r {
                Some(l) => has_listing(self@.listings, listing_id) && l@ == listing_at(
                    self@.listings,
                    listing_id,
                ),
                None => !has_listing(self@.listings, listing_id),
            },
    {
        self.listings.get(listing_id)
    }

    /// All active listings, in ascending id order.
    pub fn get_marketplace_listings(&self) -> (r: Vec<Listing>)
        requires
            self.wf(),
        ensures
            listing_seq_view(r@) == active_listings_of(self@.listings),
    {
        let all = self.listings.all();
        let mut out: Vec<Listing> = Vec::new();
        let mut i: usize = 0;
        proof {
            assert(listing_seq_view(all@).len() == all@.len());
            assert(listing_seq_view(out@) =~= active_listings_of(self@.listings.subrange(0, 0)));
        }
        while i < all.len()
            invariant
                i <= all@.len(),
                listing_seq_view(all@) == self@.listings,
                all@.len() == self@.listings.len(),
                listing_seq_view(out@) == active_listings_of(self@.listings.subrange(0, i as int)),
            decreases all@.len() - i,
        {
            proof {
                assert(listing_seq_view(all@)[i as int] == all@[i as int]@);
                assert(self@.listings.subrange(0, i as int + 1).drop_last() =~= self@.listings
                    .subrange(0, i as int));
                assert(self@.listings.subrange(0, i as int + 1).last()
                    == self@.listings[i as int]);
            }
            let item = &all[i];
            if item.is_active {
                let ghost prev = out@;
                let copy = clone_listing(item);
                out.push(copy);
                proof {
                    lemma_listing_view_push(prev, copy);
                }
            }
            i = i + 1;
        }
        proof {
            assert(self@.listings.subrange(0, self@.listings.len() as int) =~= self@.listings);
        }
        out
    }

    /// All listings owned by `seller`, active or not, in ascending id order.
    pub fn get_user_listings(&self, seller: UserId) -> (r: Vec<Listing>)
        requires
            self.wf(),
        ensures
            listing_seq_view(r@) == seller_listings_of(self@.listings, seller),
    {
        let all = self.listings.all();
        let mut out: Vec<Listing> = Vec::new();
        let mut i: usize = 0;
        proof {
            assert(listing_seq_view(all@).len() == all@.len());
            assert(listing_seq_view(out@) =~= seller_listings_of(
                self@.listings.subrange(0, 0),
                seller,
            ));
        }
        while i < all.len()
            invariant
                i <= all@.len(),
                listing_seq_view(all@) == self@.listings,
                all@.len() == self@.listings.len(),
                listing_seq_view(out@) == seller_listings_of(
                    self@.listings.subrange(0, i as int),
                    seller,
                ),
            decreases all@.len() - i,
        {
            proof {
                assert(listing_seq_view(all@)[i as int] == all@[i as int]@);
                assert(self@.listings.subrange(0, i as int + 1).drop_last() =~= self@.listings
                    .subrange(0, i as int));
                assert(self@.listings.subrange(0, i as int + 1).last()
                    == self@.listings[i as int]);
            }
            let item = &all[i];
            if item.seller.id == seller.id {
                let ghost prev = out@;
                let copy = clone_listing(item);
                out.push(copy);
                proof {
                    lemma_listing_view_push(prev, copy);
                }
            }
            i = i + 1;
        }
        proof {
            assert(self@.listings.subrange(0, self@.listings.len() as int) =~= self@.listings);
        }
        out
    }

    /// The active listings whose title, description, category, or any tag
    /// contains `query` case-insensitively, in ascending id order.
    pub fn search_listings(&self, query: String) -> (r: Vec<Listing>)
        requires
            self.wf(),
        ensures
            listing_seq_view(r@) == matching_listings_of(self@.listings, lower_of(query@)),
    {
        let q = to_lowercase(&query);
        let all = self.listings.all();
        let mut out: Vec<Listing> = Vec::new();
        let mut i: usize = 0;
        proof {
            assert(listing_seq_view(all@).len() == all@.len());
            assert(listing_seq_view(out@) =~= matching_listings_of(
                self@.listings.subrange(0, 0),
                lower_of(query@),
            ));
        }
        while i < all.len()
            invariant
                i <= all@.len(),
                q@ == lower_of(query@),
                listing_seq_view(all@) == self@.listings,
                all@.len() == self@.listings.len(),
                listing_seq_view(out@) == matching_listings_of(
                    self@.listings.subrange(0, i as int),
                    lower_of(query@),
                ),
            decreases all@.len() - i,
        {
            proof {
                assert(listing_seq_view(all@)[i as int] == all@[i as int]@);
                assert(self@.listings.subrange(0, i as int + 1).drop_last() =~= self@.listings
                    .subrange(0, i as int));
                assert(self@.listings.subrange(0, i as int + 1).last()
                    == self@.listings[i as int]);
            }
            let item = &all[i];
            if item.is_active && matches_listing(item, &q) {
                let ghost prev = out@;
                let copy = clone_listing(item);
                out.push(copy);
                proof {
                    lemma_listing_view_push(prev, copy);
                }
            }
            i = i + 1;
        }
        proof {
            assert(self@.listings.subrange(0, self@.listings.len() as int) =~= self@.listings);
        }
        out
    }

    /// The active listings whose category equals `category`
    /// case-insensitively, in ascending id order.
    pub fn get_listings_by_category(&self, category: String) -> (r: Vec<Listing>)
        requires
            self.wf(),
        ensures
            listing_seq_view(r@) == category_listings_of(self@.listings, lower_of(category@)),
    {
        let c = to_lowercase(&category);
        let all = self.listings.all();
        let mut out: Vec<Listing> = Vec::new();
        let mut i: usize = 0;
        proof {
            assert(listing_seq_view(all@).len() == all@.len());
            assert(listing_seq_view(out@) =~= category_listings_of(
                self@.listings.subrange(0, 0),
                lower_of(category@),
            ));
        }
        while i < all.len()
            invariant
                i <= all@.len(),
                c@ == lower_of(category@),
                listing_seq_view(all@) == self@.listings,
                all@.len() == self@.listings.len(),
                listing_seq_view(out@) == category_listings_of(
                    self@.listings.subrange(0, i as int),
                    lower_of(category@),
                ),
            decreases all@.len() - i,
        {
            proof {
                assert(listing_seq_view(all@)[i as int] == all@[i as int]@);
                assert(self@.listings.subrange(0, i as int + 1).drop_last() =~= self@.listings
                    .subrange(0, i as int));
                assert(self@.listings.subrange(0, i as int + 1).last()
                    == self@.listings[i as int]);
            }
            let item = &all[i];
            let lc = to_lowercase(&item.category);
            if item.is_active && lc == c {
                let ghost prev = out@;
                let copy = clone_listing(item);
                out.push(copy);
                proof {
                    lemma_listing_view_push(prev, copy);
                }
            }
            i = i + 1;
        }
        proof {
            assert(self@.listings.subrange(0, self@.listings.len() as int) =~= self@.listings);
        }
        out
    }

    /// The transactions in which `user` took part as buyer or seller, in
    /// ascending id order.
    pub fn get_user_transactions(&self, user: UserId) -> (r: Vec<Transaction>)
        requires
            self.wf(),
        ensures
            transaction_seq_view(r@) == user_transactions_of(self@.transactions, user),
    {
        let all = self.transactions.all();
        let mut out: Vec<Transaction> = Vec::new();
        let mut i: usize = 0;
        proof {
            assert(transaction_seq_view(all@).len() == all@.len());
            assert(transaction_seq_view(out@) =~= user_transactions_of(
                self@.transactions.subrange(0, 0),
                user,
            ));
        }
        while i < all.len()
            invariant
                i <= all@.len(),
                transaction_seq_view(all@) == self@.transactions,
                all@.len() == self@.transactions.len(),
                transaction_seq_view(out@) == user_transactions_of(
                    self@.transactions.subrange(0, i as int),
                    user,
                ),
            decreases all@.len() - i,
        {
            proof {
                assert(transaction_seq_view(all@)[i as int] == all@[i as int]@);
                assert(self@.transactions.subrange(0, i as int + 1).drop_last()
                    =~= self@.transactions.subrange(0, i as int));
                assert(self@.transactions.subrange(0, i as int + 1).last()
                    == self@.transactions[i as int]);
            }
            let item = &all[i];
            if item.buyer.id == user.id || item.seller.id == user.id {
                let ghost prev = out@;
                out.push(*item);
                proof {
                    lemma_transaction_view_push(prev, *item);
                }
            }
            i = i + 1;
        }
        proof {
            assert(self@.transactions.subrange(0, self@.transactions.len() as int)
                =~= self@.transactions);
        }
        out
    }

    /// The transactions bought by `buyer`, in ascending id order.
    pub fn get_user_purchases(&self, buyer: UserId) -> (r: Vec<Transaction>)
        requires
            self.wf(),
        ensures
            transaction_seq_view(r@) == purchases_of(self@.transactions, buyer),
    {
        let all = self.transactions.all();
        let mut out: Vec<Transaction> = Vec::new();
        let mut i: usize = 0;
        proof {
            assert(transaction_seq_view(all@).len() == all@.len());
            assert(transaction_seq_view(out@) =~= purchases_of(
                self@.transactions.subrange(0, 0),
                buyer,
            ));
        }
        while i < all.len()
            invariant
                i <= all@.len(),
                transaction_seq_view(all@) == self@.transactions,
                all@.len() == self@.transactions.len(),
                transaction_seq_view(out@) == purchases_of(
                    self@.transactions.subrange(0, i as int),
                    buyer,
                ),
            decreases all@.len() - i,
        {
            proof {
                assert(transaction_seq_view(all@)[i as int] == all@[i as int]@);
                assert(self@.transactions.subrange(0, i as int + 1).drop_last()
                    =~= self@.transactions.subrange(0, i as int));
                assert(self@.transactions.subrange(0, i as int + 1).last()
                    == self@.transactions[i as int]);
            }
            let item = &all[i];
            if item.buyer.id == buyer.id {
                let ghost prev = out@;
                out.push(*item);
                proof {
                    lemma_transaction_view_push(prev, *item);
                }
            }
            i = i + 1;
        }
        proof {
            assert(self@.transactions.subrange(0, self@.transactions.len() as int)
                =~= self@.transactions);
        }
        out
    }

    /// The transactions sold by `seller`, in ascending id order.
    pub fn get_user_sales(&self, seller: UserId) -> (r: Vec<Transaction>)
        requires
            self.wf(),
        ensures
            transaction_seq_view(r@) == sales_of(self@.transactions, seller),
    {
        let all = self.transactions.all();
        let mut out: Vec<Transaction> = Vec::new();
        let mut i: usize = 0;
        proof {
            assert(transaction_seq_view(all@).len() == all@.len());
            assert(transaction_seq_view(out@) =~= sales_of(
                self@.transactions.subrange(0, 0),
                seller,
            ));
        }
        while i < all.len()
            invariant
                i <= all@.len(),
                transaction_seq_view(all@) == self@.transactions,
                all@.len() == self@.transactions.len(),
                transaction_seq_view(out@) == sales_of(
                    self@.transactions.subrange(0, i as int),
                    seller,
                ),
            decreases all@.len() - i,
        {
            proof {
                assert(transaction_seq_view(all@)[i as int] == all@[i as int]@);
                assert(self@.transactions.subrange(0, i as int + 1).drop_last()
                    =~= self@.transactions.subrange(0, i as int));
                assert(self@.transactions.subrange(0, i as int + 1).last()
                    == self@.transactions[i as int]);
            }
            let item = &all[i];
            if item.seller.id == seller.id {
                let ghost prev = out@;
                out.push(*item);
                proof {
                    lemma_transaction_view_push(prev, *item);
                }
            }
            i = i + 1;
        }
        proof {
            assert(self@.transactions.subrange(0, self@.transactions.len() as int)
                =~= self@.transactions);
        }
        out
    }

    /// Aggregate counters: all listings, the active ones, all transactions,
    /// and the total volume, which is the sum of `price` over the completed
    /// transactions and zero when none exist.
    pub fn get_marketplace_stats(&self) -> (r: MarketplaceStats)
        requires
            self.wf(),
            volume(self@.transactions) <= u64::MAX,
        ensures
            r.total_listings == self@.listings.len(),
            r.active_listings == active_listings_of(self@.listings).len(),
            r.total_transactions == self@.transactions.len(),
            r.total_volume == volume(self@.transactions),
    {
        let listings = self.listings.all();
        proof {
            assert(listing_seq_view(listings@).len() == listings@.len());
        }
        let total_listings = listings.len() as u64;
        let mut active: u64 = 0;
        let mut i: usize = 0;
        proof {
            assert(active == active_listings_of(self@.listings.subrange(0, 0)).len());
        }
        while i < listings.len()
            invariant
                i <= listings@.len(),
                listing_seq_view(listings@) == self@.listings,
                listings@.len() == self@.listings.len(),
                active == active_listings_of(self@.listings.subrange(0, i as int)).len(),
                active <= i,
            decreases listings@.len() - i,
        {
            proof {
                assert(listing_seq_view(listings@)[i as int] == listings@[i as int]@);
                assert(self@.listings.subrange(0, i as int + 1).drop_last() =~= self@.listings
                    .subrange(0, i as int));
                assert(self@.listings.subrange(0, i as int + 1).last()
                    == self@.listings[i as int]);
            }
            if listings[i].is_active {
                active = active + 1;
            }
            i = i + 1;
        }
        proof {
            assert(self@.listings.subrange(0, self@.listings.len() as int) =~= self@.listings);
        }
        let txs = self.transactions.all();
        proof {
            assert(transaction_seq_view(txs@).len() == txs@.len());
        }
        let total_transactions = txs.len() as u64;
        let mut vol: u64 = 0;
        let mut j: usize = 0;
        proof {
            assert(vol == volume(self@.transactions.subrange(0, 0)));
        }
        while j < txs.len()
            invariant
                j <= txs@.len(),
                transaction_seq_view(txs@) == self@.transactions,
                txs@.len() == self@.transactions.len(),
                vol == volume(self@.transactions.subrange(0, j as int)),
                volume(self@.transactions) <= u64::MAX,
            decreases txs@.len() - j,
        {
            proof {
                assert(transaction_seq_view(txs@)[j as int] == txs@[j as int]@);
                assert(self@.transactions.subrange(0, j as int + 1).drop_last()
                    =~= self@.transactions.subrange(0, j as int));
                assert(self@.transactions.subrange(0, j as int + 1).last()
                    == self@.transactions[j as int]);
                lemma_volume_prefix(self@.transactions, j as int + 1);
            }
            let t = &txs[j];
            let completed = match t.status {
                TransactionStatus::Completed => true,
                _ => false,
            };
            if completed {
                vol = vol + t.price;
            }
            j = j + 1;
        }
        proof {
            assert(self@.transactions.subrange(0, self@.transactions.len() as int)
                =~= self@.transactions);
        }
        MarketplaceStats {
            total_listings,
            active_listings: active,
            total_transactions,
            total_volume: vol,
        }
    }

    /// The same counters as `get_marketplace_stats`, summed defensively:
    /// `None` exactly when the completed-price sum does not fit in a `u64`.
    pub fn try_get_marketplace_stats(&self) -> (r: Option<MarketplaceStats>)
        requires
            self.wf(),
        ensures
            match r {
                Some(st) => volume(self@.transactions) <= u64::MAX && st.total_listings
                    == self@.listings.len() && st.active_listings == active_listings_of(
                    self@.listings,
                ).len() && st.total_transactions == self@.transactions.len() && st.total_volume
                    == volume(self@.transactions),
                None => volume(self@.transactions) > u64::MAX,
            },
    {
        let txs = self.transactions.all();
        proof {
            assert(transaction_seq_view(txs@).len() == txs@.len());
        }
        let mut vol: u64 = 0;
        let mut j: usize = 0;
        proof {
            assert(vol == volume(self@.transactions.subrange(0, 0)));
        }
        while j < txs.len()
            invariant
                j <= txs@.len(),
                transaction_seq_view(txs@) == self@.transactions,
                txs@.len() == self@.transactions.len(),
                vol == volume(self@.transactions.subrange(0, j as int)),
            decreases txs@.len() - j,
        {
            proof {
                assert(transaction_seq_view(txs@)[j as int] == txs@[j as int]@);
                assert(self@.transactions.subrange(0, j as int + 1).drop_last()
                    =~= self@.transactions.subrange(0, j as int));
                assert(self@.transactions.subrange(0, j as int + 1).last()
                    == self@.transactions[j as int]);
                lemma_volume_prefix(self@.transactions, j as int + 1);
            }
            let t = &txs[j];
            let completed = match t.status {
                TransactionStatus::Completed => true,
                _ => false,
            };
            if completed {
                if t.price > u64::MAX - vol {
                    return None;
                }
                vol = vol + t.price;
            }
            j = j + 1;
        }
        proof {
            assert(self@.transactions.subrange(0, self@.transactions.len() as int)
                =~= self@.transactions);
        }
        Some(self.get_marketplace_stats())
    }
}

// ---------------------------------------------------------------------------
// Laws
// ---------------------------------------------------------------------------

/// No two entries carry the same listing id.
pub open spec fn distinct_listing_ids(s: Seq<ListingView>) -> bool {
    forall|i: int, j: int|
        0 <= i < j < s.len() ==> (#[trigger] s[i]).id != (#[trigger] s[j]).id
}

/// Listing ids grow strictly across successive successful creations: each
/// newly created listing's id is greater than every id allocated before it.
pub proof fn lemma_created_ids_increase(
    s0: MarketView,
    a1: UserId,
    a2: UserId,
    in1: ListingInputView,
    in2: ListingInputView,
    n1: u64,
    n2: u64,
    s1: MarketView,
    s2: MarketView,
    l1: ListingView,
    l2: ListingView,
)
    requires
        s0.listing_ctr < u64::MAX,
        s1.listing_ctr < u64::MAX,
        forall|i: int|
            0 <= i < s0.listings.len() ==> (#[trigger] s0.listings[i]).id <= s0.listing_ctr,
        create_transition(s0, a1, in1, n1, s1, listing_ok(l1)),
        create_transition(s1, a2, in2, n2, s2, listing_ok(l2)),
    ensures
        l2.id > l1.id,
        forall|i: int| 0 <= i < s1.listings.len() ==> l2.id > (#[trigger] s1.listings[i]).id,
{
    assert(!a1.is_anonymous());
    assert(!a2.is_anonymous());
    assert(l1.id == s0.listing_ctr + 1);
    assert(s1.listing_ctr == l1.id);
    assert(l2.id == s1.listing_ctr + 1);
    assert forall|i: int|
        0 <= i < s1.listings.len() implies l2.id > (#[trigger] s1.listings[i]).id by {
        if i < s0.listings.len() {
            assert(s1.listings[i] == s0.listings[i]);
            assert(s0.listings[i].id <= s0.listing_ctr);
        } else {
            assert(s1.listings[i] == l1);
        }
    }
}

/// Once a purchase has completed, a further purchase attempt on the same
/// listing by any verified buyer is rejected as InvalidState and changes
/// nothing.
pub proof fn lemma_repurchase_rejected(
    s0: MarketView,
    b1: UserId,
    b2: UserId,
    listing_id: u64,
    n1: u64,
    n2: u64,
    s1: MarketView,
    s2: MarketView,
    t: TransactionView,
    r2: Result<TransactionView, MarketError>,
)
    requires
        distinct_listing_ids(s0.listings),
        buy_transition(s0, b1, listing_id, n1, s1, tx_ok(t)),
        buy_transition(s1, b2, listing_id, n2, s2, r2),
        !b2.is_anonymous(),
    ensures
        r2 == tx_err(MarketError::InvalidState),
        s2 == s1,
{
    let j = listing_index(s0.listings, listing_id);
    assert(0 <= j < s0.listings.len() && s0.listings[j].id == listing_id);
    assert(s1.listings[j] == deactivated(listing_at(s0.listings, listing_id), n1));
    assert(s1.listings[j].id == listing_id);
    assert(has_listing(s1.listings, listing_id));
    let j2 = listing_index(s1.listings, listing_id);
    assert(0 <= j2 < s1.listings.len() && s1.listings[j2].id == listing_id);
    if j2 != j {
        assert(s1.listings[j2] == s0.listings[j2]);
        assert(s0.listings[j2].id == listing_id);
        assert(false);
    }
    assert(!listing_at(s1.listings, listing_id).is_active);
}

} // verus!
