use vstd::prelude::*;

verus! {

/// The distinguished identity value that marks an unverified caller.
pub const ANONYMOUS_USER: u64 = 0;

/// An opaque, externally verified caller token. The marketplace only ever
/// compares two tokens for equality and tests whether one is the
/// distinguished anonymous value.
#[derive(PartialEq, Eq, Structural, Clone, Copy, Debug)]
pub struct UserId {
    pub id: u64,
}

impl UserId {
    /// Whether this token is the distinguished unverified-caller value.
    pub open spec fn is_anonymous(self) -> bool {
        self.id == ANONYMOUS_USER
    }

    pub fn anonymous() -> (r: UserId)
        ensures
            r.is_anonymous(),
    {
        UserId { id: ANONYMOUS_USER }
    }

    pub fn is_anon(&self) -> (r: bool)
        ensures
            r == self.is_anonymous(),
    {
        self.id == ANONYMOUS_USER
    }
}

/// Lifecycle state of a recorded exchange. Purchases are recorded as
/// immediately completed; the other states exist for future settlement flows.
#[derive(PartialEq, Eq, Structural, Clone, Copy, Debug)]
pub enum TransactionStatus {
    Pending,
    Completed,
    Failed,
    Cancelled,
}

/// A sellable offer: an asset reference owned by a seller, with a price and a
/// lifecycle flag. Once `is_active` becomes false it never becomes true again.
#[derive(Debug)]
pub struct Listing {
    pub id: u64,
    pub asset_id: u64,
    pub seller: UserId,
    pub price: u64,
    pub created_at: u64,
    pub updated_at: u64,
    pub is_active: bool,
    pub title: String,
    pub description: String,
    pub category: String,
    pub tags: Vec<String>,
}

/// The mathematical value of a `Listing`: text fields as character sequences.
#[verifier::ext_equal]
pub struct ListingView {
    pub id: u64,
    pub asset_id: u64,
    pub seller: UserId,
    pub price: u64,
    pub created_at: u64,
    pub updated_at: u64,
    pub is_active: bool,
    pub title: Seq<char>,
    pub description: Seq<char>,
    pub category: Seq<char>,
    pub tags: Seq<Seq<char>>,
}

/// The character sequences of a sequence of strings.
pub open spec fn seq_views(s: Seq<String>) -> Seq<Seq<char>> {
    s.map_values(|t: String| t@)
}

impl View for Listing {
    type V = ListingView;

    open spec fn view(&self) -> ListingView {
        ListingView {
            id: self.id,
            asset_id: self.asset_id,
            seller: self.seller,
            price: self.price,
            created_at: self.created_at,
            updated_at: self.updated_at,
            is_active: self.is_active,
            title: self.title@,
            description: self.description@,
            category: self.category@,
            tags: seq_views(self.tags@),
        }
    }
}

/// An immutable record of a completed exchange between a seller and a buyer
/// for a specific listing. Created only by the purchase operation and never
/// mutated afterwards.
#[derive(PartialEq, Eq, Structural, Clone, Copy, Debug)]
pub struct Transaction {
    pub id: u64,
    pub asset_id: u64,
    pub listing_id: u64,
    pub seller: UserId,
    pub buyer: UserId,
    pub price: u64,
    pub transaction_time: u64,
    pub status: TransactionStatus,
}

/// The mathematical value of a `Transaction`; every field is already plain.
#[verifier::ext_equal]
pub struct TransactionView {
    pub id: u64,
    pub asset_id: u64,
    pub listing_id: u64,
    pub seller: UserId,
    pub buyer: UserId,
    pub price: u64,
    pub transaction_time: u64,
    pub status: TransactionStatus,
}

impl View for Transaction {
    type V = TransactionView;

    open spec fn view(&self) -> TransactionView {
        TransactionView {
            id: self.id,
            asset_id: self.asset_id,
            listing_id: self.listing_id,
            seller: self.seller,
            buyer: self.buyer,
            price: self.price,
            transaction_time: self.transaction_time,
            status: self.status,
        }
    }
}

/// The caller-supplied part of a new listing.
pub struct ListingInput {
    pub asset_id: u64,
    pub price: u64,
    pub title: String,
    pub description: String,
    pub category: String,
    pub tags: Vec<String>,
}

/// The mathematical value of a `ListingInput`.
#[verifier::ext_equal]
pub struct ListingInputView {
    pub asset_id: u64,
    pub price: u64,
    pub title: Seq<char>,
    pub description: Seq<char>,
    pub category: Seq<char>,
    pub tags: Seq<Seq<char>>,
}

impl View for ListingInput {
    type V = ListingInputView;

    open spec fn view(&self) -> ListingInputView {
        ListingInputView {
            asset_id: self.asset_id,
            price: self.price,
            title: self.title@,
            description: self.description@,
            category: self.category@,
            tags: seq_views(self.tags@),
        }
    }
}

/// Aggregate counters over the whole marketplace.
#[derive(PartialEq, Eq, Structural, Clone, Copy, Debug)]
pub struct MarketplaceStats {
    pub total_listings: u64,
    pub active_listings: u64,
    pub total_transactions: u64,
    pub total_volume: u64,
}

/// An equal copy of a sequence of strings.
pub fn clone_strings(v: &Vec<String>) -> (r: Vec<String>)
    ensures
        r@ == v@,
{
    let mut out: Vec<String> = Vec::new();
    let mut i: usize = 0;
    while i < v.len()
        invariant
            i <= v.len(),
            out@ == v@.subrange(0, i as int),
        decreases v.len() - i,
    {
        out.push(v[i].clone());
        proof {
            assert(out@ =~= v@.subrange(0, i as int + 1));
        }
        i = i + 1;
    }
    proof {
        assert(out@ =~= v@);
    }
    out
}

/// An equal copy of a listing.
pub fn clone_listing(l: &Listing) -> (r: Listing)
    ensures
        r@ == l@,
{
    let r = Listing {
        id: l.id,
        asset_id: l.asset_id,
        seller: l.seller,
        price: l.price,
        created_at: l.created_at,
        updated_at: l.updated_at,
        is_active: l.is_active,
        title: l.title.clone(),
        description: l.description.clone(),
        category: l.category.clone(),
        tags: clone_strings(&l.tags),
    };
    proof {
        assert(r@ =~= l@);
    }
    r
}

/// Why a command was rejected. Every rejection leaves the marketplace
/// unchanged.
#[derive(PartialEq, Eq, Structural, Clone, Copy, Debug)]
pub enum MarketError {
    /// An unverified (anonymous) caller attempted a mutating command.
    Unauthorized,
    /// The referenced listing id does not exist.
    NotFound,
    /// The mutating command targets an inactive listing where an active one
    /// is required.
    InvalidState,
    /// The caller is not the authorized party for the mutation, or a buyer
    /// tried to buy their own listing.
    Forbidden,
}

} // verus!
