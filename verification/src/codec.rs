use vstd::prelude::*;
use crate::types::{Listing, ListingView, Transaction, TransactionStatus, TransactionView, UserId,
    clone_strings, seq_views};

verus! {

// Records are persisted in an external, self-describing binary format. The
// library is agnostic to its bytes: the encoding of a record's plain fields
// is only named, and decoding is trusted to invert it.

/// The external encoding of a listing's fields.
pub uninterp spec fn listing_enc(
    id: u64,
    asset_id: u64,
    seller: u64,
    price: u64,
    created_at: u64,
    updated_at: u64,
    is_active: bool,
    title: Seq<char>,
    description: Seq<char>,
    category: Seq<char>,
    tags: Seq<Seq<char>>,
) -> Seq<u8>;

/// The external encoding of a listing value.
pub open spec fn listing_enc_v(l: ListingView) -> Seq<u8> {
    listing_enc(
        l.id,
        l.asset_id,
        l.seller.id,
        l.price,
        l.created_at,
        l.updated_at,
        l.is_active,
        l.title,
        l.description,
        l.category,
        l.tags,
    )
}

/// Every value of `m` is the encoding of a listing that carries the key it
/// sits under, and no key is zero: the shape this library persists, and the
/// condition under which recovery from a store is owed to succeed.
pub open spec fn listings_well_encoded(m: Map<u64, Seq<u8>>) -> bool {
    forall|k: u64|
        #[trigger] m.dom().contains(k) ==> k >= 1 && exists|lv: ListingView|
            m[k] == #[trigger] listing_enc_v(lv) && lv.id == k
}

/// The external encoding of a transaction's fields; `status` is the
/// variant's code as `status_code` gives it.
pub uninterp spec fn transaction_enc(
    id: u64,
    asset_id: u64,
    listing_id: u64,
    seller: u64,
    buyer: u64,
    price: u64,
    transaction_time: u64,
    status: u8,
) -> Seq<u8>;

/// The external encoding of a transaction value.
pub open spec fn transaction_enc_v(t: TransactionView) -> Seq<u8> {
    transaction_enc(
        t.id,
        t.asset_id,
        t.listing_id,
        t.seller.id,
        t.buyer.id,
        t.price,
        t.transaction_time,
        status_code(t.status),
    )
}

/// The code a transaction status is persisted as.
pub open spec fn status_code(s: TransactionStatus) -> u8 {
    match s {
        TransactionStatus::Pending => 0,
        TransactionStatus::Completed => 1,
        TransactionStatus::Failed => 2,
        TransactionStatus::Cancelled => 3,
    }
}

fn status_to_code(s: TransactionStatus) -> (r: u8)
    ensures
        r == status_code(s),
{
    match s {
        TransactionStatus::Pending => 0,
        TransactionStatus::Completed => 1,
        TransactionStatus::Failed => 2,
        TransactionStatus::Cancelled => 3,
    }
}

fn status_from_code(c: u8) -> (r: Option<TransactionStatus>)
    ensures
        forall|s: TransactionStatus| c == status_code(s) ==> r == Some(s),
{
    match c {
        0 => Some(TransactionStatus::Pending),
        1 => Some(TransactionStatus::Completed),
        2 => Some(TransactionStatus::Failed),
        3 => Some(TransactionStatus::Cancelled),
        _ => None,
    }
}

/// Relies on `candid::encode_one`, whose result depends on the argument
/// alone; it cannot fail for a tuple of integers, booleans and strings.
#[verifier::external_body]
fn encode_listing_fields(
    t: (u64, u64, u64, u64, u64, u64, bool, String, String, String, Vec<String>),
) -> (r: Vec<u8>)
    ensures
        r@ == listing_enc(t.0, t.1, t.2, t.3, t.4, t.5, t.6, t.7@, t.8@, t.9@, seq_views(t.10@)),
{
    candid::encode_one(t).unwrap()
}

/// Relies on `candid::decode_one`, which returns exactly the fields that
/// `candid::encode_one` was given (the codec round-trips), and an error on
/// bytes that no such call produced.
#[verifier::external_body]
fn decode_listing_fields(b: &Vec<u8>) -> (r: Option<
    (u64, u64, u64, u64, u64, u64, bool, String, String, String, Vec<String>),
>)
    ensures
        forall|
            id: u64,
            asset_id: u64,
            seller: u64,
            price: u64,
            created_at: u64,
            updated_at: u64,
            is_active: bool,
            title: Seq<char>,
            description: Seq<char>,
            category: Seq<char>,
            tags: Seq<Seq<char>>,
        |
            b@ == #[trigger] listing_enc(
                id,
                asset_id,
                seller,
                price,
                created_at,
                updated_at,
                is_active,
                title,
                description,
                category,
                tags,
            ) ==> (r is Some && r.unwrap().0 == id && r.unwrap().1 == asset_id && r.unwrap().2
                == seller && r.unwrap().3 == price && r.unwrap().4 == created_at && r.unwrap().5
                == updated_at && r.unwrap().6 == is_active && r.unwrap().7@ == title
                && r.unwrap().8@ == description && r.unwrap().9@ == category && seq_views(
                r.unwrap().10@,
            ) == tags),
{
    candid::decode_one(b.as_slice()).ok()
}

/// Relies on `candid::encode_one`, whose result depends on the argument
/// alone; it cannot fail for a tuple of integers.
#[verifier::external_body]
fn encode_transaction_fields(t: (u64, u64, u64, u64, u64, u64, u64, u8)) -> (r: Vec<u8>)
    ensures
        r@ == transaction_enc(t.0, t.1, t.2, t.3, t.4, t.5, t.6, t.7),
{
    candid::encode_one(t).unwrap()
}

/// Relies on `candid::decode_one`, which returns exactly the fields that
/// `candid::encode_one` was given (the codec round-trips), and an error on
/// bytes that no such call produced.
#[verifier::external_body]
fn decode_transaction_fields(b: &Vec<u8>) -> (r: Option<(u64, u64, u64, u64, u64, u64, u64, u8)>)
    ensures
        forall|
            id: u64,
            asset_id: u64,
            listing_id: u64,
            seller: u64,
            buyer: u64,
            price: u64,
            transaction_time: u64,
            status: u8,
        |
            b@ == #[trigger] transaction_enc(
                id,
                asset_id,
                listing_id,
                seller,
                buyer,
                price,
                transaction_time,
                status,
            ) ==> r == Some((id, asset_id, listing_id, seller, buyer, price, transaction_time, status)),
{
    candid::decode_one(b.as_slice()).ok()
}

/// Every value of `m` is the encoding of a transaction that carries the key
/// it sits under, and no key is zero.
pub open spec fn transactions_well_encoded(m: Map<u64, Seq<u8>>) -> bool {
    forall|k: u64|
        #[trigger] m.dom().contains(k) ==> k >= 1 && exists|tv: TransactionView|
            m[k] == #[trigger] transaction_enc_v(tv) && tv.id == k
}

/// Encode a listing for persistence.
pub fn encode_listing(l: &Listing) -> (r: Vec<u8>)
    ensures
        r@ == listing_enc_v(l@),
{
    let tags = clone_strings(&l.tags);
    encode_listing_fields((
        l.id,
        l.asset_id,
        l.seller.id,
        l.price,
        l.created_at,
        l.updated_at,
        l.is_active,
        l.title.clone(),
        l.description.clone(),
        l.category.clone(),
        tags,
    ))
}

/// Decode a persisted listing. On the encoding of a listing value this
/// returns exactly that value.
pub fn decode_listing(b: &Vec<u8>) -> (r: Option<Listing>)
    ensures
        forall|lv: ListingView|
            b@ == #[trigger] listing_enc_v(lv) ==> (r matches Some(l) && l@ == lv),
{
    match decode_listing_fields(b) {
        Some(t) => {
            let l = Listing {
                id: t.0,
                asset_id: t.1,
                seller: UserId { id: t.2 },
                price: t.3,
                created_at: t.4,
                updated_at: t.5,
                is_active: t.6,
                title: t.7,
                description: t.8,
                category: t.9,
                tags: t.10,
            };
            proof {
                assert forall|lv: ListingView| b@ == #[trigger] listing_enc_v(lv) implies l@
                    =~= lv by {}
            }
            Some(l)
        },
        None => None,
    }
}

/// Encode a transaction for persistence.
pub fn encode_transaction(t: &Transaction) -> (r: Vec<u8>)
    ensures
        r@ == transaction_enc_v(t@),
{
    encode_transaction_fields((
        t.id,
        t.asset_id,
        t.listing_id,
        t.seller.id,
        t.buyer.id,
        t.price,
        t.transaction_time,
        status_to_code(t.status),
    ))
}

/// Decode a persisted transaction. On the encoding of a transaction value
/// this returns exactly that value.
pub fn decode_transaction(b: &Vec<u8>) -> (r: Option<Transaction>)
    ensures
        forall|tv: TransactionView|
            b@ == #[trigger] transaction_enc_v(tv) ==> (r matches Some(t) && t@ == tv),
{
    match decode_transaction_fields(b) {
        Some(f) => {
            match status_from_code(f.7) {
                Some(status) => {
                    let t = Transaction {
                        id: f.0,
                        asset_id: f.1,
                        listing_id: f.2,
                        seller: UserId { id: f.3 },
                        buyer: UserId { id: f.4 },
                        price: f.5,
                        transaction_time: f.6,
                        status,
                    };
                    proof {
                        assert forall|tv: TransactionView|
                            b@ == #[trigger] transaction_enc_v(tv) implies t@ =~= tv by {}
                    }
                    Some(t)
                },
                None => None,
            }
        },
        None => None,
    }
}

} // verus!
