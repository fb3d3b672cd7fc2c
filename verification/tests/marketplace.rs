use marketplace_canister::{
    ListingInput, MarketError, Marketplace, TransactionStatus, UserId,
};

fn input(asset_id: u64, price: u64, title: &str, description: &str, category: &str, tags: &[&str]) -> ListingInput {
    ListingInput {
        asset_id,
        price,
        title: title.to_string(),
        description: description.to_string(),
        category: category.to_string(),
        tags: tags.iter().map(|t| t.to_string()).collect(),
    }
}

fn seller() -> UserId {
    UserId { id: 10 }
}

fn buyer() -> UserId {
    UserId { id: 20 }
}

#[test]
fn create_listing_assigns_fresh_increasing_ids() {
    let mut m = Marketplace::open().unwrap();
    let a = m
        .create_listing(seller(), input(1, 100, "Sword", "A sword", "weapons", &["sharp"]), 5)
        .unwrap();
    let b = m
        .create_listing(seller(), input(2, 200, "Shield", "A shield", "armor", &[]), 6)
        .unwrap();
    assert_eq!(a.id, 1);
    assert_eq!(b.id, 2);
    assert!(b.id > a.id);
    assert_eq!(a.created_at, 5);
    assert_eq!(a.updated_at, 5);
    assert!(a.is_active);
    assert!(b.is_active);
    assert_eq!(a.seller, seller());
    assert_eq!(a.price, 100);
    assert_eq!(a.title, "Sword");
}

#[test]
fn anonymous_caller_cannot_create() {
    let mut m = Marketplace::open().unwrap();
    let r = m.create_listing(UserId::anonymous(), input(1, 1, "x", "y", "z", &[]), 0);
    assert_eq!(r.unwrap_err(), MarketError::Unauthorized);
    let stats = m.get_marketplace_stats();
    assert_eq!(stats.total_listings, 0);
}

#[test]
fn get_listing_round_trips_the_stored_record() {
    let mut m = Marketplace::open().unwrap();
    let created = m
        .create_listing(seller(), input(7, 350, "Lute", "An old lute", "music", &["wood", "strings"]), 42)
        .unwrap();
    let got = m.get_listing(created.id).unwrap();
    assert_eq!(got.id, created.id);
    assert_eq!(got.asset_id, 7);
    assert_eq!(got.seller, seller());
    assert_eq!(got.price, 350);
    assert_eq!(got.created_at, 42);
    assert_eq!(got.updated_at, 42);
    assert!(got.is_active);
    assert_eq!(got.title, "Lute");
    assert_eq!(got.description, "An old lute");
    assert_eq!(got.category, "music");
    assert_eq!(got.tags, vec!["wood".to_string(), "strings".to_string()]);
    assert!(m.get_listing(99).is_none());
}

#[test]
fn buy_asset_deactivates_and_records_one_transaction() {
    let mut m = Marketplace::open().unwrap();
    let l = m
        .create_listing(seller(), input(1, 500, "Sword", "Sharp", "weapons", &[]), 1)
        .unwrap();
    let t = m.buy_asset(buyer(), l.id, 2).unwrap();
    assert_eq!(t.id, 1);
    assert_eq!(t.listing_id, l.id);
    assert_eq!(t.asset_id, 1);
    assert_eq!(t.seller, seller());
    assert_eq!(t.buyer, buyer());
    assert_eq!(t.price, 500);
    assert_eq!(t.transaction_time, 2);
    assert!(matches!(t.status, TransactionStatus::Completed));
    let after = m.get_listing(l.id).unwrap();
    assert!(!after.is_active);
    assert_eq!(after.updated_at, 2);
    // a second purchase of the same listing is rejected and records nothing
    let again = m.buy_asset(UserId { id: 30 }, l.id, 3);
    assert_eq!(again.unwrap_err(), MarketError::InvalidState);
    let stats = m.get_marketplace_stats();
    assert_eq!(stats.total_transactions, 1);
}

#[test]
fn buying_your_own_listing_is_forbidden() {
    let mut m = Marketplace::open().unwrap();
    let l = m
        .create_listing(seller(), input(1, 500, "Sword", "Sharp", "weapons", &[]), 1)
        .unwrap();
    let r = m.buy_asset(seller(), l.id, 2);
    assert_eq!(r.unwrap_err(), MarketError::Forbidden);
    let after = m.get_listing(l.id).unwrap();
    assert!(after.is_active);
    assert_eq!(after.updated_at, 1);
    let stats = m.get_marketplace_stats();
    assert_eq!(stats.total_transactions, 0);
    assert_eq!(stats.active_listings, 1);
}

#[test]
fn buying_a_missing_listing_is_not_found() {
    let mut m = Marketplace::open().unwrap();
    let r = m.buy_asset(buyer(), 5, 0);
    assert_eq!(r.unwrap_err(), MarketError::NotFound);
}

#[test]
fn anonymous_caller_cannot_buy() {
    let mut m = Marketplace::open().unwrap();
    let l = m
        .create_listing(seller(), input(1, 500, "Sword", "Sharp", "weapons", &[]), 1)
        .unwrap();
    let r = m.buy_asset(UserId::anonymous(), l.id, 2);
    assert_eq!(r.unwrap_err(), MarketError::Unauthorized);
    assert!(m.get_listing(l.id).unwrap().is_active);
}

#[test]
fn only_the_seller_may_update_the_price() {
    let mut m = Marketplace::open().unwrap();
    let l = m
        .create_listing(seller(), input(1, 500, "Sword", "Sharp", "weapons", &["rare"]), 1)
        .unwrap();
    let r = m.update_listing_price(buyer(), l.id, 50, 2);
    assert_eq!(r.unwrap_err(), MarketError::Forbidden);
    // the listing is exactly as it was before the call
    let after = m.get_listing(l.id).unwrap();
    assert_eq!(after.id, l.id);
    assert_eq!(after.price, 500);
    assert_eq!(after.updated_at, 1);
    assert!(after.is_active);
    assert_eq!(after.title, "Sword");
    assert_eq!(after.tags, vec!["rare".to_string()]);
}

#[test]
fn the_seller_updates_the_price_of_an_active_listing() {
    let mut m = Marketplace::open().unwrap();
    let l = m
        .create_listing(seller(), input(1, 500, "Sword", "Sharp", "weapons", &[]), 1)
        .unwrap();
    let updated = m.update_listing_price(seller(), l.id, 750, 9).unwrap();
    assert_eq!(updated.price, 750);
    assert_eq!(updated.updated_at, 9);
    assert_eq!(updated.created_at, 1);
    let stored = m.get_listing(l.id).unwrap();
    assert_eq!(stored.price, 750);
    assert_eq!(stored.updated_at, 9);
}

#[test]
fn an_inactive_listing_cannot_be_repriced() {
    let mut m = Marketplace::open().unwrap();
    let l = m
        .create_listing(seller(), input(1, 500, "Sword", "Sharp", "weapons", &[]), 1)
        .unwrap();
    m.cancel_listing(seller(), l.id, 2).unwrap();
    let r = m.update_listing_price(seller(), l.id, 10, 3);
    assert_eq!(r.unwrap_err(), MarketError::InvalidState);
    let r2 = m.update_listing_price(seller(), 9, 10, 3);
    assert_eq!(r2.unwrap_err(), MarketError::NotFound);
}

#[test]
fn only_the_seller_may_cancel() {
    let mut m = Marketplace::open().unwrap();
    let l = m
        .create_listing(seller(), input(1, 500, "Sword", "Sharp", "weapons", &[]), 1)
        .unwrap();
    let r = m.cancel_listing(buyer(), l.id, 2);
    assert_eq!(r.unwrap_err(), MarketError::Forbidden);
    let after = m.get_listing(l.id).unwrap();
    assert!(after.is_active);
    assert_eq!(after.updated_at, 1);
    let missing = m.cancel_listing(seller(), 9, 2);
    assert_eq!(missing.unwrap_err(), MarketError::NotFound);
}

#[test]
fn cancelling_twice_keeps_the_listing_inactive() {
    let mut m = Marketplace::open().unwrap();
    let l = m
        .create_listing(seller(), input(1, 500, "Sword", "Sharp", "weapons", &["old"]), 1)
        .unwrap();
    let first = m.cancel_listing(seller(), l.id, 2).unwrap();
    assert!(!first.is_active);
    assert_eq!(first.updated_at, 2);
    // cancelling again changes nothing: no field of an inactive listing
    // moves, not even the update time
    let second = m.cancel_listing(seller(), l.id, 3).unwrap();
    assert!(!second.is_active);
    assert_eq!(second.updated_at, 2);
    assert_eq!(second.price, 500);
    assert_eq!(second.title, "Sword");
    assert_eq!(second.tags, vec!["old".to_string()]);
    let stored = m.get_listing(l.id).unwrap();
    assert!(!stored.is_active);
    assert_eq!(stored.updated_at, 2);
}

#[test]
fn stats_sum_the_volume_of_completed_transactions() {
    let mut m = Marketplace::open().unwrap();
    let empty = m.get_marketplace_stats();
    assert_eq!(empty.total_listings, 0);
    assert_eq!(empty.active_listings, 0);
    assert_eq!(empty.total_transactions, 0);
    assert_eq!(empty.total_volume, 0);
    let a = m
        .create_listing(seller(), input(1, 100, "A", "a", "c", &[]), 1)
        .unwrap();
    let b = m
        .create_listing(seller(), input(2, 250, "B", "b", "c", &[]), 1)
        .unwrap();
    m.buy_asset(buyer(), a.id, 2).unwrap();
    m.buy_asset(buyer(), b.id, 3).unwrap();
    let stats = m.get_marketplace_stats();
    assert_eq!(stats.total_listings, 2);
    assert_eq!(stats.active_listings, 0);
    assert_eq!(stats.total_transactions, 2);
    assert_eq!(stats.total_volume, 350);
}

#[test]
fn a_purchase_is_observed_whole() {
    // seller A lists twice; buyer B buys the first listing; every observer
    // sees the deactivated listing and the recorded transaction together
    let mut m = Marketplace::open().unwrap();
    let a = UserId { id: 1 };
    let b = UserId { id: 2 };
    let l1 = m
        .create_listing(a, input(11, 100, "One", "first", "cat", &[]), 1)
        .unwrap();
    let _l2 = m
        .create_listing(a, input(12, 200, "Two", "second", "cat", &[]), 1)
        .unwrap();
    let t = m.buy_asset(b, l1.id, 2).unwrap();
    assert_eq!(t.price, 100);
    assert_eq!(t.buyer, b);
    assert_eq!(t.seller, a);
    assert!(!m.get_listing(l1.id).unwrap().is_active);
    let stats = m.get_marketplace_stats();
    assert_eq!(stats.total_listings, 2);
    assert_eq!(stats.active_listings, 1);
    assert_eq!(stats.total_transactions, 1);
    assert_eq!(stats.total_volume, 100);
}

#[test]
fn marketplace_listings_are_the_active_ones_in_id_order() {
    let mut m = Marketplace::open().unwrap();
    let a = m
        .create_listing(seller(), input(1, 10, "A", "a", "c", &[]), 1)
        .unwrap();
    let b = m
        .create_listing(seller(), input(2, 20, "B", "b", "c", &[]), 1)
        .unwrap();
    let c = m
        .create_listing(seller(), input(3, 30, "C", "c", "c", &[]), 1)
        .unwrap();
    m.cancel_listing(seller(), b.id, 2).unwrap();
    let active = m.get_marketplace_listings();
    assert_eq!(active.len(), 2);
    assert_eq!(active[0].id, a.id);
    assert_eq!(active[1].id, c.id);
}

#[test]
fn user_listings_include_inactive_ones() {
    let mut m = Marketplace::open().unwrap();
    let other = UserId { id: 77 };
    let a = m
        .create_listing(seller(), input(1, 10, "A", "a", "c", &[]), 1)
        .unwrap();
    m.create_listing(other, input(2, 20, "B", "b", "c", &[]), 1).unwrap();
    m.cancel_listing(seller(), a.id, 2).unwrap();
    let mine = m.get_user_listings(seller());
    assert_eq!(mine.len(), 1);
    assert_eq!(mine[0].id, a.id);
    assert!(!mine[0].is_active);
}

#[test]
fn transaction_queries_filter_by_side() {
    let mut m = Marketplace::open().unwrap();
    let a = UserId { id: 1 };
    let b = UserId { id: 2 };
    let c = UserId { id: 3 };
    let l1 = m.create_listing(a, input(1, 10, "A", "a", "c", &[]), 1).unwrap();
    let l2 = m.create_listing(b, input(2, 20, "B", "b", "c", &[]), 1).unwrap();
    m.buy_asset(b, l1.id, 2).unwrap();
    m.buy_asset(c, l2.id, 3).unwrap();
    let b_all = m.get_user_transactions(b);
    assert_eq!(b_all.len(), 2);
    assert_eq!(b_all[0].id, 1);
    assert_eq!(b_all[1].id, 2);
    let b_purchases = m.get_user_purchases(b);
    assert_eq!(b_purchases.len(), 1);
    assert_eq!(b_purchases[0].listing_id, l1.id);
    let b_sales = m.get_user_sales(b);
    assert_eq!(b_sales.len(), 1);
    assert_eq!(b_sales[0].listing_id, l2.id);
    assert_eq!(m.get_user_transactions(UserId { id: 9 }).len(), 0);
}

#[test]
fn search_is_case_insensitive_over_all_text_fields() {
    let mut m = Marketplace::open().unwrap();
    m.create_listing(seller(), input(1, 10, "Rare SWORD", "old", "weapons", &[]), 1)
        .unwrap();
    m.create_listing(seller(), input(2, 20, "Boots", "LEATHER and fur", "armor", &[]), 1)
        .unwrap();
    m.create_listing(seller(), input(3, 30, "Hat", "warm", "Clothing", &[]), 1)
        .unwrap();
    m.create_listing(seller(), input(4, 40, "Ring", "plain", "misc", &["SILVER band"]), 1)
        .unwrap();
    // title, via a lowercased query and a substring
    let by_title = m.search_listings("sword".to_string());
    assert_eq!(by_title.len(), 1);
    assert_eq!(by_title[0].id, 1);
    let by_substring = m.search_listings("WOR".to_string());
    assert_eq!(by_substring.len(), 1);
    assert_eq!(by_substring[0].id, 1);
    // description
    let by_description = m.search_listings("leather".to_string());
    assert_eq!(by_description.len(), 1);
    assert_eq!(by_description[0].id, 2);
    // category
    let by_category = m.search_listings("clothing".to_string());
    assert_eq!(by_category.len(), 1);
    assert_eq!(by_category[0].id, 3);
    // tags
    let by_tag = m.search_listings("silver".to_string());
    assert_eq!(by_tag.len(), 1);
    assert_eq!(by_tag[0].id, 4);
    // no match
    assert_eq!(m.search_listings("axe".to_string()).len(), 0);
}

#[test]
fn search_skips_inactive_listings() {
    let mut m = Marketplace::open().unwrap();
    let l = m
        .create_listing(seller(), input(1, 10, "Sword", "old", "weapons", &[]), 1)
        .unwrap();
    assert_eq!(m.search_listings("sword".to_string()).len(), 1);
    m.cancel_listing(seller(), l.id, 2).unwrap();
    assert_eq!(m.search_listings("sword".to_string()).len(), 0);
}

#[test]
fn category_lookup_is_an_exact_case_insensitive_match() {
    let mut m = Marketplace::open().unwrap();
    m.create_listing(seller(), input(1, 10, "A", "a", "Weapons", &[]), 1).unwrap();
    m.create_listing(seller(), input(2, 20, "B", "b", "weaponsmith", &[]), 1).unwrap();
    let found = m.get_listings_by_category("WEAPONS".to_string());
    assert_eq!(found.len(), 1);
    assert_eq!(found[0].id, 1);
}

#[test]
fn allocated_ids_never_repeat_after_cancellation() {
    let mut m = Marketplace::open().unwrap();
    let a = m.create_listing(seller(), input(1, 10, "A", "a", "c", &[]), 1).unwrap();
    m.cancel_listing(seller(), a.id, 2).unwrap();
    let b = m.create_listing(seller(), input(2, 20, "B", "b", "c", &[]), 3).unwrap();
    assert_eq!(a.id, 1);
    assert_eq!(b.id, 2);
    let c = m.create_listing(seller(), input(3, 30, "C", "c", "c", &[]), 4).unwrap();
    assert_eq!(c.id, 3);
}

#[test]
fn id_allocators_count_up_from_one() {
    let mut m = Marketplace::open().unwrap();
    assert_eq!(m.get_next_listing_id(), 1);
    assert_eq!(m.get_next_listing_id(), 2);
    assert_eq!(m.get_next_transaction_id(), 1);
    assert_eq!(m.get_next_listing_id(), 3);
    assert_eq!(m.get_next_transaction_id(), 2);
}


#[test]
fn counters_report_the_last_allocated_ids() {
    let mut m = Marketplace::open().unwrap();
    assert_eq!(m.current_listing_counter(), 0);
    assert_eq!(m.current_transaction_counter(), 0);
    let l = m
        .create_listing(seller(), input(1, 10, "A", "a", "c", &[]), 1)
        .unwrap();
    m.buy_asset(buyer(), l.id, 2).unwrap();
    assert_eq!(m.current_listing_counter(), 1);
    assert_eq!(m.current_transaction_counter(), 1);
}

#[test]
fn checked_stats_reject_an_overflowing_volume() {
    let mut m = Marketplace::open().unwrap();
    let a = m
        .create_listing(seller(), input(1, u64::MAX, "A", "a", "c", &[]), 1)
        .unwrap();
    let b = m
        .create_listing(seller(), input(2, u64::MAX, "B", "b", "c", &[]), 1)
        .unwrap();
    m.buy_asset(buyer(), a.id, 2).unwrap();
    assert_eq!(
        m.try_get_marketplace_stats().unwrap().total_volume,
        u64::MAX
    );
    m.buy_asset(buyer(), b.id, 3).unwrap();
    assert!(m.try_get_marketplace_stats().is_none());
}
