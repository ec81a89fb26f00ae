use fsk_market::book::{
    BuyRefusal, LockBook, LockBuyChecks, LockBuyRefusal, LockSellChecks, LockSellRefusal,
    SellRefusal, LOCK_TTL,
};
use fsk_market::kind::{GoodKind, DEFAULT_KIND};
use fsk_market::schedule::WindowChange;

const BUY_OK: LockBuyChecks = LockBuyChecks {
    quantity_negative: false,
    bid_negative: false,
    stock_short: false,
    bid_below_quote: false,
};

const SELL_OK: LockSellChecks = LockSellChecks {
    quantity_non_positive: false,
    offer_negative: false,
    budget_short: false,
    offer_above_quote: false,
};

/// Terms of a lock: quantity of the good and price in the numeraire.
type Terms = (f32, f32);

fn is_token(t: &str) -> bool {
    t.len() == 10 && t.chars().all(|c| c.is_ascii_digit() || c.is_ascii_lowercase())
}

#[test]
fn tests() {
    let kinds = vec![GoodKind::Eur, GoodKind::Usd, GoodKind::Yen, GoodKind::Yuan];
    let mut book: LockBook<Terms> = LockBook::new();
    for kind in kinds {
        let offer = 1000.0f32 / 1.01;
        let token = book.lock_sell(SELL_OK, kind, (1000.0, offer)).unwrap();
        book.on_event();
        let c = book.sell_contract(&token, kind).unwrap();
        assert_eq!(c.kind, kind);
        let c = book.settle_sell(&token).unwrap();
        assert!(c.terms.1 >= 0.0);
        assert_eq!(c.terms, (1000.0, offer));
        assert_eq!(book.sell_archive().live_count(), 0);
        book.on_event();
    }
}

#[test]
fn lock_buy_gates_in_order() {
    let mut book: LockBook<Terms> = LockBook::new();
    let all = LockBuyChecks {
        quantity_negative: true,
        bid_negative: true,
        stock_short: true,
        bid_below_quote: true,
    };
    assert_eq!(
        book.lock_buy(all, GoodKind::Usd, (1.0, 1.0)),
        Err(LockBuyRefusal::NonPositiveQuantityToBuy)
    );
    let c = LockBuyChecks { quantity_negative: false, ..all };
    assert_eq!(book.lock_buy(c, GoodKind::Usd, (1.0, 1.0)), Err(LockBuyRefusal::NonPositiveBid));
    let c = LockBuyChecks { bid_negative: false, ..c };
    assert_eq!(
        book.lock_buy(c, GoodKind::Usd, (1.0, 1.0)),
        Err(LockBuyRefusal::InsufficientGoodQuantityAvailable)
    );
    let c = LockBuyChecks { stock_short: false, ..c };
    assert_eq!(book.lock_buy(c, GoodKind::Usd, (1.0, 1.0)), Err(LockBuyRefusal::BidTooLow));
    assert_eq!(book.buy_archive().live_count(), 0);
    assert_eq!(book.time(), 0);
}

#[test]
fn lock_sell_gates_in_order() {
    let mut book: LockBook<Terms> = LockBook::new();
    let all = LockSellChecks {
        quantity_non_positive: true,
        offer_negative: true,
        budget_short: true,
        offer_above_quote: true,
    };
    assert_eq!(
        book.lock_sell(all, GoodKind::Yen, (1.0, 1.0)),
        Err(LockSellRefusal::NonPositiveQuantityToSell)
    );
    let c = LockSellChecks { quantity_non_positive: false, ..all };
    assert_eq!(book.lock_sell(c, GoodKind::Yen, (1.0, 1.0)), Err(LockSellRefusal::NonPositiveOffer));
    let c = LockSellChecks { offer_negative: false, ..c };
    assert_eq!(
        book.lock_sell(c, GoodKind::Yen, (1.0, 1.0)),
        Err(LockSellRefusal::InsufficientDefaultGoodQuantityAvailable)
    );
    let c = LockSellChecks { budget_short: false, ..c };
    assert_eq!(book.lock_sell(c, GoodKind::Yen, (1.0, 1.0)), Err(LockSellRefusal::OfferTooHigh));
    assert_eq!(book.sell_archive().live_count(), 0);
}

#[test]
fn lock_buy_files_a_contract() {
    let mut book: LockBook<Terms> = LockBook::new();
    let token = book.lock_buy(BUY_OK, GoodKind::Usd, (10.0, 11.12)).unwrap();
    assert!(is_token(&token));
    let c = book.buy_contract(&token, GoodKind::Eur).unwrap();
    assert_eq!(c.kind, GoodKind::Usd);
    assert_eq!(c.expiry, LOCK_TTL);
    assert_eq!(c.terms, (10.0, 11.12));
    assert_eq!(book.sell_archive().live_count(), 0);
}

#[test]
fn lock_then_buy_hands_back_the_terms() {
    let mut book: LockBook<Terms> = LockBook::new();
    let token = book.lock_buy(BUY_OK, GoodKind::Usd, (10.0, 11.12)).unwrap();
    book.on_event();
    assert!(book.buy_contract(&token, GoodKind::Eur).is_ok());
    let c = book.settle_buy(&token).unwrap();
    assert_eq!(c.terms, (10.0, 11.12));
    assert_eq!(c.kind, GoodKind::Usd);
    assert_eq!(book.buy_contract(&token, GoodKind::Eur).err(), Some(BuyRefusal::UnrecognizedToken));
    assert!(book.settle_buy(&token).is_none());
}

#[test]
fn zero_offer_is_a_valid_sell_lock() {
    let mut book: LockBook<Terms> = LockBook::new();
    let token = book.lock_sell(SELL_OK, GoodKind::Usd, (10.0, 0.0)).unwrap();
    let c = book.settle_sell(&token).unwrap();
    assert_eq!(c.terms.1, 0.0);
}

#[test]
fn buy_with_unknown_token_is_unrecognized() {
    let book: LockBook<Terms> = LockBook::new();
    assert_eq!(
        book.buy_contract(&"unknown".to_string(), GoodKind::Eur).err(),
        Some(BuyRefusal::UnrecognizedToken)
    );
}

#[test]
fn buy_with_other_cash_is_refused() {
    let mut book: LockBook<Terms> = LockBook::new();
    let token = book.lock_buy(BUY_OK, GoodKind::Yuan, (1.0, 2.0)).unwrap();
    assert_eq!(
        book.buy_contract(&token, GoodKind::Usd).err(),
        Some(BuyRefusal::GoodKindNotDefault)
    );
    assert_eq!(book.buy_contract(&token, DEFAULT_KIND).unwrap().kind, GoodKind::Yuan);
}

#[test]
fn sell_with_wrong_kind_is_refused() {
    let mut book: LockBook<Terms> = LockBook::new();
    let token = book.lock_sell(SELL_OK, GoodKind::Usd, (10.0, 9.9)).unwrap();
    assert_eq!(book.sell_contract(&token, GoodKind::Yen).err(), Some(SellRefusal::WrongGoodKind));
    assert!(book.sell_contract(&token, GoodKind::Usd).is_ok());
}

#[test]
fn sell_with_unknown_token_is_unrecognized() {
    let book: LockBook<Terms> = LockBook::new();
    assert_eq!(
        book.sell_contract(&"unknown".to_string(), GoodKind::Usd).err(),
        Some(SellRefusal::UnrecognizedToken)
    );
}

#[test]
fn buy_token_sweeps_after_nine_events() {
    let mut book: LockBook<Terms> = LockBook::new();
    let token = book.lock_buy(BUY_OK, GoodKind::Usd, (10.0, 11.12)).unwrap();
    for _ in 0..8 {
        let tick = book.on_event();
        assert!(tick.buy_expired.is_empty());
        assert!(book.buy_contract(&token, GoodKind::Eur).is_ok());
    }
    let tick = book.on_event();
    assert_eq!(tick.time, 9);
    assert_eq!(tick.buy_expired.len(), 1);
    assert_eq!(tick.buy_expired[0].token, token);
    assert_eq!(tick.buy_expired[0].kind, GoodKind::Usd);
    assert_eq!(tick.buy_expired[0].terms, (10.0, 11.12));
    assert!(tick.sell_expired.is_empty());
    assert_eq!(book.buy_contract(&token, GoodKind::Eur).err(), Some(BuyRefusal::ExpiredToken));
    assert!(book.settle_buy(&token).is_none());
}

#[test]
fn claim_at_expiry_tick_is_expired() {
    let mut book: LockBook<Terms> = LockBook::starting_at(20);
    let token = book.lock_sell(SELL_OK, GoodKind::Yen, (5.0, 4.0)).unwrap();
    let expiry = book.sell_contract(&token, GoodKind::Yen).unwrap().expiry;
    assert_eq!(expiry, 20 + LOCK_TTL);
    while book.time() < expiry {
        book.on_event();
    }
    assert_eq!(book.time(), expiry);
    assert_eq!(book.sell_contract(&token, GoodKind::Yen).err(), Some(SellRefusal::ExpiredToken));
}

#[test]
fn sell_token_expired_after_more_than_nine_events() {
    let mut book: LockBook<Terms> = LockBook::new();
    assert_eq!(
        book.sell_contract(&"unknown".to_string(), GoodKind::Usd).err(),
        Some(SellRefusal::UnrecognizedToken)
    );
    let token = book.lock_sell(SELL_OK, GoodKind::Usd, (10.0, 9.9)).unwrap();
    let mut swept = Vec::new();
    for _ in 0..15 {
        let tick = book.on_event();
        swept.extend(tick.sell_expired.into_iter().map(|c| c.terms.1));
    }
    assert_eq!(swept, vec![9.9]);
    assert_eq!(book.sell_contract(&token, GoodKind::Usd).err(), Some(SellRefusal::ExpiredToken));
    assert!(book.sell_archive().has_expired(&token));
    assert!(!book.buy_archive().has_expired(&token));
}

#[test]
fn settled_lock_is_not_swept() {
    let mut book: LockBook<Terms> = LockBook::new();
    let token = book.lock_buy(BUY_OK, GoodKind::Usd, (1.0, 1.0)).unwrap();
    book.settle_buy(&token).unwrap();
    for _ in 0..12 {
        assert!(book.on_event().buy_expired.is_empty());
    }
    assert_eq!(book.buy_contract(&token, GoodKind::Eur).err(), Some(BuyRefusal::UnrecognizedToken));
}

#[test]
fn sell_locks_are_swept_before_buy_locks_each_tick() {
    let mut book: LockBook<Terms> = LockBook::new();
    book.lock_buy(BUY_OK, GoodKind::Usd, (1.0, 1.0)).unwrap();
    book.lock_sell(SELL_OK, GoodKind::Usd, (2.0, 2.0)).unwrap();
    for _ in 0..8 {
        book.on_event();
    }
    let tick = book.on_event();
    assert_eq!(tick.sell_expired.len(), 1);
    assert_eq!(tick.buy_expired.len(), 1);
    assert_eq!(tick.sell_expired[0].terms, (2.0, 2.0));
    assert_eq!(tick.buy_expired[0].terms, (1.0, 1.0));
}

#[test]
fn ticks_report_the_discount_window() {
    let mut book: LockBook<Terms> = LockBook::new();
    let windows: Vec<WindowChange> = (0..8).map(|_| book.on_event().window).collect();
    assert_eq!(
        windows,
        vec![
            WindowChange::Keep,
            WindowChange::Keep,
            WindowChange::Keep,
            WindowChange::Open,
            WindowChange::Close,
            WindowChange::Keep,
            WindowChange::Keep,
            WindowChange::Keep,
        ]
    );
    assert_eq!(book.time(), 8);
}

#[test]
fn tokens_are_unique_across_both_sides() {
    let mut book: LockBook<Terms> = LockBook::new();
    let mut seen: Vec<String> = Vec::new();
    for i in 0..50 {
        let t = if i % 2 == 0 {
            book.lock_buy(BUY_OK, GoodKind::Usd, (1.0, 1.0)).unwrap()
        } else {
            book.lock_sell(SELL_OK, GoodKind::Usd, (1.0, 1.0)).unwrap()
        };
        assert!(is_token(&t));
        assert!(!seen.contains(&t));
        seen.push(t);
    }
}

#[test]
fn record_files_under_the_given_token() {
    let mut book: LockBook<Terms> = LockBook::starting_at(3);
    book.record_buy("0000000001".to_string(), GoodKind::Yen, (4.0, 5.0));
    book.record_sell("0000000002".to_string(), GoodKind::Usd, (6.0, 7.0));
    let b = book.buy_contract(&"0000000001".to_string(), GoodKind::Eur).unwrap();
    assert_eq!((b.kind, b.expiry, b.terms), (GoodKind::Yen, 3 + LOCK_TTL, (4.0, 5.0)));
    let s = book.sell_contract(&"0000000002".to_string(), GoodKind::Usd).unwrap();
    assert_eq!((s.kind, s.expiry, s.terms), (GoodKind::Usd, 3 + LOCK_TTL, (6.0, 7.0)));
    assert_eq!(
        book.buy_contract(&"0000000002".to_string(), GoodKind::Eur).err(),
        Some(BuyRefusal::UnrecognizedToken)
    );
}

#[test]
fn release_all_hands_back_every_live_lock() {
    let mut book: LockBook<Terms> = LockBook::new();
    book.lock_buy(BUY_OK, GoodKind::Usd, (1.0, 1.0)).unwrap();
    book.lock_buy(BUY_OK, GoodKind::Yen, (2.0, 2.0)).unwrap();
    let settled = book.lock_sell(SELL_OK, GoodKind::Usd, (3.0, 3.0)).unwrap();
    book.lock_sell(SELL_OK, GoodKind::Yuan, (4.0, 4.0)).unwrap();
    book.settle_sell(&settled).unwrap();
    let (buys, sells) = book.release_all();
    let b: Vec<Terms> = buys.into_iter().map(|c| c.terms).collect();
    let s: Vec<Terms> = sells.into_iter().map(|c| c.terms).collect();
    assert_eq!(b, vec![(1.0, 1.0), (2.0, 2.0)]);
    assert_eq!(s, vec![(4.0, 4.0)]);
    assert_eq!(book.buy_archive().live_count(), 0);
    assert_eq!(book.sell_archive().live_count(), 0);
}

#[test]
fn fresh_book_locks_succeed_when_gates_pass() {
    let mut book: LockBook<Terms> = LockBook::new();
    assert!(book.lock_sell(SELL_OK, GoodKind::Usd, (10.0, 0.0)).is_ok());
    let mut book: LockBook<Terms> = LockBook::new();
    assert!(book.lock_buy(BUY_OK, GoodKind::Usd, (10.0, 11.12)).is_ok());
}
