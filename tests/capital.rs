use fsk_market::capital::split_capital;

#[test]
fn shares_add_up_to_capital() {
    for capital in [0u64, 1, 2, 7, 1000, 1_000_000, u64::MAX] {
        for _ in 0..50 {
            let s = split_capital(capital);
            let total = s.eur as u128 + s.usd as u128 + s.yen as u128 + s.yuan as u128;
            assert_eq!(total, capital as u128);
        }
    }
}

#[test]
fn zero_capital_gives_zero_shares() {
    let s = split_capital(0);
    assert_eq!((s.eur, s.usd, s.yen, s.yuan), (0, 0, 0, 0));
}

#[test]
fn yen_share_is_below_capital() {
    for _ in 0..100 {
        let s = split_capital(1000);
        assert!(s.yen < 1000);
        assert!(s.eur + s.usd + s.yuan > 0);
    }
}

#[test]
fn each_share_is_below_what_was_left() {
    for _ in 0..100 {
        let s = split_capital(1000);
        let after_yen = 1000 - s.yen;
        if after_yen > 0 {
            assert!(s.usd < after_yen);
        }
        let after_usd = after_yen - s.usd;
        if after_usd > 0 {
            assert!(s.yuan < after_usd);
        }
        assert_eq!(s.eur, after_usd - s.yuan);
    }
}
