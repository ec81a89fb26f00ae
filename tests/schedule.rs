use fsk_market::schedule::{window_change, WindowChange};

#[test]
fn window_opens_on_day_four_and_closes_on_day_five() {
    assert_eq!(window_change(4), WindowChange::Open);
    assert_eq!(window_change(5), WindowChange::Close);
    assert_eq!(window_change(11), WindowChange::Open);
    assert_eq!(window_change(12), WindowChange::Close);
    for t in [0u64, 1, 2, 3, 6, 7, 10, 13] {
        assert_eq!(window_change(t), WindowChange::Keep);
    }
    assert_eq!(window_change(u64::MAX), WindowChange::Keep);
}
