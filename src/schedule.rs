use vstd::prelude::*;

verus! {

/// Length of the market's week, in ticks.
pub const WEEK_LEN: u64 = 7;

/// Day of the week on which the discount window opens.
pub const DISCOUNT_OPENS: u64 = 4;

/// Day of the week on which the discount window closes.
pub const DISCOUNT_CLOSES: u64 = 5;

/// What a tick does to the discount on the non-numeraire rates.
#[derive(Clone, Copy, Debug, PartialEq, Eq, Structural)]
pub enum WindowChange {
    /// The discount starts: buy rates are scaled down.
    Open,
    /// The discount ends: buy rates are scaled back up.
    Close,
    /// Rates keep their discount state.
    Keep,
}

/// The change of the discount window at tick `time`: it opens on day
/// `DISCOUNT_OPENS` of each week and closes on day `DISCOUNT_CLOSES`.
pub open spec fn window_at(time: u64) -> WindowChange {
    if time % WEEK_LEN == DISCOUNT_OPENS {
        WindowChange::Open
    } else if time % WEEK_LEN == DISCOUNT_CLOSES {
        WindowChange::Close
    } else {
        WindowChange::Keep
    }
}

/// The change of the discount window at tick `time`.
pub fn window_change(time: u64) -> (r: WindowChange)
    ensures
        r == window_at(time),
{
    let day = time % WEEK_LEN;
    if day == DISCOUNT_OPENS {
        WindowChange::Open
    } else if day == DISCOUNT_CLOSES {
        WindowChange::Close
    } else {
        WindowChange::Keep
    }
}

} // verus!
