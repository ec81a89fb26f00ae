use vstd::prelude::*;

verus! {

/// A starting capital split across the four currencies, each share counted
/// in units of the numeraire.
#[derive(Clone, Copy, Debug, PartialEq, Eq, Structural)]
pub struct CapitalShares {
    pub eur: u64,
    pub usd: u64,
    pub yen: u64,
    pub yuan: u64,
}

/// Relies on rand::Rng::gen_range on the thread-local generator: a value
/// drawn from `0..bound`. It panics on an empty range, hence `bound > 0`.
#[verifier::external_body]
fn draw_below(bound: u64) -> (r: u64)
    requires
        bound > 0,
    ensures
        r < bound,
{
    rand::Rng::gen_range(&mut rand::thread_rng(), 0..bound)
}

/// A random share of `remainder`: below it, or zero when nothing remains.
fn draw_share(remainder: u64) -> (r: u64)
    ensures
        r <= remainder,
        remainder > 0 ==> r < remainder,
{
    if remainder == 0 {
        0
    } else {
        draw_below(remainder)
    }
}

/// Splits `capital` at random: the yen share is drawn below the capital,
/// the dollar share below what is left, the yuan share below what is left
/// after that, and the rest is kept in the numeraire. The shares add up to
/// `capital` exactly.
pub fn split_capital(capital: u64) -> (r: CapitalShares)
    ensures
        r.eur + r.usd + r.yen + r.yuan == capital,
        capital > 0 ==> r.yen < capital,
        capital - r.yen > 0 ==> r.usd < capital - r.yen,
        capital - r.yen - r.usd > 0 ==> r.yuan < capital - r.yen - r.usd,
{
    let mut remainder = capital;
    let yen = draw_share(remainder);
    remainder = remainder - yen;
    let usd = draw_share(remainder);
    remainder = remainder - usd;
    let yuan = draw_share(remainder);
    remainder = remainder - yuan;
    CapitalShares { eur: remainder, usd, yen, yuan }
}

} // verus!
