use vstd::prelude::*;

verus! {

/// The currencies a market trades. `Eur` is the numeraire: every price is
/// quoted in it.
#[derive(Clone, Copy, Debug, PartialEq, Eq, Structural, Hash)]
pub enum GoodKind {
    Eur,
    Usd,
    Yen,
    Yuan,
}

/// The numeraire of the market.
pub const DEFAULT_KIND: GoodKind = GoodKind::Eur;

impl GoodKind {
    /// Whether this is the numeraire.
    pub fn is_default(&self) -> (r: bool)
        ensures
            r == (*self == DEFAULT_KIND),
    {
        match self {
            GoodKind::Eur => true,
            _ => false,
        }
    }
}

} // verus!
