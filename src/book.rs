use vstd::prelude::*;

use crate::archive::{
    due_count, expired_after, lemma_due_exactly_lapsed, live_contract, swept, ContractsArchive,
    LockContract,
};
use crate::kind::{GoodKind, DEFAULT_KIND};
use crate::schedule::{window_at, window_change, WindowChange};
use crate::token::{is_token, random_token};

verus! {

/// Number of ticks a lock stays claimable.
pub const LOCK_TTL: u64 = 9;

/// How many random tokens a lock draws before giving up on finding an
/// unused one.
pub const TOKEN_DRAWS: u32 = 64;

/// Outcomes of the amount comparisons that gate `lock_buy`, made by the
/// holder of the inventory.
#[derive(Clone, Copy, Debug, PartialEq, Eq, Structural)]
pub struct LockBuyChecks {
    /// The quantity asked for is negative.
    pub quantity_negative: bool,
    /// The bid is negative.
    pub bid_negative: bool,
    /// The market holds less of the good than asked for.
    pub stock_short: bool,
    /// The bid is below the quoted buy price.
    pub bid_below_quote: bool,
}

/// Why `lock_buy` refused.
#[derive(Clone, Copy, Debug, PartialEq, Eq, Structural)]
pub enum LockBuyRefusal {
    NonPositiveQuantityToBuy,
    NonPositiveBid,
    InsufficientGoodQuantityAvailable,
    BidTooLow,
    /// No unused token could be drawn.
    MaxAllowedLocksReached,
}

/// Outcomes of the amount comparisons that gate `lock_sell`, made by the
/// holder of the inventory.
#[derive(Clone, Copy, Debug, PartialEq, Eq, Structural)]
pub struct LockSellChecks {
    /// The quantity offered is zero or negative.
    pub quantity_non_positive: bool,
    /// The offer is negative.
    pub offer_negative: bool,
    /// The market holds less of the numeraire than offered.
    pub budget_short: bool,
    /// The offer is above the quoted sell price.
    pub offer_above_quote: bool,
}

/// Why `lock_sell` refused.
#[derive(Clone, Copy, Debug, PartialEq, Eq, Structural)]
pub enum LockSellRefusal {
    NonPositiveQuantityToSell,
    NonPositiveOffer,
    InsufficientDefaultGoodQuantityAvailable,
    OfferTooHigh,
    /// No unused token could be drawn.
    MaxAllowedLocksReached,
}

/// Why a buy lock cannot be claimed.
#[derive(Clone, Copy, Debug, PartialEq, Eq, Structural)]
pub enum BuyRefusal {
    UnrecognizedToken,
    ExpiredToken,
    GoodKindNotDefault,
}

/// Why a sell lock cannot be claimed.
#[derive(Clone, Copy, Debug, PartialEq, Eq, Structural)]
pub enum SellRefusal {
    UnrecognizedToken,
    ExpiredToken,
    WrongGoodKind,
}

/// The first gate of `lock_buy` that `c` fails, in the order the gates are
/// evaluated.
pub open spec fn lock_buy_gate(c: LockBuyChecks) -> Option<LockBuyRefusal> {
    if c.quantity_negative {
        Some(LockBuyRefusal::NonPositiveQuantityToBuy)
    } else if c.bid_negative {
        Some(LockBuyRefusal::NonPositiveBid)
    } else if c.stock_short {
        Some(LockBuyRefusal::InsufficientGoodQuantityAvailable)
    } else if c.bid_below_quote {
        Some(LockBuyRefusal::BidTooLow)
    } else {
        None
    }
}

/// The first gate of `lock_sell` that `c` fails, in the order the gates
/// are evaluated.
pub open spec fn lock_sell_gate(c: LockSellChecks) -> Option<LockSellRefusal> {
    if c.quantity_non_positive {
        Some(LockSellRefusal::NonPositiveQuantityToSell)
    } else if c.offer_negative {
        Some(LockSellRefusal::NonPositiveOffer)
    } else if c.budget_short {
        Some(LockSellRefusal::InsufficientDefaultGoodQuantityAvailable)
    } else if c.offer_above_quote {
        Some(LockSellRefusal::OfferTooHigh)
    } else {
        None
    }
}

/// The lock contracts of a market and its clock: buy locks (the market has
/// set a good aside for a trader) and sell locks (the market has set cash
/// aside for a trader), each in an archive of its own.
pub struct LockBook<T> {
    time: u64,
    buys: ContractsArchive<T>,
    sells: ContractsArchive<T>,
}

impl<T> LockBook<T> {
    /// The current tick.
    pub closed spec fn now(&self) -> u64 {
        self.time
    }

    /// The buy locks.
    pub closed spec fn buys(&self) -> ContractsArchive<T> {
        self.buys
    }

    /// The sell locks.
    pub closed spec fn sells(&self) -> ContractsArchive<T> {
        self.sells
    }

    /// The book's invariant: both archives are well formed; no token was
    /// issued on both sides; every issued token is well formed; and every
    /// live lock lapses within `LOCK_TTL` ticks from now, but not yet.
    pub open spec fn wf(&self) -> bool {
        &&& self.buys().wf()
        &&& self.sells().wf()
        &&& forall|i: int|
            0 <= i < self.buys().issued().len() ==> !self.sells().is_issued(
                #[trigger] self.buys().issued()[i]@,
            )
        &&& forall|i: int|
            0 <= i < self.buys().issued().len() ==> is_token(#[trigger] self.buys().issued()[i]@)
        &&& forall|i: int|
            0 <= i < self.sells().issued().len() ==> is_token(
                #[trigger] self.sells().issued()[i]@,
            )
        &&& forall|i: int|
            0 <= i < self.buys().contracts().len() ==> self.now()
                < #[trigger] self.buys().contracts()[i].expiry <= self.now() + LOCK_TTL
        &&& forall|i: int|
            0 <= i < self.sells().contracts().len() ==> self.now()
                < #[trigger] self.sells().contracts()[i].expiry <= self.now() + LOCK_TTL
    }

    /// A book with no locks, at tick `time`.
    pub fn starting_at(time: u64) -> (r: Self)
        ensures
            r.wf(),
            r.now() == time,
            r.buys().contracts().len() == 0,
            r.buys().expired().len() == 0,
            r.buys().issued().len() == 0,
            r.sells().contracts().len() == 0,
            r.sells().expired().len() == 0,
            r.sells().issued().len() == 0,
    {
        LockBook { time, buys: ContractsArchive::new(), sells: ContractsArchive::new() }
    }

    /// A book with no locks, at tick zero.
    pub fn new() -> (r: Self)
        ensures
            r.wf(),
            r.now() == 0,
            r.buys().contracts().len() == 0,
            r.buys().expired().len() == 0,
            r.buys().issued().len() == 0,
            r.sells().contracts().len() == 0,
            r.sells().expired().len() == 0,
            r.sells().issued().len() == 0,
    {
        Self::starting_at(0)
    }

    /// The current tick.
    pub fn time(&self) -> (r: u64)
        ensures
            r == self.now(),
    {
        self.time
    }

    /// Draws a well-formed token issued on neither side, giving up after
    /// `TOKEN_DRAWS` draws. While nothing has been issued yet, the first
    /// draw is taken.
    fn new_token(&self) -> (r: Option<String>)
        ensures
            match r {
                Some(t) => is_token(t@) && !self.buys().is_issued(t@) && !self.sells().is_issued(
                    t@,
                ),
                None => self.buys().issued().len() > 0 || self.sells().issued().len() > 0,
            },
    {
        let mut n: u32 = 0;
        while n < TOKEN_DRAWS
            invariant
                n <= TOKEN_DRAWS,
                n > 0 ==> self.buys().issued().len() > 0 || self.sells().issued().len() > 0,
            decreases TOKEN_DRAWS - n,
        {
            let t = random_token();
            if !self.buys.has_issued(&t) && !self.sells.has_issued(&t) {
                return Some(t);
            }
            n = n + 1;
        }
        None
    }
}


impl<T> LockBook<T> {
    /// Files a buy lock under `token`, which must be well formed and issued
    /// on neither side. It lapses `LOCK_TTL` ticks from now.
    pub fn record_buy(&mut self, token: String, kind: GoodKind, terms: T)
        requires
            old(self).wf(),
            is_token(token@),
            !old(self).buys().is_issued(token@),
            !old(self).sells().is_issued(token@),
            old(self).now() + LOCK_TTL <= u64::MAX,
        ensures
            final(self).wf(),
            final(self).now() == old(self).now(),
            final(self).sells() == old(self).sells(),
            final(self).buys().contracts() == old(self).buys().contracts().push(
                (LockContract { token, kind, expiry: (old(self).now() + LOCK_TTL) as u64, terms }),
            ),
            final(self).buys().expired() == old(self).buys().expired(),
            final(self).buys().issued() == old(self).buys().issued().push(token),
    {
        let expiry = self.time + LOCK_TTL;
        let ghost before = *self;
        self.buys.add_contract(LockContract { token, kind, expiry, terms });
        proof {
            let bi = self.buys().issued();
            assert forall|i: int| 0 <= i < bi.len() implies !self.sells().is_issued(
                #[trigger] bi[i]@,
            ) by {
                if i < bi.len() - 1 {
                    assert(bi[i] == before.buys().issued()[i]);
                }
            }
            assert forall|i: int| 0 <= i < bi.len() implies is_token(#[trigger] bi[i]@) by {
                if i < bi.len() - 1 {
                    assert(bi[i] == before.buys().issued()[i]);
                }
            }
            let bc = self.buys().contracts();
            assert forall|i: int| 0 <= i < bc.len() implies self.now()
                < #[trigger] bc[i].expiry <= self.now() + LOCK_TTL by {
                if i < bc.len() - 1 {
                    assert(bc[i] == before.buys().contracts()[i]);
                }
            }
        }
    }

    /// Files a sell lock under `token`, which must be well formed and issued
    /// on neither side. It lapses `LOCK_TTL` ticks from now.
    pub fn record_sell(&mut self, token: String, kind: GoodKind, terms: T)
        requires
            old(self).wf(),
            is_token(token@),
            !old(self).buys().is_issued(token@),
            !old(self).sells().is_issued(token@),
            old(self).now() + LOCK_TTL <= u64::MAX,
        ensures
            final(self).wf(),
            final(self).now() == old(self).now(),
            final(self).buys() == old(self).buys(),
            final(self).sells().contracts() == old(self).sells().contracts().push(
                (LockContract { token, kind, expiry: (old(self).now() + LOCK_TTL) as u64, terms }),
            ),
            final(self).sells().expired() == old(self).sells().expired(),
            final(self).sells().issued() == old(self).sells().issued().push(token),
    {
        let expiry = self.time + LOCK_TTL;
        let ghost before = *self;
        self.sells.add_contract(LockContract { token, kind, expiry, terms });
        proof {
            let si = self.sells().issued();
            let bi = self.buys().issued();
            assert forall|i: int| 0 <= i < bi.len() implies !self.sells().is_issued(
                #[trigger] bi[i]@,
            ) by {
                assert(!before.sells().is_issued(bi[i]@));
                if self.sells().is_issued(bi[i]@) {
                    let j = choose|j: int| 0 <= j < si.len() && #[trigger] si[j]@ == bi[i]@;
                    if j < si.len() - 1 {
                        assert(si[j] == before.sells().issued()[j]);
                    } else {
                        assert(before.buys().is_issued(bi[i]@));
                    }
                }
            }
            assert forall|i: int| 0 <= i < si.len() implies is_token(#[trigger] si[i]@) by {
                if i < si.len() - 1 {
                    assert(si[i] == before.sells().issued()[i]);
                }
            }
            let sc = self.sells().contracts();
            assert forall|i: int| 0 <= i < sc.len() implies self.now()
                < #[trigger] sc[i].expiry <= self.now() + LOCK_TTL by {
                if i < sc.len() - 1 {
                    assert(sc[i] == before.sells().contracts()[i]);
                }
            }
        }
    }
}


impl<T> LockBook<T> {
    /// Reserves a good for a trader. The gates are evaluated in order and
    /// the first that fails is returned, leaving the book as it was. When
    /// all pass, a fresh token is drawn and a buy lock on `kind` with
    /// `terms` is filed under it, lapsing `LOCK_TTL` ticks from now; only
    /// when no unused token could be drawn is `MaxAllowedLocksReached`
    /// returned instead, which cannot happen while no token has been issued
    /// on either side.
    pub fn lock_buy(&mut self, checks: LockBuyChecks, kind: GoodKind, terms: T) -> (r: Result<
        String,
        LockBuyRefusal,
    >)
        requires
            old(self).wf(),
            old(self).now() + LOCK_TTL <= u64::MAX,
        ensures
            final(self).wf(),
            final(self).now() == old(self).now(),
            final(self).sells() == old(self).sells(),
            lock_buy_gate(checks) is None && old(self).buys().issued().len() == 0 && old(
                self,
            ).sells().issued().len() == 0 ==> r is Ok,
            match lock_buy_gate(checks) {
                Some(e) => r == Err::<String, LockBuyRefusal>(e) && final(self).buys() == old(
                    self,
                ).buys(),
                None => match r {
                    Ok(t) => {
                        &&& is_token(t@)
                        &&& !old(self).buys().is_issued(t@)
                        &&& !old(self).sells().is_issued(t@)
                        &&& final(self).buys().contracts() == old(self).buys().contracts().push(
                            (LockContract {
                                token: t,
                                kind,
                                expiry: (old(self).now() + LOCK_TTL) as u64,
                                terms,
                            }),
                        )
                        &&& final(self).buys().expired() == old(self).buys().expired()
                        &&& final(self).buys().issued() == old(self).buys().issued().push(t)
                        &&& final(self).buys().is_live(t@)
                        &&& !final(self).sells().is_live(t@)
                        &&& !final(self).buys().is_expired(t@)
                        &&& !final(self).sells().is_expired(t@)
                    },
                    Err(e) => e == LockBuyRefusal::MaxAllowedLocksReached && final(self).buys()
                        == old(self).buys(),
                },
            },
    {
        if checks.quantity_negative {
            return Err(LockBuyRefusal::NonPositiveQuantityToBuy);
        }
        if checks.bid_negative {
            return Err(LockBuyRefusal::NonPositiveBid);
        }
        if checks.stock_short {
            return Err(LockBuyRefusal::InsufficientGoodQuantityAvailable);
        }
        if checks.bid_below_quote {
            return Err(LockBuyRefusal::BidTooLow);
        }
        match self.new_token() {
            Some(t) => {
                let token = t.clone();
                self.record_buy(t, kind, terms);
                proof {
                    let cs = self.buys().contracts();
                    assert(cs[cs.len() - 1].token@ == token@);
                    lemma_token_in_one_place(*self, token@);
                }
                Ok(token)
            },
            None => Err(LockBuyRefusal::MaxAllowedLocksReached),
        }
    }

    /// Reserves cash for a trader who will sell a good. The gates are
    /// evaluated in order and the first that fails is returned, leaving the
    /// book as it was. When all pass, a fresh token is drawn and a sell lock
    /// on `kind` with `terms` is filed under it, lapsing `LOCK_TTL` ticks
    /// from now; only when no unused token could be drawn is
    /// `MaxAllowedLocksReached` returned instead, which cannot happen while
    /// no token has been issued on either side.
    pub fn lock_sell(&mut self, checks: LockSellChecks, kind: GoodKind, terms: T) -> (r: Result<
        String,
        LockSellRefusal,
    >)
        requires
            old(self).wf(),
            old(self).now() + LOCK_TTL <= u64::MAX,
        ensures
            final(self).wf(),
            final(self).now() == old(self).now(),
            final(self).buys() == old(self).buys(),
            lock_sell_gate(checks) is None && old(self).buys().issued().len() == 0 && old(
                self,
            ).sells().issued().len() == 0 ==> r is Ok,
            match lock_sell_gate(checks) {
                Some(e) => r == Err::<String, LockSellRefusal>(e) && final(self).sells() == old(
                    self,
                ).sells(),
                None => match r {
                    Ok(t) => {
                        &&& is_token(t@)
                        &&& !old(self).buys().is_issued(t@)
                        &&& !old(self).sells().is_issued(t@)
                        &&& final(self).sells().contracts() == old(self).sells().contracts().push(
                            (LockContract {
                                token: t,
                                kind,
                                expiry: (old(self).now() + LOCK_TTL) as u64,
                                terms,
                            }),
                        )
                        &&& final(self).sells().expired() == old(self).sells().expired()
                        &&& final(self).sells().issued() == old(self).sells().issued().push(t)
                        &&& final(self).sells().is_live(t@)
                        &&& !final(self).buys().is_live(t@)
                        &&& !final(self).sells().is_expired(t@)
                        &&& !final(self).buys().is_expired(t@)
                    },
                    Err(e) => e == LockSellRefusal::MaxAllowedLocksReached && final(self).sells()
                        == old(self).sells(),
                },
            },
    {
        if checks.quantity_non_positive {
            return Err(LockSellRefusal::NonPositiveQuantityToSell);
        }
        if checks.offer_negative {
            return Err(LockSellRefusal::NonPositiveOffer);
        }
        if checks.budget_short {
            return Err(LockSellRefusal::InsufficientDefaultGoodQuantityAvailable);
        }
        if checks.offer_above_quote {
            return Err(LockSellRefusal::OfferTooHigh);
        }
        match self.new_token() {
            Some(t) => {
                let token = t.clone();
                self.record_sell(t, kind, terms);
                proof {
                    let cs = self.sells().contracts();
                    assert(cs[cs.len() - 1].token@ == token@);
                    lemma_token_in_one_place(*self, token@);
                }
                Ok(token)
            },
            None => Err(LockSellRefusal::MaxAllowedLocksReached),
        }
    }
}


impl<T> LockBook<T> {
    /// Why the buy lock `t` cannot be claimed with cash of kind
    /// `cash_kind`, gates in order: an unknown token is expired if it
    /// lapsed unsettled and unrecognized otherwise; a live lock whose expiry
    /// has come is expired; the cash must be of the numeraire.
    pub open spec fn buy_refusal(&self, t: Seq<char>, cash_kind: GoodKind) -> Option<BuyRefusal> {
        if !self.buys().is_live(t) {
            if self.buys().is_expired(t) {
                Some(BuyRefusal::ExpiredToken)
            } else {
                Some(BuyRefusal::UnrecognizedToken)
            }
        } else if live_contract(self.buys().contracts(), t).expiry <= self.now() {
            Some(BuyRefusal::ExpiredToken)
        } else if cash_kind != DEFAULT_KIND {
            Some(BuyRefusal::GoodKindNotDefault)
        } else {
            None
        }
    }

    /// Why the sell lock `t` cannot be claimed with a good of kind
    /// `good_kind`, gates in order: an unknown token is expired if it
    /// lapsed unsettled and unrecognized otherwise; a live lock whose expiry
    /// has come is expired; the good must be of the kind agreed.
    pub open spec fn sell_refusal(&self, t: Seq<char>, good_kind: GoodKind) -> Option<
        SellRefusal,
    > {
        if !self.sells().is_live(t) {
            if self.sells().is_expired(t) {
                Some(SellRefusal::ExpiredToken)
            } else {
                Some(SellRefusal::UnrecognizedToken)
            }
        } else if live_contract(self.sells().contracts(), t).expiry <= self.now() {
            Some(SellRefusal::ExpiredToken)
        } else if good_kind != live_contract(self.sells().contracts(), t).kind {
            Some(SellRefusal::WrongGoodKind)
        } else {
            None
        }
    }

    /// The buy lock `token`, if cash of kind `cash_kind` may claim it.
    pub fn buy_contract(&self, token: &String, cash_kind: GoodKind) -> (r: Result<
        &LockContract<T>,
        BuyRefusal,
    >)
        requires
            self.wf(),
        ensures
            match r {
                Ok(c) => self.buy_refusal(token@, cash_kind) is None && *c == live_contract(
                    self.buys().contracts(),
                    token@,
                ),
                Err(e) => self.buy_refusal(token@, cash_kind) == Some(e),
            },
    {
        match self.buys.contract(token) {
            None => {
                if self.buys.has_expired(token) {
                    Err(BuyRefusal::ExpiredToken)
                } else {
                    Err(BuyRefusal::UnrecognizedToken)
                }
            },
            Some(c) => {
                if c.expiry <= self.time {
                    Err(BuyRefusal::ExpiredToken)
                } else if !cash_kind.is_default() {
                    Err(BuyRefusal::GoodKindNotDefault)
                } else {
                    Ok(c)
                }
            },
        }
    }

    /// The sell lock `token`, if a good of kind `good_kind` may claim it.
    pub fn sell_contract(&self, token: &String, good_kind: GoodKind) -> (r: Result<
        &LockContract<T>,
        SellRefusal,
    >)
        requires
            self.wf(),
        ensures
            match r {
                Ok(c) => self.sell_refusal(token@, good_kind) is None && *c == live_contract(
                    self.sells().contracts(),
                    token@,
                ),
                Err(e) => self.sell_refusal(token@, good_kind) == Some(e),
            },
    {
        match self.sells.contract(token) {
            None => {
                if self.sells.has_expired(token) {
                    Err(SellRefusal::ExpiredToken)
                } else {
                    Err(SellRefusal::UnrecognizedToken)
                }
            },
            Some(c) => {
                if c.expiry <= self.time {
                    Err(SellRefusal::ExpiredToken)
                } else if good_kind != c.kind {
                    Err(SellRefusal::WrongGoodKind)
                } else {
                    Ok(c)
                }
            },
        }
    }

    /// Removes the buy lock `token` once it has been paid for, handing it
    /// back. The token is not marked expired.
    pub fn settle_buy(&mut self, token: &String) -> (r: Option<LockContract<T>>)
        requires
            old(self).wf(),
        ensures
            final(self).wf(),
            final(self).now() == old(self).now(),
            final(self).sells() == old(self).sells(),
            final(self).buys().expired() == old(self).buys().expired(),
            final(self).buys().issued() == old(self).buys().issued(),
            match r {
                Some(c) => {
                    &&& old(self).buys().is_live(token@)
                    &&& c == live_contract(old(self).buys().contracts(), token@)
                    &&& exists|i: int|
                        0 <= i < old(self).buys().contracts().len() && old(self).buys().contracts()[i]
                            == c && final(self).buys().contracts() == old(
                            self,
                        ).buys().contracts().remove(i)
                },
                None => !old(self).buys().is_live(token@) && final(self).buys().contracts() == old(
                    self,
                ).buys().contracts(),
            },
    {
        let ghost before = *self;
        let r = self.buys.consume_contract(token);
        proof {
            self.lemma_shrunk_keeps_wf(before);
            if r is Some {
                let c = r->0;
                let i = choose|i: int|
                    0 <= i < before.buys().contracts().len() && before.buys().contracts()[i] == c
                        && self.buys().contracts() == before.buys().contracts().remove(i)
                        && c.token@ == token@;
                crate::archive::lemma_live_contract_at(before.buys().contracts(), i);
            }
        }
        r
    }

    /// Removes the sell lock `token` once the good has been delivered,
    /// handing it back. The token is not marked expired.
    pub fn settle_sell(&mut self, token: &String) -> (r: Option<LockContract<T>>)
        requires
            old(self).wf(),
        ensures
            final(self).wf(),
            final(self).now() == old(self).now(),
            final(self).buys() == old(self).buys(),
            final(self).sells().expired() == old(self).sells().expired(),
            final(self).sells().issued() == old(self).sells().issued(),
            match r {
                Some(c) => {
                    &&& old(self).sells().is_live(token@)
                    &&& c == live_contract(old(self).sells().contracts(), token@)
                    &&& exists|i: int|
                        0 <= i < old(self).sells().contracts().len() && old(
                            self,
                        ).sells().contracts()[i] == c && final(self).sells().contracts() == old(
                            self,
                        ).sells().contracts().remove(i)
                },
                None => !old(self).sells().is_live(token@) && final(self).sells().contracts()
                    == old(self).sells().contracts(),
            },
    {
        let ghost before = *self;
        let r = self.sells.consume_contract(token);
        proof {
            self.lemma_shrunk_keeps_wf(before);
            if r is Some {
                let c = r->0;
                let i = choose|i: int|
                    0 <= i < before.sells().contracts().len() && before.sells().contracts()[i] == c
                        && self.sells().contracts() == before.sells().contracts().remove(i)
                        && c.token@ == token@;
                crate::archive::lemma_live_contract_at(before.sells().contracts(), i);
            }
        }
        r
    }

    /// The book stays well formed when live locks leave either archive with
    /// nothing else changing but expired tokens.
    proof fn lemma_shrunk_keeps_wf(&self, before: Self)
        requires
            before.wf(),
            self.buys().wf(),
            self.sells().wf(),
            self.now() == before.now(),
            self.buys().issued() == before.buys().issued(),
            self.sells().issued() == before.sells().issued(),
            forall|i: int|
                0 <= i < self.buys().contracts().len() ==> before.buys().contracts().contains(
                    #[trigger] self.buys().contracts()[i],
                ),
            forall|i: int|
                0 <= i < self.sells().contracts().len() ==> before.sells().contracts().contains(
                    #[trigger] self.sells().contracts()[i],
                ),
        ensures
            self.wf(),
    {
    }
}


/// What one tick of the clock did: the tick reached, the sell and buy locks
/// that lapsed at it (whose reserved cash and goods go back to the
/// inventory), and the change of the discount window.
pub struct Tick<T> {
    pub time: u64,
    pub sell_expired: Vec<LockContract<T>>,
    pub buy_expired: Vec<LockContract<T>>,
    pub window: WindowChange,
}

impl<T> LockBook<T> {
    /// `self` is `before` one tick later: the clock moved on by one, and each
    /// archive was swept at the new tick.
    pub open spec fn advanced_from(&self, before: Self) -> bool {
        &&& self.now() == before.now() + 1
        &&& self.sells().contracts() == swept(before.sells().contracts(), self.now())
        &&& self.sells().expired() == expired_after(
            before.sells().expired(),
            before.sells().contracts(),
            self.now(),
        )
        &&& self.sells().issued() == before.sells().issued()
        &&& self.buys().contracts() == swept(before.buys().contracts(), self.now())
        &&& self.buys().expired() == expired_after(
            before.buys().expired(),
            before.buys().contracts(),
            self.now(),
        )
        &&& self.buys().issued() == before.buys().issued()
    }

    /// Receives one event: the clock ticks, lapsed sell locks and then
    /// lapsed buy locks are taken out, and the discount window is looked up
    /// for the new tick.
    pub fn on_event(&mut self) -> (r: Tick<T>)
        requires
            old(self).wf(),
            old(self).now() < u64::MAX,
        ensures
            final(self).wf(),
            final(self).advanced_from(*old(self)),
            r.time == final(self).now(),
            r.sell_expired@ == old(self).sells().contracts().take(
                due_count(old(self).sells().contracts(), final(self).now()) as int,
            ),
            r.buy_expired@ == old(self).buys().contracts().take(
                due_count(old(self).buys().contracts(), final(self).now()) as int,
            ),
            r.window == window_at(final(self).now()),
            forall|i: int, k: GoodKind|
                0 <= i < old(self).buys().contracts().len() && old(self).buys().contracts()[i].expiry
                    == final(self).now() ==> #[trigger] final(self).buy_refusal(
                    old(self).buys().contracts()[i].token@,
                    k,
                ) == Some(BuyRefusal::ExpiredToken),
            forall|i: int, k: GoodKind|
                0 <= i < old(self).sells().contracts().len() && old(self).sells().contracts()[i].expiry
                    == final(self).now() ==> #[trigger] final(self).sell_refusal(
                    old(self).sells().contracts()[i].token@,
                    k,
                ) == Some(SellRefusal::ExpiredToken),
    {
        let ghost before = *self;
        self.time = self.time + 1;
        let now = self.time;
        let sell_expired = self.sells.sweep(now);
        let buy_expired = self.buys.sweep(now);
        proof {
            let bc = before.buys().contracts();
            let sc = before.sells().contracts();
            lemma_due_exactly_lapsed(bc, now);
            lemma_due_exactly_lapsed(sc, now);
            let db = due_count(bc, now) as int;
            let ds = due_count(sc, now) as int;
            assert forall|i: int| 0 <= i < self.buys().contracts().len() implies self.now()
                < #[trigger] self.buys().contracts()[i].expiry <= self.now() + LOCK_TTL by {
                assert(self.buys().contracts()[i] == bc[i + db]);
            }
            assert forall|i: int| 0 <= i < self.sells().contracts().len() implies self.now()
                < #[trigger] self.sells().contracts()[i].expiry <= self.now() + LOCK_TTL by {
                assert(self.sells().contracts()[i] == sc[i + ds]);
            }
        }
        proof {
            assert forall|i: int, k: GoodKind|
                0 <= i < before.buys().contracts().len() && before.buys().contracts()[i].expiry
                    == self.now() implies #[trigger] self.buy_refusal(
                before.buys().contracts()[i].token@,
                k,
            ) == Some(BuyRefusal::ExpiredToken) by {
                lemma_claim_at_expiry_is_expired(before, *self, i, k);
            }
            assert forall|i: int, k: GoodKind|
                0 <= i < before.sells().contracts().len() && before.sells().contracts()[i].expiry
                    == self.now() implies #[trigger] self.sell_refusal(
                before.sells().contracts()[i].token@,
                k,
            ) == Some(SellRefusal::ExpiredToken) by {
                lemma_claim_at_expiry_is_expired(before, *self, i, k);
            }
        }
        let window = window_change(now);
        Tick { time: now, sell_expired, buy_expired, window }
    }

    /// Takes every live lock out of both archives, buy locks first in the
    /// result, so that what they reserved can go back to the inventory.
    pub fn release_all(&mut self) -> (r: (Vec<LockContract<T>>, Vec<LockContract<T>>))
        requires
            old(self).wf(),
        ensures
            final(self).wf(),
            final(self).now() == old(self).now(),
            r.0@ == old(self).buys().contracts(),
            r.1@ == old(self).sells().contracts(),
            final(self).buys().contracts().len() == 0,
            final(self).sells().contracts().len() == 0,
            final(self).buys().expired() == old(self).buys().expired(),
            final(self).sells().expired() == old(self).sells().expired(),
            final(self).buys().issued() == old(self).buys().issued(),
            final(self).sells().issued() == old(self).sells().issued(),
    {
        let buys = self.buys.drain();
        let sells = self.sells.drain();
        (buys, sells)
    }
}


/// A token is in at most one place at a time: live on the buy side, live
/// on the sell side, expired on the buy side, or expired on the sell side.
pub proof fn lemma_token_in_one_place<T>(book: LockBook<T>, t: Seq<char>)
    requires
        book.wf(),
    ensures
        !(book.buys().is_live(t) && book.sells().is_live(t)),
        !(book.buys().is_live(t) && book.buys().is_expired(t)),
        !(book.sells().is_live(t) && book.sells().is_expired(t)),
        !(book.buys().is_live(t) && book.sells().is_expired(t)),
        !(book.sells().is_live(t) && book.buys().is_expired(t)),
        !(book.buys().is_expired(t) && book.sells().is_expired(t)),
{
    let b = book.buys();
    let s = book.sells();
    if b.is_live(t) {
        let i = choose|i: int| 0 <= i < b.contracts().len() && #[trigger] b.contracts()[i].token@ == t;
        assert(!b.is_expired(b.contracts()[i].token@));
        assert(b.is_issued(t));
    }
    if b.is_expired(t) {
        let i = choose|i: int| 0 <= i < b.expired().len() && #[trigger] b.expired()[i]@ == t;
        assert(b.is_issued(b.expired()[i]@));
    }
    if s.is_live(t) {
        let i = choose|i: int| 0 <= i < s.contracts().len() && #[trigger] s.contracts()[i].token@ == t;
        assert(!s.is_expired(s.contracts()[i].token@));
        assert(s.is_issued(t));
    }
    if s.is_expired(t) {
        let i = choose|i: int| 0 <= i < s.expired().len() && #[trigger] s.expired()[i]@ == t;
        assert(s.is_issued(s.expired()[i]@));
    }
    if b.is_issued(t) {
        let i = choose|i: int| 0 <= i < b.issued().len() && #[trigger] b.issued()[i]@ == t;
        assert(!s.is_issued(b.issued()[i]@));
    }
}

/// A lock claimed at the tick of its expiry is refused as expired: the
/// tick that reaches the expiry sweeps the lock into the expired tokens.
pub proof fn lemma_claim_at_expiry_is_expired<T>(
    before: LockBook<T>,
    after: LockBook<T>,
    i: int,
    kind: GoodKind,
)
    requires
        before.wf(),
        after.advanced_from(before),
    ensures
        0 <= i < before.buys().contracts().len() && before.buys().contracts()[i].expiry
            == after.now() ==> after.buy_refusal(before.buys().contracts()[i].token@, kind)
            == Some(BuyRefusal::ExpiredToken),
        0 <= i < before.sells().contracts().len() && before.sells().contracts()[i].expiry
            == after.now() ==> after.sell_refusal(before.sells().contracts()[i].token@, kind)
            == Some(SellRefusal::ExpiredToken),
{
    let now = after.now();
    let bc = before.buys().contracts();
    let sc = before.sells().contracts();
    if 0 <= i < bc.len() && bc[i].expiry == now {
        lemma_lapsed_goes_expired(before.buys(), after.buys(), i, now);
    }
    if 0 <= i < sc.len() && sc[i].expiry == now {
        lemma_lapsed_goes_expired(before.sells(), after.sells(), i, now);
    }
}

/// A live contract lapsed at `now` is, after a sweep at `now`, no longer
/// live and among the expired tokens.
proof fn lemma_lapsed_goes_expired<T>(
    before: ContractsArchive<T>,
    after: ContractsArchive<T>,
    i: int,
    now: u64,
)
    requires
        before.wf(),
        after.contracts() == swept(before.contracts(), now),
        after.expired() == expired_after(before.expired(), before.contracts(), now),
        0 <= i < before.contracts().len(),
        before.contracts()[i].expiry <= now,
    ensures
        !after.is_live(before.contracts()[i].token@),
        after.is_expired(before.contracts()[i].token@),
{
    let cs = before.contracts();
    let t = cs[i].token@;
    lemma_due_exactly_lapsed(cs, now);
    let d = due_count(cs, now) as int;
    assert(i < d);
    let e = before.expired().len() as int;
    assert(after.expired()[e + i] == cs[i].token);
    if after.is_live(t) {
        let j = choose|j: int|
            0 <= j < after.contracts().len() && #[trigger] after.contracts()[j].token@ == t;
        assert(after.contracts()[j] == cs[j + d]);
    }
}

/// A buy lock just filed can be claimed at once with cash of the
/// numeraire, and the claim finds the lock as it was filed.
pub proof fn lemma_new_buy_lock_claimable<T>(
    before: LockBook<T>,
    after: LockBook<T>,
    c: LockContract<T>,
)
    requires
        before.wf(),
        after.wf(),
        after.now() == before.now(),
        c.expiry == before.now() + LOCK_TTL,
        after.buys().contracts() == before.buys().contracts().push(c),
    ensures
        after.buy_refusal(c.token@, DEFAULT_KIND) is None,
        live_contract(after.buys().contracts(), c.token@) == c,
{
    let n = before.buys().contracts().len() as int;
    crate::archive::lemma_live_contract_at(after.buys().contracts(), n);
}

/// A sell lock just filed can be claimed at once with a good of the kind
/// agreed, and the claim finds the lock as it was filed.
pub proof fn lemma_new_sell_lock_claimable<T>(
    before: LockBook<T>,
    after: LockBook<T>,
    c: LockContract<T>,
)
    requires
        before.wf(),
        after.wf(),
        after.now() == before.now(),
        c.expiry == before.now() + LOCK_TTL,
        after.sells().contracts() == before.sells().contracts().push(c),
    ensures
        after.sell_refusal(c.token@, c.kind) is None,
        live_contract(after.sells().contracts(), c.token@) == c,
{
    let n = before.sells().contracts().len() as int;
    crate::archive::lemma_live_contract_at(after.sells().contracts(), n);
}


impl<T> LockBook<T> {
    /// The buy locks.
    pub fn buy_archive(&self) -> (r: &ContractsArchive<T>)
        ensures
            *r == self.buys(),
    {
        &self.buys
    }

    /// The sell locks.
    pub fn sell_archive(&self) -> (r: &ContractsArchive<T>)
        ensures
            *r == self.sells(),
    {
        &self.sells
    }
}

} // verus!
