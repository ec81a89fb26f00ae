use vstd::prelude::*;

use crate::kind::GoodKind;

verus! {

/// A reservation issued by the market: `token` names it, `kind` is the
/// currency it concerns, it lapses once the clock reaches `expiry`, and
/// `terms` holds the amounts agreed at lock time.
#[derive(Debug)]
pub struct LockContract<T> {
    pub token: String,
    pub kind: GoodKind,
    pub expiry: u64,
    pub terms: T,
}

/// Whether one of `tokens` spells `t`.
pub open spec fn lists_token(tokens: Seq<String>, t: Seq<char>) -> bool {
    exists|i: int| 0 <= i < tokens.len() && #[trigger] tokens[i]@ == t
}

/// Whether one of the contracts in `cs` is named `t`.
pub open spec fn names_token<T>(cs: Seq<LockContract<T>>, t: Seq<char>) -> bool {
    exists|i: int| 0 <= i < cs.len() && #[trigger] cs[i].token@ == t
}

/// The contract of `cs` named `t`.
pub open spec fn live_contract<T>(cs: Seq<LockContract<T>>, t: Seq<char>) -> LockContract<T>
    recommends
        names_token(cs, t),
{
    cs[choose|i: int| 0 <= i < cs.len() && #[trigger] cs[i].token@ == t]
}

/// With distinct tokens, the contract named by the token of `cs[i]` is `cs[i]`.
pub proof fn lemma_live_contract_at<T>(cs: Seq<LockContract<T>>, i: int)
    requires
        tokens_distinct(cs),
        0 <= i < cs.len(),
    ensures
        names_token(cs, cs[i].token@),
        live_contract(cs, cs[i].token@) == cs[i],
{
    assert(names_token(cs, cs[i].token@));
}

/// Expiries never decrease along `cs`.
pub open spec fn expiry_ordered<T>(cs: Seq<LockContract<T>>) -> bool {
    forall|i: int, j: int| 0 <= i <= j < cs.len() ==> #[trigger] cs[i].expiry <= #[trigger] cs[j].expiry
}

/// No two contracts of `cs` share a token.
pub open spec fn tokens_distinct<T>(cs: Seq<LockContract<T>>) -> bool {
    forall|i: int, j: int|
        0 <= i < cs.len() && 0 <= j < cs.len() && i != j ==> #[trigger] cs[i].token@
            != #[trigger] cs[j].token@
}

/// How many contracts at the front of `cs` have lapsed at `now`.
pub open spec fn due_count<T>(cs: Seq<LockContract<T>>, now: u64) -> nat
    decreases cs.len(),
{
    if cs.len() > 0 && cs[0].expiry <= now {
        1 + due_count(cs.drop_first(), now)
    } else {
        0
    }
}

/// The contracts of `cs` that are still live after a sweep at `now`.
pub open spec fn swept<T>(cs: Seq<LockContract<T>>, now: u64) -> Seq<LockContract<T>> {
    cs.skip(due_count(cs, now) as int)
}

/// The tokens of the contracts of `cs`, in order.
pub open spec fn tokens_of<T>(cs: Seq<LockContract<T>>) -> Seq<String> {
    cs.map_values(|c: LockContract<T>| c.token)
}

/// The expired tokens after a sweep at `now` of `cs`, given `expired` before.
pub open spec fn expired_after<T>(expired: Seq<String>, cs: Seq<LockContract<T>>, now: u64) -> Seq<
    String,
> {
    expired + tokens_of(cs.take(due_count(cs, now) as int))
}

/// The contracts of one side of the market (buy or sell).
///
/// Live contracts are kept in order of creation. Every lock gets the same
/// lifetime and the clock never goes back, so that is also the order of
/// expiry: the front is always the next contract to lapse. Tokens of
/// contracts that lapsed unsettled are remembered, so that a late claim is
/// told apart from a token that was never issued; and every token ever
/// issued is remembered, so that none is issued twice.
pub struct ContractsArchive<T> {
    live: Vec<LockContract<T>>,
    expired: Vec<String>,
    issued: Vec<String>,
}

impl<T> ContractsArchive<T> {
    /// The live contracts, oldest first.
    pub closed spec fn contracts(&self) -> Seq<LockContract<T>> {
        self.live@
    }

    /// Tokens of contracts that lapsed without being settled.
    pub closed spec fn expired(&self) -> Seq<String> {
        self.expired@
    }

    /// Every token this archive has issued.
    pub closed spec fn issued(&self) -> Seq<String> {
        self.issued@
    }

    /// The archive's invariant.
    pub open spec fn wf(&self) -> bool {
        &&& expiry_ordered(self.contracts())
        &&& tokens_distinct(self.contracts())
        &&& forall|i: int|
            0 <= i < self.contracts().len() ==> lists_token(
                self.issued(),
                #[trigger] self.contracts()[i].token@,
            )
        &&& forall|i: int|
            0 <= i < self.expired().len() ==> lists_token(
                self.issued(),
                #[trigger] self.expired()[i]@,
            )
        &&& forall|i: int|
            0 <= i < self.contracts().len() ==> !lists_token(
                self.expired(),
                #[trigger] self.contracts()[i].token@,
            )
    }

    /// Whether `t` names a live contract.
    pub open spec fn is_live(&self, t: Seq<char>) -> bool {
        names_token(self.contracts(), t)
    }

    /// Whether `t` names a contract that lapsed unsettled.
    pub open spec fn is_expired(&self, t: Seq<char>) -> bool {
        lists_token(self.expired(), t)
    }

    /// Whether `t` was ever issued here.
    pub open spec fn is_issued(&self, t: Seq<char>) -> bool {
        lists_token(self.issued(), t)
    }

    /// An archive with no contracts and no history.
    pub fn new() -> (r: Self)
        ensures
            r.wf(),
            r.contracts() == Seq::<LockContract<T>>::empty(),
            r.expired() == Seq::<String>::empty(),
            r.issued() == Seq::<String>::empty(),
    {
        ContractsArchive { live: Vec::new(), expired: Vec::new(), issued: Vec::new() }
    }
}


/// Whether one of `tokens` equals `t`.
pub fn contains_token(tokens: &Vec<String>, t: &String) -> (r: bool)
    ensures
        r == lists_token(tokens@, t@),
{
    let mut i: usize = 0;
    while i < tokens.len()
        invariant
            i <= tokens.len(),
            forall|j: int| 0 <= j < i ==> #[trigger] tokens@[j]@ != t@,
        decreases tokens.len() - i,
    {
        if tokens[i] == *t {
            return true;
        }
        i = i + 1;
    }
    false
}

impl<T> ContractsArchive<T> {
    /// Position in `contracts()` of the live contract named `t`.
    fn position(&self, t: &String) -> (r: Option<usize>)
        ensures
            match r {
                Some(i) => i < self.contracts().len() && self.contracts()[i as int].token@ == t@,
                None => !self.is_live(t@),
            },
    {
        let mut i: usize = 0;
        while i < self.live.len()
            invariant
                i <= self.live.len(),
                forall|j: int| 0 <= j < i ==> #[trigger] self.live@[j].token@ != t@,
            decreases self.live.len() - i,
        {
            if self.live[i].token == *t {
                return Some(i);
            }
            i = i + 1;
        }
        None
    }

    /// The live contract named `t`, if there is one.
    pub fn contract(&self, t: &String) -> (r: Option<&LockContract<T>>)
        requires
            self.wf(),
        ensures
            match r {
                Some(c) => self.is_live(t@) && *c == live_contract(self.contracts(), t@),
                None => !self.is_live(t@),
            },
    {
        match self.position(t) {
            Some(i) => {
                proof {
                    lemma_live_contract_at(self.contracts(), i as int);
                }
                Some(&self.live[i])
            },
            None => None,
        }
    }

    /// Whether `t` names a contract that lapsed unsettled.
    pub fn has_expired(&self, t: &String) -> (r: bool)
        ensures
            r == self.is_expired(t@),
    {
        contains_token(&self.expired, t)
    }

    /// Whether `t` was ever issued here.
    pub fn has_issued(&self, t: &String) -> (r: bool)
        ensures
            r == self.is_issued(t@),
    {
        contains_token(&self.issued, t)
    }

    /// Records a new live contract. Its token must never have been issued
    /// here, and it may not lapse before any contract already live.
    pub fn add_contract(&mut self, c: LockContract<T>)
        requires
            old(self).wf(),
            !old(self).is_issued(c.token@),
            forall|i: int|
                0 <= i < old(self).contracts().len() ==> #[trigger] old(self).contracts()[i].expiry
                    <= c.expiry,
        ensures
            final(self).wf(),
            final(self).contracts() == old(self).contracts().push(c),
            final(self).expired() == old(self).expired(),
            final(self).issued() == old(self).issued().push(c.token),
    {
        let t = c.token.clone();
        self.issued.push(t);
        self.live.push(c);
        proof {
            let cs = self.contracts();
            let n = cs.len() - 1;
            assert(lists_token(self.issued(), cs[n].token@)) by {
                assert(self.issued()[self.issued().len() - 1]@ == cs[n].token@);
            }
            assert forall|i: int| 0 <= i < cs.len() implies lists_token(
                self.issued(),
                #[trigger] cs[i].token@,
            ) by {
                if i < n {
                    let j = choose|j: int|
                        0 <= j < old(self).issued().len() && #[trigger] old(self).issued()[j]@
                            == cs[i].token@;
                    assert(self.issued()[j] == old(self).issued()[j]);
                }
            }
            assert forall|i: int| 0 <= i < self.expired().len() implies lists_token(
                self.issued(),
                #[trigger] self.expired()[i]@,
            ) by {
                assert(self.expired()[i] == old(self).expired()[i]);
                assert(lists_token(old(self).issued(), old(self).expired()[i]@));
                let j = choose|j: int|
                    0 <= j < old(self).issued().len() && #[trigger] old(self).issued()[j]@
                        == self.expired()[i]@;
                assert(self.issued()[j] == old(self).issued()[j]);
            }
            assert forall|i: int| 0 <= i < cs.len() implies !lists_token(
                self.expired(),
                #[trigger] cs[i].token@,
            ) by {
                if i == n {
                    if lists_token(self.expired(), cs[i].token@) {
                        let j = choose|j: int|
                            0 <= j < self.expired().len() && #[trigger] self.expired()[j]@
                                == cs[i].token@;
                        assert(lists_token(old(self).issued(), self.expired()[j]@));
                    }
                }
            }
            assert forall|i: int, j: int|
                0 <= i < cs.len() && 0 <= j < cs.len() && i != j implies #[trigger] cs[i].token@
                != #[trigger] cs[j].token@ by {
                if i == n {
                    assert(lists_token(old(self).issued(), cs[j].token@));
                } else if j == n {
                    assert(lists_token(old(self).issued(), cs[i].token@));
                }
            }
        }
    }
}


impl<T> ContractsArchive<T> {
    proof fn lemma_remove_keeps_wf(old_a: Self, new_a: Self, i: int)
        requires
            old_a.wf(),
            0 <= i < old_a.contracts().len(),
            new_a.contracts() == old_a.contracts().remove(i),
            new_a.expired() == old_a.expired(),
            new_a.issued() == old_a.issued(),
        ensures
            new_a.wf(),
    {
        old_a.contracts().remove_ensures(i);
        let cs = new_a.contracts();
        let os = old_a.contracts();
        assert forall|a: int| 0 <= a < cs.len() implies cs[a] == os[if a < i {
            a
        } else {
            a + 1
        }] by {}
        assert forall|a: int, b: int| 0 <= a <= b < cs.len() implies #[trigger] cs[a].expiry
            <= #[trigger] cs[b].expiry by {
            let oa = if a < i { a } else { a + 1 };
            let ob = if b < i { b } else { b + 1 };
            assert(cs[a] == os[oa] && cs[b] == os[ob]);
        }
        assert forall|a: int, b: int|
            0 <= a < cs.len() && 0 <= b < cs.len() && a != b implies #[trigger] cs[a].token@
            != #[trigger] cs[b].token@ by {
            let oa = if a < i { a } else { a + 1 };
            let ob = if b < i { b } else { b + 1 };
            assert(cs[a] == os[oa] && cs[b] == os[ob]);
        }
        assert forall|a: int| 0 <= a < cs.len() implies lists_token(
            new_a.issued(),
            #[trigger] cs[a].token@,
        ) by {
            let oa = if a < i { a } else { a + 1 };
            assert(cs[a] == os[oa]);
        }
        assert forall|a: int| 0 <= a < cs.len() implies !lists_token(
            new_a.expired(),
            #[trigger] cs[a].token@,
        ) by {
            let oa = if a < i { a } else { a + 1 };
            assert(cs[a] == os[oa]);
        }
    }

    /// Takes the live contract named `t` out of the archive, if there is one.
    /// The token stays issued and is not marked expired.
    pub fn consume_contract(&mut self, t: &String) -> (r: Option<LockContract<T>>)
        requires
            old(self).wf(),
        ensures
            final(self).wf(),
            final(self).expired() == old(self).expired(),
            final(self).issued() == old(self).issued(),
            match r {
                Some(c) => exists|i: int|
                    0 <= i < old(self).contracts().len() && old(self).contracts()[i] == c
                        && final(self).contracts() == old(self).contracts().remove(i)
                        && c.token@ == t@,
                None => !old(self).is_live(t@) && final(self).contracts() == old(self).contracts(),
            },
    {
        match self.position(t) {
            Some(i) => {
                let ghost before = *self;
                let c = self.live.remove(i);
                proof {
                    Self::lemma_remove_keeps_wf(before, *self, i as int);
                }
                Some(c)
            },
            None => None,
        }
    }

    /// Takes out the oldest live contract if it has lapsed at `now`, and
    /// marks its token expired. Since live contracts are ordered by expiry,
    /// `None` means that no live contract has lapsed at `now`.
    pub fn pop_expired(&mut self, now: u64) -> (r: Option<LockContract<T>>)
        requires
            old(self).wf(),
        ensures
            final(self).wf(),
            final(self).issued() == old(self).issued(),
            match r {
                Some(c) => {
                    &&& old(self).contracts().len() > 0
                    &&& c == old(self).contracts()[0]
                    &&& c.expiry <= now
                    &&& final(self).contracts() == old(self).contracts().drop_first()
                    &&& final(self).expired() == old(self).expired().push(c.token)
                },
                None => {
                    &&& forall|i: int|
                        0 <= i < old(self).contracts().len() ==> now
                            < #[trigger] old(self).contracts()[i].expiry
                    &&& final(self).contracts() == old(self).contracts()
                    &&& final(self).expired() == old(self).expired()
                },
            },
    {
        if self.live.len() == 0 || self.live[0].expiry > now {
            return None;
        }
        let ghost before = *self;
        let c = self.live.remove(0);
        proof {
            assert(before.contracts().remove(0) =~= before.contracts().drop_first());
            Self::lemma_remove_keeps_wf(before, *self, 0);
        }
        let t = c.token.clone();
        self.expired.push(t);
        proof {
            let cs = self.contracts();
            assert(before.contracts()[0] == c);
            assert forall|i: int| 0 <= i < self.expired().len() implies lists_token(
                self.issued(),
                #[trigger] self.expired()[i]@,
            ) by {
                if i < self.expired().len() - 1 {
                    assert(self.expired()[i] == before.expired()[i]);
                } else {
                    assert(self.expired()[i] == c.token);
                    assert(names_token(before.contracts(), c.token@) ==> lists_token(
                        before.issued(),
                        before.contracts()[0].token@,
                    ));
                }
            }
            assert forall|i: int| 0 <= i < cs.len() implies !lists_token(
                self.expired(),
                #[trigger] cs[i].token@,
            ) by {
                assert(cs[i] == before.contracts()[i + 1]);
                assert(!lists_token(before.expired(), before.contracts()[i + 1].token@));
                if lists_token(self.expired(), cs[i].token@) {
                    let j = choose|j: int|
                        0 <= j < self.expired().len() && #[trigger] self.expired()[j]@
                            == cs[i].token@;
                    if j < self.expired().len() - 1 {
                        assert(self.expired()[j] == before.expired()[j]);
                    } else {
                        assert(before.contracts()[0].token@ != before.contracts()[i + 1].token@);
                    }
                }
            }
        }
        Some(c)
    }
}


impl<T> ContractsArchive<T> {
    /// Takes out every live contract that has lapsed at `now`, oldest
    /// first, and marks their tokens expired.
    pub fn sweep(&mut self, now: u64) -> (r: Vec<LockContract<T>>)
        requires
            old(self).wf(),
        ensures
            final(self).wf(),
            final(self).issued() == old(self).issued(),
            r@ == old(self).contracts().take(due_count(old(self).contracts(), now) as int),
            final(self).contracts() == swept(old(self).contracts(), now),
            final(self).expired() == expired_after(old(self).expired(), old(self).contracts(), now),
    {
        let ghost orig = *self;
        let mut out: Vec<LockContract<T>> = Vec::new();
        loop
            invariant
                self.wf(),
                self.issued() == orig.issued(),
                out@.len() <= orig.contracts().len(),
                self.contracts() == orig.contracts().skip(out@.len() as int),
                out@ == orig.contracts().take(out@.len() as int),
                self.expired() == orig.expired() + tokens_of(out@),
                due_count(orig.contracts(), now) == out@.len() + due_count(self.contracts(), now),
            ensures
                due_count(self.contracts(), now) == 0,
            decreases self.contracts().len(),
        {
            let ghost cs = self.contracts();
            let ghost k = out@.len() as int;
            match self.pop_expired(now) {
                Some(c) => {
                    proof {
                        assert(cs.drop_first() =~= orig.contracts().skip(k + 1));
                        assert(orig.contracts()[k] == c);
                        assert(out@.push(c) =~= orig.contracts().take(k + 1));
                        assert(tokens_of(out@.push(c)) =~= tokens_of(out@).push(c.token));
                    }
                    out.push(c);
                },
                None => {
                    break;
                },
            }
        }
        out
    }

    /// Takes out every live contract, oldest first. Nothing is marked
    /// expired.
    pub fn drain(&mut self) -> (r: Vec<LockContract<T>>)
        requires
            old(self).wf(),
        ensures
            final(self).wf(),
            r@ == old(self).contracts(),
            final(self).contracts() == Seq::<LockContract<T>>::empty(),
            final(self).expired() == old(self).expired(),
            final(self).issued() == old(self).issued(),
    {
        let mut out: Vec<LockContract<T>> = Vec::new();
        std::mem::swap(&mut out, &mut self.live);
        proof {
            assert(self.expired() == old(self).expired());
            assert(self.issued() == old(self).issued());
            assert(self.contracts().len() == 0);
        }
        out
    }
}


/// A sweep never takes out more contracts than there are.
pub proof fn lemma_due_count_bounded<T>(cs: Seq<LockContract<T>>, now: u64)
    ensures
        due_count(cs, now) <= cs.len(),
    decreases cs.len(),
{
    if cs.len() > 0 && cs[0].expiry <= now {
        lemma_due_count_bounded(cs.drop_first(), now);
    }
}

proof fn lemma_nothing_due_after_sweep<T>(cs: Seq<LockContract<T>>, now: u64)
    ensures
        due_count(swept(cs, now), now) == 0,
    decreases cs.len(),
{
    lemma_due_count_bounded(cs, now);
    if cs.len() > 0 && cs[0].expiry <= now {
        let rest = cs.drop_first();
        lemma_due_count_bounded(rest, now);
        assert(swept(cs, now) =~= swept(rest, now));
        lemma_nothing_due_after_sweep(rest, now);
    } else {
        assert(swept(cs, now) =~= cs);
    }
}

/// Sweeping is idempotent for a fixed `now`: a second sweep at the same
/// time finds nothing to take out, leaving both the live contracts and the
/// expired tokens as the first sweep left them.
pub proof fn lemma_sweep_idempotent<T>(cs: Seq<LockContract<T>>, expired: Seq<String>, now: u64)
    ensures
        due_count(swept(cs, now), now) == 0,
        swept(swept(cs, now), now) == swept(cs, now),
        expired_after(expired_after(expired, cs, now), swept(cs, now), now) == expired_after(
            expired,
            cs,
            now,
        ),
{
    lemma_nothing_due_after_sweep(cs, now);
    let s = swept(cs, now);
    assert(swept(s, now) =~= s);
    assert(tokens_of(s.take(0)) =~= Seq::<String>::empty());
    assert(expired_after(expired_after(expired, cs, now), s, now) =~= expired_after(
        expired,
        cs,
        now,
    ));
}


/// Along contracts ordered by expiry, a sweep at `now` takes out exactly
/// those that have lapsed at `now`.
pub proof fn lemma_due_exactly_lapsed<T>(cs: Seq<LockContract<T>>, now: u64)
    requires
        expiry_ordered(cs),
    ensures
        due_count(cs, now) <= cs.len(),
        forall|i: int|
            0 <= i < cs.len() ==> (i < due_count(cs, now) <==> #[trigger] cs[i].expiry <= now),
    decreases cs.len(),
{
    lemma_due_count_bounded(cs, now);
    if cs.len() > 0 && cs[0].expiry <= now {
        let rest = cs.drop_first();
        assert(expiry_ordered(rest)) by {
            assert forall|a: int, b: int| 0 <= a <= b < rest.len() implies #[trigger] rest[a].expiry
                <= #[trigger] rest[b].expiry by {
                assert(rest[a] == cs[a + 1] && rest[b] == cs[b + 1]);
            }
        }
        lemma_due_exactly_lapsed(rest, now);
        assert forall|i: int| 0 <= i < cs.len() implies (i < due_count(cs, now)
            <==> #[trigger] cs[i].expiry <= now) by {
            if i > 0 {
                assert(cs[i] == rest[i - 1]);
            }
        }
    } else if cs.len() > 0 {
        assert forall|i: int| 0 <= i < cs.len() implies (i < due_count(cs, now)
            <==> #[trigger] cs[i].expiry <= now) by {
            assert(cs[0].expiry <= cs[i].expiry);
        }
    }
}


impl<T> ContractsArchive<T> {
    /// The live contracts, oldest first.
    pub fn live_contracts(&self) -> (r: &[LockContract<T>])
        ensures
            r@ == self.contracts(),
    {
        self.live.as_slice()
    }

    /// Number of live contracts.
    pub fn live_count(&self) -> (r: usize)
        ensures
            r == self.contracts().len(),
    {
        self.live.len()
    }
}

} // verus!
