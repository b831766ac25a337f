//! The ledger: who owns it, which tokens were minted, and what the reward pool holds.

use vstd::prelude::*;
use crate::account::AccountId;
use crate::error::LedgerError;
use crate::index::{distinct_accounts, listed, position, record, OwnerTokens};
use crate::token::{
    held_by, ids_of, ids_sequential, lemma_held_by_member, lemma_held_by_push,
    token_views, tokens_consistent, ConnectionSBT, TokenView,
};

verus! {

/// The ledger as plain values. `tokens` holds every minted token in mint order.
pub ghost struct LedgerView {
    pub owner: Seq<char>,
    pub tokens: Seq<TokenView>,
    pub pool_balance: u128,
    pub transfer_amount: u128,
}

impl LedgerView {
    /// The ledger right after it was set up.
    pub open spec fn initial(owner: Seq<char>, transfer_amount: u128) -> LedgerView {
        LedgerView { owner, tokens: Seq::empty(), pool_balance: 0, transfer_amount }
    }

    /// The number of tokens minted so far, which is also the last id given out.
    pub open spec fn token_count(self) -> nat {
        self.tokens.len()
    }

    /// The token with the given id, if it was minted.
    pub open spec fn token_at(self, token_id: u64) -> Option<TokenView> {
        if 1 <= token_id <= self.tokens.len() {
            Some(self.tokens[token_id - 1])
        } else {
            None
        }
    }

    /// The tokens filed under `account`, in mint order.
    pub open spec fn tokens_of(self, account: Seq<char>) -> Seq<TokenView> {
        held_by(self.tokens, account)
    }

    /// Why a deposit of `amount` is refused, if it is.
    pub open spec fn deposit_refusal(self, amount: u128) -> Option<LedgerError> {
        if amount == 0 {
            Some(LedgerError::ZeroDeposit)
        } else if self.pool_balance + amount > u128::MAX {
            Some(LedgerError::Overflow)
        } else {
            None
        }
    }

    /// The ledger after an accepted deposit.
    pub open spec fn deposited(self, amount: u128) -> LedgerView {
        LedgerView { pool_balance: (self.pool_balance + amount) as u128, ..self }
    }

    /// The ledger after the owner has set the reward to `amount`.
    pub open spec fn reconfigured(self, amount: u128) -> LedgerView {
        LedgerView { transfer_amount: amount, ..self }
    }

    /// Why an exchange between the two accounts is refused, if it is. The
    /// parties are looked at first, then the pool, then the room left for ids.
    pub open spec fn exchange_refusal(self, party_a: Seq<char>, party_b: Seq<char>) -> Option<
        LedgerError,
    > {
        if party_a == party_b {
            Some(LedgerError::SelfExchange)
        } else if self.pool_balance < self.transfer_amount {
            Some(LedgerError::InsufficientFunds)
        } else if self.tokens.len() + 2 > u64::MAX {
            Some(LedgerError::Overflow)
        } else {
            None
        }
    }

    /// The token with the given id that an exchange at this state mints.
    pub open spec fn minted(
        token_id: u64,
        party_a: Seq<char>,
        party_b: Seq<char>,
        timestamp_ns: u64,
        event_name: Seq<char>,
    ) -> TokenView {
        TokenView { token_id, party_a, party_b, timestamp_ns, event_name }
    }

    /// The ledger after an accepted exchange: two more tokens with the next two
    /// ids, and one reward less in the pool.
    pub open spec fn exchanged(
        self,
        party_a: Seq<char>,
        party_b: Seq<char>,
        timestamp_ns: u64,
        event_name: Seq<char>,
    ) -> LedgerView {
        let first = (self.tokens.len() + 1) as u64;
        let second = (self.tokens.len() + 2) as u64;
        LedgerView {
            tokens: self.tokens.push(
                Self::minted(first, party_a, party_b, timestamp_ns, event_name),
            ).push(Self::minted(second, party_a, party_b, timestamp_ns, event_name)),
            pool_balance: (self.pool_balance - self.transfer_amount) as u128,
            ..self
        }
    }

    /// What holds of the tokens of every ledger: ids count up from one, and
    /// tokens come in pairs between two different accounts.
    pub open spec fn consistent(self) -> bool {
        tokens_consistent(self.tokens)
    }
}

/// An order to pay `amount` out of the ledger's custody to `receiver`. The
/// ledger gives the order and does not learn whether the payment settles.
#[derive(Debug)]
pub struct Transfer {
    pub receiver: AccountId,
    pub amount: u128,
}

/// A payment order as plain values.
pub ghost struct TransferView {
    pub receiver: Seq<char>,
    pub amount: u128,
}

impl View for Transfer {
    type V = TransferView;

    open spec fn view(&self) -> TransferView {
        TransferView { receiver: self.receiver@, amount: self.amount }
    }
}

/// What an accepted exchange hands back: the two new ids, the first party's
/// first, and the reward to pay to the second party.
#[derive(Debug)]
pub struct Exchange {
    pub sbt_a_id: u64,
    pub sbt_b_id: u64,
    pub payout: Transfer,
}

/// The ledger's state. Tokens are kept in mint order, so the token with id `n`
/// stands at position `n - 1`.
pub struct NearCardContract {
    owner: AccountId,
    sbt_counter: u64,
    sbts_by_id: Vec<ConnectionSBT>,
    sbts_by_owner: Vec<OwnerTokens>,
    funding_pool_balance: u128,
    transfer_amount: u128,
}

impl View for NearCardContract {
    type V = LedgerView;

    closed spec fn view(&self) -> LedgerView {
        LedgerView {
            owner: self.owner@,
            tokens: token_views(self.sbts_by_id@),
            pool_balance: self.funding_pool_balance,
            transfer_amount: self.transfer_amount,
        }
    }
}

impl NearCardContract {
    /// The counter is the number of tokens, ids count up from one, and the
    /// index lists under each account exactly the ids of the tokens it holds.
    pub closed spec fn filed(&self) -> bool {
        &&& self.sbt_counter == self.sbts_by_id.len()
        &&& ids_sequential(self@.tokens)
        &&& distinct_accounts(self.sbts_by_owner@)
        &&& forall|account: Seq<char>|
            #[trigger] listed(self.sbts_by_owner@, account) == ids_of(
                held_by(self@.tokens, account),
            )
    }

    /// The invariant of the ledger: every constructor establishes it and every
    /// operation keeps it.
    pub closed spec fn well_formed(&self) -> bool {
        &&& self.filed()
        &&& self@.consistent()
    }

    /// A well-formed ledger's tokens are consistent.
    pub proof fn lemma_well_formed_consistent(&self)
        requires
            self.well_formed(),
        ensures
            self@.consistent(),
    {
    }

    /// Sets the ledger up, once: refused where a ledger exists already.
    pub fn new(state_exists: bool, owner: AccountId, transfer_amount: u128) -> (r: Result<
        NearCardContract,
        LedgerError,
    >)
        ensures
            state_exists ==> r == Err::<NearCardContract, LedgerError>(
                LedgerError::AlreadyInitialized,
            ),
            !state_exists ==> r.is_ok() && r.unwrap().well_formed() && r.unwrap()@
                == LedgerView::initial(owner@, transfer_amount),
    {
        if state_exists {
            return Err(LedgerError::AlreadyInitialized);
        }
        let ledger = NearCardContract {
            owner,
            sbt_counter: 0,
            sbts_by_id: Vec::new(),
            sbts_by_owner: Vec::new(),
            funding_pool_balance: 0,
            transfer_amount,
        };
        proof {
            assert(ledger@.tokens =~= Seq::<TokenView>::empty());
            assert forall|account: Seq<char>| #[trigger]
                listed(ledger.sbts_by_owner@, account) == ids_of(
                    held_by(ledger@.tokens, account),
                ) by {
                assert(ids_of(Seq::<TokenView>::empty()) =~= Seq::<u64>::empty());
            }
        }
        Ok(ledger)
    }

    /// Whether `tokens` can be the tokens of a ledger, in mint order.
    fn check_tokens(tokens: &Vec<ConnectionSBT>) -> (ok: bool)
        ensures
            ok == tokens_consistent(token_views(tokens@)),
    {
        let ghost views = token_views(tokens@);
        let n = tokens.len();
        if n % 2 != 0 {
            return false;
        }
        let mut i: usize = 0;
        while i < n
            invariant
                n == tokens.len(),
                n % 2 == 0,
                i % 2 == 0,
                i <= n,
                views == token_views(tokens@),
                forall|j: int| 0 <= j < i ==> (#[trigger] views[j]).token_id == j + 1,
                forall|j: int|
                    0 <= j < i && j % 2 == 0 ==> {
                        &&& (#[trigger] views[j]).same_exchange(views[j + 1])
                        &&& views[j].party_a != views[j].party_b
                    },
            decreases n - i,
        {
            let first = &tokens[i];
            let second = &tokens[i + 1];
            proof {
                assert(views[i as int] == first@);
                assert(views[i + 1] == second@);
            }
            if first.token_id == 0 || first.token_id - 1 != i as u64 {
                return false;
            }
            if second.token_id < 2 || second.token_id - 2 != i as u64 {
                return false;
            }
            if !first.records_same_exchange(second) || first.party_a.same_as(&first.party_b) {
                return false;
            }
            i += 2;
        }
        true
    }

    /// Rebuilds a ledger from what was kept of it: the owner, the reward, the
    /// pool and the tokens in mint order. Refused where the tokens cannot be a
    /// ledger's: ids that do not count up from one, or tokens that are not
    /// pairs recording one exchange between two different accounts.
    pub fn restore(
        owner: AccountId,
        transfer_amount: u128,
        pool_balance: u128,
        tokens: Vec<ConnectionSBT>,
    ) -> (r: Option<NearCardContract>)
        ensures
            r.is_some() == tokens_consistent(token_views(tokens@)),
            r.is_some() ==> r.unwrap().well_formed() && r.unwrap()@ == (LedgerView {
                owner: owner@,
                tokens: token_views(tokens@),
                pool_balance,
                transfer_amount,
            }),
    {
        if !Self::check_tokens(&tokens) {
            return None;
        }
        let ghost views = token_views(tokens@);
        let mut ledger = NearCardContract {
            owner,
            sbt_counter: 0,
            sbts_by_id: Vec::new(),
            sbts_by_owner: Vec::new(),
            funding_pool_balance: pool_balance,
            transfer_amount,
        };
        proof {
            assert(ledger@.tokens =~= views.take(0));
            assert forall|account: Seq<char>| #[trigger]
                listed(ledger.sbts_by_owner@, account) == ids_of(
                    held_by(ledger@.tokens, account),
                ) by {
                assert(ids_of(Seq::<TokenView>::empty()) =~= Seq::<u64>::empty());
            }
        }
        let mut i: usize = 0;
        while i < tokens.len()
            invariant
                i <= tokens.len(),
                views == token_views(tokens@),
                tokens_consistent(views),
                ledger.filed(),
                ledger@ == (LedgerView {
                    owner: owner@,
                    tokens: views.take(i as int),
                    pool_balance,
                    transfer_amount,
                }),
            decreases tokens.len() - i,
        {
            let token = &tokens[i];
            proof {
                assert(views[i as int] == token@);
                assert(views.take(i as int).push(views[i as int]) =~= views.take(i + 1));
            }
            ledger.mint(&token.party_a, &token.party_b, token.timestamp_ns, &token.event_name);
            i += 1;
        }
        proof {
            assert(views.take(tokens.len() as int) =~= views);
        }
        Some(ledger)
    }

    /// Adds `amount` to the pool. Refused where `amount` is zero, or where the
    /// pool could not hold the sum.
    pub fn deposit(&mut self, amount: u128) -> (r: Result<(), LedgerError>)
        requires
            old(self).well_formed(),
        ensures
            final(self).well_formed(),
            match old(self)@.deposit_refusal(amount) {
                Some(e) => r == Err::<(), LedgerError>(e) && final(self)@ == old(self)@,
                None => r.is_ok() && final(self)@ == old(self)@.deposited(amount),
            },
    {
        if amount == 0 {
            return Err(LedgerError::ZeroDeposit);
        }
        match self.funding_pool_balance.checked_add(amount) {
            Some(sum) => {
                self.funding_pool_balance = sum;
                Ok(())
            },
            None => Err(LedgerError::Overflow),
        }
    }

    /// Mints one token with the next id and files it under its holder.
    fn mint(
        &mut self,
        party_a: &AccountId,
        party_b: &AccountId,
        timestamp_ns: u64,
        event_name: &String,
    ) -> (id: u64)
        requires
            old(self).filed(),
            old(self)@.tokens.len() < u64::MAX,
        ensures
            final(self).filed(),
            id == old(self)@.tokens.len() + 1,
            final(self)@ == (LedgerView {
                tokens: old(self)@.tokens.push(
                    LedgerView::minted(id, party_a@, party_b@, timestamp_ns, event_name@),
                ),
                ..old(self)@
            }),
    {
        let ghost before = self@.tokens;
        self.sbt_counter += 1;
        let id = self.sbt_counter;
        let token = ConnectionSBT {
            token_id: id,
            party_a: party_a.clone(),
            party_b: party_b.clone(),
            timestamp_ns,
            event_name: event_name.clone(),
        };
        let ghost minted = token@;
        self.sbts_by_id.push(token);
        if id % 2 == 1 {
            record(&mut self.sbts_by_owner, party_a, id);
        } else {
            record(&mut self.sbts_by_owner, party_b, id);
        }
        proof {
            assert(self@.tokens =~= before.push(minted));
            assert forall|account: Seq<char>| #[trigger]
                listed(self.sbts_by_owner@, account) == ids_of(
                    held_by(self@.tokens, account),
                ) by {
                lemma_held_by_push(before, minted, account);
                assert(listed(old(self).sbts_by_owner@, account) == ids_of(
                    held_by(before, account),
                ));
                if minted.holder() == account {
                    assert(ids_of(held_by(before, account).push(minted)) =~= ids_of(
                        held_by(before, account),
                    ).push(id));
                }
            }
        }
        id
    }

    /// Records an exchange that `party_a` started with `party_b`: mints one
    /// token for each, with the next two ids, takes one reward out of the pool
    /// and orders its payment to `party_b`. A refused exchange changes nothing.
    pub fn exchange_cards(
        &mut self,
        party_a: AccountId,
        party_b: AccountId,
        event_name: String,
        timestamp_ns: u64,
    ) -> (r: Result<Exchange, LedgerError>)
        requires
            old(self).well_formed(),
        ensures
            final(self).well_formed(),
            match old(self)@.exchange_refusal(party_a@, party_b@) {
                Some(e) => r.is_err() && r.unwrap_err() == e && final(self)@ == old(self)@,
                None => {
                    &&& r.is_ok()
                    &&& r.unwrap().sbt_a_id == old(self)@.token_count() + 1
                    &&& r.unwrap().sbt_b_id == old(self)@.token_count() + 2
                    &&& r.unwrap().payout@ == (TransferView {
                        receiver: party_b@,
                        amount: old(self)@.transfer_amount,
                    })
                    &&& final(self)@ == old(self)@.exchanged(
                        party_a@,
                        party_b@,
                        timestamp_ns,
                        event_name@,
                    )
                },
            },
    {
        if party_a.same_as(&party_b) {
            return Err(LedgerError::SelfExchange);
        }
        let remaining = match self.funding_pool_balance.checked_sub(self.transfer_amount) {
            Some(remaining) => remaining,
            None => {
                return Err(LedgerError::InsufficientFunds);
            },
        };
        if self.sbt_counter > u64::MAX - 2 {
            return Err(LedgerError::Overflow);
        }
        let ghost before = self@.tokens;
        let sbt_a_id = self.mint(&party_a, &party_b, timestamp_ns, &event_name);
        let sbt_b_id = self.mint(&party_a, &party_b, timestamp_ns, &event_name);
        self.funding_pool_balance = remaining;
        proof {
            let after = self@.tokens;
            assert forall|i: int| 0 <= i < after.len() && i % 2 == 0 implies {
                &&& (#[trigger] after[i]).same_exchange(after[i + 1])
                &&& after[i].party_a != after[i].party_b
            } by {
                if i < before.len() {
                    assert(before[i].same_exchange(before[i + 1]));
                }
            }
        }
        Ok(Exchange {
            sbt_a_id,
            sbt_b_id,
            payout: Transfer { receiver: party_b, amount: self.transfer_amount },
        })
    }

    /// Replaces the reward paid per exchange. Only the owner may do so; any
    /// amount is accepted, zero too.
    pub fn set_transfer_amount(&mut self, caller: &AccountId, amount: u128) -> (r: Result<
        (),
        LedgerError,
    >)
        requires
            old(self).well_formed(),
        ensures
            final(self).well_formed(),
            caller@ == old(self)@.owner ==> r.is_ok() && final(self)@ == old(self)@.reconfigured(
                amount,
            ),
            caller@ != old(self)@.owner ==> r == Err::<(), LedgerError>(LedgerError::Unauthorized)
                && final(self)@ == old(self)@,
    {
        if !caller.same_as(&self.owner) {
            return Err(LedgerError::Unauthorized);
        }
        self.transfer_amount = amount;
        Ok(())
    }

    /// The token with the given id, if it was minted.
    pub fn get_sbt(&self, token_id: u64) -> (r: Option<ConnectionSBT>)
        requires
            self.well_formed(),
        ensures
            r.is_some() == self@.token_at(token_id).is_some(),
            r.is_some() ==> r.unwrap()@ == self@.token_at(token_id).unwrap(),
    {
        if token_id == 0 || token_id > self.sbt_counter {
            return None;
        }
        let at: usize = (token_id - 1) as usize;
        Some(self.sbts_by_id[at].clone())
    }

    /// The tokens filed under `account_id`, in mint order; none for an account
    /// that holds no token.
    pub fn get_sbts_by_owner(&self, account_id: &AccountId) -> (r: Vec<ConnectionSBT>)
        requires
            self.well_formed(),
        ensures
            token_views(r@) == self@.tokens_of(account_id@),
    {
        let mut found: Vec<ConnectionSBT> = Vec::new();
        let ghost held = held_by(self@.tokens, account_id@);
        proof {
            assert(listed(self.sbts_by_owner@, account_id@) == ids_of(held));
        }
        match position(&self.sbts_by_owner, account_id) {
            Some(p) => {
                proof {
                    crate::index::lemma_listed_at(self.sbts_by_owner@, p as int);
                }
                let token_ids = &self.sbts_by_owner[p].token_ids;
                let mut k: usize = 0;
                while k < token_ids.len()
                    invariant
                        self.well_formed(),
                        held == held_by(self@.tokens, account_id@),
                        token_ids@ == ids_of(held),
                        k <= token_ids.len(),
                        found.len() == k,
                        forall|j: int| 0 <= j < k ==> (#[trigger] found[j])@ == held[j],
                    decreases token_ids.len() - k,
                {
                    let id = token_ids[k];
                    proof {
                        lemma_held_by_member(self@.tokens, account_id@, k as int);
                        assert(ids_of(held)[k as int] == held[k as int].token_id);
                    }
                    let at: usize = (id - 1) as usize;
                    found.push(self.sbts_by_id[at].clone());
                    k += 1;
                }
                proof {
                    assert(token_views(found@) =~= held);
                }
            },
            None => {
                proof {
                    assert(ids_of(held).len() == 0);
                    assert(held =~= Seq::<TokenView>::empty());
                    assert(token_views(found@) =~= held);
                }
            },
        }
        found
    }

    /// What the reward pool holds.
    pub fn get_pool_balance(&self) -> (r: u128)
        ensures
            r == self@.pool_balance,
    {
        self.funding_pool_balance
    }

    /// The number of tokens minted so far.
    pub fn get_sbt_count(&self) -> (r: u64)
        requires
            self.well_formed(),
        ensures
            r == self@.token_count(),
    {
        self.sbt_counter
    }

    /// The reward paid per exchange.
    pub fn get_transfer_amount(&self) -> (r: u128)
        ensures
            r == self@.transfer_amount,
    {
        self.transfer_amount
    }

    /// The account that may change the reward.
    pub fn get_owner(&self) -> (r: AccountId)
        ensures
            r@ == self@.owner,
    {
        self.owner.clone()
    }

    /// Asking twice for the tokens gives the same answer: whatever two calls of
    /// `get_sbt` and of `get_sbts_by_owner` return on one ledger, with the same
    /// argument, holds the same tokens.
    pub proof fn lemma_token_queries_repeat(
        &self,
        token_id: u64,
        account_id: &AccountId,
        first: Option<ConnectionSBT>,
        second: Option<ConnectionSBT>,
        first_held: Vec<ConnectionSBT>,
        second_held: Vec<ConnectionSBT>,
    )
        requires
            call_ensures(NearCardContract::get_sbt, (self, token_id), first),
            call_ensures(NearCardContract::get_sbt, (self, token_id), second),
            call_ensures(NearCardContract::get_sbts_by_owner, (self, account_id), first_held),
            call_ensures(NearCardContract::get_sbts_by_owner, (self, account_id), second_held),
        ensures
            first.is_some() == second.is_some(),
            first.is_some() ==> first.unwrap()@ == second.unwrap()@,
            token_views(first_held@) == token_views(second_held@),
    {
    }

    /// Asking twice for a balance, a count or the owner gives the same answer.
    pub proof fn lemma_scalar_queries_repeat(
        &self,
        first_pool: u128,
        second_pool: u128,
        first_count: u64,
        second_count: u64,
        first_amount: u128,
        second_amount: u128,
        first_owner: AccountId,
        second_owner: AccountId,
    )
        requires
            call_ensures(NearCardContract::get_pool_balance, (self,), first_pool),
            call_ensures(NearCardContract::get_pool_balance, (self,), second_pool),
            call_ensures(NearCardContract::get_sbt_count, (self,), first_count),
            call_ensures(NearCardContract::get_sbt_count, (self,), second_count),
            call_ensures(NearCardContract::get_transfer_amount, (self,), first_amount),
            call_ensures(NearCardContract::get_transfer_amount, (self,), second_amount),
            call_ensures(NearCardContract::get_owner, (self,), first_owner),
            call_ensures(NearCardContract::get_owner, (self,), second_owner),
        ensures
            first_pool == second_pool,
            first_count == second_count,
            first_amount == second_amount,
            first_owner@ == second_owner@,
    {
    }
}

} // verus!
