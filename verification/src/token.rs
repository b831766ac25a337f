//! Connection tokens and the sequences of them that the ledger's contracts speak of.

use vstd::prelude::*;
use crate::account::AccountId;

verus! {

/// What a connection token holds, as plain values.
pub ghost struct TokenView {
    pub token_id: u64,
    pub party_a: Seq<char>,
    pub party_b: Seq<char>,
    pub timestamp_ns: u64,
    pub event_name: Seq<char>,
}

impl TokenView {
    /// The account under which the token is filed: of the two tokens of an
    /// exchange the first (odd id) belongs to `party_a`, the second to `party_b`.
    pub open spec fn holder(self) -> Seq<char> {
        if self.token_id % 2 == 1 {
            self.party_a
        } else {
            self.party_b
        }
    }

    /// Whether `other` records the same exchange: same parties, time and label.
    pub open spec fn same_exchange(self, other: TokenView) -> bool {
        &&& self.party_a == other.party_a
        &&& self.party_b == other.party_b
        &&& self.timestamp_ns == other.timestamp_ns
        &&& self.event_name == other.event_name
    }
}

/// A record of one exchange, issued to one of its two parties. Never changed
/// once minted.
#[derive(Debug)]
pub struct ConnectionSBT {
    pub token_id: u64,
    pub party_a: AccountId,
    pub party_b: AccountId,
    pub timestamp_ns: u64,
    pub event_name: String,
}

impl View for ConnectionSBT {
    type V = TokenView;

    open spec fn view(&self) -> TokenView {
        TokenView {
            token_id: self.token_id,
            party_a: self.party_a@,
            party_b: self.party_b@,
            timestamp_ns: self.timestamp_ns,
            event_name: self.event_name@,
        }
    }
}

impl Clone for ConnectionSBT {
    fn clone(&self) -> (r: ConnectionSBT)
        ensures
            r@ == self@,
    {
        ConnectionSBT {
            token_id: self.token_id,
            party_a: self.party_a.clone(),
            party_b: self.party_b.clone(),
            timestamp_ns: self.timestamp_ns,
            event_name: self.event_name.clone(),
        }
    }
}

impl ConnectionSBT {
    /// Whether `other` records the same exchange: same parties, time and label.
    pub fn records_same_exchange(&self, other: &ConnectionSBT) -> (r: bool)
        ensures
            r == self@.same_exchange(other@),
    {
        self.party_a.same_as(&other.party_a) && self.party_b.same_as(&other.party_b)
            && self.timestamp_ns == other.timestamp_ns && self.event_name == other.event_name
    }
}

/// The views of a sequence of tokens, in the same order.
pub open spec fn token_views(tokens: Seq<ConnectionSBT>) -> Seq<TokenView> {
    Seq::new(tokens.len(), |i: int| tokens[i]@)
}

/// The ids of a sequence of tokens, in the same order.
pub open spec fn ids_of(tokens: Seq<TokenView>) -> Seq<u64> {
    Seq::new(tokens.len(), |i: int| tokens[i].token_id)
}

/// Ids count up from one in mint order: the token at position `i` has id `i + 1`.
pub open spec fn ids_sequential(tokens: Seq<TokenView>) -> bool {
    forall|i: int| 0 <= i < tokens.len() ==> (#[trigger] tokens[i]).token_id == i + 1
}

/// Tokens come in pairs that record one exchange between two different accounts.
pub open spec fn paired(tokens: Seq<TokenView>) -> bool {
    &&& tokens.len() % 2 == 0
    &&& forall|i: int|
        0 <= i < tokens.len() && i % 2 == 0 ==> {
            &&& (#[trigger] tokens[i]).same_exchange(tokens[i + 1])
            &&& tokens[i].party_a != tokens[i].party_b
        }
}

/// What holds of the tokens of every ledger: ids count up from one, without
/// leaving the range of an id, and tokens come in pairs.
pub open spec fn tokens_consistent(tokens: Seq<TokenView>) -> bool {
    &&& ids_sequential(tokens)
    &&& paired(tokens)
    &&& tokens.len() <= u64::MAX
}

/// The tokens filed under `account`, in mint order.
pub open spec fn held_by(tokens: Seq<TokenView>, account: Seq<char>) -> Seq<TokenView>
    decreases tokens.len(),
{
    if tokens.len() == 0 {
        Seq::empty()
    } else if tokens.last().holder() == account {
        held_by(tokens.drop_last(), account).push(tokens.last())
    } else {
        held_by(tokens.drop_last(), account)
    }
}

/// Minting one more token adds it to its holder's tokens and to nobody else's.
pub proof fn lemma_held_by_push(tokens: Seq<TokenView>, token: TokenView, account: Seq<char>)
    ensures
        held_by(tokens.push(token), account) == if token.holder() == account {
            held_by(tokens, account).push(token)
        } else {
            held_by(tokens, account)
        },
{
    assert(tokens.push(token).drop_last() =~= tokens);
}

/// Every token filed under an account is one of the ledger's tokens, found at
/// the position its id gives, and names that account as its holder.
pub proof fn lemma_held_by_member(tokens: Seq<TokenView>, account: Seq<char>, k: int)
    requires
        ids_sequential(tokens),
        0 <= k < held_by(tokens, account).len(),
    ensures
        1 <= held_by(tokens, account)[k].token_id <= tokens.len(),
        tokens[held_by(tokens, account)[k].token_id - 1] == held_by(tokens, account)[k],
        held_by(tokens, account)[k].holder() == account,
    decreases tokens.len(),
{
    let rest = tokens.drop_last();
    assert(ids_sequential(rest));
    if tokens.last().holder() == account && k == held_by(rest, account).len() {
    } else {
        lemma_held_by_member(rest, account, k);
    }
}

/// The tokens filed under an account come in mint order: ids strictly increase.
pub proof fn lemma_held_by_in_mint_order(tokens: Seq<TokenView>, account: Seq<char>, j: int, k: int)
    requires
        ids_sequential(tokens),
        0 <= j < k < held_by(tokens, account).len(),
    ensures
        held_by(tokens, account)[j].token_id < held_by(tokens, account)[k].token_id,
    decreases tokens.len(),
{
    let rest = tokens.drop_last();
    assert(ids_sequential(rest));
    if tokens.last().holder() == account && k == held_by(rest, account).len() {
        lemma_held_by_member(rest, account, j);
    } else {
        lemma_held_by_in_mint_order(rest, account, j, k);
    }
}

/// Every token filed under an account names that account as one of its parties.
pub proof fn lemma_held_by_names_account(tokens: Seq<TokenView>, account: Seq<char>, k: int)
    requires
        0 <= k < held_by(tokens, account).len(),
    ensures
        held_by(tokens, account)[k].party_a == account || held_by(tokens, account)[k].party_b
            == account,
    decreases tokens.len(),
{
    let rest = tokens.drop_last();
    if tokens.last().holder() == account && k == held_by(rest, account).len() {
    } else {
        lemma_held_by_names_account(rest, account, k);
    }
}

/// A token is filed under its holder: it occurs among the tokens held by that
/// account, so no minted token is missing from its holder's list.
pub proof fn lemma_token_is_held(tokens: Seq<TokenView>, i: int)
    requires
        0 <= i < tokens.len(),
    ensures
        held_by(tokens, tokens[i].holder()).contains(tokens[i]),
    decreases tokens.len(),
{
    let rest = tokens.drop_last();
    let account = tokens[i].holder();
    if i == tokens.len() - 1 {
        let held = held_by(tokens, account);
        assert(held[held.len() - 1] == tokens[i]);
    } else {
        lemma_token_is_held(rest, i);
        let w = choose|w: int| 0 <= w < held_by(rest, account).len() && held_by(rest, account)[w] == rest[i];
        assert(held_by(tokens, account)[w] == tokens[i]);
    }
}

/// An account that holds no token has no tokens filed under it.
pub proof fn lemma_held_by_none(tokens: Seq<TokenView>, account: Seq<char>)
    requires
        forall|i: int| 0 <= i < tokens.len() ==> (#[trigger] tokens[i]).holder() != account,
    ensures
        held_by(tokens, account) == Seq::<TokenView>::empty(),
    decreases tokens.len(),
{
    if tokens.len() > 0 {
        lemma_held_by_none(tokens.drop_last(), account);
    }
}

/// An account that is party to no token has no tokens filed under it.
pub proof fn lemma_stranger_holds_nothing(tokens: Seq<TokenView>, account: Seq<char>)
    requires
        forall|i: int|
            0 <= i < tokens.len() ==> (#[trigger] tokens[i]).party_a != account && tokens[i].party_b
                != account,
    ensures
        held_by(tokens, account) == Seq::<TokenView>::empty(),
{
    lemma_held_by_none(tokens, account);
}

} // verus!
