//! What holds of a ledger over one exchange and over a run of exchanges.

use vstd::prelude::*;
use crate::ledger::LedgerView;
use crate::token::{held_by, ids_sequential, lemma_held_by_push, paired, TokenView};

verus! {

/// `after` is `before` after one accepted exchange.
pub open spec fn exchange_step(before: LedgerView, after: LedgerView) -> bool {
    exists|party_a: Seq<char>, party_b: Seq<char>, timestamp_ns: u64, event_name: Seq<char>|
        before.exchange_refusal(party_a, party_b).is_none() && after == #[trigger] before.exchanged(
            party_a,
            party_b,
            timestamp_ns,
            event_name,
        )
}

/// Each state but the first comes from the one before it by an accepted exchange.
pub open spec fn exchange_run(states: Seq<LedgerView>) -> bool {
    forall|i: int| 0 <= i < states.len() - 1 ==> exchange_step(#[trigger] states[i], states[i + 1])
}

/// An accepted exchange mints exactly two tokens. Their ids are the next two,
/// one after the other; both record the same parties, time and label; the
/// token count grows by two; the pool pays one reward; and the tokens stay
/// consistent.
pub proof fn lemma_exchange_mints_pair(
    before: LedgerView,
    party_a: Seq<char>,
    party_b: Seq<char>,
    timestamp_ns: u64,
    event_name: Seq<char>,
)
    requires
        before.consistent(),
        before.exchange_refusal(party_a, party_b).is_none(),
    ensures
        ({
            let after = before.exchanged(party_a, party_b, timestamp_ns, event_name);
            let n = before.token_count() as int;
            &&& after.token_count() == n + 2
            &&& after.tokens.subrange(0, n) == before.tokens
            &&& after.tokens[n].token_id == n + 1
            &&& after.tokens[n + 1].token_id == after.tokens[n].token_id + 1
            &&& after.tokens[n].same_exchange(after.tokens[n + 1])
            &&& after.tokens[n] == LedgerView::minted(
                (n + 1) as u64,
                party_a,
                party_b,
                timestamp_ns,
                event_name,
            )
            &&& after.pool_balance == before.pool_balance - before.transfer_amount
            &&& after.transfer_amount == before.transfer_amount
            &&& after.owner == before.owner
            &&& after.consistent()
        }),
{
    let after = before.exchanged(party_a, party_b, timestamp_ns, event_name);
    let n = before.token_count() as int;
    assert(after.tokens.subrange(0, n) =~= before.tokens);
    assert forall|i: int| 0 <= i < after.tokens.len() && i % 2 == 0 implies {
        &&& (#[trigger] after.tokens[i]).same_exchange(after.tokens[i + 1])
        &&& after.tokens[i].party_a != after.tokens[i].party_b
    } by {
        if i < n {
            assert(before.tokens[i].same_exchange(before.tokens[i + 1]));
        }
    }
}

/// An accepted exchange files the first new token under `party_a`, the second
/// under `party_b`, and nothing new under any other account.
pub proof fn lemma_exchange_files_tokens(
    before: LedgerView,
    party_a: Seq<char>,
    party_b: Seq<char>,
    timestamp_ns: u64,
    event_name: Seq<char>,
    account: Seq<char>,
)
    requires
        before.consistent(),
        before.exchange_refusal(party_a, party_b).is_none(),
    ensures
        ({
            let after = before.exchanged(party_a, party_b, timestamp_ns, event_name);
            let n = before.token_count() as int;
            after.tokens_of(account) == if account == party_a {
                before.tokens_of(account).push(after.tokens[n])
            } else if account == party_b {
                before.tokens_of(account).push(after.tokens[n + 1])
            } else {
                before.tokens_of(account)
            }
        }),
{
    let after = before.exchanged(party_a, party_b, timestamp_ns, event_name);
    let n = before.token_count() as int;
    let first = after.tokens[n];
    let second = after.tokens[n + 1];
    assert(n % 2 == 0);
    lemma_held_by_push(before.tokens, first, account);
    lemma_held_by_push(before.tokens.push(first), second, account);
}

/// After a run of `n` accepted exchanges at a fixed reward, the pool holds its
/// first balance less `n` rewards, which is never below zero, and the ledger
/// holds `2 * n` tokens more, after the tokens it held before, which are
/// unchanged.
pub proof fn lemma_pool_after_exchanges(states: Seq<LedgerView>)
    requires
        states.len() >= 1,
        exchange_run(states),
    ensures
        states.last().transfer_amount == states[0].transfer_amount,
        states.last().pool_balance == states[0].pool_balance - (states.len() - 1)
            * states[0].transfer_amount,
        states[0].pool_balance - (states.len() - 1) * states[0].transfer_amount >= 0,
        states.last().token_count() == states[0].token_count() + 2 * (states.len() - 1),
        states.last().tokens.subrange(0, states[0].token_count() as int) == states[0].tokens,
        states.last().owner == states[0].owner,
    decreases states.len(),
{
    if states.len() > 1 {
        let shorter = states.drop_last();
        assert forall|i: int| 0 <= i < shorter.len() - 1 implies exchange_step(
            #[trigger] shorter[i],
            shorter[i + 1],
        ) by {
            assert(exchange_step(states[i], states[i + 1]));
        }
        lemma_pool_after_exchanges(shorter);
        let n = states.len() - 1;
        assert(exchange_step(states[n - 1], states[n]));
        let t = states[0].transfer_amount as int;
        assert((n - 1) * t + t == n * t) by (nonlinear_arith);
        let first = states[0].tokens;
        assert(states[n].tokens.subrange(0, first.len() as int) =~= states[n - 1].tokens.subrange(
            0,
            first.len() as int,
        ));
    } else {
        assert(states[0].tokens.subrange(0, states[0].tokens.len() as int) =~= states[0].tokens);
    }
}

/// In a consistent ledger the first token of each pair is filed under
/// `party_a` and the second under `party_b`.
pub proof fn lemma_pair_holders(tokens: Seq<TokenView>, i: int)
    requires
        ids_sequential(tokens),
        paired(tokens),
        0 <= i < tokens.len(),
        i % 2 == 0,
    ensures
        tokens[i].holder() == tokens[i].party_a,
        tokens[i + 1].holder() == tokens[i].party_b,
        tokens[i].holder() != tokens[i + 1].holder(),
        held_by(tokens, tokens[i].party_a).contains(tokens[i]),
        held_by(tokens, tokens[i].party_b).contains(tokens[i + 1]),
{
    assert(tokens[i].same_exchange(tokens[i + 1]));
    crate::token::lemma_token_is_held(tokens, i);
    crate::token::lemma_token_is_held(tokens, i + 1);
}

/// `after` is `before` after one accepted operation: a deposit, an exchange,
/// or a new reward set by the owner.
pub open spec fn ledger_step(before: LedgerView, after: LedgerView) -> bool {
    ||| exists|amount: u128|
        before.deposit_refusal(amount).is_none() && after == #[trigger] before.deposited(amount)
    ||| exchange_step(before, after)
    ||| exists|amount: u128| after == #[trigger] before.reconfigured(amount)
}

/// Each state but the first comes from the one before it by an accepted operation.
pub open spec fn ledger_run(states: Seq<LedgerView>) -> bool {
    forall|i: int| 0 <= i < states.len() - 1 ==> ledger_step(#[trigger] states[i], states[i + 1])
}

/// Whatever is done to a ledger, its owner stays, its tokens stay as they
/// were minted, in their places, new tokens come only after them, and the
/// tokens stay consistent.
pub proof fn lemma_run_keeps_tokens(states: Seq<LedgerView>)
    requires
        states.len() >= 1,
        states[0].consistent(),
        ledger_run(states),
    ensures
        states.last().consistent(),
        states.last().owner == states[0].owner,
        states.last().token_count() >= states[0].token_count(),
        states.last().tokens.subrange(0, states[0].token_count() as int) == states[0].tokens,
    decreases states.len(),
{
    let first = states[0].tokens;
    if states.len() > 1 {
        let shorter = states.drop_last();
        assert forall|i: int| 0 <= i < shorter.len() - 1 implies ledger_step(
            #[trigger] shorter[i],
            shorter[i + 1],
        ) by {
            assert(ledger_step(states[i], states[i + 1]));
        }
        lemma_run_keeps_tokens(shorter);
        let n = states.len() - 1;
        let before = states[n - 1];
        let after = states[n];
        assert(ledger_step(before, after));
        if exchange_step(before, after) {
            let (party_a, party_b, timestamp_ns, event_name) = choose|
                party_a: Seq<char>,
                party_b: Seq<char>,
                timestamp_ns: u64,
                event_name: Seq<char>,
            |
                before.exchange_refusal(party_a, party_b).is_none() && after
                    == #[trigger] before.exchanged(party_a, party_b, timestamp_ns, event_name);
            lemma_exchange_mints_pair(before, party_a, party_b, timestamp_ns, event_name);
        }
        assert(after.tokens.subrange(0, first.len() as int) =~= before.tokens.subrange(
            0,
            first.len() as int,
        ));
    } else {
        assert(first.subrange(0, first.len() as int) =~= first);
    }
}

/// The ledger of a fresh setup is consistent, so every ledger reached from it
/// is: see `lemma_run_keeps_tokens`.
pub proof fn lemma_initial_consistent(owner: Seq<char>, transfer_amount: u128)
    ensures
        LedgerView::initial(owner, transfer_amount).consistent(),
{
}

} // verus!
