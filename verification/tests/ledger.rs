use nearcard_sbt::account::AccountId;
use nearcard_sbt::error::LedgerError;
use nearcard_sbt::ledger::NearCardContract;
use nearcard_sbt::token::ConnectionSBT;

const REWARD: u128 = 10_000_000_000_000_000_000_000;
const FIVE_NEAR: u128 = 5_000_000_000_000_000_000_000_000;

fn account(name: &str) -> AccountId {
    AccountId::parse(name).unwrap()
}

fn ledger(owner: &str, transfer_amount: u128) -> NearCardContract {
    NearCardContract::new(false, account(owner), transfer_amount).unwrap()
}

#[test]
fn test_new() {
    let contract = ledger("owner.testnet", 10_000_000_000_000_000_000_000);

    assert_eq!(contract.get_sbt_count(), 0);
    assert_eq!(contract.get_pool_balance(), 0);
    assert_eq!(contract.get_transfer_amount(), 10_000_000_000_000_000_000_000);
    assert_eq!(contract.get_owner().as_str().to_string(), "owner.testnet");
}

#[test]
fn test_deposit() {
    let mut contract = ledger("owner.testnet", 10_000_000_000_000_000_000_000);

    assert_eq!(contract.deposit(FIVE_NEAR), Ok(()));
    assert_eq!(contract.get_pool_balance(), 5_000_000_000_000_000_000_000_000);
}

#[test]
fn test_exchange_cards() {
    let mut contract = ledger("owner.testnet", 10_000_000_000_000_000_000_000);
    contract.deposit(FIVE_NEAR).unwrap();

    let exchange = contract
        .exchange_cards(
            account("alice.testnet"),
            account("bob.testnet"),
            "NEAR Conference 2026".to_string(),
            1_700_000_000_000_000_000,
        )
        .unwrap();
    let (sbt_a, sbt_b) = (exchange.sbt_a_id, exchange.sbt_b_id);

    assert_eq!(sbt_a, 1);
    assert_eq!(sbt_b, 2);
    assert_eq!(contract.get_sbt_count(), 2);

    let sbt = contract.get_sbt(1).unwrap();
    assert_eq!(sbt.party_a.as_str().to_string(), "alice.testnet");
    assert_eq!(sbt.party_b.as_str().to_string(), "bob.testnet");
    assert_eq!(sbt.event_name, "NEAR Conference 2026");

    let alice_sbts = contract.get_sbts_by_owner(&account("alice.testnet"));
    assert_eq!(alice_sbts.len(), 1);
    let bob_sbts = contract.get_sbts_by_owner(&account("bob.testnet"));
    assert_eq!(bob_sbts.len(), 1);

    let expected_balance =
        5_000_000_000_000_000_000_000_000u128 - 10_000_000_000_000_000_000_000u128;
    assert_eq!(contract.get_pool_balance(), expected_balance);

    assert_eq!(exchange.payout.receiver.as_str(), "bob.testnet");
    assert_eq!(exchange.payout.amount, 10_000_000_000_000_000_000_000);
}

#[test]
fn test_exchange_with_self() {
    let mut contract = ledger("owner.testnet", 10_000_000_000_000_000_000_000);
    contract.deposit(FIVE_NEAR).unwrap();

    let refused = contract
        .exchange_cards(account("alice.testnet"), account("alice.testnet"), "Test".to_string(), 1)
        .unwrap_err();
    assert_eq!(refused, LedgerError::SelfExchange);
    assert_eq!(refused.reason(), "Cannot exchange cards with yourself");
}

#[test]
fn test_exchange_insufficient_pool() {
    let mut contract = ledger("owner.testnet", 10_000_000_000_000_000_000_000);

    let refused = contract
        .exchange_cards(account("alice.testnet"), account("bob.testnet"), "Test".to_string(), 1)
        .unwrap_err();
    assert_eq!(refused, LedgerError::InsufficientFunds);
    assert!(refused.reason().contains("Insufficient pool balance"));
}

#[test]
fn test_set_transfer_amount() {
    let mut contract = ledger("owner.testnet", 10_000_000_000_000_000_000_000);

    assert_eq!(
        contract.set_transfer_amount(&account("owner.testnet"), 20_000_000_000_000_000_000_000),
        Ok(())
    );
    assert_eq!(contract.get_transfer_amount(), 20_000_000_000_000_000_000_000);
}

#[test]
fn test_set_transfer_amount_not_owner() {
    let mut contract = ledger("owner.testnet", 10_000_000_000_000_000_000_000);

    let refused = contract
        .set_transfer_amount(&account("alice.testnet"), 20_000_000_000_000_000_000_000)
        .unwrap_err();
    assert_eq!(refused, LedgerError::Unauthorized);
    assert_eq!(refused.reason(), "Only owner can change transfer amount");
    assert_eq!(contract.get_transfer_amount(), REWARD);
}

#[test]
fn new_is_refused_where_a_ledger_exists() {
    let refused = NearCardContract::new(true, account("owner.testnet"), REWARD).err().unwrap();
    assert_eq!(refused, LedgerError::AlreadyInitialized);
    assert_eq!(refused.reason(), "Already initialized");
}

#[test]
fn deposit_of_nothing_is_refused() {
    let mut contract = ledger("owner.testnet", REWARD);
    contract.deposit(7).unwrap();
    let refused = contract.deposit(0).unwrap_err();
    assert_eq!(refused, LedgerError::ZeroDeposit);
    assert_eq!(refused.reason(), "Must attach NEAR to deposit");
    assert_eq!(contract.get_pool_balance(), 7);
}

#[test]
fn deposit_beyond_the_range_is_refused() {
    let mut contract = ledger("owner.testnet", REWARD);
    contract.deposit(u128::MAX).unwrap();
    assert_eq!(contract.get_pool_balance(), u128::MAX);
    let refused = contract.deposit(1).unwrap_err();
    assert_eq!(refused, LedgerError::Overflow);
    assert_eq!(refused.reason(), "Arithmetic overflow");
    assert_eq!(contract.get_pool_balance(), u128::MAX);
}

#[test]
fn deposits_add_up() {
    let mut contract = ledger("owner.testnet", REWARD);
    contract.deposit(3).unwrap();
    contract.deposit(4).unwrap();
    assert_eq!(contract.get_pool_balance(), 7);
    assert_eq!(contract.get_sbt_count(), 0);
}

#[test]
fn exchange_scenario_with_small_amounts() {
    let mut contract = ledger("owner", 10);
    contract.deposit(5_000_000).unwrap();

    let exchange = contract
        .exchange_cards(account("alice"), account("bob"), "Conf2026".to_string(), 42)
        .unwrap();
    assert_eq!((exchange.sbt_a_id, exchange.sbt_b_id), (1, 2));
    assert_eq!(contract.get_pool_balance(), 4_999_990);

    let alice = contract.get_sbts_by_owner(&account("alice"));
    assert_eq!(alice.len(), 1);
    assert_eq!(alice[0].event_name, "Conf2026");
    assert_eq!(alice[0].token_id, 1);
}

#[test]
fn self_exchange_mints_nothing() {
    let mut contract = ledger("owner", 10);
    contract.deposit(100).unwrap();

    let refused =
        contract.exchange_cards(account("alice"), account("alice"), "x".to_string(), 1).unwrap_err();
    assert_eq!(refused, LedgerError::SelfExchange);
    assert_eq!(contract.get_sbt_count(), 0);
    assert_eq!(contract.get_pool_balance(), 100);
    assert!(contract.get_sbt(1).is_none());
    assert!(contract.get_sbts_by_owner(&account("alice")).is_empty());
}

#[test]
fn self_exchange_is_reported_before_an_empty_pool() {
    let mut contract = ledger("owner", 10);
    let refused =
        contract.exchange_cards(account("alice"), account("alice"), "x".to_string(), 1).unwrap_err();
    assert_eq!(refused, LedgerError::SelfExchange);
}

#[test]
fn exchange_on_an_empty_pool_changes_nothing() {
    let mut contract = ledger("owner", 10);

    let refused =
        contract.exchange_cards(account("alice"), account("bob"), "x".to_string(), 1).unwrap_err();
    assert_eq!(refused, LedgerError::InsufficientFunds);
    assert_eq!(refused.reason(), "Insufficient pool balance for transfer");
    assert_eq!(contract.get_sbt_count(), 0);
    assert_eq!(contract.get_pool_balance(), 0);
    assert_eq!(contract.get_transfer_amount(), 10);
    assert!(contract.get_sbt(1).is_none());
    assert!(contract.get_sbts_by_owner(&account("alice")).is_empty());
    assert!(contract.get_sbts_by_owner(&account("bob")).is_empty());
}

#[test]
fn exchange_with_one_unit_too_little_is_refused() {
    let mut contract = ledger("owner", 10);
    contract.deposit(9).unwrap();
    let refused =
        contract.exchange_cards(account("alice"), account("bob"), "x".to_string(), 1).unwrap_err();
    assert_eq!(refused, LedgerError::InsufficientFunds);
    contract.deposit(1).unwrap();
    let exchange =
        contract.exchange_cards(account("alice"), account("bob"), "x".to_string(), 1).unwrap();
    assert_eq!(exchange.payout.amount, 10);
    assert_eq!(contract.get_pool_balance(), 0);
}

#[test]
fn stranger_cannot_change_the_reward() {
    let mut contract = ledger("owner", 10);
    let refused = contract.set_transfer_amount(&account("mallory"), 0).unwrap_err();
    assert_eq!(refused, LedgerError::Unauthorized);
    assert_eq!(contract.get_transfer_amount(), 10);
    assert_eq!(contract.get_owner().as_str(), "owner");
}

#[test]
fn a_reward_of_zero_makes_exchanges_free() {
    let mut contract = ledger("owner", 10);
    contract.set_transfer_amount(&account("owner"), 0).unwrap();
    let exchange =
        contract.exchange_cards(account("alice"), account("bob"), "free".to_string(), 5).unwrap();
    assert_eq!((exchange.sbt_a_id, exchange.sbt_b_id), (1, 2));
    assert_eq!(exchange.payout.amount, 0);
    assert_eq!(contract.get_pool_balance(), 0);
}

#[test]
fn both_tokens_of_an_exchange_record_the_same() {
    let mut contract = ledger("owner", 10);
    contract.deposit(100).unwrap();
    contract.exchange_cards(account("alice"), account("bob"), "meetup".to_string(), 99).unwrap();
    contract.exchange_cards(account("carol"), account("alice"), "dinner".to_string(), 100).unwrap();
    assert_eq!(contract.get_sbt_count(), 4);

    let third = contract.get_sbt(3).unwrap();
    let fourth = contract.get_sbt(4).unwrap();
    assert_eq!(third.token_id, 3);
    assert_eq!(fourth.token_id, 4);
    assert_eq!(third.party_a.as_str(), "carol");
    assert_eq!(fourth.party_a.as_str(), "carol");
    assert_eq!(third.party_b.as_str(), "alice");
    assert_eq!(fourth.party_b.as_str(), "alice");
    assert_eq!(third.timestamp_ns, 100);
    assert_eq!(fourth.timestamp_ns, 100);
    assert_eq!(third.event_name, "dinner");
    assert_eq!(fourth.event_name, "dinner");

    let first = contract.get_sbt(1).unwrap();
    assert_eq!(first.timestamp_ns, 99);
    assert_eq!(first.event_name, "meetup");
    assert!(contract.get_sbt(0).is_none());
    assert!(contract.get_sbt(5).is_none());
    assert!(contract.get_sbt(u64::MAX).is_none());
}

#[test]
fn pool_pays_one_reward_per_exchange() {
    let mut contract = ledger("owner", 7);
    contract.deposit(30).unwrap();
    for round in 1..=4u64 {
        let exchange = contract
            .exchange_cards(account("alice"), account("bob"), "again".to_string(), round)
            .unwrap();
        assert_eq!(exchange.sbt_a_id, 2 * round - 1);
        assert_eq!(exchange.sbt_b_id, 2 * round);
        assert_eq!(contract.get_pool_balance(), 30 - 7 * u128::from(round));
        assert_eq!(contract.get_sbt_count(), 2 * round);
    }
    assert_eq!(contract.get_pool_balance(), 2);
    let refused =
        contract.exchange_cards(account("alice"), account("bob"), "again".to_string(), 5).unwrap_err();
    assert_eq!(refused, LedgerError::InsufficientFunds);
    assert_eq!(contract.get_pool_balance(), 2);
    assert_eq!(contract.get_sbt_count(), 8);
}

#[test]
fn tokens_of_an_account_come_in_mint_order() {
    let mut contract = ledger("owner", 1);
    contract.deposit(10).unwrap();
    contract.exchange_cards(account("alice"), account("bob"), "one".to_string(), 1).unwrap();
    contract.exchange_cards(account("bob"), account("alice"), "two".to_string(), 2).unwrap();
    contract.exchange_cards(account("carol"), account("bob"), "three".to_string(), 3).unwrap();
    contract.exchange_cards(account("alice"), account("carol"), "four".to_string(), 4).unwrap();

    let ids = |name: &str| -> Vec<u64> {
        contract.get_sbts_by_owner(&account(name)).iter().map(|t| t.token_id).collect()
    };
    assert_eq!(ids("alice"), vec![1, 4, 7]);
    assert_eq!(ids("bob"), vec![2, 3, 6]);
    assert_eq!(ids("carol"), vec![5, 8]);
    assert_eq!(ids("dave"), Vec::<u64>::new());

    let alice = contract.get_sbts_by_owner(&account("alice"));
    assert_eq!(alice[1].event_name, "two");
    assert_eq!(alice[1].party_a.as_str(), "bob");
    assert_eq!(alice[1].party_b.as_str(), "alice");
    assert_eq!(alice[2].event_name, "four");
}

#[test]
fn queries_asked_twice_answer_the_same() {
    let mut contract = ledger("owner", 3);
    contract.deposit(10).unwrap();
    contract.exchange_cards(account("alice"), account("bob"), "one".to_string(), 1).unwrap();

    assert_eq!(contract.get_pool_balance(), contract.get_pool_balance());
    assert_eq!(contract.get_sbt_count(), contract.get_sbt_count());
    assert_eq!(contract.get_transfer_amount(), contract.get_transfer_amount());
    assert_eq!(contract.get_owner().as_str(), contract.get_owner().as_str());
    let first = contract.get_sbt(2).unwrap();
    let second = contract.get_sbt(2).unwrap();
    assert_eq!(first.token_id, second.token_id);
    assert_eq!(first.party_a.as_str(), second.party_a.as_str());
    assert_eq!(first.party_b.as_str(), second.party_b.as_str());
    assert_eq!(first.timestamp_ns, second.timestamp_ns);
    assert_eq!(first.event_name, second.event_name);
    let held = contract.get_sbts_by_owner(&account("bob"));
    let again = contract.get_sbts_by_owner(&account("bob"));
    assert_eq!(held.len(), 1);
    assert_eq!(again.len(), 1);
    assert_eq!(held[0].token_id, again[0].token_id);
    assert_eq!(contract.get_pool_balance(), 7);
}

#[test]
fn an_event_name_of_any_size_is_kept_as_it_is() {
    let mut contract = ledger("owner", 0);
    let long = "x".repeat(10_000);
    contract.exchange_cards(account("alice"), account("bob"), long.clone(), 0).unwrap();
    contract.exchange_cards(account("alice"), account("bob"), String::new(), 0).unwrap();
    assert_eq!(contract.get_sbt(1).unwrap().event_name, long);
    assert_eq!(contract.get_sbt(4).unwrap().event_name, "");
}

fn token(token_id: u64, party_a: &str, party_b: &str, timestamp_ns: u64, event: &str) -> ConnectionSBT {
    ConnectionSBT {
        token_id,
        party_a: account(party_a),
        party_b: account(party_b),
        timestamp_ns,
        event_name: event.to_string(),
    }
}

#[test]
fn restore_rebuilds_a_ledger_from_its_tokens() {
    let tokens = vec![
        token(1, "alice", "bob", 10, "one"),
        token(2, "alice", "bob", 10, "one"),
        token(3, "bob", "carol", 20, "two"),
        token(4, "bob", "carol", 20, "two"),
    ];
    let mut contract = NearCardContract::restore(account("owner"), 5, 12, tokens).unwrap();
    assert_eq!(contract.get_owner().as_str(), "owner");
    assert_eq!(contract.get_transfer_amount(), 5);
    assert_eq!(contract.get_pool_balance(), 12);
    assert_eq!(contract.get_sbt_count(), 4);
    assert_eq!(contract.get_sbt(3).unwrap().event_name, "two");
    let bob: Vec<u64> =
        contract.get_sbts_by_owner(&account("bob")).iter().map(|t| t.token_id).collect();
    assert_eq!(bob, vec![2, 3]);
    let carol: Vec<u64> =
        contract.get_sbts_by_owner(&account("carol")).iter().map(|t| t.token_id).collect();
    assert_eq!(carol, vec![4]);

    let exchange =
        contract.exchange_cards(account("carol"), account("alice"), "three".to_string(), 30).unwrap();
    assert_eq!((exchange.sbt_a_id, exchange.sbt_b_id), (5, 6));
    assert_eq!(contract.get_pool_balance(), 7);
    let carol: Vec<u64> =
        contract.get_sbts_by_owner(&account("carol")).iter().map(|t| t.token_id).collect();
    assert_eq!(carol, vec![4, 5]);
}

#[test]
fn restore_of_no_tokens_is_a_fresh_ledger_with_a_pool() {
    let contract = NearCardContract::restore(account("owner"), 5, 12, Vec::new()).unwrap();
    assert_eq!(contract.get_sbt_count(), 0);
    assert_eq!(contract.get_pool_balance(), 12);
    assert!(contract.get_sbt(1).is_none());
}

#[test]
fn restore_refuses_tokens_that_no_ledger_holds() {
    let odd = vec![token(1, "alice", "bob", 10, "one")];
    assert!(NearCardContract::restore(account("owner"), 5, 12, odd).is_none());

    let from_zero = vec![token(0, "alice", "bob", 10, "one"), token(1, "alice", "bob", 10, "one")];
    assert!(NearCardContract::restore(account("owner"), 5, 12, from_zero).is_none());

    let gap = vec![token(1, "alice", "bob", 10, "one"), token(3, "alice", "bob", 10, "one")];
    assert!(NearCardContract::restore(account("owner"), 5, 12, gap).is_none());

    let same_party =
        vec![token(1, "alice", "alice", 10, "one"), token(2, "alice", "alice", 10, "one")];
    assert!(NearCardContract::restore(account("owner"), 5, 12, same_party).is_none());

    let other_time = vec![token(1, "alice", "bob", 10, "one"), token(2, "alice", "bob", 11, "one")];
    assert!(NearCardContract::restore(account("owner"), 5, 12, other_time).is_none());

    let other_event = vec![token(1, "alice", "bob", 10, "one"), token(2, "alice", "bob", 10, "two")];
    assert!(NearCardContract::restore(account("owner"), 5, 12, other_event).is_none());

    let other_party = vec![token(1, "alice", "bob", 10, "one"), token(2, "alice", "carol", 10, "one")];
    assert!(NearCardContract::restore(account("owner"), 5, 12, other_party).is_none());

    let swapped = vec![token(1, "alice", "bob", 10, "one"), token(2, "bob", "alice", 10, "one")];
    assert!(NearCardContract::restore(account("owner"), 5, 12, swapped).is_none());
}
