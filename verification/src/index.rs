//! The per-account index: for each account the ids of its tokens, in mint order.

use vstd::prelude::*;
use crate::account::AccountId;

verus! {

/// One account with the ids of the tokens filed under it.
pub struct OwnerTokens {
    pub account: AccountId,
    pub token_ids: Vec<u64>,
}

/// No account has two entries.
pub open spec fn distinct_accounts(entries: Seq<OwnerTokens>) -> bool {
    forall|i: int, j: int|
        0 <= i < j < entries.len() ==> (#[trigger] entries[i]).account@ != (
        #[trigger] entries[j]).account@
}

/// Whether some entry is for `account`.
pub open spec fn has_entry(entries: Seq<OwnerTokens>, account: Seq<char>) -> bool {
    exists|i: int| 0 <= i < entries.len() && (#[trigger] entries[i]).account@ == account
}

/// The ids filed under `account`: those of its entry, or none where it has no entry.
pub open spec fn listed(entries: Seq<OwnerTokens>, account: Seq<char>) -> Seq<u64> {
    if has_entry(entries, account) {
        let i = choose|i: int| 0 <= i < entries.len() && (#[trigger] entries[i]).account@ == account;
        entries[i].token_ids@
    } else {
        Seq::empty()
    }
}

/// With one entry per account, the ids filed under an entry's account are that entry's.
pub proof fn lemma_listed_at(entries: Seq<OwnerTokens>, i: int)
    requires
        distinct_accounts(entries),
        0 <= i < entries.len(),
    ensures
        has_entry(entries, entries[i].account@),
        listed(entries, entries[i].account@) == entries[i].token_ids@,
{
    let account = entries[i].account@;
    assert(has_entry(entries, account));
    let c = choose|c: int| 0 <= c < entries.len() && (#[trigger] entries[c]).account@ == account;
    assert(c == i) by {
        if c < i {
            assert(entries[c].account@ != entries[i].account@);
        }
        if i < c {
            assert(entries[i].account@ != entries[c].account@);
        }
    }
}

/// The position of the first entry for `account`, if it has one.
pub fn position(entries: &Vec<OwnerTokens>, account: &AccountId) -> (r: Option<usize>)
    ensures
        r.is_some() == has_entry(entries@, account@),
        r.is_some() ==> {
            &&& r.unwrap() < entries.len()
            &&& entries[r.unwrap() as int].account@ == account@
            &&& forall|j: int| 0 <= j < r.unwrap() ==> (#[trigger] entries[j]).account@ != account@
        },
{
    let mut i: usize = 0;
    while i < entries.len()
        invariant
            i <= entries.len(),
            forall|j: int| 0 <= j < i ==> (#[trigger] entries[j]).account@ != account@,
        decreases entries.len() - i,
    {
        if entries[i].account.same_as(account) {
            return Some(i);
        }
        i += 1;
    }
    None
}

/// Files `id` under `account`, after the ids already there; other accounts keep theirs.
pub fn record(entries: &mut Vec<OwnerTokens>, account: &AccountId, id: u64)
    requires
        distinct_accounts(old(entries)@),
    ensures
        distinct_accounts(final(entries)@),
        listed(final(entries)@, account@) == listed(old(entries)@, account@).push(id),
        forall|other: Seq<char>|
            other != account@ ==> listed(final(entries)@, other) == listed(old(entries)@, other),
{
    let ghost before = entries@;
    let found = position(entries, account);
    match found {
        Some(i) => {
            let mut token_ids = entries[i].token_ids.clone();
            token_ids.push(id);
            entries.set(i, OwnerTokens { account: account.clone(), token_ids });
            proof {
                let after = entries@;
                assert forall|a: int, b: int| 0 <= a < b < after.len() implies (
                #[trigger] after[a]).account@ != (#[trigger] after[b]).account@ by {
                    assert(before[a].account@ != before[b].account@);
                }
                lemma_listed_at(before, i as int);
                lemma_listed_at(after, i as int);
                assert(after[i as int].token_ids@ =~= before[i as int].token_ids@.push(id));
                assert forall|other: Seq<char>| other != account@ implies listed(after, other)
                    == listed(before, other) by {
                    if has_entry(before, other) {
                        let k = choose|k: int|
                            0 <= k < before.len() && (#[trigger] before[k]).account@ == other;
                        assert(after[k] == before[k]);
                        lemma_listed_at(before, k);
                        lemma_listed_at(after, k);
                    } else if has_entry(after, other) {
                        let k = choose|k: int|
                            0 <= k < after.len() && (#[trigger] after[k]).account@ == other;
                        assert(after[k] == before[k]);
                    }
                }
            }
        },
        None => {
            let mut token_ids: Vec<u64> = Vec::new();
            token_ids.push(id);
            entries.push(OwnerTokens { account: account.clone(), token_ids });
            proof {
                let after = entries@;
                let last = before.len() as int;
                assert forall|a: int, b: int| 0 <= a < b < after.len() implies (
                #[trigger] after[a]).account@ != (#[trigger] after[b]).account@ by {
                    if b < last {
                        assert(before[a].account@ != before[b].account@);
                    } else {
                        assert(after[a] == before[a]);
                    }
                }
                lemma_listed_at(after, last);
                assert(after[last].token_ids@ =~= Seq::<u64>::empty().push(id));
                assert forall|other: Seq<char>| other != account@ implies listed(after, other)
                    == listed(before, other) by {
                    if has_entry(before, other) {
                        let k = choose|k: int|
                            0 <= k < before.len() && (#[trigger] before[k]).account@ == other;
                        assert(after[k] == before[k]);
                        lemma_listed_at(before, k);
                        lemma_listed_at(after, k);
                    } else if has_entry(after, other) {
                        let k = choose|k: int|
                            0 <= k < after.len() && (#[trigger] after[k]).account@ == other;
                        assert(after[k] == before[k]);
                    }
                }
            }
        },
    }
}

} // verus!
