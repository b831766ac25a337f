//! Account identifiers: opaque names that the ledger compares for equality.

use vstd::prelude::*;

verus! {

/// Shortest account name, in characters.
pub const MIN_NAME_LEN: usize = 2;

/// Longest account name, in characters.
pub const MAX_NAME_LEN: usize = 64;

/// A lower-case letter or a digit.
pub open spec fn is_name_char(c: char) -> bool {
    ('a' <= c && c <= 'z') || ('0' <= c && c <= '9')
}

/// One of the three characters that may stand between runs of letters and digits.
pub open spec fn is_separator(c: char) -> bool {
    c == '-' || c == '_' || c == '.'
}

/// A well-formed account name: between two and sixty-four characters, each a
/// lower-case letter, a digit or a separator, with no separator first, last or
/// directly after another separator.
pub open spec fn well_formed_name(s: Seq<char>) -> bool {
    &&& MIN_NAME_LEN <= s.len() <= MAX_NAME_LEN
    &&& forall|i: int| 0 <= i < s.len() ==> is_name_char(#[trigger] s[i]) || is_separator(s[i])
    &&& !is_separator(s[0])
    &&& !is_separator(s[s.len() - 1])
    &&& forall|i: int| 0 <= i < s.len() - 1 ==> !(is_separator(#[trigger] s[i]) && is_separator(s[i + 1]))
}

/// Calls `near_sdk::AccountId::validate` (the `AccountId` of the crate
/// `near-account-id`, which `near_sdk` hands on under its own name). It accepts
/// a name exactly when its length is within the two bounds, every character is
/// a lower-case letter, a digit or one of `-`, `_`, `.`, and no separator stands
/// first, last or next to another one. Trusted: the contract restates that
/// rule; Verus does not read the outside code.
#[verifier::external_body]
fn name_is_valid(name: &str) -> (ok: bool)
    ensures
        ok == well_formed_name(name@),
{
    near_sdk::AccountId::validate(name).is_ok()
}

/// A validated account name.
#[derive(Debug)]
pub struct AccountId {
    name: String,
}

impl View for AccountId {
    type V = Seq<char>;

    closed spec fn view(&self) -> Seq<char> {
        self.name@
    }
}

impl AccountId {
    #[verifier::type_invariant]
    closed spec fn name_ok(&self) -> bool {
        well_formed_name(self.name@)
    }

    /// Accepts `name` exactly when it is a well-formed account name.
    pub fn parse(name: &str) -> (r: Option<AccountId>)
        ensures
            r.is_some() == well_formed_name(name@),
            r.is_some() ==> r.unwrap()@ == name@,
    {
        if name_is_valid(name) {
            Some(AccountId { name: name.to_owned() })
        } else {
            None
        }
    }

    /// The account's name.
    pub fn as_str(&self) -> (s: &str)
        ensures
            s@ == self@,
            well_formed_name(s@),
    {
        proof {
            use_type_invariant(self);
        }
        self.name.as_str()
    }

    /// Whether two identifiers name the same account.
    pub fn same_as(&self, other: &AccountId) -> (r: bool)
        ensures
            r == (self@ == other@),
    {
        self.name == other.name
    }
}

impl Clone for AccountId {
    fn clone(&self) -> (r: AccountId)
        ensures
            r@ == self@,
    {
        proof {
            use_type_invariant(self);
        }
        AccountId { name: self.name.clone() }
    }
}

} // verus!
