//! Participant identities.

use vstd::prelude::*;
use vstd::utf8::encode_utf8;

verus! {

/// `-`, `_` or `.`: the bytes that may join two runs of letters and digits.
pub open spec fn is_separator(b: u8) -> bool {
    b == 45 || b == 95 || b == 46
}

/// A lower-case ASCII letter or an ASCII digit.
pub open spec fn is_letter_or_digit(b: u8) -> bool {
    (97 <= b && b <= 122) || (48 <= b && b <= 57)
}

/// The account-name syntax: between 2 and 64 bytes, each a lower-case letter,
/// a digit or a separator, with no separator first, last, or next to another.
pub open spec fn valid_account_bytes(s: Seq<u8>) -> bool {
    &&& 2 <= s.len() <= 64
    &&& forall|i: int| 0 <= i < s.len() ==> is_letter_or_digit(#[trigger] s[i]) || is_separator(s[i])
    &&& !is_separator(s[0])
    &&& !is_separator(s[s.len() - 1])
    &&& forall|i: int| 0 <= i < s.len() - 1 ==> !(is_separator(#[trigger] s[i]) && is_separator(s[i + 1]))
}

/// The account-name syntax, on the text of a name.
pub open spec fn valid_account_name(name: Seq<char>) -> bool {
    valid_account_bytes(encode_utf8(name))
}

/// `near_sdk::env::is_valid_account_id` walks the bytes once. It refuses a
/// length outside 2..=64, any byte that is not a lower-case letter, a digit,
/// `-`, `_` or `.`, a separator at the start, and a separator right after
/// another; at the end it refuses a name whose last byte is a separator.
/// Stated here, not proved.
pub assume_specification[ near_sdk::env::is_valid_account_id ](account_id: &[u8]) -> (ok: bool)
    ensures
        ok == valid_account_bytes(account_id@),
;

/// The name of an account. Every value holds a name of valid syntax.
#[derive(Debug)]
pub struct AccountId {
    name: String,
}

impl View for AccountId {
    type V = Seq<char>;

    closed spec fn view(&self) -> Seq<char> {
        self.name@
    }
}

impl AccountId {
    #[verifier::type_invariant]
    spec fn well_formed(self) -> bool {
        valid_account_name(self.name@)
    }

    /// Takes the name if its syntax is valid.
    pub fn new(name: String) -> (r: Option<AccountId>)
        ensures
            r is Some <==> valid_account_name(name@),
            r is Some ==> r->0@ == name@,
    {
        if near_sdk::env::is_valid_account_id(name.as_str().as_bytes()) {
            Some(AccountId { name })
        } else {
            None
        }
    }

    /// The name as text.
    pub fn as_str(&self) -> (s: &str)
        ensures
            s@ == self@,
            valid_account_name(self@),
    {
        proof {
            use_type_invariant(self);
        }
        self.name.as_str()
    }

    /// Whether both values name the same account.
    pub fn same(&self, other: &AccountId) -> (r: bool)
        ensures
            r == (self@ == other@),
    {
        self.name == other.name
    }
}

impl Clone for AccountId {
    fn clone(&self) -> (r: Self)
        ensures
            r@ == self@,
    {
        proof {
            use_type_invariant(self);
        }
        AccountId { name: self.name.clone() }
    }
}

} // verus!
