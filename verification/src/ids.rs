//! How a new record gets its identifier.

use crate::error::ContractError;
use vstd::prelude::*;
use vstd::string::StringExecFns;

verus! {

/// The decimal digit for `d`, which is below ten.
pub open spec fn digit(d: int) -> char {
    if d == 0 {
        '0'
    } else if d == 1 {
        '1'
    } else if d == 2 {
        '2'
    } else if d == 3 {
        '3'
    } else if d == 4 {
        '4'
    } else if d == 5 {
        '5'
    } else if d == 6 {
        '6'
    } else if d == 7 {
        '7'
    } else if d == 8 {
        '8'
    } else {
        '9'
    }
}

/// `n` written in decimal, without leading zeros.
pub open spec fn decimal(n: nat) -> Seq<char>
    decreases n,
{
    if n < 10 {
        seq![digit(n as int)]
    } else {
        decimal(n / 10).push(digit((n % 10) as int))
    }
}

/// A number below ten has one digit, any other has at least two.
pub proof fn lemma_decimal_len(n: nat)
    ensures
        decimal(n).len() >= 1,
        n >= 10 ==> decimal(n).len() >= 2,
        decimal(n).last() == digit((n % 10) as int),
    decreases n,
{
    if n >= 10 {
        lemma_decimal_len(n / 10);
    }
}

/// Two numbers with the same decimal form are the same number.
pub proof fn lemma_decimal_injective(a: nat, b: nat)
    requires
        decimal(a) == decimal(b),
    ensures
        a == b,
    decreases a,
{
    lemma_decimal_len(a);
    lemma_decimal_len(b);
    if a >= 10 && b >= 10 {
        let x = decimal(a / 10);
        let y = decimal(b / 10);
        assert(decimal(a).drop_last() =~= x);
        assert(decimal(b).drop_last() =~= y);
        lemma_decimal_injective(a / 10, b / 10);
    }
}

fn digit_text(d: u64) -> (r: &'static str)
    requires
        d < 10,
    ensures
        r@ == seq![digit(d as int)],
{
    proof {
        reveal_strlit("0");
        reveal_strlit("1");
        reveal_strlit("2");
        reveal_strlit("3");
        reveal_strlit("4");
        reveal_strlit("5");
        reveal_strlit("6");
        reveal_strlit("7");
        reveal_strlit("8");
        reveal_strlit("9");
    }
    let r = if d == 0 {
        "0"
    } else if d == 1 {
        "1"
    } else if d == 2 {
        "2"
    } else if d == 3 {
        "3"
    } else if d == 4 {
        "4"
    } else if d == 5 {
        "5"
    } else if d == 6 {
        "6"
    } else if d == 7 {
        "7"
    } else if d == 8 {
        "8"
    } else {
        "9"
    };
    assert(r@ =~= seq![digit(d as int)]);
    r
}

/// Writes `n` in decimal.
pub fn decimal_string(n: u64) -> (r: String)
    ensures
        r@ == decimal(n as nat),
    decreases n,
{
    if n < 10 {
        String::from_str(digit_text(n))
    } else {
        let r = decimal_string(n / 10).concat(digit_text(n % 10));
        assert(r@ =~= decimal(n as nat));
        r
    }
}

/// Where the identifiers of a registry come from.
#[derive(Debug, Clone, Copy, PartialEq, Eq, Structural)]
pub enum IdPolicy {
    /// Each payload brings its own identifier.
    Explicit,
    /// The registry numbers its records, from zero upwards.
    Sequential,
}

/// The identifier that a registry with the given policy and counter assigns
/// to a payload that carries `supplied`, or the reason why it assigns none.
pub open spec fn allocation(policy: IdPolicy, next: nat, supplied: Option<Seq<char>>) -> Result<
    Seq<char>,
    ContractError,
> {
    match policy {
        IdPolicy::Explicit => match supplied {
            Some(id) => if id.len() > 0 {
                Ok(id)
            } else {
                Err(ContractError::InvalidPayload)
            },
            None => Err(ContractError::InvalidPayload),
        },
        IdPolicy::Sequential => Ok(decimal(next)),
    }
}

/// Hands out identifiers under one policy.
#[derive(Debug)]
pub struct IdAllocator {
    policy: IdPolicy,
    next: u64,
}

impl IdAllocator {
    /// The policy that the allocator was made with.
    pub closed spec fn policy(&self) -> IdPolicy {
        self.policy
    }

    /// How many identifiers the allocator has generated.
    pub closed spec fn issued(&self) -> nat {
        self.next as nat
    }

    /// The counter can still be advanced.
    pub open spec fn has_room(&self) -> bool {
        self.policy() == IdPolicy::Sequential ==> self.issued() < u64::MAX
    }

    /// An allocator that has generated nothing yet.
    pub fn new(policy: IdPolicy) -> (r: Self)
        ensures
            r.policy() == policy,
            r.issued() == 0,
    {
        IdAllocator { policy, next: 0 }
    }

    /// The allocator's policy.
    pub fn get_policy(&self) -> (r: IdPolicy)
        ensures
            r == self.policy(),
    {
        self.policy
    }

    /// Whether the next sequential identifier still fits the counter.
    pub fn can_allocate(&self) -> (r: bool)
        ensures
            r == self.has_room(),
    {
        match self.policy {
            IdPolicy::Explicit => true,
            IdPolicy::Sequential => self.next < u64::MAX,
        }
    }

    /// Gives the identifier for one new record.
    ///
    /// Under `Explicit` that is the supplied identifier, which must be there
    /// and not empty. Under `Sequential` it is the counter in decimal,
    /// whatever was supplied, and the counter moves on by one.
    pub fn allocate(&mut self, supplied: Option<String>) -> (r: Result<String, ContractError>)
        requires
            old(self).has_room(),
        ensures
            final(self).policy() == old(self).policy(),
            final(self).issued() == if old(self).policy() == IdPolicy::Sequential {
                old(self).issued() + 1
            } else {
                old(self).issued()
            },
            match r {
                Ok(id) => allocation(
                    old(self).policy(),
                    old(self).issued(),
                    match supplied {
                        Some(s) => Some(s@),
                        None => None,
                    },
                ) == Ok::<Seq<char>, ContractError>(id@),
                Err(e) => allocation(
                    old(self).policy(),
                    old(self).issued(),
                    match supplied {
                        Some(s) => Some(s@),
                        None => None,
                    },
                ) == Err::<Seq<char>, ContractError>(e),
            },
    {
        match self.policy {
            IdPolicy::Explicit => match supplied {
                Some(id) => {
                    if id.as_str().is_empty() {
                        Err(ContractError::InvalidPayload)
                    } else {
                        Ok(id)
                    }
                },
                None => Err(ContractError::InvalidPayload),
            },
            IdPolicy::Sequential => {
                let id = decimal_string(self.next);
                self.next = self.next + 1;
                Ok(id)
            },
        }
    }
}

} // verus!
