//! Rows of the table that says where the pushes to a repository go.

use vstd::prelude::*;
use vstd::string::StringExecFns;
use crate::hash::RepositoryId;

verus! {

/// The character of a decimal digit.
pub open spec fn digit_char(d: nat) -> char {
    if d == 0 {
        '0'
    } else if d == 1 {
        '1'
    } else if d == 2 {
        '2'
    } else if d == 3 {
        '3'
    } else if d == 4 {
        '4'
    } else if d == 5 {
        '5'
    } else if d == 6 {
        '6'
    } else if d == 7 {
        '7'
    } else if d == 8 {
        '8'
    } else {
        '9'
    }
}

/// The decimal digits of `n`, without leading zeros.
pub open spec fn decimal_digits(n: nat) -> Seq<char>
    decreases n,
{
    if n < 10 {
        seq![digit_char(n)]
    } else {
        decimal_digits(n / 10).push(digit_char(n % 10))
    }
}

/// The text of a decimal digit.
fn digit_text(d: u64) -> (text: &'static str)
    requires
        d < 10,
    ensures
        text@ == seq![digit_char(d as nat)],
{
    proof {
        reveal_strlit("0");
        reveal_strlit("1");
        reveal_strlit("2");
        reveal_strlit("3");
        reveal_strlit("4");
        reveal_strlit("5");
        reveal_strlit("6");
        reveal_strlit("7");
        reveal_strlit("8");
        reveal_strlit("9");
    }
    let text = if d == 0 {
        "0"
    } else if d == 1 {
        "1"
    } else if d == 2 {
        "2"
    } else if d == 3 {
        "3"
    } else if d == 4 {
        "4"
    } else if d == 5 {
        "5"
    } else if d == 6 {
        "6"
    } else if d == 7 {
        "7"
    } else if d == 8 {
        "8"
    } else {
        "9"
    };
    assert(text@ =~= seq![digit_char(d as nat)]);
    text
}

/// Identifier of one row of a table.
#[derive(Clone, Copy, Debug, PartialEq, Eq, Structural)]
pub struct RowId(pub u64);

impl RowId {
    /// The identifier that a column value holds.
    pub fn new(v: u64) -> (id: Self)
        ensures
            id.0 == v,
    {
        RowId(v)
    }

    /// The identifier once the conversion from a column value is accepted: itself.
    pub fn commit(self) -> (id: Self)
        ensures
            id == self,
    {
        self
    }

    /// The column value that the identifier was made from.
    pub fn rollback(self) -> (v: u64)
        ensures
            v == self.0,
    {
        self.0
    }

    /// The identifier in decimal digits.
    pub fn to_string(&self) -> (s: String)
        ensures
            s@ == decimal_digits(self.0 as nat),
    {
        let mut rest: u64 = self.0 / 10;
        let mut text = String::from_str(digit_text(self.0 % 10));
        while rest > 0
            invariant
                decimal_digits(self.0 as nat) == if rest == 0 {
                    text@
                } else {
                    decimal_digits(rest as nat) + text@
                },
            decreases rest,
        {
            let ghost before = text@;
            text = String::from_str(digit_text(rest % 10)).concat(text.as_str());
            proof {
                if rest >= 10 {
                    assert(decimal_digits(rest as nat) + before =~= decimal_digits(
                        (rest / 10) as nat,
                    ) + text@);
                } else {
                    assert(decimal_digits(rest as nat) + before =~= text@);
                }
            }
            rest = rest / 10;
        }
        text
    }
}

impl From<RowId> for u64 {
    fn from(id: RowId) -> (v: u64) {
        id.0
    }
}

impl vstd::std_specs::convert::FromSpecImpl<RowId> for u64 {
    open spec fn obeys_from_spec() -> bool {
        true
    }

    open spec fn from_spec(id: RowId) -> u64 {
        id.0
    }
}

/// One row of the table: whether the draft pushes and the public pushes to a repository
/// are redirected.
#[derive(Clone, Copy, Debug, PartialEq, Eq, Structural)]
pub struct PushRedirectionConfigEntry {
    pub id: RowId,
    pub repo_id: RepositoryId,
    pub draft_push: bool,
    pub public_push: bool,
}

} // verus!
