//! Role selection: which ring variant a member is entitled to, and parsing
//! of configured role identifiers.

use vstd::prelude::*;

verus! {

use vstd::string::StrSliceExecFns;

/// The ring-granting roles, in increasing precedence.
#[derive(Debug, Clone, Copy, PartialEq, Eq, Structural)]
pub enum DaoRole {
    Frens,
    Regulars,
    DAOists,
}

/// A failure the calling user can correct, carrying a human-readable reason.
#[derive(Debug)]
pub struct UserRecoverableError {
    reason: String,
}

impl UserRecoverableError {
    /// The stored reason.
    pub closed spec fn spec_reason(&self) -> Seq<char> {
        self.reason@
    }

    pub fn new(reason: String) -> (e: UserRecoverableError)
        ensures
            e.spec_reason() == reason@,
    {
        UserRecoverableError { reason }
    }

    /// The reason, for the caller to show to the user.
    pub fn message(&self) -> (m: &String)
        ensures
            m@ == self.spec_reason(),
    {
        &self.reason
    }
}

/// Whether `c` is a decimal digit.
pub open spec fn is_digit(c: char) -> bool {
    48 <= c as int <= 57
}

/// The numeric value of a decimal digit.
pub open spec fn digit_val(c: char) -> int {
    c as int - 48
}

/// Whether every character of `s` is a decimal digit.
pub open spec fn all_digits(s: Seq<char>) -> bool {
    forall|i: int| 0 <= i < s.len() ==> is_digit(#[trigger] s[i])
}

/// The numeric value of the first `n` characters of a digit string.
pub open spec fn decimal_value(s: Seq<char>, n: int) -> int
    decreases n,
{
    if n <= 0 {
        0
    } else {
        decimal_value(s, n - 1) * 10 + digit_val(s[n - 1])
    }
}

/// The digit part of a decimal string: one leading `+` removed, if present.
pub open spec fn digits_of(s: Seq<char>) -> Seq<char> {
    if s.len() > 0 && s[0] == '+' {
        s.subrange(1, s.len() as int)
    } else {
        s
    }
}

/// Whether `s` is a decimal representation of a `u64`, as `str::parse::<u64>`
/// accepts it: an optional leading `+`, then one or more digits, with a
/// value of at most `u64::MAX`.
pub open spec fn is_u64_decimal(s: Seq<char>) -> bool {
    &&& digits_of(s).len() > 0
    &&& all_digits(digits_of(s))
    &&& decimal_value(digits_of(s), digits_of(s).len() as int) <= u64::MAX
}

proof fn lemma_decimal_value_nonneg(s: Seq<char>, n: int)
    requires
        0 <= n <= s.len(),
        all_digits(s),
    ensures
        decimal_value(s, n) >= 0,
    decreases n,
{
    if n > 0 {
        lemma_decimal_value_nonneg(s, n - 1);
        assert(decimal_value(s, n - 1) * 10 >= 0) by (nonlinear_arith)
            requires
                decimal_value(s, n - 1) >= 0,
        ;
    }
}

proof fn lemma_decimal_value_monotone(s: Seq<char>, m: int, n: int)
    requires
        0 <= m <= n <= s.len(),
        all_digits(s),
    ensures
        decimal_value(s, m) <= decimal_value(s, n),
    decreases n,
{
    if m < n {
        lemma_decimal_value_monotone(s, m, n - 1);
        lemma_decimal_value_nonneg(s, n - 1);
        assert(decimal_value(s, n - 1) * 10 >= decimal_value(s, n - 1)) by (nonlinear_arith)
            requires
                decimal_value(s, n - 1) >= 0,
        ;
    }
}

/// Parses a role identifier from its decimal string form, accepting exactly
/// the strings `str::parse::<u64>` accepts and returning the same value.
pub fn parse_role_id(value: String) -> (r: Option<u64>)
    ensures
        match r {
            Some(n) => {
                &&& is_u64_decimal(value@)
                &&& n == decimal_value(digits_of(value@), digits_of(value@).len() as int)
            },
            None => !is_u64_decimal(value@),
        },
{
    let s = value.as_str();
    let len = s.unicode_len();
    let start: usize = if len > 0 && s.get_char(0) == '+' {
        1
    } else {
        0
    };
    if len == start {
        return None;
    }
    let ghost d = digits_of(value@);
    proof {
        assert(d.len() == len - start);
    }
    let mut val: u64 = 0;
    let mut i: usize = start;
    while i < len
        invariant
            s@ == value@,
            start <= i <= len,
            len == value@.len(),
            start == 1 ==> len > 0 && value@[0] == '+',
            start == 0 ==> !(value@.len() > 0 && value@[0] == '+'),
            d == digits_of(value@),
            d.len() == len - start,
            forall|k: int| 0 <= k < i - start ==> is_digit(#[trigger] d[k]),
            val == decimal_value(d, i - start),
        decreases len - i,
    {
        let c = s.get_char(i);
        let u = c as u32;
        if u < 48 || u > 57 {
            proof {
                assert(d[i - start] == value@[i as int]);
                assert(!is_digit(d[i - start]));
            }
            return None;
        }
        let dig = (u - 48) as u64;
        let wide: u128 = (val as u128) * 10 + (dig as u128);
        if wide > u64::MAX as u128 {
            proof {
                assert(d[i - start] == value@[i as int]);
                if is_u64_decimal(value@) {
                    lemma_decimal_value_monotone(d, i - start + 1, d.len() as int);
                    assert(false);
                }
            }
            return None;
        }
        proof {
            assert(d[i - start] == value@[i as int]);
        }
        val = wide as u64;
        i = i + 1;
    }
    Some(val)
}

fn contains_id(roles: &Vec<u64>, id: u64) -> (b: bool)
    ensures
        b == roles@.contains(id),
{
    let mut i: usize = 0;
    while i < roles.len()
        invariant
            i <= roles@.len(),
            forall|k: int| 0 <= k < i ==> roles@[k] != id,
        decreases roles@.len() - i,
    {
        if roles[i] == id {
            proof {
                assert(roles@[i as int] == id);
            }
            return true;
        }
        i = i + 1;
    }
    false
}

/// Picks the highest-precedence ring role held by the member, DAOists over
/// Regulars over Frens; fails exactly when the member holds none of the
/// three.
pub fn find_dao_role(member_roles: &Vec<u64>, fren_id: u64, regular_id: u64, daoist_id: u64) -> (r:
    Result<DaoRole, UserRecoverableError>)
    ensures
        match r {
            Ok(role) => {
                &&& role == (if member_roles@.contains(daoist_id) {
                    DaoRole::DAOists
                } else if member_roles@.contains(regular_id) {
                    DaoRole::Regulars
                } else {
                    DaoRole::Frens
                })
                &&& (member_roles@.contains(daoist_id) || member_roles@.contains(regular_id)
                    || member_roles@.contains(fren_id))
            },
            Err(e) => {
                &&& !member_roles@.contains(daoist_id)
                &&& !member_roles@.contains(regular_id)
                &&& !member_roles@.contains(fren_id)
                &&& e.spec_reason() == "User is not a DAOist, regular or fren"@
            },
        },
{
    if contains_id(member_roles, daoist_id) {
        Ok(DaoRole::DAOists)
    } else if contains_id(member_roles, regular_id) {
        Ok(DaoRole::Regulars)
    } else if contains_id(member_roles, fren_id) {
        Ok(DaoRole::Frens)
    } else {
        Err(UserRecoverableError::new("User is not a DAOist, regular or fren".to_owned()))
    }
}

} // verus!
