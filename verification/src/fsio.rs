use vstd::prelude::*;

use crate::models::{account_diag, account_matches, account_parse, parsing_msg, Account, AccountError};

verus! {

/// Parses a plain account list, one otpauth URI per line. The first
/// malformed line aborts the whole load: no partial results.
pub fn parse_plain_file(lines: &Vec<String>) -> (r: Result<Vec<Account>, AccountError>)
    ensures
        match r {
            Ok(v) => {
                &&& v@.len() == lines@.len()
                &&& forall|i: int| 0 <= i < v@.len() ==> account_matches(
                    #[trigger] v@[i],
                    lines@[i]@,
                )
            },
            Err(e) => exists|i: int|
                {
                    &&& 0 <= i < lines@.len()
                    &&& account_parse(#[trigger] lines@[i]@) is None
                    &&& parsing_msg(e) == account_diag(lines@[i]@)
                    &&& forall|j: int| 0 <= j < i ==> account_parse(#[trigger] lines@[j]@) is Some
                },
        },
{
    let mut account_vec: Vec<Account> = Vec::new();
    let mut k: usize = 0;
    while k < lines.len()
        invariant
            k <= lines@.len(),
            account_vec@.len() == k,
            forall|i: int| 0 <= i < k ==> account_matches(#[trigger] account_vec@[i], lines@[i]@),
        decreases lines@.len() - k,
    {
        match Account::parse(lines[k].as_str()) {
            Ok(a) => account_vec.push(a),
            Err(e) => {
                proof {
                    let w = k as int;
                    assert(account_parse(lines@[w]@) is None);
                    assert forall|j: int| 0 <= j < w implies account_parse(
                        #[trigger] lines@[j]@,
                    ) is Some by {
                        assert(account_matches(account_vec@[j], lines@[j]@));
                    }
                }
                return Err(e);
            },
        }
        k += 1;
    }
    Ok(account_vec)
}

/// Parses an encrypted account list as lines: the second line holds the
/// IV, the data lines follow from the third on. Needs at least the two
/// header lines, which the surrounding loader checks before calling.
pub fn parse_data_file(lines: &Vec<String>) -> (r: Result<(String, Vec<Account>), AccountError>)
    requires
        lines@.len() >= 2,
    ensures
        match r {
            Ok(t) => {
                &&& t.0@ == lines@[1]@
                &&& t.1@.len() == lines@.len() - 2
                &&& forall|i: int| 0 <= i < t.1@.len() ==> account_matches(
                    #[trigger] t.1@[i],
                    lines@[i + 2]@,
                )
            },
            Err(e) => exists|i: int|
                {
                    &&& 2 <= i < lines@.len()
                    &&& account_parse(#[trigger] lines@[i]@) is None
                    &&& parsing_msg(e) == account_diag(lines@[i]@)
                    &&& forall|j: int| 2 <= j < i ==> account_parse(#[trigger] lines@[j]@) is Some
                },
        },
{
    let iv = lines[1].clone();
    let mut account_vec: Vec<Account> = Vec::new();
    let mut k: usize = 2;
    while k < lines.len()
        invariant
            2 <= k <= lines@.len(),
            account_vec@.len() == k - 2,
            forall|i: int| 0 <= i < k - 2 ==> account_matches(
                #[trigger] account_vec@[i],
                lines@[i + 2]@,
            ),
        decreases lines@.len() - k,
    {
        match Account::parse(lines[k].as_str()) {
            Ok(a) => account_vec.push(a),
            Err(e) => {
                proof {
                    let w = k as int;
                    assert(account_parse(lines@[w]@) is None);
                    assert forall|j: int| 2 <= j < w implies account_parse(
                        #[trigger] lines@[j]@,
                    ) is Some by {
                        assert(account_matches(account_vec@[j - 2], lines@[j]@));
                    }
                }
                return Err(e);
            },
        }
        k += 1;
    }
    Ok((iv, account_vec))
}

} // verus!
