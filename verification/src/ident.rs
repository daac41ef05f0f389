//! Agent identity extraction.
//!
//! An entry name must start with the text `Drone `, a single space included,
//! followed by at least one decimal digit. The maximal digit run names the
//! agent's one-indexed number; the library renumbers it to a zero-indexed id
//! to match the consumer's convention. A name that does not match, or a
//! number outside `1 ..= ID_MAX`, is a fatal error.

use vstd::prelude::*;

use crate::num::is_digit;
use crate::num::digit_val;
use crate::num::digits_val;
use crate::num::all_digits;
use crate::ConvertError;

verus! {

/// Largest accepted one-indexed agent number.
pub const ID_MAX: u64 = 1_000_000_000;

/// The bytes of the required name prefix `Drone `.
pub open spec fn drone_prefix() -> Seq<u8> {
    seq![68u8, 114u8, 111u8, 110u8, 101u8, 32u8]
}

/// End of the digit run that starts at `i`: the first position at or after
/// `i` that is not a digit.
pub open spec fn digit_run_end(s: Seq<u8>, i: int) -> int
    decreases s.len() - i,
{
    if i < s.len() && is_digit(s[i]) {
        digit_run_end(s, i + 1)
    } else {
        i
    }
}

/// Whether a name starts with `Drone ` followed by a digit.
pub open spec fn name_matches(s: Seq<u8>) -> bool {
    s.len() > 6 && s.take(6) == drone_prefix() && is_digit(s[6])
}

/// The one-indexed number a matching name carries: the value of the maximal
/// digit run after the prefix.
pub open spec fn agent_number(s: Seq<u8>) -> int {
    digits_val(s.subrange(6, digit_run_end(s, 6)))
}

/// The zero-indexed id an entry name denotes, or why it denotes none.
pub open spec fn spec_agent_id(s: Seq<u8>) -> Result<int, ConvertError> {
    if !name_matches(s) {
        Err(ConvertError::EntryName)
    } else if 1 <= agent_number(s) <= ID_MAX {
        Ok(agent_number(s) - 1)
    } else {
        Err(ConvertError::IdOutOfRange)
    }
}

/// Pinning the run's end: digits up to `k`, then a non-digit or the end.
pub proof fn lemma_digit_run_end_at(s: Seq<u8>, i: int, k: int)
    requires
        0 <= i <= k <= s.len(),
        forall|j: int| i <= j < k ==> is_digit(s[j]),
        k < s.len() ==> !is_digit(s[k]),
    ensures
        digit_run_end(s, i) == k,
    decreases k - i,
{
    if i < k {
        lemma_digit_run_end_at(s, i + 1, k);
    }
}

/// Extract the zero-indexed agent id from an entry name.
pub fn extract_agent_id(name: &Vec<u8>) -> (r: Result<u64, ConvertError>)
    ensures
        match r {
            Ok(i) => spec_agent_id(name@) == Ok::<int, ConvertError>(i as int),
            Err(e) => spec_agent_id(name@) == Err::<int, ConvertError>(e),
        },
{
    let n: usize = name.len();
    if n < 7 {
        return Err(ConvertError::EntryName);
    }
    if !(name[0] == 68 && name[1] == 114 && name[2] == 111 && name[3] == 110 && name[4] == 101
        && name[5] == 32) {
        proof {
            assert(name@.take(6) != drone_prefix());
        }
        return Err(ConvertError::EntryName);
    }
    proof {
        assert(name@.take(6) =~= drone_prefix());
    }
    if !(48 <= name[6] && name[6] <= 57) {
        return Err(ConvertError::EntryName);
    }
    let mut i: usize = 6;
    let mut acc: u64 = 0;
    let mut over: bool = false;
    while i < n && 48 <= name[i] && name[i] <= 57
        invariant
            6 <= i <= n,
            n == name@.len(),
            forall|j: int| 6 <= j < i ==> is_digit(name@[j]),
            !over ==> acc <= ID_MAX && acc == digits_val(name@.subrange(6, i as int)),
            over ==> digits_val(name@.subrange(6, i as int)) > ID_MAX,
        decreases n - i,
    {
        let d: u8 = name[i] - 48;
        proof {
            assert(name@.subrange(6, i + 1).drop_last() =~= name@.subrange(6, i as int));
            assert(name@.subrange(6, i + 1).last() == name@[i as int]);
            if over {
                let t = name@.subrange(6, i + 1);
                assert(all_digits(t.drop_last()));
                crate::num::lemma_digits_val_bounds(t.drop_last());
                assert(digits_val(t) == digits_val(t.drop_last()) * 10 + digit_val(t.last()));
            }
        }
        if !over {
            if acc > (ID_MAX - d as u64) / 10 {
                over = true;
            } else {
                acc = acc * 10 + d as u64;
            }
        }
        i = i + 1;
    }
    proof {
        lemma_digit_run_end_at(name@, 6, i as int);
        assert(agent_number(name@) == digits_val(name@.subrange(6, i as int)));
    }
    if over || acc > ID_MAX {
        return Err(ConvertError::IdOutOfRange);
    }
    if acc == 0 {
        return Err(ConvertError::IdOutOfRange);
    }
    Ok(acc - 1)
}

} // verus!
