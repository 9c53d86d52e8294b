//! Whether the selected notes cover a payment.

use crate::amount::{as_unsigned, to_unsigned};
use crate::error::Error;
use vstd::prelude::*;

verus! {

/// The sum of the values.
pub open spec fn total(values: Seq<u64>) -> int
    decreases values.len(),
{
    if values.len() == 0 {
        0
    } else {
        total(values.drop_last()) + values.last()
    }
}

/// A part from the front never sums to more than the whole.
pub proof fn lemma_total_of_prefix(values: Seq<u64>, k: int)
    requires
        0 <= k <= values.len(),
    ensures
        0 <= total(values.take(k)) <= total(values),
    decreases values.len(),
{
    if k == values.len() {
        assert(values.take(k) =~= values);
        if k > 0 {
            lemma_total_of_prefix(values.drop_last(), k - 1);
        }
    } else {
        assert(values.drop_last().take(k) =~= values.take(k));
        lemma_total_of_prefix(values.drop_last(), k);
    }
}

/// Confirms that notes of these values reach the target value. `None` where their sum
/// does not fit 64 bits.
pub fn confirm_balance(values: &Vec<u64>, target: i64) -> (r: Option<Result<(), Error>>)
    ensures
        if total(values@) > u64::MAX {
            r is None
        } else if total(values@) < as_unsigned(target) {
            r matches Some(Err(Error::InsufficientBalance(have, need))) && have == total(values@)
                && need == as_unsigned(target)
        } else {
            r matches Some(Ok(()))
        },
{
    let mut selected_value: u64 = 0;
    let mut i: usize = 0;
    assert(values@.take(0) =~= Seq::<u64>::empty());
    while i < values.len()
        invariant
            i <= values@.len(),
            selected_value == total(values@.take(i as int)),
        decreases values@.len() - i,
    {
        assert(values@.take(i + 1).drop_last() =~= values@.take(i as int));
        assert(total(values@.take(i + 1)) == selected_value + values@[i as int]);
        match selected_value.checked_add(values[i]) {
            Some(sum) => {
                selected_value = sum;
            },
            None => {
                proof {
                    lemma_total_of_prefix(values@, i + 1);
                }
                return None;
            },
        }
        i = i + 1;
    }
    assert(values@.take(i as int) =~= values@);
    let needed: u64 = to_unsigned(target);
    if selected_value < needed {
        return Some(Err(Error::InsufficientBalance(selected_value, needed)));
    }
    Some(Ok(()))
}

/// The sum is that of the first value and of the rest.
pub proof fn lemma_total_of_rest(values: Seq<u64>)
    requires
        values.len() > 0,
    ensures
        total(values) == values[0] + total(values.drop_first()),
    decreases values.len(),
{
    if values.len() == 1 {
        assert(values.drop_last() =~= Seq::<u64>::empty());
        assert(values.drop_first() =~= Seq::<u64>::empty());
    } else {
        lemma_total_of_rest(values.drop_last());
        assert(values.drop_last().drop_first() =~= values.drop_first().drop_last());
    }
}

} // verus!
