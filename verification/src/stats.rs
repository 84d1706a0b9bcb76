//! A mode calculator: the most frequent value of a sequence of numbers, when
//! one value occurs more often than once.

use vstd::prelude::*;

verus! {

/// How many times `x` occurs in `s`.
pub open spec fn count_of(s: Seq<i32>, x: i32) -> nat
    decreases s.len(),
{
    if s.len() == 0 {
        0
    } else {
        count_of(s.drop_last(), x) + (if s.last() == x {
            1nat
        } else {
            0nat
        })
    }
}

/// A value that occurs in `s` occurs at least once.
pub proof fn lemma_count_at_least_one(s: Seq<i32>, j: int)
    requires
        0 <= j < s.len(),
    ensures
        count_of(s, s[j]) >= 1,
    decreases s.len(),
{
    if j < s.len() - 1 {
        lemma_count_at_least_one(s.drop_last(), j);
        assert(s.drop_last()[j] == s[j]);
    }
}

/// Counts how many of the numbers equal `x`.
fn count_occurrences(nums: &[i32], x: i32) -> (c: usize)
    ensures
        c == count_of(nums@, x),
        c <= nums@.len(),
{
    let mut c: usize = 0;
    let mut j: usize = 0;
    proof {
        assert(nums@.take(0) =~= Seq::<i32>::empty());
    }
    while j < nums.len()
        invariant
            j <= nums@.len(),
            c <= j,
            c == count_of(nums@.take(j as int), x),
        decreases nums@.len() - j,
    {
        proof {
            assert(nums@.take(j + 1).drop_last() =~= nums@.take(j as int));
            assert(nums@.take(j + 1).last() == nums@[j as int]);
        }
        if nums[j] == x {
            c += 1;
        }
        j += 1;
    }
    proof {
        assert(nums@.take(nums@.len() as int) =~= nums@);
    }
    c
}

/// Returns the mode of the numbers: the value with the highest count, when
/// that count is at least two, and among equally frequent values the one
/// whose first occurrence comes earliest.  Returns nothing when every value
/// occurs at most once.
pub fn calculate_mode(nums: &[i32]) -> (r: Option<i32>)
    ensures
        (r is None) <==> (forall|j: int|
            0 <= j < nums@.len() ==> count_of(nums@, nums@[j]) <= 1),
        r matches Some(v) ==> count_of(nums@, v) >= 2 && (forall|j: int|
            0 <= j < nums@.len() ==> count_of(nums@, nums@[j]) <= count_of(nums@, v)) && (exists|
            j0: int|
            0 <= j0 < nums@.len() && nums@[j0] == v && (forall|m: int|
                0 <= m < j0 ==> count_of(nums@, nums@[m]) < count_of(nums@, v))),
{
    let mut best_val: i32 = 0;
    let mut best_cnt: usize = 0;
    let mut i: usize = 0;
    while i < nums.len()
        invariant
            i <= nums@.len(),
            forall|j: int| 0 <= j < i ==> count_of(nums@, nums@[j]) <= best_cnt,
            best_cnt > 0 ==> exists|j0: int|
                0 <= j0 < i && nums@[j0] == best_val && count_of(nums@, best_val) == best_cnt && (
                forall|m: int| 0 <= m < j0 ==> count_of(nums@, nums@[m]) < best_cnt),
            i > 0 ==> best_cnt > 0,
        decreases nums@.len() - i,
    {
        let c = count_occurrences(nums, nums[i]);
        proof {
            lemma_count_at_least_one(nums@, i as int);
        }
        if c > best_cnt {
            best_cnt = c;
            best_val = nums[i];
        }
        i += 1;
    }
    if best_cnt <= 1 {
        None
    } else {
        Some(best_val)
    }
}

} // verus!
