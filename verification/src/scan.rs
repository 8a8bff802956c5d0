//! Ordered scan inputs: filling the gaps of a per-ray sequence.

use vstd::prelude::*;

verus! {

/// The last known position at or before `i`.
pub open spec fn known_at_or_before(known: Seq<bool>, i: int) -> Option<int>
    decreases i + 1,
{
    if i < 0 || i >= known.len() {
        None
    } else if known[i] {
        Some(i)
    } else {
        known_at_or_before(known, i - 1)
    }
}

/// The first known position at or after `i`.
pub open spec fn known_at_or_after(known: Seq<bool>, i: int) -> Option<int>
    decreases known.len() - i,
{
    if i < 0 || i >= known.len() {
        None
    } else if known[i] {
        Some(i)
    } else {
        known_at_or_after(known, i + 1)
    }
}

/// The value at position `i` once the gaps are filled: the nearest known
/// value before it (or its own, when known); failing that, the nearest known
/// value after it; failing that (nothing is known), `neutral`.
pub open spec fn gap_filled<T>(values: Seq<T>, known: Seq<bool>, neutral: T, i: int) -> T {
    match known_at_or_before(known, i) {
        Some(j) => values[j],
        None => match known_at_or_after(known, i) {
            Some(j) => values[j],
            None => neutral,
        },
    }
}

proof fn lemma_before_is_known(known: Seq<bool>, i: int)
    requires
        i < known.len(),
    ensures
        known_at_or_before(known, i) matches Some(j) ==> 0 <= j <= i && j < known.len()
            && known[j],
        known_at_or_before(known, i) is None ==> forall|k: int|
            0 <= k <= i && k < known.len() ==> !#[trigger] known[k],
    decreases i + 1,
{
    if 0 <= i && !known[i] {
        lemma_before_is_known(known, i - 1);
    }
}

proof fn lemma_after_is_known(known: Seq<bool>, i: int)
    requires
        0 <= i,
    ensures
        known_at_or_after(known, i) matches Some(j) ==> i <= j < known.len() && known[j],
        known_at_or_after(known, i) is None ==> forall|k: int|
            i <= k < known.len() ==> !#[trigger] known[k],
    decreases known.len() - i,
{
    if 0 <= i < known.len() && !known[i] {
        lemma_after_is_known(known, i + 1);
    }
}

proof fn lemma_after_skips_unknown(known: Seq<bool>, i: int, f: int)
    requires
        0 <= i <= f < known.len(),
        known[f],
        forall|k: int| i <= k < f ==> !#[trigger] known[k],
    ensures
        known_at_or_after(known, i) == Some(f),
    decreases f - i,
{
    if i < f {
        lemma_after_skips_unknown(known, i + 1, f);
    }
}

/// Fill the positions that are not `known`: each takes the nearest known
/// value before it; positions before the first known one take that first
/// known value; with nothing known, every position becomes `neutral`. Known
/// positions keep their values.
pub fn fill_gaps<T: Copy>(values: &mut Vec<T>, known: &[bool], neutral: T)
    requires
        old(values)@.len() == known@.len(),
    ensures
        final(values)@.len() == old(values)@.len(),
        forall|i: int|
            0 <= i < old(values)@.len() ==> #[trigger] final(values)@[i] == gap_filled(
                old(values)@,
                known@,
                neutral,
                i,
            ),
{
    let ghost original = values@;
    let n = values.len();
    let mut last: Option<usize> = None;
    let mut i: usize = 0;
    while i < n
        invariant
            n == values@.len(),
            n == known@.len(),
            n == original.len(),
            i <= n,
            match last {
                Some(j) => known_at_or_before(known@, i - 1) == Some(j as int),
                None => known_at_or_before(known@, i - 1) is None,
            },
            forall|k: int|
                0 <= k < i ==> #[trigger] values@[k] == match known_at_or_before(known@, k) {
                    Some(j) => original[j],
                    None => original[k],
                },
            forall|k: int| i <= k < n ==> #[trigger] values@[k] == original[k],
        decreases n - i,
    {
        proof {
            lemma_before_is_known(known@, i - 1);
        }
        if known[i] {
            last = Some(i);
        } else if let Some(j) = last {
            let v = values[j];
            values.set(i, v);
        }
        i += 1;
    }
    let mut first: usize = 0;
    while first < n && !known[first]
        invariant
            n == known@.len(),
            first <= n,
            forall|k: int| 0 <= k < first ==> !#[trigger] known@[k],
        decreases n - first,
    {
        first += 1;
    }
    if first == n {
        let mut k: usize = 0;
        while k < n
            invariant
                n == values@.len(),
                n == known@.len(),
                n == original.len(),
                k <= n,
                forall|m: int| 0 <= m < n ==> !#[trigger] known@[m],
                forall|m: int| 0 <= m < k ==> #[trigger] values@[m] == neutral,
            decreases n - k,
        {
            values.set(k, neutral);
            k += 1;
        }
        assert forall|m: int| 0 <= m < n implies #[trigger] values@[m] == gap_filled(
            original,
            known@,
            neutral,
            m,
        ) by {
            lemma_before_is_known(known@, m);
            lemma_after_is_known(known@, m);
            if known_at_or_before(known@, m) is Some {
                assert(known@[known_at_or_before(known@, m)->0]);
            }
            if known_at_or_after(known@, m) is Some {
                assert(known@[known_at_or_after(known@, m)->0]);
            }
        }
    } else {
        let ghost forward = values@;
        proof {
            lemma_before_is_known(known@, first as int);
        }
        let v = values[first];
        let mut k: usize = 0;
        while k < first
            invariant
                n == values@.len(),
                n == known@.len(),
                n == original.len(),
                first < n,
                k <= first,
                known@[first as int],
                forall|m: int| 0 <= m < first ==> !#[trigger] known@[m],
                v == original[first as int],
                forall|m: int| 0 <= m < k ==> #[trigger] values@[m] == original[first as int],
                forall|m: int| k <= m < n ==> #[trigger] values@[m] == forward[m],
            decreases first - k,
        {
            values.set(k, v);
            k += 1;
        }
        assert forall|m: int| 0 <= m < n implies #[trigger] values@[m] == gap_filled(
            original,
            known@,
            neutral,
            m,
        ) by {
            lemma_before_is_known(known@, m);
            if m < first {
                lemma_after_skips_unknown(known@, m, first as int);
                if known_at_or_before(known@, m) is Some {
                    assert(known@[known_at_or_before(known@, m)->0]);
                }
            } else {
                if known_at_or_before(known@, m) is None {
                    assert(!known@[first as int]);
                }
            }
        }
    }
}

/// Gap filling keeps every known value where it is.
pub proof fn lemma_known_values_stay<T>(values: Seq<T>, known: Seq<bool>, neutral: T, i: int)
    requires
        values.len() == known.len(),
        0 <= i < known.len(),
        known[i],
    ensures
        gap_filled(values, known, neutral, i) == values[i],
{
}

proof fn lemma_before_skips_unknown(known: Seq<bool>, i: int, j: int)
    requires
        0 <= j <= i < known.len(),
        known[j],
        forall|k: int| j < k <= i ==> !#[trigger] known[k],
    ensures
        known_at_or_before(known, i) == Some(j),
    decreases i - j,
{
    if j < i {
        lemma_before_skips_unknown(known, i - 1, j);
    }
}

/// Gap filling takes, at every unknown position, the value of the nearest
/// known position before it; before the first known position, the value of
/// that first known position; with nothing known, `neutral`. A known position
/// keeps its own value.
pub proof fn lemma_gaps_take_the_nearest_known_value<T>(
    values: Seq<T>,
    known: Seq<bool>,
    neutral: T,
    i: int,
)
    requires
        values.len() == known.len(),
        0 <= i < known.len(),
    ensures
        known[i] ==> gap_filled(values, known, neutral, i) == values[i],
        forall|j: int|
            0 <= j < i && #[trigger] known[j] && (forall|k: int| j < k <= i ==> !#[trigger] known[k])
                ==> gap_filled(values, known, neutral, i) == values[j],
        forall|f: int|
            i < f < known.len() && #[trigger] known[f] && (forall|k: int|
                0 <= k < f ==> !#[trigger] known[k]) ==> gap_filled(values, known, neutral, i)
                == values[f],
        (forall|k: int| 0 <= k < known.len() ==> !#[trigger] known[k]) ==> gap_filled(
            values,
            known,
            neutral,
            i,
        ) == neutral,
{
    lemma_before_is_known(known, i);
    lemma_after_is_known(known, i);
    if known[i] {
        lemma_before_skips_unknown(known, i, i);
    }
    assert forall|j: int|
        0 <= j < i && #[trigger] known[j] && (forall|k: int| j < k <= i ==> !#[trigger] known[k])
        implies gap_filled(values, known, neutral, i) == values[j] by {
        lemma_before_skips_unknown(known, i, j);
    }
    assert forall|f: int|
        i < f < known.len() && #[trigger] known[f] && (forall|k: int|
            0 <= k < f ==> !#[trigger] known[k]) implies gap_filled(values, known, neutral, i)
        == values[f] by {
        lemma_after_skips_unknown(known, i, f);
    }
}

} // verus!
