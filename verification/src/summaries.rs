//! Exact integer parts of the statistical summaries of measurements.

use vstd::prelude::*;
use crate::results::EvaluationSummary;

verus! {

broadcast use {vstd::seq_lib::to_multiset_insert, vstd::seq_lib::to_multiset_build};

/// `s` is in ascending order.
pub open spec fn sorted_asc(s: Seq<i64>) -> bool {
    forall|i: int, j: int| 0 <= i < j < s.len() ==> s[i] <= s[j]
}

/// The middle of a sorted list of measurements: one value for an odd
/// number of values, the two middle values for an even number.
#[derive(Clone, Copy, Debug, PartialEq, Eq, Structural)]
pub enum Median {
    Middle(i64),
    Between(i64, i64),
}

/// Integer statistics of handshake durations.
pub struct HandshakeStatistics {
    pub sorted: Vec<i64>,
    pub samples: i64,
    pub min_ms: i64,
    pub max_ms: i64,
    pub median: Median,
}

/// The median that a sorted list of values gives; `Middle(0)` for none.
pub open spec fn median_of(s: Seq<i64>) -> Median {
    if s.len() == 0 {
        Median::Middle(0)
    } else if s.len() % 2 == 0 {
        Median::Between(s[s.len() / 2 - 1], s[(s.len() / 2) as int])
    } else {
        Median::Middle(s[(s.len() / 2) as int])
    }
}

/// Sorts measurements in ascending order.
pub fn sort_values(values: Vec<i64>) -> (sorted: Vec<i64>)
    ensures
        sorted_asc(sorted@),
        sorted@.to_multiset() == values@.to_multiset(),
{
    let mut sorted: Vec<i64> = Vec::new();
    let mut i: usize = 0;
    proof {
        assert(values@.take(0) =~= Seq::<i64>::empty());
        assert(sorted@ =~= Seq::<i64>::empty());
    }
    while i < values.len()
        invariant
            i <= values.len(),
            sorted_asc(sorted@),
            sorted@.to_multiset() == values@.take(i as int).to_multiset(),
        decreases values.len() - i,
    {
        let x = values[i];
        let mut p: usize = 0;
        while p < sorted.len() && sorted[p] <= x
            invariant
                p <= sorted.len(),
                forall|m: int| 0 <= m < p ==> sorted@[m] <= x,
            decreases sorted.len() - p,
        {
            p = p + 1;
        }
        let ghost before = sorted@;
        sorted.insert(p, x);
        assert forall|a: int, b: int| 0 <= a < b < sorted@.len() implies sorted@[a]
            <= sorted@[b] by {
            if a < p as int && b == p as int {
            } else if a == p as int {
                assert(sorted@[b] == before[b - 1]);
                assert(before[p as int] <= before[b - 1] || b - 1 == p);
            } else if a < p as int {
                if b > p as int {
                    assert(sorted@[b] == before[b - 1]);
                }
            } else {
                assert(sorted@[a] == before[a - 1]);
                assert(sorted@[b] == before[b - 1]);
            }
        }
        assert(values@.take(i + 1) =~= values@.take(i as int).push(x));
        i = i + 1;
    }
    assert(values@.take(values.len() as int) =~= values@);
    sorted
}

/// `stats` are the statistics of `values`, as `handshake_statistics`
/// gives them: the values sorted, their number, the first and last
/// sorted values (0 for none), and the median of the sorted values.
pub open spec fn statistics_of(values: Seq<i64>, stats: HandshakeStatistics) -> bool {
    &&& sorted_asc(stats.sorted@)
    &&& stats.sorted@.to_multiset() == values.to_multiset()
    &&& stats.sorted@.len() == values.len()
    &&& stats.samples == values.len()
    &&& values.len() == 0 ==> stats.min_ms == 0 && stats.max_ms == 0
    &&& values.len() > 0 ==> stats.min_ms == stats.sorted@[0] && stats.max_ms == stats.sorted@[values.len()
        - 1]
    &&& stats.median == median_of(stats.sorted@)
}

/// The order of the measurements does not matter: values that are a
/// permutation of each other give the same statistics.
pub proof fn law_statistics_ignore_order(
    a: Seq<i64>,
    b: Seq<i64>,
    x: HandshakeStatistics,
    y: HandshakeStatistics,
)
    requires
        statistics_of(a, x),
        statistics_of(b, y),
        a.to_multiset() == b.to_multiset(),
    ensures
        x.sorted@ == y.sorted@,
        x.samples == y.samples,
        x.min_ms == y.min_ms,
        x.max_ms == y.max_ms,
        x.median == y.median,
{
    let leq = |p: i64, q: i64| p <= q;
    assert(vstd::relations::total_ordering(leq));
    assert(vstd::relations::sorted_by(x.sorted@, leq));
    assert(vstd::relations::sorted_by(y.sorted@, leq));
    vstd::seq_lib::lemma_sorted_unique(x.sorted@, y.sorted@, leq);
    vstd::seq_lib::to_multiset_len(a);
    vstd::seq_lib::to_multiset_len(b);
}

/// The minimum and the maximum are measurements, every measurement lies
/// between them, and so do the middle values.
pub proof fn law_statistics_bounds(values: Seq<i64>, stats: HandshakeStatistics)
    requires
        statistics_of(values, stats),
        values.len() > 0,
    ensures
        values.contains(stats.min_ms),
        values.contains(stats.max_ms),
        forall|i: int| 0 <= i < values.len() ==> stats.min_ms <= #[trigger] values[i] <= stats.max_ms,
        match stats.median {
            Median::Middle(m) => stats.min_ms <= m <= stats.max_ms,
            Median::Between(l, r) => stats.min_ms <= l <= r <= stats.max_ms,
        },
{
    broadcast use vstd::seq_lib::group_to_multiset_ensures;
    let s = stats.sorted@;
    let n = s.len() as int;
    assert(s.contains(s[0]));
    assert(s.to_multiset().count(s[0]) > 0);
    assert(values.to_multiset().count(s[0]) > 0);
    assert(s.contains(s[n - 1]));
    assert(s.to_multiset().count(s[n - 1]) > 0);
    assert(values.to_multiset().count(s[n - 1]) > 0);
    assert forall|i: int| 0 <= i < values.len() implies stats.min_ms <= #[trigger] values[i]
        <= stats.max_ms by {
        assert(values.contains(values[i]));
        assert(values.to_multiset().count(values[i]) > 0);
        assert(s.to_multiset().count(values[i]) > 0);
        assert(s.contains(values[i]));
        let j = choose|j: int| 0 <= j < s.len() && s[j] == values[i];
        if j > 0 {
            assert(s[0] <= s[j]);
        }
        if j < n - 1 {
            assert(s[j] <= s[n - 1]);
        }
    }
    if n >= 2 {
        assert(s[0] <= s[n / 2 - 1] || n / 2 - 1 == 0);
        assert(s[n / 2 - 1] <= s[n / 2]);
        assert(s[n / 2] <= s[n - 1] || n / 2 == n - 1);
        assert(s[0] <= s[n / 2] || n / 2 == 0);
    }
}

/// Builds the integer statistics of TLS handshake durations.
///
/// The values are sorted; the minimum, maximum and median are read from
/// the sorted values, and every one of them is 0 when there are none.
pub fn handshake_statistics(values: Vec<i64>) -> (stats: HandshakeStatistics)
    requires
        values.len() <= i64::MAX,
    ensures
        sorted_asc(stats.sorted@),
        stats.sorted@.to_multiset() == values@.to_multiset(),
        stats.sorted.len() == values.len(),
        stats.samples == values.len(),
        values.len() == 0 ==> stats.min_ms == 0 && stats.max_ms == 0,
        values.len() > 0 ==> stats.min_ms == stats.sorted@[0] && stats.max_ms
            == stats.sorted@[values.len() - 1],
        stats.median == median_of(stats.sorted@),
        statistics_of(values@, stats),
{
    let n = values.len();
    let ghost input = values@;
    let sorted = sort_values(values);
    proof {
        vstd::seq_lib::to_multiset_len(sorted@);
        vstd::seq_lib::to_multiset_len(input);
    }
    let samples = n as i64;
    if n == 0 {
        return HandshakeStatistics {
            sorted,
            samples: 0,
            min_ms: 0,
            max_ms: 0,
            median: Median::Middle(0),
        };
    }
    let median = if n % 2 == 0 {
        Median::Between(sorted[n / 2 - 1], sorted[n / 2])
    } else {
        Median::Middle(sorted[n / 2])
    };
    let min_ms = sorted[0];
    let max_ms = sorted[n - 1];
    HandshakeStatistics { sorted, samples, min_ms, max_ms, median }
}

/// Sum of the values taken in order, as mathematics has it.
pub open spec fn sum_of(s: Seq<i64>) -> int
    decreases s.len(),
{
    if s.len() == 0 {
        0
    } else {
        sum_of(s.drop_last()) + s.last()
    }
}

/// Every partial sum of `s`, taken in order, fits in an `i64`.
pub open spec fn partial_sums_fit(s: Seq<i64>) -> bool {
    forall|j: int| 0 <= j <= s.len() ==> i64::MIN <= #[trigger] sum_of(s.take(j)) <= i64::MAX
}

/// Sums the values in order, as `Iterator::sum` does: `None` where a
/// partial sum overflows, which is where that sum panics.
pub fn checked_total(values: &Vec<i64>) -> (total: Option<i64>)
    ensures
        match total {
            Some(t) => partial_sums_fit(values@) && t == sum_of(values@),
            None => !partial_sums_fit(values@),
        },
{
    let mut total: i64 = 0;
    let mut i: usize = 0;
    assert(values@.take(0) =~= Seq::<i64>::empty());
    while i < values.len()
        invariant
            i <= values.len(),
            total == sum_of(values@.take(i as int)),
            forall|j: int| 0 <= j <= i ==> i64::MIN <= #[trigger] sum_of(values@.take(j)) <= i64::MAX,
        decreases values.len() - i,
    {
        assert(values@.take(i + 1).drop_last() =~= values@.take(i as int));
        match total.checked_add(values[i]) {
            Some(t) => {
                total = t;
            },
            None => {
                assert(!(i64::MIN <= sum_of(values@.take(i + 1)) <= i64::MAX));
                return None;
            },
        }
        i = i + 1;
    }
    assert(values@.take(values.len() as int) =~= values@);
    Some(total)
}

/// The largest value, or 0 when there is none.
pub fn max_or_zero(values: &Vec<i64>) -> (m: i64)
    ensures
        values.len() == 0 ==> m == 0,
        values.len() > 0 ==> values@.contains(m) && forall|j: int|
            0 <= j < values.len() ==> values@[j] <= m,
{
    if values.len() == 0 {
        return 0;
    }
    let mut m = values[0];
    let mut i: usize = 1;
    while i < values.len()
        invariant
            1 <= i <= values.len(),
            values@.contains(m),
            forall|j: int| 0 <= j < i ==> values@[j] <= m,
        decreases values.len() - i,
    {
        if values[i] > m {
            m = values[i];
        }
        i = i + 1;
    }
    m
}

/// Whether one of the evaluations was made in mode `mode`.
pub open spec fn has_mode(evaluations: Seq<EvaluationSummary>, mode: Seq<char>) -> bool {
    exists|i: int| 0 <= i < evaluations.len() && (#[trigger] evaluations[i]).crypto_mode@ == mode
}

/// Whether classical and post-quantum results can be compared in a
/// group: both modes were evaluated.
pub fn comparison_available(evaluations: &Vec<EvaluationSummary>) -> (b: bool)
    ensures
        b == (has_mode(evaluations@, "classical"@) && has_mode(evaluations@, "post_quantum"@)),
{
    let classical = String::from_str("classical");
    let post_quantum = String::from_str("post_quantum");
    let mut has_classical = false;
    let mut has_post_quantum = false;
    let mut i: usize = 0;
    while i < evaluations.len()
        invariant
            i <= evaluations@.len(),
            classical@ == "classical"@,
            post_quantum@ == "post_quantum"@,
            has_classical == exists|j: int|
                0 <= j < i && (#[trigger] evaluations@[j]).crypto_mode@ == "classical"@,
            has_post_quantum == exists|j: int|
                0 <= j < i && (#[trigger] evaluations@[j]).crypto_mode@ == "post_quantum"@,
        decreases evaluations.len() - i,
    {
        if evaluations[i].crypto_mode == classical {
            has_classical = true;
        }
        if evaluations[i].crypto_mode == post_quantum {
            has_post_quantum = true;
        }
        i = i + 1;
    }
    has_classical && has_post_quantum
}

} // verus!
