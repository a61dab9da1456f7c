//! What holds of reshaping on every run.
//!
//! The laws speak of a run and of an outcome that reshaping may have on it,
//! in the terms of [`is_outcome`], the postcondition of
//! [`preprocess`](crate::preprocess::preprocess).

use vstd::prelude::*;
use crate::model::{
    core_count, core_major, covers_all_cores, is_first_narrow, is_narrow, series_of_core,
    CoreSeries, Reading,
};
use crate::preprocess::{is_outcome, PreprocessError};

verus! {

/// A run without readings has no samples for any core.
pub proof fn lemma_series_of_core_empty<T>(c: int)
    ensures
        series_of_core(Seq::<Reading<T>>::empty(), c) == CoreSeries::<T>::empty(),
{
    let none = series_of_core(Seq::<Reading<T>>::empty(), c);
    assert(none.times =~= Seq::<u64>::empty());
    assert(none.temps =~= Seq::<T>::empty());
}

/// One more reading at the end of a run adds one sample at the end of a
/// core's series and leaves the earlier samples where they were.
pub proof fn lemma_series_of_core_push<T>(lines: Seq<Reading<T>>, next: Reading<T>, c: int)
    ensures
        series_of_core(lines.push(next), c) == series_of_core(lines, c).push(
            next.time_step,
            next.values[c],
        ),
{
    let longer = series_of_core(lines.push(next), c);
    let pushed = series_of_core(lines, c).push(next.time_step, next.values[c]);
    assert(longer.times =~= pushed.times);
    assert(longer.temps =~= pushed.temps);
}

/// At or before a reading that is too narrow stands the earliest such one.
proof fn lemma_earliest_narrow<T>(lines: Seq<Reading<T>>, upto: int)
    requires
        is_narrow(lines, upto),
    ensures
        exists|i: int| 0 <= i <= upto && is_first_narrow(lines, i),
    decreases upto,
{
    if exists|j: int| 0 <= j < upto && is_narrow(lines, j) {
        let j = choose|j: int| 0 <= j < upto && is_narrow(lines, j);
        lemma_earliest_narrow(lines, j);
    } else {
        assert(is_first_narrow(lines, upto));
    }
}

/// A run is accepted or has an earliest reading that is too narrow, never
/// both, and there is one such reading at most.
pub proof fn lemma_accepted_or_first_narrow<T>(lines: Seq<Reading<T>>)
    ensures
        covers_all_cores(lines) <==> !exists|i: int| is_first_narrow(lines, i),
        forall|i: int, j: int| is_first_narrow(lines, i) && is_first_narrow(lines, j) ==> i == j,
{
    if !covers_all_cores(lines) {
        let some = choose|i: int| is_narrow(lines, i);
        lemma_earliest_narrow(lines, some);
    }
    assert forall|i: int, j: int|
        is_first_narrow(lines, i) && is_first_narrow(lines, j) implies i == j by {
        if i < j {
            assert(!is_narrow(lines, i));
        } else if j < i {
            assert(!is_narrow(lines, j));
        }
    }
}

/// Every run whose lengths a machine can hold has an outcome.
pub proof fn lemma_outcome_exists<T>(lines: Seq<Reading<T>>)
    requires
        lines.len() <= usize::MAX,
        forall|i: int| 0 <= i < lines.len() ==> (#[trigger] lines[i]).values.len() <= usize::MAX,
    ensures
        exists|outcome: Result<Seq<CoreSeries<T>>, PreprocessError>| is_outcome(lines, outcome),
{
    lemma_accepted_or_first_narrow(lines);
    if covers_all_cores(lines) {
        assert(is_outcome(lines, Ok::<_, PreprocessError>(core_major(lines))));
    } else {
        let i = choose|i: int| is_first_narrow(lines, i);
        let e = PreprocessError::InconsistentWidth {
            line: i as usize,
            expected: core_count(lines) as usize,
            found: lines[i].values.len() as usize,
        };
        assert(is_outcome(lines, Err::<Seq<CoreSeries<T>>, _>(e)));
    }
}

/// Reshaping succeeds exactly on the runs in which no reading is narrower
/// than the first.
pub proof fn lemma_success_iff_covered<T>(
    lines: Seq<Reading<T>>,
    outcome: Result<Seq<CoreSeries<T>>, PreprocessError>,
)
    requires
        is_outcome(lines, outcome),
    ensures
        outcome is Ok <==> covers_all_cores(lines),
{
    if let Err(PreprocessError::InconsistentWidth { line, expected, found }) = outcome {
        assert(is_narrow(lines, line as int));
    }
}

/// Reshaping is a function of its input: two outcomes on the same run are
/// equal, series by series and sample by sample, or are the same error.
pub proof fn lemma_outcome_is_unique<T>(
    lines: Seq<Reading<T>>,
    first: Result<Seq<CoreSeries<T>>, PreprocessError>,
    second: Result<Seq<CoreSeries<T>>, PreprocessError>,
)
    requires
        is_outcome(lines, first),
        is_outcome(lines, second),
    ensures
        first == second,
{
    lemma_accepted_or_first_narrow(lines);
    lemma_success_iff_covered(lines, first);
    lemma_success_iff_covered(lines, second);
    if let Err(PreprocessError::InconsistentWidth { line: i, expected: _, found: _ }) = first {
        if let Err(PreprocessError::InconsistentWidth { line: j, expected: _, found: _ }) = second {
            assert(is_first_narrow(lines, i as int) && is_first_narrow(lines, j as int));
            assert(i as int == j as int);
        }
    }
}

/// A run without readings is no error: its outcome is the empty list of
/// series.
pub proof fn lemma_empty_run<T>(outcome: Result<Seq<CoreSeries<T>>, PreprocessError>)
    requires
        is_outcome(Seq::<Reading<T>>::empty(), outcome),
    ensures
        outcome == Ok::<_, PreprocessError>(Seq::<CoreSeries<T>>::empty()),
{
    let none = Seq::<Reading<T>>::empty();
    lemma_success_iff_covered(none, outcome);
    assert(core_major(none) =~= Seq::<CoreSeries<T>>::empty());
}

/// Where every reading of a run has the same number of values, reshaping
/// succeeds and returns that number of series.
pub proof fn lemma_uniform_width_core_count<T>(
    lines: Seq<Reading<T>>,
    k: nat,
    outcome: Result<Seq<CoreSeries<T>>, PreprocessError>,
)
    requires
        lines.len() > 0,
        forall|i: int| 0 <= i < lines.len() ==> (#[trigger] lines[i]).values.len() == k,
        is_outcome(lines, outcome),
    ensures
        outcome matches Ok(series) && series.len() == k,
{
    lemma_success_iff_covered(lines, outcome);
}

/// Every series of a result holds one sample per reading, its times and
/// temperatures paired up.
pub proof fn lemma_series_are_aligned<T>(
    lines: Seq<Reading<T>>,
    series: Seq<CoreSeries<T>>,
    c: int,
)
    requires
        is_outcome(lines, Ok::<_, PreprocessError>(series)),
        0 <= c < series.len(),
    ensures
        series[c].times.len() == lines.len(),
        series[c].temps.len() == lines.len(),
        series[c].aligned(),
{
}

/// In the series of core `c`, sample `i` is the time step of reading `i` and
/// the value that reading `i` holds for core `c`.
pub proof fn lemma_alignment<T>(
    lines: Seq<Reading<T>>,
    series: Seq<CoreSeries<T>>,
    c: int,
    i: int,
)
    requires
        is_outcome(lines, Ok::<_, PreprocessError>(series)),
        0 <= c < series.len(),
        0 <= i < lines.len(),
    ensures
        c < lines[i].values.len(),
        series[c].times[i] == lines[i].time_step,
        series[c].temps[i] == lines[i].values[c],
{
    assert(!is_narrow(lines, i));
}

/// A run of one reading gives one series for each of its values, each with
/// that one sample.
pub proof fn lemma_single_reading<T>(
    first: Reading<T>,
    outcome: Result<Seq<CoreSeries<T>>, PreprocessError>,
)
    requires
        is_outcome(seq![first], outcome),
    ensures
        outcome matches Ok(series) && {
            &&& series.len() == first.values.len()
            &&& forall|c: int|
                0 <= c < series.len() ==> #[trigger] series[c] == CoreSeries::<T>::empty().push(
                    first.time_step,
                    first.values[c],
                )
        },
{
    let single = seq![first];
    assert(single[0] == first);
    assert(single =~= Seq::<Reading<T>>::empty().push(first));
    lemma_success_iff_covered(single, outcome);
    assert forall|c: int| 0 <= c < first.values.len() implies #[trigger] core_major(single)[c]
        == CoreSeries::<T>::empty().push(first.time_step, first.values[c]) by {
        lemma_series_of_core_empty::<T>(c);
        lemma_series_of_core_push(Seq::<Reading<T>>::empty(), first, c);
    }
}

/// A reading added at the end of an accepted run is accepted with it exactly
/// where it has a value for every core.
pub proof fn lemma_push_accepted_iff_wide<T>(
    lines: Seq<Reading<T>>,
    next: Reading<T>,
    before: Seq<CoreSeries<T>>,
    after: Result<Seq<CoreSeries<T>>, PreprocessError>,
)
    requires
        lines.len() > 0,
        is_outcome(lines, Ok::<_, PreprocessError>(before)),
        is_outcome(lines.push(next), after),
    ensures
        after is Ok <==> next.values.len() >= before.len(),
{
    let longer = lines.push(next);
    assert(longer[0] == lines[0]);
    lemma_success_iff_covered(longer, after);
    if next.values.len() >= core_count(lines) {
        assert forall|i: int| !is_narrow(longer, i) by {
            if 0 <= i < lines.len() {
                assert(!is_narrow(lines, i));
                assert(longer[i] == lines[i]);
            }
        }
    } else {
        assert(is_narrow(longer, lines.len() as int));
    }
}

/// Order is kept. A reading added at the end of a run that has one already
/// leaves the number of series as it was, and puts its sample behind the
/// samples of the earlier readings in each series.
pub proof fn lemma_order_is_kept<T>(
    lines: Seq<Reading<T>>,
    next: Reading<T>,
    before: Seq<CoreSeries<T>>,
    after: Seq<CoreSeries<T>>,
)
    requires
        lines.len() > 0,
        is_outcome(lines, Ok::<_, PreprocessError>(before)),
        is_outcome(lines.push(next), Ok::<_, PreprocessError>(after)),
    ensures
        after.len() == before.len(),
        forall|c: int|
            0 <= c < before.len() ==> #[trigger] after[c] == before[c].push(
                next.time_step,
                next.values[c],
            ),
{
    assert(lines.push(next)[0] == lines[0]);
    assert forall|c: int| 0 <= c < before.len() implies #[trigger] after[c] == before[c].push(
        next.time_step,
        next.values[c],
    ) by {
        lemma_series_of_core_push(lines, next, c);
    }
}

/// Values beyond the core count have no part in the result: two accepted
/// runs with the same core count that agree on the time steps, and on the
/// values of each reading below the core count, have the same series.
pub proof fn lemma_extra_values_ignored<T>(
    a: Seq<Reading<T>>,
    b: Seq<Reading<T>>,
    of_a: Seq<CoreSeries<T>>,
    of_b: Seq<CoreSeries<T>>,
)
    requires
        a.len() == b.len(),
        core_count(a) == core_count(b),
        forall|i: int| 0 <= i < a.len() ==> (#[trigger] a[i]).time_step == b[i].time_step,
        forall|i: int, c: int|
            0 <= i < a.len() && 0 <= c < core_count(a) ==> (#[trigger] a[i].values[c])
                == b[i].values[c],
        is_outcome(a, Ok::<_, PreprocessError>(of_a)),
        is_outcome(b, Ok::<_, PreprocessError>(of_b)),
    ensures
        of_a == of_b,
{
    assert forall|c: int| 0 <= c < core_count(a) implies #[trigger] core_major(a)[c] == core_major(
        b,
    )[c] by {
        assert(series_of_core(a, c).times =~= series_of_core(b, c).times);
        assert forall|i: int| 0 <= i < a.len() implies series_of_core(a, c).temps[i]
            == series_of_core(b, c).temps[i] by {
            assert(a[i].values[c] == b[i].values[c]);
        }
        assert(series_of_core(a, c).temps =~= series_of_core(b, c).temps);
    }
    assert(core_major(a) =~= core_major(b));
}

} // verus!
