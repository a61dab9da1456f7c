//! From time-major lines to one series per core.

use vstd::prelude::*;
use crate::input::{lines_of, TemperatureLine};
use crate::laws::{lemma_series_of_core_empty, lemma_series_of_core_push};
use crate::model::{
    core_count, core_major, covers_all_cores, is_first_narrow, is_narrow, series_of_core,
    CoreSeries, Reading,
};

verus! {

/// Why a run of lines has no core-major form.
#[derive(Debug, Clone, Copy, PartialEq, Eq)]
pub enum PreprocessError {
    /// The line at index `line` holds `found` temperatures, fewer than the
    /// `expected` ones that the first line fixed as the number of cores.
    InconsistentWidth { line: usize, expected: usize, found: usize },
}

/// Holds time and temperature data for a single CPU core.
#[derive(Debug, Clone, PartialEq)]
pub struct CoreData<T> {
    pub times: Vec<u64>,
    pub temps: Vec<T>,
}

impl<T> View for CoreData<T> {
    type V = CoreSeries<T>;

    open spec fn view(&self) -> CoreSeries<T> {
        CoreSeries { times: self.times@, temps: self.temps@ }
    }
}

impl<T> CoreData<T> {
    /// Times and temperatures pair up one to one.
    pub open spec fn wf(&self) -> bool {
        self@.aligned()
    }

    /// A series without samples.
    pub fn new() -> (series: Self)
        ensures
            series@ == CoreSeries::<T>::empty(),
            series.wf(),
    {
        CoreData { times: Vec::new(), temps: Vec::new() }
    }

    /// Appends one sample.
    pub fn push(&mut self, time: u64, temp: T)
        ensures
            final(self)@ == old(self)@.push(time, temp),
            old(self).wf() ==> final(self).wf(),
    {
        self.times.push(time);
        self.temps.push(temp);
    }
}

/// The model of a list of series: the view of each, in order.
pub open spec fn series_of<T>(series: Seq<CoreData<T>>) -> Seq<CoreSeries<T>> {
    series.map_values(|s: CoreData<T>| s@)
}

/// Appends the sample of `line` for each core to that core's series.
fn append_line<T: Copy>(series: &mut Vec<CoreData<T>>, line: &TemperatureLine<T>)
    requires
        old(series).len() <= line.readings.len(),
    ensures
        final(series).len() == old(series).len(),
        forall|c: int|
            0 <= c < old(series).len() ==> (#[trigger] final(series)[c])@ == old(series)[c]@.push(
                line.time_step,
                line.readings[c],
            ),
{
    let n: usize = series.len();
    let mut c: usize = 0;
    while c < n
        invariant
            0 <= c <= n,
            n == old(series).len(),
            series.len() == n,
            n <= line.readings.len(),
            forall|k: int|
                0 <= k < c ==> (#[trigger] series[k])@ == old(series)[k]@.push(
                    line.time_step,
                    line.readings[k],
                ),
            forall|k: int| c <= k < n ==> series[k] == old(series)[k],
        decreases n - c,
    {
        series[c].push(line.time_step, line.readings[c]);
        c += 1;
    }
}

/// The model of a result of [`preprocess`].
pub open spec fn outcome_of<T>(result: Result<Vec<CoreData<T>>, PreprocessError>) -> Result<
    Seq<CoreSeries<T>>,
    PreprocessError,
> {
    match result {
        Ok(series) => Ok(series_of(series@)),
        Err(e) => Err(e),
    }
}

/// What reshaping owes on the run `lines`: its core-major form where every
/// reading holds a value for every core, and else the earliest reading that
/// does not, with the width that was asked of it and the width it has.
pub open spec fn is_outcome<T>(
    lines: Seq<Reading<T>>,
    outcome: Result<Seq<CoreSeries<T>>, PreprocessError>,
) -> bool {
    match outcome {
        Ok(series) => covers_all_cores(lines) && series == core_major(lines),
        Err(PreprocessError::InconsistentWidth { line, expected, found }) => {
            &&& is_first_narrow(lines, line as int)
            &&& expected == core_count(lines)
            &&& found == lines[line as int].values.len()
        },
    }
}

/// The number of cores: the width of the first line, zero without lines.
pub fn num_cores<T>(readings: &[TemperatureLine<T>]) -> (n: usize)
    ensures
        n == core_count(lines_of(readings@)),
{
    if readings.len() == 0 {
        0
    } else {
        readings[0].readings.len()
    }
}

/// As many series as asked for, each without samples.
fn empty_series<T>(n: usize) -> (series: Vec<CoreData<T>>)
    ensures
        series.len() == n,
        forall|c: int| 0 <= c < n ==> (#[trigger] series[c])@ == CoreSeries::<T>::empty(),
{
    let mut series: Vec<CoreData<T>> = Vec::with_capacity(n);
    let mut c: usize = 0;
    while c < n
        invariant
            c <= n,
            series.len() == c,
            forall|k: int| 0 <= k < c ==> (#[trigger] series[k])@ == CoreSeries::<T>::empty(),
        decreases n - c,
    {
        series.push(CoreData::new());
        c += 1;
    }
    series
}

/// Takes raw temperature readings and splits them into per-core data.
///
/// The first line fixes the number of cores. Each line, in order, adds one
/// sample to the series of each core: its time step and that core's
/// temperature. Temperatures beyond the number of cores are left out. A line
/// with fewer temperatures than there are cores is an error, and the earliest
/// such line is the one that the error names.
pub fn preprocess<T: Copy>(readings: &[TemperatureLine<T>]) -> (result: Result<
    Vec<CoreData<T>>,
    PreprocessError,
>)
    ensures
        is_outcome(lines_of(readings@), outcome_of(result)),
        result is Ok <==> covers_all_cores(lines_of(readings@)),
        result matches Ok(series) ==> {
            &&& series.len() == core_count(lines_of(readings@))
            &&& forall|c: int| 0 <= c < series.len() ==> (#[trigger] series[c]).wf()
        },
{
    let ghost lines = lines_of(readings@);
    let n: usize = num_cores(readings);
    let mut core_data_vec: Vec<CoreData<T>> = empty_series(n);
    proof {
        assert forall|c: int| 0 <= c < n implies (#[trigger] core_data_vec[c])@ == series_of_core(
            lines.take(0),
            c,
        ) by {
            assert(lines.take(0) =~= Seq::<Reading<T>>::empty());
            lemma_series_of_core_empty::<T>(c);
        }
    }
    let mut i: usize = 0;
    while i < readings.len()
        invariant
            i <= readings.len(),
            lines == lines_of(readings@),
            n == core_count(lines),
            core_data_vec.len() == n,
            forall|j: int| 0 <= j < i ==> (#[trigger] lines[j]).values.len() >= n,
            forall|c: int|
                0 <= c < n ==> (#[trigger] core_data_vec[c])@ == series_of_core(
                    lines.take(i as int),
                    c,
                ),
        decreases readings.len() - i,
    {
        let line = &readings[i];
        assert(line@ == lines[i as int]);
        if line.readings.len() < n {
            assert(is_narrow(lines, i as int));
            return Err(
                PreprocessError::InconsistentWidth {
                    line: i,
                    expected: n,
                    found: line.readings.len(),
                },
            );
        }
        append_line(&mut core_data_vec, line);
        proof {
            assert(lines.take(i + 1) =~= lines.take(i as int).push(lines[i as int]));
            assert forall|c: int| 0 <= c < n implies (#[trigger] core_data_vec[c])@
                == series_of_core(lines.take(i + 1), c) by {
                lemma_series_of_core_push(lines.take(i as int), lines[i as int], c);
            }
        }
        i += 1;
    }
    proof {
        assert(lines.take(i as int) =~= lines);
        assert(series_of(core_data_vec@) =~= core_major(lines));
    }
    Ok(core_data_vec)
}

} // verus!
