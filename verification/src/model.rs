//! Mathematical model of time-major readings and core-major series.
//!
//! A run of measurements is a sequence of [`Reading`]s in the order in which
//! they were taken. Its core-major form, [`core_major`], holds one
//! [`CoreSeries`] per core. Everything here is ghost: the executable types
//! map into this model through their views.

use vstd::prelude::*;

verus! {

/// One time step of measurement: a time marker and one value per core, the
/// position of a value being the identity of its core.
pub struct Reading<T> {
    pub time_step: u64,
    pub values: Seq<T>,
}

/// The time series of one core: the i-th time belongs to the i-th
/// temperature.
pub struct CoreSeries<T> {
    pub times: Seq<u64>,
    pub temps: Seq<T>,
}

impl<T> CoreSeries<T> {
    /// A series without samples.
    pub open spec fn empty() -> Self {
        CoreSeries { times: Seq::empty(), temps: Seq::empty() }
    }

    /// The series with one more sample at its end.
    pub open spec fn push(self, time: u64, temp: T) -> Self {
        CoreSeries { times: self.times.push(time), temps: self.temps.push(temp) }
    }

    /// Times and temperatures pair up one to one.
    pub open spec fn aligned(self) -> bool {
        self.times.len() == self.temps.len()
    }
}

/// The number of cores of a run: the width of its first reading, and zero
/// for a run without readings. Later readings have no say in it.
pub open spec fn core_count<T>(lines: Seq<Reading<T>>) -> nat {
    if lines.len() == 0 {
        0
    } else {
        lines[0].values.len()
    }
}

/// Reading `i` has fewer values than the run has cores.
pub open spec fn is_narrow<T>(lines: Seq<Reading<T>>, i: int) -> bool {
    0 <= i < lines.len() && lines[i].values.len() < core_count(lines)
}

/// No reading is narrower than the first one, so every reading holds a value
/// for every core. Readings wider than the first are accepted.
pub open spec fn covers_all_cores<T>(lines: Seq<Reading<T>>) -> bool {
    forall|i: int| !is_narrow(lines, i)
}

/// Reading `i` is the earliest one that lacks a value for some core.
pub open spec fn is_first_narrow<T>(lines: Seq<Reading<T>>, i: int) -> bool {
    is_narrow(lines, i) && forall|j: int| 0 <= j < i ==> !is_narrow(lines, j)
}

/// The series of core `c`: one sample per reading, in the order of the
/// readings.
pub open spec fn series_of_core<T>(lines: Seq<Reading<T>>, c: int) -> CoreSeries<T> {
    CoreSeries {
        times: Seq::new(lines.len(), |i: int| lines[i].time_step),
        temps: Seq::new(lines.len(), |i: int| lines[i].values[c]),
    }
}

/// The core-major form of a run: the series of each core, by ascending core
/// index. Values beyond the core count are left out.
pub open spec fn core_major<T>(lines: Seq<Reading<T>>) -> Seq<CoreSeries<T>> {
    Seq::new(core_count(lines), |c: int| series_of_core(lines, c))
}

} // verus!
