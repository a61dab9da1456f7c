//! The time-major input: one record per time step.

use vstd::prelude::*;
use crate::model::Reading;

verus! {

/// One line of measurements: the time step at which it was taken and one
/// temperature per core, in core order.
///
/// The temperature type is left to the caller. Reshaping only moves values
/// around, so any `Copy` type will do.
#[derive(Debug, Clone, PartialEq)]
pub struct TemperatureLine<T> {
    pub time_step: u64,
    pub readings: Vec<T>,
}

impl<T> View for TemperatureLine<T> {
    type V = Reading<T>;

    open spec fn view(&self) -> Reading<T> {
        Reading { time_step: self.time_step, values: self.readings@ }
    }
}

/// The model of a run of lines: the view of each line, in order.
pub open spec fn lines_of<T>(lines: Seq<TemperatureLine<T>>) -> Seq<Reading<T>> {
    lines.map_values(|line: TemperatureLine<T>| line@)
}

} // verus!
