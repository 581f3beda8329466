use vstd::prelude::*;

verus! {

/// Every way in which a step of a sampling session can fail.
#[derive(Clone, Copy, Debug, PartialEq, Eq, Structural)]
pub enum ErrorKind {
    /// A frequency line has no separator, or no decimal number after it.
    FrequencyLineMalformed,
    /// The counter table has no line for the core that was asked for.
    CounterLineNotFound,
    /// The counter line of a core lacks a field, or a field is not a number.
    CounterParseError,
    /// Two snapshots of a core show no elapsed time between them.
    ZeroIntervalCounters,
    /// There are fewer retained snapshots than cores to sample.
    CoreCountMismatch,
    /// A temperature line of the sensor report cannot be read.
    GetTempFailed,
    /// A fan line of the sensor report cannot be read.
    GetRpmFailed,
    /// The storage report holds no readable temperature.
    GetNvmeHDDTempFailed,
    /// A sampling interval of zero was asked for.
    ZeroInterval,
    /// Statistics were asked of a session without samples.
    EmptySessionLog,
}

} // verus!
