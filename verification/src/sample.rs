//! One round of sampling: the cores, the sensors and the drive, put
//! together from the four texts that the round read.

use vstd::prelude::*;
use crate::cpu::{collect_cpu_info, cpu_sampling, CpuInfoEntry, CpuStat};
use crate::errors::ErrorKind;
use crate::hdd::{get_nvme_hdd_temp, storage_temperature};
use crate::sensors::{get_sensor_info, sensor_of, Sensor};

verus! {

/// What one round of sampling recorded.
#[derive(Debug, PartialEq, Eq)]
pub struct PemonEntry {
    /// One entry for each core, in the order of the cores.
    pub cpu_info: Vec<CpuInfoEntry>,
    pub sensor: Sensor,
    /// The drive's temperature in degrees Celsius.
    pub hdd_temp: usize,
}

/// What a round records, given its texts and the snapshots retained from
/// the round before: the entries of the cores, the sensor reading and the
/// drive's temperature. The cores are read first, then the sensors, then the
/// drive; the first that fails decides the error.
pub open spec fn round_of(
    cpuinfo: Seq<u8>,
    stat: Seq<u8>,
    sensors: Seq<u8>,
    storage: Seq<u8>,
    previous: Seq<CpuStat>,
) -> Result<(Seq<CpuInfoEntry>, Sensor, usize), ErrorKind> {
    match cpu_sampling(cpuinfo, stat, previous) {
        Err(e) => Err(e),
        Ok(cores) => match sensor_of(sensors) {
            Err(e) => Err(e),
            Ok(sensor) => match storage_temperature(storage) {
                Err(e) => Err(e),
                Ok(temp) => Ok((cores.0, sensor, temp)),
            },
        },
    }
}

/// The snapshots that a round retains: the fresh ones where the cores could
/// be sampled, whatever became of the sensors and the drive; the previous
/// ones otherwise.
pub open spec fn retained_after(cpuinfo: Seq<u8>, stat: Seq<u8>, previous: Seq<CpuStat>) -> Seq<
    CpuStat,
> {
    match cpu_sampling(cpuinfo, stat, previous) {
        Ok(cores) => cores.1,
        Err(_) => previous,
    }
}

/// Puts one sample together. `cpuinfo` is the descriptor text, `stat` the
/// counter table, `sensors` the sensor report and `storage` the storage
/// report; `cpu_stats` holds the snapshots of the round before and is
/// brought up to date.
pub fn collect(
    cpuinfo: &[u8],
    stat: &[u8],
    sensors: &[u8],
    storage: &[u8],
    cpu_stats: &mut Vec<CpuStat>,
) -> (r: Result<PemonEntry, ErrorKind>)
    ensures
        match r {
            Ok(entry) => round_of(cpuinfo@, stat@, sensors@, storage@, old(cpu_stats)@) == Ok::<
                (Seq<CpuInfoEntry>, Sensor, usize),
                ErrorKind,
            >((entry.cpu_info@, entry.sensor, entry.hdd_temp)),
            Err(e) => round_of(cpuinfo@, stat@, sensors@, storage@, old(cpu_stats)@) == Err::<
                (Seq<CpuInfoEntry>, Sensor, usize),
                ErrorKind,
            >(e),
        },
        final(cpu_stats)@ == retained_after(cpuinfo@, stat@, old(cpu_stats)@),
{
    let cpu_info = match collect_cpu_info(cpuinfo, stat, cpu_stats) {
        Ok(c) => c,
        Err(e) => {
            return Err(e);
        },
    };
    let sensor = match get_sensor_info(sensors) {
        Ok(s) => s,
        Err(e) => {
            return Err(e);
        },
    };
    let hdd_temp = match get_nvme_hdd_temp(storage) {
        Ok(t) => t,
        Err(e) => {
            return Err(e);
        },
    };
    Ok(PemonEntry { cpu_info, sensor, hdd_temp })
}

} // verus!
