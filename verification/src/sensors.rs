//! The sensor report: three temperatures and two fan speeds, read from the
//! labelled lines of the report's text.

use vstd::prelude::*;
use vstd::slice::slice_subrange;
use vstd::string::StringSliceAdditionalSpecFns;
use crate::errors::ErrorKind;
use crate::number::{number_of, parse_usize};
use crate::text::{
    field_value, find_byte, first_index, has_prefix, lines, split_lines, starts_with,
    value_after_colon, views,
};

verus! {

/// One reading of the board's sensors: temperatures in degrees Celsius, fan
/// speeds in revolutions per minute.
#[derive(Clone, Copy, Debug, PartialEq, Eq, Structural)]
pub struct Sensor {
    pub cpu_temp: usize,
    pub mb_temp: usize,
    pub chipset_temp: usize,
    pub cpu_fan_rpm: usize,
    pub chassis_fan_rpm: usize,
}

/// The whole degrees of a temperature line. The value starts with a sign
/// character, which is passed over; the degrees are the number between it
/// and the decimal point.
pub open spec fn temperature_of(line: Seq<u8>) -> Option<usize> {
    match value_after_colon(line) {
        None => None,
        Some(value) => {
            let point = first_index(value, 46u8);
            if 1 <= point < value.len() {
                number_of(value.subrange(1, point as int))
            } else {
                None
            }
        },
    }
}

/// The count that a line gives before a unit: the number between the colon
/// and the first space of the value.
pub open spec fn count_of(line: Seq<u8>) -> Option<usize> {
    match value_after_colon(line) {
        None => None,
        Some(value) => {
            let gap = first_index(value, 32u8);
            if gap < value.len() {
                number_of(value.subrange(0, gap as int))
            } else {
                None
            }
        },
    }
}

/// The reading after one more line of the report. A line is recognised by
/// how it begins; any other line changes nothing.
pub open spec fn read_sensor_line(sensor: Sensor, line: Seq<u8>) -> Result<Sensor, ErrorKind> {
    if has_prefix(line, "CPU Temperature".spec_bytes()) {
        match temperature_of(line) {
            Some(v) => Ok(Sensor { cpu_temp: v, ..sensor }),
            None => Err(ErrorKind::GetTempFailed),
        }
    } else if has_prefix(line, "Motherboard Temperature".spec_bytes()) {
        match temperature_of(line) {
            Some(v) => Ok(Sensor { mb_temp: v, ..sensor }),
            None => Err(ErrorKind::GetTempFailed),
        }
    } else if has_prefix(line, "Chipset Temperature".spec_bytes()) {
        match temperature_of(line) {
            Some(v) => Ok(Sensor { chipset_temp: v, ..sensor }),
            None => Err(ErrorKind::GetTempFailed),
        }
    } else if has_prefix(line, "CPU Fan".spec_bytes()) {
        match count_of(line) {
            Some(v) => Ok(Sensor { cpu_fan_rpm: v, ..sensor }),
            None => Err(ErrorKind::GetRpmFailed),
        }
    } else if has_prefix(line, "Chassis Fan 1".spec_bytes()) {
        match count_of(line) {
            Some(v) => Ok(Sensor { chassis_fan_rpm: v, ..sensor }),
            None => Err(ErrorKind::GetRpmFailed),
        }
    } else {
        Ok(sensor)
    }
}

/// The reading after all lines of a report, taken in order from `sensor`;
/// the first line that cannot be read decides the error.
pub open spec fn read_sensor_lines(sensor: Sensor, table: Seq<Seq<u8>>) -> Result<
    Sensor,
    ErrorKind,
>
    decreases table.len(),
{
    if table.len() == 0 {
        Ok(sensor)
    } else {
        match read_sensor_line(sensor, table[0]) {
            Err(e) => Err(e),
            Ok(next) => read_sensor_lines(next, table.drop_first()),
        }
    }
}

/// The reading that a report gives. What the report does not mention is
/// zero; of a quantity that it mentions twice the later line counts.
pub open spec fn sensor_of(report: Seq<u8>) -> Result<Sensor, ErrorKind> {
    read_sensor_lines(
        Sensor { cpu_temp: 0, mb_temp: 0, chipset_temp: 0, cpu_fan_rpm: 0, chassis_fan_rpm: 0 },
        lines(report),
    )
}

/// Reads the whole degrees of a temperature line.
pub fn get_temperature(line: &[u8]) -> (r: Result<usize, ErrorKind>)
    ensures
        r == match temperature_of(line@) {
            Some(v) => Ok::<usize, ErrorKind>(v),
            None => Err::<usize, ErrorKind>(ErrorKind::GetTempFailed),
        },
{
    let value = match field_value(line) {
        Some(v) => v,
        None => {
            return Err(ErrorKind::GetTempFailed);
        },
    };
    let point: usize = find_byte(value, 46u8);
    if 1 <= point && point < value.len() {
        match parse_usize(slice_subrange(value, 1, point)) {
            Some(v) => Ok(v),
            None => Err(ErrorKind::GetTempFailed),
        }
    } else {
        Err(ErrorKind::GetTempFailed)
    }
}

/// Reads the number that stands before the unit of a line.
pub fn read_count(line: &[u8]) -> (r: Option<usize>)
    ensures
        r == count_of(line@),
{
    let value = match field_value(line) {
        Some(v) => v,
        None => {
            return None;
        },
    };
    let gap: usize = find_byte(value, 32u8);
    if gap < value.len() {
        parse_usize(slice_subrange(value, 0, gap))
    } else {
        None
    }
}

/// Reads the revolutions per minute of a fan line.
pub fn get_rpm(line: &[u8]) -> (r: Result<usize, ErrorKind>)
    ensures
        r == match count_of(line@) {
            Some(v) => Ok::<usize, ErrorKind>(v),
            None => Err::<usize, ErrorKind>(ErrorKind::GetRpmFailed),
        },
{
    match read_count(line) {
        Some(v) => Ok(v),
        None => Err(ErrorKind::GetRpmFailed),
    }
}

/// Takes one more line of a report into a reading.
pub fn update_sensor(sensor: Sensor, line: &[u8]) -> (r: Result<Sensor, ErrorKind>)
    ensures
        r == read_sensor_line(sensor, line@),
{
    let mut next = sensor;
    if starts_with(line, "CPU Temperature".as_bytes()) {
        next.cpu_temp = get_temperature(line)?;
    } else if starts_with(line, "Motherboard Temperature".as_bytes()) {
        next.mb_temp = get_temperature(line)?;
    } else if starts_with(line, "Chipset Temperature".as_bytes()) {
        next.chipset_temp = get_temperature(line)?;
    } else if starts_with(line, "CPU Fan".as_bytes()) {
        next.cpu_fan_rpm = get_rpm(line)?;
    } else if starts_with(line, "Chassis Fan 1".as_bytes()) {
        next.chassis_fan_rpm = get_rpm(line)?;
    }
    Ok(next)
}

/// Reads a sensor report.
pub fn get_sensor_info(report: &[u8]) -> (r: Result<Sensor, ErrorKind>)
    ensures
        r == sensor_of(report@),
{
    let table = split_lines(report);
    let ghost t = views(table@);
    let n: usize = table.len();
    let mut sensor = Sensor {
        cpu_temp: 0,
        mb_temp: 0,
        chipset_temp: 0,
        cpu_fan_rpm: 0,
        chassis_fan_rpm: 0,
    };
    let mut k: usize = 0;
    assert(t.subrange(0, n as int) =~= t);
    while k < n
        invariant
            t == views(table@),
            n == table.len(),
            k <= n,
            sensor_of(report@) == read_sensor_lines(sensor, t.subrange(k as int, n as int)),
        decreases n - k,
    {
        proof {
            assert(t.subrange(k as int, n as int)[0] == table@[k as int]@);
            assert(t.subrange(k as int, n as int).drop_first() =~= t.subrange(
                k as int + 1,
                n as int,
            ));
        }
        match update_sensor(sensor, table[k]) {
            Ok(next) => {
                sensor = next;
            },
            Err(e) => {
                return Err(e);
            },
        }
        k += 1;
    }
    Ok(sensor)
}

proof fn lemma_prefix_byte(line: Seq<u8>, prefix: Seq<u8>, k: int)
    requires
        has_prefix(line, prefix),
        0 <= k < prefix.len(),
    ensures
        line[k] == prefix[k],
{
    assert(line.subrange(0, prefix.len() as int)[k] == line[k]);
}

/// No line begins with two of the labels by which the lines of a report are
/// recognised: a line gives at most one quantity.
pub proof fn sensor_labels_exclude_each_other(line: Seq<u8>)
    ensures
        has_prefix(line, "CPU Temperature".spec_bytes()) ==> !has_prefix(
            line,
            "Motherboard Temperature".spec_bytes(),
        ) && !has_prefix(line, "Chipset Temperature".spec_bytes()) && !has_prefix(
            line,
            "CPU Fan".spec_bytes(),
        ) && !has_prefix(line, "Chassis Fan 1".spec_bytes()),
        has_prefix(line, "Motherboard Temperature".spec_bytes()) ==> !has_prefix(
            line,
            "Chipset Temperature".spec_bytes(),
        ) && !has_prefix(line, "CPU Fan".spec_bytes()) && !has_prefix(
            line,
            "Chassis Fan 1".spec_bytes(),
        ),
        has_prefix(line, "Chipset Temperature".spec_bytes()) ==> !has_prefix(
            line,
            "CPU Fan".spec_bytes(),
        ) && !has_prefix(line, "Chassis Fan 1".spec_bytes()),
        has_prefix(line, "CPU Fan".spec_bytes()) ==> !has_prefix(
            line,
            "Chassis Fan 1".spec_bytes(),
        ),
{
    broadcast use vstd::string::group_string_axioms;

    reveal_strlit("CPU Temperature");
    reveal_strlit("Motherboard Temperature");
    reveal_strlit("Chipset Temperature");
    reveal_strlit("CPU Fan");
    reveal_strlit("Chassis Fan 1");
    let cpu_temp = "CPU Temperature".spec_bytes();
    let mb_temp = "Motherboard Temperature".spec_bytes();
    let chipset_temp = "Chipset Temperature".spec_bytes();
    let cpu_fan = "CPU Fan".spec_bytes();
    let chassis_fan = "Chassis Fan 1".spec_bytes();
    assert(vstd::string::is_ascii("CPU Temperature"));
    assert(vstd::string::is_ascii("Motherboard Temperature"));
    assert(vstd::string::is_ascii("Chipset Temperature"));
    assert(vstd::string::is_ascii("CPU Fan"));
    assert(vstd::string::is_ascii("Chassis Fan 1"));
    assert(cpu_temp.len() == 15 && cpu_temp[0] == 67 && cpu_temp[4] == 84);
    assert(mb_temp.len() == 23 && mb_temp[0] == 77);
    assert(chipset_temp.len() == 19 && chipset_temp[0] == 67 && chipset_temp[1] == 104
        && chipset_temp[2] == 105);
    assert(cpu_fan.len() == 7 && cpu_fan[0] == 67 && cpu_fan[1] == 80 && cpu_fan[4] == 70);
    assert(chassis_fan.len() == 13 && chassis_fan[0] == 67 && chassis_fan[1] == 104
        && chassis_fan[2] == 97);
    if has_prefix(line, cpu_temp) {
        lemma_prefix_byte(line, cpu_temp, 0);
        lemma_prefix_byte(line, cpu_temp, 1);
        lemma_prefix_byte(line, cpu_temp, 4);
    }
    if has_prefix(line, mb_temp) {
        lemma_prefix_byte(line, mb_temp, 0);
    }
    if has_prefix(line, chipset_temp) {
        lemma_prefix_byte(line, chipset_temp, 0);
        lemma_prefix_byte(line, chipset_temp, 1);
        lemma_prefix_byte(line, chipset_temp, 2);
    }
    if has_prefix(line, cpu_fan) {
        lemma_prefix_byte(line, cpu_fan, 0);
        lemma_prefix_byte(line, cpu_fan, 1);
        lemma_prefix_byte(line, cpu_fan, 4);
    }
    if has_prefix(line, chassis_fan) {
        lemma_prefix_byte(line, chassis_fan, 0);
        lemma_prefix_byte(line, chassis_fan, 1);
        lemma_prefix_byte(line, chassis_fan, 2);
    }
}

} // verus!
