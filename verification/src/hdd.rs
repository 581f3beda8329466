//! The storage report: the drive's temperature, read from the first line of
//! the report that gives it.

use vstd::prelude::*;
use vstd::string::StringSliceAdditionalSpecFns;
use crate::errors::ErrorKind;
use crate::sensors::{count_of, read_count};
use crate::text::{
    field_value, find_byte, first_index, has_prefix, lines, split_lines, starts_with,
    value_after_colon, views,
};

verus! {

/// Whether a line has the shape of a temperature line: the label, a colon,
/// and a value with a space in it.
pub open spec fn is_temperature_line(line: Seq<u8>) -> bool {
    has_prefix(line, "temperature".spec_bytes()) && match value_after_colon(line) {
        Some(value) => first_index(value, 32u8) < value.len(),
        None => false,
    }
}

/// The temperature that the lines of a report give: the number on the first
/// temperature line. Lines of another shape are passed over.
pub open spec fn temperature_in(table: Seq<Seq<u8>>) -> Option<usize>
    decreases table.len(),
{
    if table.len() == 0 {
        None
    } else if is_temperature_line(table[0]) {
        count_of(table[0])
    } else {
        temperature_in(table.drop_first())
    }
}

/// The drive's temperature according to a storage report.
pub open spec fn storage_temperature(report: Seq<u8>) -> Result<usize, ErrorKind> {
    match temperature_in(lines(report)) {
        Some(v) => Ok(v),
        None => Err(ErrorKind::GetNvmeHDDTempFailed),
    }
}

/// Tells whether a line has the shape of a temperature line.
pub fn recognize_temperature_line(line: &[u8]) -> (r: bool)
    ensures
        r == is_temperature_line(line@),
{
    if !starts_with(line, "temperature".as_bytes()) {
        return false;
    }
    match field_value(line) {
        Some(value) => find_byte(value, 32u8) < value.len(),
        None => false,
    }
}

/// Reads the drive's temperature from a storage report.
pub fn get_nvme_hdd_temp(report: &[u8]) -> (r: Result<usize, ErrorKind>)
    ensures
        r == storage_temperature(report@),
{
    let table = split_lines(report);
    let ghost t = views(table@);
    let n: usize = table.len();
    let mut k: usize = 0;
    assert(t.subrange(0, n as int) =~= t);
    while k < n
        invariant
            t == views(table@),
            t == lines(report@),
            n == table.len(),
            k <= n,
            temperature_in(t) == temperature_in(t.subrange(k as int, n as int)),
        decreases n - k,
    {
        proof {
            assert(t.subrange(k as int, n as int)[0] == table@[k as int]@);
            assert(t.subrange(k as int, n as int).drop_first() =~= t.subrange(
                k as int + 1,
                n as int,
            ));
        }
        if recognize_temperature_line(table[k]) {
            return match read_count(table[k]) {
                Some(v) => Ok(v),
                None => Err(ErrorKind::GetNvmeHDDTempFailed),
            };
        }
        k += 1;
    }
    Err(ErrorKind::GetNvmeHDDTempFailed)
}

} // verus!
