//! Aggregate throughput of the physical disks, from Linux block statistics.

use vstd::prelude::*;
use crate::text::{
    chars_of, lines_of, parse_u64_chars, runs_exec, str_eq, text_lines, unsigned_text, views, words,
};

verus! {

broadcast use vstd::seq_lib::group_seq_properties;

pub const KERNEL_SECTOR_SIZE: u64 = 512;

/// A counter field of `/proc/diskstats` (what does not parse counts as 0).
pub open spec fn counter(field: Seq<char>) -> nat {
    match unsigned_text(field) {
        Some(n) => if n <= u64::MAX { n } else { 0 },
        None => 0,
    }
}

/// Whether a line is about one of `devices`, which names the disk in its
/// third field, and has the ten fields up to the sectors written.
pub open spec fn counted(fields: Seq<Seq<char>>, devices: Seq<Seq<char>>) -> bool {
    fields.len() >= 10 && devices.contains(fields[2])
}

/// Bytes read and written by `devices`, summed over the lines (sectors of
/// 512 bytes).
pub open spec fn disk_totals(lines: Seq<Seq<char>>, devices: Seq<Seq<char>>) -> (int, int)
    decreases lines.len(),
{
    if lines.len() == 0 {
        (0, 0)
    } else {
        let before = disk_totals(lines.drop_last(), devices);
        let fields = words(lines.last());
        if counted(fields, devices) {
            (
                before.0 + counter(fields[5]) * KERNEL_SECTOR_SIZE,
                before.1 + counter(fields[9]) * KERNEL_SECTOR_SIZE,
            )
        } else {
            before
        }
    }
}

proof fn lemma_totals_nonnegative(lines: Seq<Seq<char>>, devices: Seq<Seq<char>>)
    ensures
        disk_totals(lines, devices).0 >= 0,
        disk_totals(lines, devices).1 >= 0,
    decreases lines.len(),
{
    if lines.len() > 0 {
        lemma_totals_nonnegative(lines.drop_last(), devices);
    }
}

pub open spec fn capped(n: int) -> u64 {
    if n > u64::MAX { u64::MAX } else { n as u64 }
}

fn saturating_add_bytes(total: u64, sectors: u64) -> (r: u64)
    ensures
        r == capped(total + sectors * KERNEL_SECTOR_SIZE),
{
    if sectors > u64::MAX / KERNEL_SECTOR_SIZE {
        return u64::MAX;
    }
    let bytes = sectors * KERNEL_SECTOR_SIZE;
    if total > u64::MAX - bytes {
        u64::MAX
    } else {
        total + bytes
    }
}

fn listed(devices: &[String], name: &[char]) -> (r: bool)
    ensures
        r == crate::text::string_views(devices@).contains(name@),
{
    let mut i: usize = 0;
    while i < devices.len()
        invariant
            i <= devices@.len(),
            forall|j: int| 0 <= j < i ==> devices@[j]@ != name@,
        decreases devices@.len() - i,
    {
        if crate::text::seq_eq(&chars_of(devices[i].as_str()), name) {
            assert(crate::text::string_views(devices@)[i as int] == name@);
            return true;
        }
        i += 1;
    }
    proof {
        if crate::text::string_views(devices@).contains(name@) {
            let j = choose|j: int| 0 <= j < devices@.len() && crate::text::string_views(devices@)[j] == name@;
            assert(devices@[j]@ == name@);
        }
    }
    false
}

/// Bytes read and written by `devices` since boot, from `/proc/diskstats`
/// (each total capped at `u64::MAX`).
pub fn parse_diskstats(diskstats: &str, devices: &[String]) -> (r: (u64, u64))
    ensures
        r.0 == capped(disk_totals(text_lines(diskstats@), crate::text::string_views(devices@)).0),
        r.1 == capped(disk_totals(text_lines(diskstats@), crate::text::string_views(devices@)).1),
{
    let lines = lines_of(diskstats);
    let ghost ls = views(lines@);
    let ghost devs = crate::text::string_views(devices@);
    let mut read: u64 = 0;
    let mut written: u64 = 0;
    let mut i: usize = 0;
    while i < lines.len()
        invariant
            i <= lines@.len(),
            ls == views(lines@),
            devs == crate::text::string_views(devices@),
            read == capped(disk_totals(ls.take(i as int), devs).0),
            written == capped(disk_totals(ls.take(i as int), devs).1),
        decreases lines@.len() - i,
    {
        proof {
            assert(ls.take(i + 1).drop_last() =~= ls.take(i as int));
            assert(ls.take(i + 1).last() == lines@[i as int]@);
        }
        let fields = runs_exec(lines[i].as_slice(), false);
        if fields.len() >= 10 && listed(devices, fields[2].as_slice()) {
            let sectors_read = match parse_u64_chars(fields[5].as_slice()) {
                Some(n) => n,
                None => 0,
            };
            let sectors_written = match parse_u64_chars(fields[9].as_slice()) {
                Some(n) => n,
                None => 0,
            };
            proof {
                let before = disk_totals(ls.take(i as int), devs);
                lemma_totals_nonnegative(ls.take(i as int), devs);
                assert(views(fields@)[5] == fields@[5]@);
                assert(views(fields@)[9] == fields@[9]@);
                assert(views(fields@)[2] == fields@[2]@);
                assert(capped(capped(before.0) + sectors_read * KERNEL_SECTOR_SIZE) == capped(before.0 + sectors_read * KERNEL_SECTOR_SIZE));
                assert(capped(capped(before.1) + sectors_written * KERNEL_SECTOR_SIZE) == capped(before.1 + sectors_written * KERNEL_SECTOR_SIZE));
            }
            read = saturating_add_bytes(read, sectors_read);
            written = saturating_add_bytes(written, sectors_written);
        } else {
            proof {
                if fields@.len() >= 10 {
                    assert(views(fields@)[2] == fields@[2]@);
                }
            }
        }
        i += 1;
    }
    assert(ls.take(i as int) =~= ls);
    (read, written)
}

} // verus!
