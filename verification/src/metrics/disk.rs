use vstd::prelude::*;

use crate::metrics::cpu::{dec, saturating_difference};
use crate::scan::{
    all_digits, char_seqs, ends_in_digit, find_last, has_prefix, is_digit, parse_u64,
    parse_unsigned, rsplit_once, split_lines, split_whitespace, split_whitespace_chars,
    starts_with_chars, string_from_chars, text_lines,
};
use crate::diagnostics::{traced, TraceCollector, TraceEvent};
use crate::text::{append_decimal, append_str};

verus! {

broadcast use vstd::string::group_string_axioms;

/// The sector counters of the counted block devices in one `/proc/diskstats` reading.
#[derive(Clone, Debug, PartialEq, Eq)]
pub struct DiskSample {
    pub devices: Vec<DiskDeviceCounters>,
}

/// The cumulative sectors read and written by one device.
#[derive(Clone, Debug, PartialEq, Eq)]
pub struct DiskDeviceCounters {
    pub name: String,
    pub sectors_read: u64,
    pub sectors_written: u64,
}

/// A device reading with its name as characters.
pub open spec fn device_view(device: DiskDeviceCounters) -> (Seq<char>, u64, u64) {
    (device.name@, device.sectors_read, device.sectors_written)
}

pub open spec fn devices_view(devices: Seq<DiskDeviceCounters>) -> Seq<(Seq<char>, u64, u64)> {
    devices.map_values(|device: DiskDeviceCounters| device_view(device))
}

/// Why a `/proc/diskstats` reading could not be parsed.
#[derive(Clone, Debug, PartialEq, Eq)]
pub enum DiskParseError {
    InvalidCounter { line: usize, value: String },
}

impl DiskParseError {
    /// The line number and the rejected text.
    pub open spec fn spec_failure(&self) -> (nat, Seq<char>) {
        match self {
            DiskParseError::InvalidCounter { line, value } => (*line as nat, value@),
        }
    }

    pub open spec fn spec_message(&self) -> Seq<char> {
        "invalid disk counter '"@ + self.spec_failure().1 + "' on line "@ + dec(
            self.spec_failure().0,
        )
    }

    /// The user-facing description of the error.
    pub fn message(&self) -> (message: String)
        ensures
            message@ == self.spec_message(),
    {
        let mut text = String::new();
        match self {
            DiskParseError::InvalidCounter { line, value } => {
                append_str(&mut text, "invalid disk counter '");
                append_str(&mut text, value.as_str());
                append_str(&mut text, "' on line ");
                append_decimal(&mut text, *line as u64);
            },
        }
        proof {
            assert(text@ =~= self.spec_message());
        }
        text
    }
}

/// A partition: for `nvme` and `mmcblk` devices, a name whose text after its last `p` is
/// all digits; for other devices, a name ending in a digit.
pub open spec fn is_partition(name: Seq<char>) -> bool {
    if has_prefix(name, "nvme"@) || has_prefix(name, "mmcblk"@) {
        match rsplit_once(name, 'p') {
            Some(parts) => all_digits(parts.1),
            None => false,
        }
    } else {
        ends_in_digit(name)
    }
}

/// Partitions and loop, RAM, floppy, optical, device-mapper, software-RAID and network
/// block devices, which would duplicate or distort the I/O of whole disks.
pub open spec fn is_excluded_device(name: Seq<char>) -> bool {
    ||| is_partition(name)
    ||| has_prefix(name, "loop"@)
    ||| has_prefix(name, "ram"@)
    ||| has_prefix(name, "zram"@)
    ||| has_prefix(name, "fd"@)
    ||| has_prefix(name, "sr"@)
    ||| has_prefix(name, "dm-"@)
    ||| has_prefix(name, "md"@)
    ||| has_prefix(name, "nbd"@)
}

fn all_digit_chars(s: &[char]) -> (digits: bool)
    ensures
        digits == all_digits(s@),
{
    let mut i: usize = 0;
    while i < s.len()
        invariant
            i <= s@.len(),
            forall|j: int| 0 <= j < i ==> is_digit(#[trigger] s@[j]),
        decreases s@.len() - i,
    {
        if !('0' <= s[i] && s[i] <= '9') {
            proof {
                assert(!is_digit(s@[i as int]));
            }
            return false;
        }
        i = i + 1;
    }
    true
}

fn partition(name: &[char]) -> (partition: bool)
    ensures
        partition == is_partition(name@),
{
    if starts_with_chars(name, "nvme") || starts_with_chars(name, "mmcblk") {
        let found = find_last(name, 'p');
        if found.is_none() {
            return false;
        }
        let p = found.unwrap();
        let len = name.len();
        proof {
            assert(p < len);
        }
        return all_digit_chars(&name[p + 1..len]);
    }
    let len = name.len();
    len > 0 && '0' <= name[len - 1] && name[len - 1] <= '9'
}

fn excluded_device(name: &[char]) -> (excluded: bool)
    ensures
        excluded == is_excluded_device(name@),
{
    partition(name) || starts_with_chars(name, "loop") || starts_with_chars(name, "ram")
        || starts_with_chars(name, "zram") || starts_with_chars(name, "fd") || starts_with_chars(
        name,
        "sr",
    ) || starts_with_chars(name, "dm-") || starts_with_chars(name, "md") || starts_with_chars(
        name,
        "nbd",
    )
}

/// What one line of `/proc/diskstats` contributes.
pub enum DiskLineOutcome {
    Skip,
    Device((Seq<char>, u64, u64)),
    Fail((nat, Seq<char>)),
}

/// A line counts when it has at least ten fields and its device (the third field) is not
/// excluded; sectors read are the sixth field and sectors written the tenth. `line` is the
/// one-based line number.
pub open spec fn spec_disk_line(text: Seq<char>, line: nat) -> DiskLineOutcome {
    let tokens = split_whitespace(text);
    if tokens.len() < 10 || is_excluded_device(tokens[2]) {
        DiskLineOutcome::Skip
    } else {
        match parse_unsigned(tokens[5], u64::MAX as nat) {
            None => DiskLineOutcome::Fail((line, tokens[5])),
            Some(read) => match parse_unsigned(tokens[9], u64::MAX as nat) {
                None => DiskLineOutcome::Fail((line, tokens[9])),
                Some(written) => DiskLineOutcome::Device((tokens[2], read as u64, written as u64)),
            },
        }
    }
}

/// The devices of the given lines in order, or the error of the first line that fails.
pub open spec fn spec_disk_lines(lines: Seq<Seq<char>>) -> Result<Seq<(Seq<char>, u64, u64)>, (nat, Seq<char>)>
    decreases lines.len(),
{
    if lines.len() == 0 {
        Ok(Seq::empty())
    } else {
        match spec_disk_lines(lines.drop_last()) {
            Err(failure) => Err(failure),
            Ok(devices) => match spec_disk_line(lines.last(), lines.len()) {
                DiskLineOutcome::Skip => Ok(devices),
                DiskLineOutcome::Device(device) => Ok(devices.push(device)),
                DiskLineOutcome::Fail(failure) => Err(failure),
            },
        }
    }
}

pub open spec fn spec_parse_proc_diskstats(input: Seq<char>) -> Result<Seq<(Seq<char>, u64, u64)>, (nat, Seq<char>)> {
    spec_disk_lines(text_lines(input))
}

fn parse_disk_line(line: &[char], number: usize) -> (outcome: Option<Result<DiskDeviceCounters, DiskParseError>>)
    ensures
        match spec_disk_line(line@, number as nat) {
            DiskLineOutcome::Skip => outcome is None,
            DiskLineOutcome::Device(device) => outcome matches Some(Ok(counters)) && device_view(
                counters,
            ) == device,
            DiskLineOutcome::Fail(failure) => outcome matches Some(Err(error)) && error.spec_failure()
                == failure,
        },
{
    let tokens = split_whitespace_chars(line);
    let ghost parts = char_seqs(tokens@);
    if tokens.len() < 10 {
        return None;
    }
    proof {
        assert(parts[2] == tokens@[2]@);
        assert(parts[5] == tokens@[5]@);
        assert(parts[9] == tokens@[9]@);
    }
    let name = tokens[2].as_slice();
    if excluded_device(name) {
        return None;
    }
    let read_text = tokens[5].as_slice();
    let sectors_read = match parse_u64(read_text) {
        Some(value) => value,
        None => {
            return Some(
                Err(DiskParseError::InvalidCounter { line: number, value: string_from_chars(read_text) }),
            );
        },
    };
    let written_text = tokens[9].as_slice();
    let sectors_written = match parse_u64(written_text) {
        Some(value) => value,
        None => {
            return Some(
                Err(
                    DiskParseError::InvalidCounter {
                        line: number,
                        value: string_from_chars(written_text),
                    },
                ),
            );
        },
    };
    Some(Ok(DiskDeviceCounters { name: string_from_chars(name), sectors_read, sectors_written }))
}

proof fn lemma_failure_persists(lines: Seq<Seq<char>>, k: int)
    requires
        0 <= k <= lines.len(),
        spec_disk_lines(lines.take(k)) is Err,
    ensures
        spec_disk_lines(lines) == spec_disk_lines(lines.take(k)),
    decreases lines.len() - k,
{
    if k < lines.len() {
        assert(lines.take(k + 1).drop_last() == lines.take(k));
        lemma_failure_persists(lines, k + 1);
    } else {
        assert(lines.take(k) == lines);
    }
}

/// Reads the sector counters of each counted device of `/proc/diskstats`, in order.
pub fn parse_proc_diskstats(input: &str) -> (result: Result<DiskSample, DiskParseError>)
    ensures
        match spec_parse_proc_diskstats(input@) {
            Ok(devices) => result matches Ok(sample) && devices_view(sample.devices@) == devices,
            Err(failure) => result matches Err(error) && error.spec_failure() == failure,
        },
{
    let lines = split_lines(input);
    let ghost all = text_lines(input@);
    let mut devices: Vec<DiskDeviceCounters> = Vec::new();
    let mut i: usize = 0;
    proof {
        assert(devices_view(devices@) =~= Seq::<(Seq<char>, u64, u64)>::empty());
        assert(all.take(0) =~= Seq::<Seq<char>>::empty());
    }
    while i < lines.len()
        invariant
            i <= lines@.len(),
            all == char_seqs(lines@),
            all == text_lines(input@),
            spec_disk_lines(all.take(i as int)) == Ok::<
                Seq<(Seq<char>, u64, u64)>,
                (nat, Seq<char>),
            >(devices_view(devices@)),
        decreases lines@.len() - i,
    {
        proof {
            assert(all.take(i as int + 1).drop_last() == all.take(i as int));
            assert(all.take(i as int + 1).last() == lines@[i as int]@);
        }
        match parse_disk_line(lines[i].as_slice(), i + 1) {
            None => {},
            Some(Ok(device)) => {
                let ghost before = devices@;
                devices.push(device);
                proof {
                    assert(devices_view(devices@) =~= devices_view(before).push(device_view(device)));
                }
            },
            Some(Err(error)) => {
                proof {
                    lemma_failure_persists(all, i as int + 1);
                }
                return Err(error);
            },
        }
        i = i + 1;
    }
    proof {
        assert(all.take(lines@.len() as int) == all);
    }
    Ok(DiskSample { devices })
}

/// The sum of the sectors-read counters.
pub open spec fn spec_read_total(devices: Seq<DiskDeviceCounters>) -> int
    decreases devices.len(),
{
    if devices.len() == 0 {
        0
    } else {
        spec_read_total(devices.drop_last()) + devices.last().sectors_read
    }
}

/// The sum of the sectors-written counters.
pub open spec fn spec_written_total(devices: Seq<DiskDeviceCounters>) -> int
    decreases devices.len(),
{
    if devices.len() == 0 {
        0
    } else {
        spec_written_total(devices.drop_last()) + devices.last().sectors_written
    }
}

proof fn lemma_totals_nonnegative(devices: Seq<DiskDeviceCounters>)
    ensures
        spec_read_total(devices) >= 0,
        spec_written_total(devices) >= 0,
    decreases devices.len(),
{
    if devices.len() > 0 {
        lemma_totals_nonnegative(devices.drop_last());
    }
}

proof fn lemma_totals_grow(devices: Seq<DiskDeviceCounters>, k: int)
    requires
        0 <= k <= devices.len(),
    ensures
        spec_read_total(devices.take(k)) <= spec_read_total(devices),
        spec_written_total(devices.take(k)) <= spec_written_total(devices),
    decreases devices.len() - k,
{
    lemma_totals_nonnegative(devices.take(k));
    if k < devices.len() {
        assert(devices.take(k + 1).drop_last() == devices.take(k));
        lemma_totals_grow(devices, k + 1);
    } else {
        assert(devices.take(k) == devices);
    }
}

fn sector_totals(sample: &DiskSample) -> (totals: Option<(u64, u64)>)
    ensures
        totals is Some <==> (spec_read_total(sample.devices@) <= u64::MAX && spec_written_total(
            sample.devices@,
        ) <= u64::MAX),
        totals matches Some(pair) ==> pair.0 == spec_read_total(sample.devices@) && pair.1
            == spec_written_total(sample.devices@),
{
    let mut read: u64 = 0;
    let mut written: u64 = 0;
    let mut i: usize = 0;
    while i < sample.devices.len()
        invariant
            i <= sample.devices@.len(),
            read == spec_read_total(sample.devices@.take(i as int)),
            written == spec_written_total(sample.devices@.take(i as int)),
        decreases sample.devices@.len() - i,
    {
        let device = &sample.devices[i];
        proof {
            assert(sample.devices@.take(i as int + 1).drop_last() == sample.devices@.take(i as int));
            lemma_totals_grow(sample.devices@, i as int + 1);
            lemma_totals_nonnegative(sample.devices@.take(i as int));
        }
        read = match read.checked_add(device.sectors_read) {
            Some(sum) => sum,
            None => {
                return None;
            },
        };
        written = match written.checked_add(device.sectors_written) {
            Some(sum) => sum,
            None => {
                return None;
            },
        };
        i = i + 1;
    }
    proof {
        assert(sample.devices@.take(sample.devices@.len() as int) == sample.devices@);
    }
    Some((read, written))
}

/// How many sectors all counted devices read and wrote between two readings; a total that
/// went down counts as zero.
#[derive(Clone, Copy, Debug, PartialEq, Eq, Structural)]
pub struct DiskSectorDeltas {
    pub read: u64,
    pub written: u64,
}

/// The sector deltas between two readings, or `None` where a reading's totals do not fit a
/// `u64`.
pub open spec fn spec_sector_deltas(previous: Seq<DiskDeviceCounters>, current: Seq<DiskDeviceCounters>) -> Option<
    DiskSectorDeltas,
> {
    if spec_read_total(previous) <= u64::MAX && spec_written_total(previous) <= u64::MAX && spec_read_total(current)
        <= u64::MAX && spec_written_total(current) <= u64::MAX {
        Some(
            DiskSectorDeltas {
                read: saturating_difference(spec_read_total(current), spec_read_total(previous)),
                written: saturating_difference(spec_written_total(current), spec_written_total(previous)),
            },
        )
    } else {
        None
    }
}

/// The sector deltas between two readings, or `None` where a reading's totals do not fit a
/// `u64`.
pub fn disk_sector_deltas(previous: &DiskSample, current: &DiskSample) -> (deltas: Option<
    DiskSectorDeltas,
>)
    ensures
        deltas == spec_sector_deltas(previous.devices@, current.devices@),
        deltas is Some <==> (spec_read_total(previous.devices@) <= u64::MAX && spec_written_total(
            previous.devices@,
        ) <= u64::MAX && spec_read_total(current.devices@) <= u64::MAX && spec_written_total(
            current.devices@,
        ) <= u64::MAX),
        deltas matches Some(d) ==> d.read == saturating_difference(
            spec_read_total(current.devices@),
            spec_read_total(previous.devices@),
        ) && d.written == saturating_difference(
            spec_written_total(current.devices@),
            spec_written_total(previous.devices@),
        ),
{
    let before = match sector_totals(previous) {
        Some(totals) => totals,
        None => {
            return None;
        },
    };
    let after = match sector_totals(current) {
        Some(totals) => totals,
        None => {
            return None;
        },
    };
    Some(
        DiskSectorDeltas {
            read: after.0.saturating_sub(before.0),
            written: after.1.saturating_sub(before.1),
        },
    )
}

/// Why two disk readings cannot be compared.
#[derive(Clone, Copy, Debug, PartialEq, Eq, Structural)]
pub enum DiskActivityError {
    InvalidElapsed,
}

impl DiskActivityError {
    pub fn message(&self) -> (message: String)
        ensures
            message@ == "disk elapsed duration must be positive"@,
    {
        let mut text = String::new();
        append_str(&mut text, "disk elapsed duration must be positive");
        proof {
            assert(text@ =~= "disk elapsed duration must be positive"@);
        }
        text
    }
}


/// What one disk reading gave.
#[derive(Clone, Copy, Debug, PartialEq, Eq, Structural)]
pub enum DiskReading {
    /// The first reading, which only primes the sampler.
    Primed { device_count: usize },
    /// A later reading compared with the one before it: the sector deltas, or `None` where
    /// a reading's totals do not fit a `u64`.
    Compared(Option<DiskSectorDeltas>),
}

/// Why a disk reading failed.
#[derive(Clone, Debug, PartialEq, Eq)]
pub enum DiskSamplerError {
    /// `/proc/diskstats` could not be read; the text says why.
    Io(String),
    Parse(DiskParseError),
    Activity(DiskActivityError),
}

impl DiskSamplerError {
    /// The user-facing description of the error.
    pub fn message(&self) -> (message: String)
        ensures
            self matches DiskSamplerError::Io(reason) ==> message@ == "failed to read /proc/diskstats: "@
                + reason@,
            self matches DiskSamplerError::Parse(error) ==> message@ == error.spec_message(),
            self is Activity ==> message@ == "disk elapsed duration must be positive"@,
    {
        match self {
            DiskSamplerError::Io(reason) => {
                let mut text = String::new();
                append_str(&mut text, "failed to read /proc/diskstats: ");
                append_str(&mut text, reason.as_str());
                text
            },
            DiskSamplerError::Parse(error) => error.message(),
            DiskSamplerError::Activity(error) => error.message(),
        }
    }
}

/// Keeps the last `/proc/diskstats` reading so that each new one can be compared with it.
#[derive(Clone, Debug)]
pub struct DiskSampler {
    previous: Option<DiskSample>,
}

/// The trace message for a sampler primed with `count` items; `unit` names them, after a
/// space.
pub open spec fn primed_message(count: nat, unit: Seq<char>) -> Seq<char> {
    "primed with "@ + dec(count) + unit
}

impl DiskSampler {
    /// The reading kept from last time, if any.
    pub closed spec fn spec_previous(&self) -> Option<DiskSample> {
        self.previous
    }

    /// A sampler that has seen no reading yet.
    pub fn new() -> (sampler: DiskSampler)
        ensures
            sampler.spec_previous() is None,
    {
        DiskSampler { previous: None }
    }

    /// Parses a `/proc/diskstats` reading. The first one primes the sampler and is traced
    /// under `metrics.disk`; each later one is compared with the one kept from last time.
    /// Either way the reading is kept. A reading that does not parse changes nothing.
    pub fn observe_proc_diskstats(&mut self, input: &str, traces: &mut TraceCollector) -> (result: Result<
        DiskReading,
        DiskSamplerError,
    >)
        ensures
            final(traces).spec_enabled() == old(traces).spec_enabled(),
            match spec_parse_proc_diskstats(input@) {
                Err(failure) => {
                    &&& result matches Err(DiskSamplerError::Parse(error)) && error.spec_failure() == failure
                    &&& final(self).spec_previous() == old(self).spec_previous()
                    &&& final(traces).spec_events() == old(traces).spec_events()
                },
                Ok(devices) => {
                    &&& final(self).spec_previous() matches Some(current) && devices_view(current.devices@)
                        == devices
                    &&& match old(self).spec_previous() {
                        None => {
                            &&& result == Ok::<DiskReading, DiskSamplerError>(
                                DiskReading::Primed { device_count: devices.len() as usize },
                            )
                            &&& traced(
                                *old(traces),
                                *final(traces),
                                "metrics.disk"@,
                                primed_message(devices.len(), " devices"@),
                            )
                        },
                        Some(previous) => {
                            &&& result == Ok::<DiskReading, DiskSamplerError>(
                                DiskReading::Compared(
                                    spec_sector_deltas(
                                        previous.devices@,
                                        final(self).spec_previous()->0.devices@,
                                    ),
                                ),
                            )
                            &&& final(traces).spec_events() == old(traces).spec_events()
                        },
                    }
                },
            },
    {
        let current = match parse_proc_diskstats(input) {
            Ok(sample) => sample,
            Err(error) => return Err(DiskSamplerError::Parse(error)),
        };
        proof {
            assert(devices_view(current.devices@).len() == current.devices@.len());
        }
        match &self.previous {
            None => {
                let device_count = current.devices.len();
                let mut message = String::new();
                append_str(&mut message, "primed with ");
                append_decimal(&mut message, device_count as u64);
                append_str(&mut message, " devices");
                proof {
                    assert(message@ =~= primed_message(device_count as nat, " devices"@));
                }
                self.previous = Some(current);
                traces.record(TraceEvent::from_text(String::from_str("metrics.disk"), message));
                Ok(DiskReading::Primed { device_count })
            },
            Some(previous) => {
                let deltas = disk_sector_deltas(previous, &current);
                self.previous = Some(current);
                Ok(DiskReading::Compared(deltas))
            },
        }
    }
}

impl Default for DiskSampler {
    fn default() -> (sampler: DiskSampler)
        ensures
            sampler.spec_previous() is None,
    {
        DiskSampler::new()
    }
}

} // verus!
