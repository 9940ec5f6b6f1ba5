use vstd::prelude::*;

use crate::scan::{
    char_seqs, has_prefix, is_digit, parse_u64, parse_unsigned, parse_usize, split_lines,
    split_whitespace, split_whitespace_chars, starts_with_chars, string_from_chars, text_lines,
};
use crate::diagnostics::{traced, TraceCollector, TraceEvent};
use crate::metrics::disk::primed_message;
use crate::text::{append_decimal, append_str, chars_of, decimal};

verus! {

broadcast use vstd::string::group_string_axioms;

/// The per-core lines of one `/proc/stat` reading.
#[derive(Clone, Debug, PartialEq, Eq)]
pub struct CpuSample {
    pub cores: Vec<CpuCoreCounters>,
}

/// The cumulative time counters of one logical core, in clock ticks.
#[derive(Clone, Copy, Debug, PartialEq, Eq, Structural)]
pub struct CpuCoreCounters {
    pub id: usize,
    pub user: u64,
    pub nice: u64,
    pub system: u64,
    pub idle: u64,
    pub iowait: u64,
    pub irq: u64,
    pub softirq: u64,
    pub steal: u64,
}

/// Why a `/proc/stat` reading could not be parsed.
#[derive(Clone, Debug, PartialEq, Eq)]
pub enum CpuParseError {
    InvalidCoreId { line: usize, value: String },
    MissingCounter { line: usize, index: usize },
    InvalidCounter { line: usize, value: String },
}

/// A parse error with its text as characters.
pub enum CpuParseFailure {
    InvalidCoreId { line: nat, value: Seq<char> },
    MissingCounter { line: nat, index: nat },
    InvalidCounter { line: nat, value: Seq<char> },
}

impl View for CpuParseError {
    type V = CpuParseFailure;

    open spec fn view(&self) -> CpuParseFailure {
        match self {
            CpuParseError::InvalidCoreId { line, value } => CpuParseFailure::InvalidCoreId {
                line: *line as nat,
                value: value@,
            },
            CpuParseError::MissingCounter { line, index } => CpuParseFailure::MissingCounter {
                line: *line as nat,
                index: *index as nat,
            },
            CpuParseError::InvalidCounter { line, value } => CpuParseFailure::InvalidCounter {
                line: *line as nat,
                value: value@,
            },
        }
    }
}

pub open spec fn dec(value: nat) -> Seq<char> {
    chars_of(decimal(value))
}

impl CpuParseError {
    pub open spec fn spec_message(&self) -> Seq<char> {
        match self@ {
            CpuParseFailure::InvalidCoreId { line, value } => "invalid CPU core id '"@ + value
                + "' on line "@ + dec(line),
            CpuParseFailure::MissingCounter { line, index } => "missing CPU counter "@ + dec(index)
                + " on line "@ + dec(line),
            CpuParseFailure::InvalidCounter { line, value } => "invalid CPU counter '"@ + value
                + "' on line "@ + dec(line),
        }
    }

    /// The user-facing description of the error.
    pub fn message(&self) -> (message: String)
        ensures
            message@ == self.spec_message(),
    {
        let mut text = String::new();
        match self {
            CpuParseError::InvalidCoreId { line, value } => {
                append_str(&mut text, "invalid CPU core id '");
                append_str(&mut text, value.as_str());
                append_str(&mut text, "' on line ");
                append_decimal(&mut text, *line as u64);
            },
            CpuParseError::MissingCounter { line, index } => {
                append_str(&mut text, "missing CPU counter ");
                append_decimal(&mut text, *index as u64);
                append_str(&mut text, " on line ");
                append_decimal(&mut text, *line as u64);
            },
            CpuParseError::InvalidCounter { line, value } => {
                append_str(&mut text, "invalid CPU counter '");
                append_str(&mut text, value.as_str());
                append_str(&mut text, "' on line ");
                append_decimal(&mut text, *line as u64);
            },
        }
        proof {
            assert(text@ =~= self.spec_message());
        }
        text
    }
}

/// Whether counter `index` (0 to 7) follows the core id on a line with these tokens.
pub open spec fn counter_present(tokens: Seq<Seq<char>>, index: nat) -> bool {
    tokens.len() > index + 1
}

pub open spec fn counter_valid(tokens: Seq<Seq<char>>, index: nat) -> bool {
    counter_present(tokens, index) && parse_unsigned(tokens[index + 1int], u64::MAX as nat) is Some
}

pub open spec fn counter_value(tokens: Seq<Seq<char>>, index: nat) -> u64 {
    parse_unsigned(tokens[index + 1int], u64::MAX as nat)->0 as u64
}

/// The first of the counters `from..8` that is missing or not a number.
pub open spec fn first_bad_counter(tokens: Seq<Seq<char>>, from: nat) -> Option<nat>
    decreases 8 - from,
{
    if from >= 8 {
        None
    } else if !counter_valid(tokens, from) {
        Some(from)
    } else {
        first_bad_counter(tokens, from + 1)
    }
}

/// What one line of `/proc/stat` contributes.
pub enum CpuLineOutcome {
    Skip,
    Core(CpuCoreCounters),
    Fail(CpuParseFailure),
}

/// A line counts when it is `cpu` directly followed by a digit: its first token is the core
/// id, which must fit a `usize`, and the next eight tokens are the user, nice, system, idle,
/// iowait, irq, softirq and steal counters. `line` is the one-based line number.
pub open spec fn spec_cpu_line(text: Seq<char>, line: nat) -> CpuLineOutcome {
    let rest = text.subrange(3, text.len() as int);
    let tokens = split_whitespace(rest);
    if !has_prefix(text, "cpu"@) || rest.len() == 0 || !is_digit(rest[0]) || tokens.len() == 0 {
        CpuLineOutcome::Skip
    } else {
        let id_text = tokens[0];
        if id_text.len() == 0 || exists|i: int| 0 <= i < id_text.len() && !is_digit(#[trigger] id_text[i]) {
            CpuLineOutcome::Skip
        } else if parse_unsigned(id_text, usize::MAX as nat) is None {
            CpuLineOutcome::Fail(CpuParseFailure::InvalidCoreId { line, value: id_text })
        } else {
            match first_bad_counter(tokens, 0) {
                Some(index) => if !counter_present(tokens, index) {
                    CpuLineOutcome::Fail(CpuParseFailure::MissingCounter { line, index })
                } else {
                    CpuLineOutcome::Fail(
                        CpuParseFailure::InvalidCounter { line, value: tokens[index + 1int] },
                    )
                },
                None => CpuLineOutcome::Core(
                    CpuCoreCounters {
                        id: parse_unsigned(id_text, usize::MAX as nat)->0 as usize,
                        user: counter_value(tokens, 0),
                        nice: counter_value(tokens, 1),
                        system: counter_value(tokens, 2),
                        idle: counter_value(tokens, 3),
                        iowait: counter_value(tokens, 4),
                        irq: counter_value(tokens, 5),
                        softirq: counter_value(tokens, 6),
                        steal: counter_value(tokens, 7),
                    },
                ),
            }
        }
    }
}

/// The cores of the given lines in order, or the error of the first line that fails.
pub open spec fn spec_cpu_lines(lines: Seq<Seq<char>>) -> Result<Seq<CpuCoreCounters>, CpuParseFailure>
    decreases lines.len(),
{
    if lines.len() == 0 {
        Ok(Seq::empty())
    } else {
        match spec_cpu_lines(lines.drop_last()) {
            Err(failure) => Err(failure),
            Ok(cores) => match spec_cpu_line(lines.last(), lines.len()) {
                CpuLineOutcome::Skip => Ok(cores),
                CpuLineOutcome::Core(core) => Ok(cores.push(core)),
                CpuLineOutcome::Fail(failure) => Err(failure),
            },
        }
    }
}

pub open spec fn spec_parse_proc_stat(input: Seq<char>) -> Result<Seq<CpuCoreCounters>, CpuParseFailure> {
    spec_cpu_lines(text_lines(input))
}

proof fn lemma_first_bad_counter_skip(tokens: Seq<Seq<char>>, k: nat)
    requires
        k <= 8,
        forall|j: nat| j < k ==> counter_valid(tokens, j),
    ensures
        first_bad_counter(tokens, 0) == first_bad_counter(tokens, k),
    decreases k,
{
    if k > 0 {
        lemma_first_bad_counter_skip(tokens, (k - 1) as nat);
        lemma_first_bad_counter_step(tokens, 0, (k - 1) as nat);
    }
}

proof fn lemma_first_bad_counter_step(tokens: Seq<Seq<char>>, from: nat, k: nat)
    requires
        from <= k < 8,
        counter_valid(tokens, k),
        first_bad_counter(tokens, from) == first_bad_counter(tokens, k),
    ensures
        first_bad_counter(tokens, from) == first_bad_counter(tokens, k + 1),
{
}

#[verifier::loop_isolation(false)]
fn parse_cpu_line(line: &[char], number: usize) -> (outcome: Option<Result<CpuCoreCounters, CpuParseError>>)
    ensures
        match spec_cpu_line(line@, number as nat) {
            CpuLineOutcome::Skip => outcome is None,
            CpuLineOutcome::Core(core) => outcome == Some(Ok::<CpuCoreCounters, CpuParseError>(core)),
            CpuLineOutcome::Fail(failure) => outcome matches Some(Err(error)) && error@ == failure,
        },
{
    proof {
        reveal_strlit("cpu");
    }
    if !starts_with_chars(line, "cpu") {
        return None;
    }
    let rest = &line[3..line.len()];
    if rest.len() == 0 || !('0' <= rest[0] && rest[0] <= '9') {
        return None;
    }
    let tokens = split_whitespace_chars(rest);
    let ghost spec_tokens = split_whitespace(rest@);
    if tokens.len() == 0 {
        return None;
    }
    proof {
        assert(char_seqs(tokens@)[0] == tokens@[0]@);
    }
    let id_text = tokens[0].as_slice();
    let mut i: usize = 0;
    while i < id_text.len()
        invariant
            i <= id_text@.len(),
            forall|j: int| 0 <= j < i ==> is_digit(#[trigger] id_text@[j]),
        decreases id_text@.len() - i,
    {
        if !('0' <= id_text[i] && id_text[i] <= '9') {
            proof {
                assert(!is_digit(id_text@[i as int]));
            }
            return None;
        }
        i = i + 1;
    }
    if id_text.len() == 0 {
        return None;
    }
    let id = match parse_usize(id_text) {
        Some(id) => id,
        None => {
            return Some(
                Err(CpuParseError::InvalidCoreId { line: number, value: string_from_chars(id_text) }),
            );
        },
    };
    let mut counters: Vec<u64> = Vec::new();
    let mut k: usize = 0;
    while k < 8
        invariant
            k <= 8,
            spec_tokens == char_seqs(tokens@),
            counters@.len() == k,
            forall|j: nat| j < k ==> counter_valid(spec_tokens, j),
            forall|j: int| 0 <= j < k ==> #[trigger] counters@[j] == counter_value(spec_tokens, j as nat),
        decreases 8 - k,
    {
        proof {
            lemma_first_bad_counter_skip(spec_tokens, k as nat);
        }
        if tokens.len() <= k + 1 {
            return Some(Err(CpuParseError::MissingCounter { line: number, index: k }));
        }
        let token = tokens[k + 1].as_slice();
        proof {
            assert(spec_tokens[k + 1] == token@);
        }
        match parse_u64(token) {
            Some(value) => {
                counters.push(value);
            },
            None => {
                return Some(
                    Err(CpuParseError::InvalidCounter { line: number, value: string_from_chars(token) }),
                );
            },
        }
        k = k + 1;
    }
    proof {
        lemma_first_bad_counter_skip(spec_tokens, 8);
    }
    Some(
        Ok(
            CpuCoreCounters {
                id,
                user: counters[0],
                nice: counters[1],
                system: counters[2],
                idle: counters[3],
                iowait: counters[4],
                irq: counters[5],
                softirq: counters[6],
                steal: counters[7],
            },
        ),
    )
}

/// Reads the per-core counters (`cpu0`, `cpu1`, ...) of `/proc/stat`; the aggregate `cpu`
/// line and all other lines are skipped.
pub fn parse_proc_stat(input: &str) -> (result: Result<CpuSample, CpuParseError>)
    ensures
        match spec_parse_proc_stat(input@) {
            Ok(cores) => result matches Ok(sample) && sample.cores@ == cores,
            Err(failure) => result matches Err(error) && error@ == failure,
        },
{
    let lines = split_lines(input);
    let ghost all = text_lines(input@);
    let mut cores: Vec<CpuCoreCounters> = Vec::new();
    let mut i: usize = 0;
    while i < lines.len()
        invariant
            i <= lines@.len(),
            all == char_seqs(lines@),
            all == text_lines(input@),
            spec_cpu_lines(all.take(i as int)) == Ok::<Seq<CpuCoreCounters>, CpuParseFailure>(cores@),
        decreases lines@.len() - i,
    {
        proof {
            assert(all.take(i as int + 1).drop_last() == all.take(i as int));
            assert(all.take(i as int + 1).last() == lines@[i as int]@);
        }
        match parse_cpu_line(lines[i].as_slice(), i + 1) {
            None => {},
            Some(Ok(core)) => {
                cores.push(core);
            },
            Some(Err(error)) => {
                proof {
                    lemma_failure_persists(all, i as int + 1);
                }
                return Err(error);
            },
        }
        i = i + 1;
    }
    proof {
        assert(all.take(lines@.len() as int) == all);
    }
    Ok(CpuSample { cores })
}

proof fn lemma_failure_persists(lines: Seq<Seq<char>>, k: int)
    requires
        0 <= k <= lines.len(),
        spec_cpu_lines(lines.take(k)) is Err,
    ensures
        spec_cpu_lines(lines) == spec_cpu_lines(lines.take(k)),
    decreases lines.len() - k,
{
    if k < lines.len() {
        assert(lines.take(k + 1).drop_last() == lines.take(k));
        lemma_failure_persists(lines, k + 1);
    } else {
        assert(lines.take(k) == lines);
    }
}

/// The ticks a core spent in any state, and those it spent idle or waiting for I/O.
pub open spec fn spec_core_total(core: CpuCoreCounters) -> int {
    core.user + core.nice + core.system + core.idle + core.iowait + core.irq + core.softirq
        + core.steal
}

pub open spec fn spec_core_idle(core: CpuCoreCounters) -> int {
    core.idle + core.iowait
}

pub open spec fn saturating_difference(later: int, earlier: int) -> u64 {
    if later >= earlier {
        (later - earlier) as u64
    } else {
        0
    }
}

/// The ticks that passed on one core between two readings, and how many of them were busy
/// (not idle and not waiting for I/O); differences that would be negative count as zero.
#[derive(Clone, Copy, Debug, PartialEq, Eq, Structural)]
pub struct CpuCoreDelta {
    pub busy: u64,
    pub total: u64,
}

pub open spec fn spec_core_delta(previous: CpuCoreCounters, current: CpuCoreCounters) -> CpuCoreDelta {
    let total = saturating_difference(spec_core_total(current), spec_core_total(previous));
    let idle = saturating_difference(spec_core_idle(current), spec_core_idle(previous));
    CpuCoreDelta { busy: saturating_difference(total as int, idle as int), total }
}

fn core_total(core: CpuCoreCounters) -> (total: u64)
    requires
        spec_core_total(core) <= u64::MAX,
    ensures
        total == spec_core_total(core),
{
    core.user + core.nice + core.system + core.idle + core.iowait + core.irq + core.softirq + core.steal
}

pub fn core_delta(previous: CpuCoreCounters, current: CpuCoreCounters) -> (delta: CpuCoreDelta)
    requires
        spec_core_total(previous) <= u64::MAX,
        spec_core_total(current) <= u64::MAX,
    ensures
        delta == spec_core_delta(previous, current),
        delta.busy <= delta.total,
{
    let total = core_total(current).saturating_sub(core_total(previous));
    let idle = (current.idle + current.iowait).saturating_sub(previous.idle + previous.iowait);
    CpuCoreDelta { busy: total.saturating_sub(idle), total }
}

/// Ticks spent idle or waiting for I/O never count as busy. When no counter of a core goes
/// backwards between two readings, the ticks that passed are the sum of the growth of all
/// eight counters, and the busy ticks are exactly the growth of user, nice, system, irq,
/// softirq and steal; in particular a core whose only growth is in idle or iowait was not
/// busy at all.
pub proof fn lemma_core_delta_counts_idle_and_iowait_as_not_busy(
    previous: CpuCoreCounters,
    current: CpuCoreCounters,
)
    requires
        previous.user <= current.user,
        previous.nice <= current.nice,
        previous.system <= current.system,
        previous.idle <= current.idle,
        previous.iowait <= current.iowait,
        previous.irq <= current.irq,
        previous.softirq <= current.softirq,
        previous.steal <= current.steal,
        current.user + current.nice + current.system + current.idle + current.iowait + current.irq
            + current.softirq + current.steal <= u64::MAX,
    ensures
        spec_core_delta(previous, current).total == (current.user - previous.user) + (current.nice
            - previous.nice) + (current.system - previous.system) + (current.idle - previous.idle)
            + (current.iowait - previous.iowait) + (current.irq - previous.irq) + (current.softirq
            - previous.softirq) + (current.steal - previous.steal),
        spec_core_delta(previous, current).busy == (current.user - previous.user) + (current.nice
            - previous.nice) + (current.system - previous.system) + (current.irq - previous.irq)
            + (current.softirq - previous.softirq) + (current.steal - previous.steal),
        spec_core_delta(previous, current).total - spec_core_delta(previous, current).busy == (
        current.idle - previous.idle) + (current.iowait - previous.iowait),
{
}

/// Why two CPU readings cannot be compared.
#[derive(Clone, Copy, Debug, PartialEq, Eq, Structural)]
pub enum CpuUsageError {
    CoreCountChanged { previous: usize, current: usize },
}

impl CpuUsageError {
    pub open spec fn spec_message(&self) -> Seq<char> {
        match self {
            CpuUsageError::CoreCountChanged { previous, current } =>
                "CPU sample core count changed: previous "@ + dec(*previous as nat) + ", current "@
                + dec(*current as nat),
        }
    }

    pub fn message(&self) -> (message: String)
        ensures
            message@ == self.spec_message(),
    {
        let mut text = String::new();
        match self {
            CpuUsageError::CoreCountChanged { previous, current } => {
                append_str(&mut text, "CPU sample core count changed: previous ");
                append_decimal(&mut text, *previous as u64);
                append_str(&mut text, ", current ");
                append_decimal(&mut text, *current as u64);
            },
        }
        proof {
            assert(text@ =~= self.spec_message());
        }
        text
    }
}

/// The per-core tick deltas between two readings, core by core in order; readings with a
/// different number of cores cannot be compared.
pub fn cpu_core_deltas(previous: &CpuSample, current: &CpuSample) -> (deltas: Result<
    Vec<CpuCoreDelta>,
    CpuUsageError,
>)
    requires
        forall|i: int| 0 <= i < previous.cores@.len() ==> spec_core_total(#[trigger] previous.cores@[i]) <= u64::MAX,
        forall|i: int| 0 <= i < current.cores@.len() ==> spec_core_total(#[trigger] current.cores@[i]) <= u64::MAX,
    ensures
        previous.cores@.len() != current.cores@.len() ==> deltas == Err::<Vec<CpuCoreDelta>, CpuUsageError>(
            CpuUsageError::CoreCountChanged {
                previous: previous.cores@.len() as usize,
                current: current.cores@.len() as usize,
            },
        ),
        previous.cores@.len() == current.cores@.len() ==> (deltas matches Ok(list) && list@.len()
            == current.cores@.len() && forall|i: int| 0 <= i < list@.len() ==> #[trigger] list@[i]
            == spec_core_delta(previous.cores@[i], current.cores@[i])),
{
    if previous.cores.len() != current.cores.len() {
        return Err(
            CpuUsageError::CoreCountChanged {
                previous: previous.cores.len(),
                current: current.cores.len(),
            },
        );
    }
    let mut list: Vec<CpuCoreDelta> = Vec::new();
    let mut i: usize = 0;
    while i < current.cores.len()
        invariant
            previous.cores@.len() == current.cores@.len(),
            i <= current.cores@.len(),
            list@.len() == i,
            forall|j: int| 0 <= j < previous.cores@.len() ==> spec_core_total(#[trigger] previous.cores@[j]) <= u64::MAX,
            forall|j: int| 0 <= j < current.cores@.len() ==> spec_core_total(#[trigger] current.cores@[j]) <= u64::MAX,
            forall|j: int| 0 <= j < i ==> #[trigger] list@[j] == spec_core_delta(previous.cores@[j], current.cores@[j]),
        decreases current.cores@.len() - i,
    {
        list.push(core_delta(previous.cores[i], current.cores[i]));
        i = i + 1;
    }
    Ok(list)
}


/// Every core's tick total fits a `u64`.
pub open spec fn core_totals_fit(cores: Seq<CpuCoreCounters>) -> bool {
    forall|i: int| 0 <= i < cores.len() ==> spec_core_total(#[trigger] cores[i]) <= u64::MAX
}

/// Whether every core's tick total fits a `u64`.
pub fn cpu_totals_fit(sample: &CpuSample) -> (fits: bool)
    ensures
        fits == core_totals_fit(sample.cores@),
{
    let mut i: usize = 0;
    while i < sample.cores.len()
        invariant
            i <= sample.cores@.len(),
            forall|j: int| 0 <= j < i ==> spec_core_total(#[trigger] sample.cores@[j]) <= u64::MAX,
        decreases sample.cores@.len() - i,
    {
        let core = sample.cores[i];
        let total: u128 = core.user as u128 + core.nice as u128 + core.system as u128 + core.idle as u128
            + core.iowait as u128 + core.irq as u128 + core.softirq as u128 + core.steal as u128;
        if total > 18_446_744_073_709_551_615u128 {
            return false;
        }
        i = i + 1;
    }
    true
}

/// What one `/proc/stat` reading gave.
#[derive(Clone, Debug, PartialEq, Eq)]
pub enum CpuReading {
    /// The first reading, which only primes the sampler.
    Primed { core_count: usize },
    /// A later reading compared with the one before it, core by core; `None` where a core's
    /// tick total does not fit a `u64`.
    Compared(Option<Vec<CpuCoreDelta>>),
}

/// Why a processor reading failed.
#[derive(Clone, Debug, PartialEq, Eq)]
pub enum CpuSamplerError {
    /// `/proc/stat` could not be read; the text says why.
    Io(String),
    Parse(CpuParseError),
    Usage(CpuUsageError),
}

impl CpuSamplerError {
    /// The user-facing description of the error.
    pub fn message(&self) -> (message: String)
        ensures
            self matches CpuSamplerError::Io(reason) ==> message@ == "failed to read /proc/stat: "@
                + reason@,
            self matches CpuSamplerError::Parse(error) ==> message@ == error.spec_message(),
            self matches CpuSamplerError::Usage(error) ==> message@ == error.spec_message(),
    {
        match self {
            CpuSamplerError::Io(reason) => {
                let mut text = String::new();
                append_str(&mut text, "failed to read /proc/stat: ");
                append_str(&mut text, reason.as_str());
                text
            },
            CpuSamplerError::Parse(error) => error.message(),
            CpuSamplerError::Usage(error) => error.message(),
        }
    }
}

/// Keeps the last `/proc/stat` reading so that each new one can be compared with it.
#[derive(Clone, Debug)]
pub struct CpuSampler {
    previous: Option<CpuSample>,
}

/// The trace message for a compared reading of `count` cores.
pub open spec fn sampled_usage_message(count: nat) -> Seq<char> {
    "sampled usage for "@ + dec(count) + " cores"@
}

impl CpuSampler {
    /// The reading kept from last time, if any.
    pub closed spec fn spec_previous(&self) -> Option<CpuSample> {
        self.previous
    }

    /// A sampler that has seen no reading yet.
    pub fn new() -> (sampler: CpuSampler)
        ensures
            sampler.spec_previous() is None,
    {
        CpuSampler { previous: None }
    }

    /// Parses a `/proc/stat` reading. The first one primes the sampler; each later one is
    /// compared with the one kept from last time, core by core, and then kept. Both are
    /// traced under `metrics.cpu`. A reading that does not parse, or whose core count
    /// differs from the kept one, changes nothing; so does one whose tick totals overflow.
    pub fn observe_proc_stat(&mut self, input: &str, traces: &mut TraceCollector) -> (result: Result<
        CpuReading,
        CpuSamplerError,
    >)
        ensures
            final(traces).spec_enabled() == old(traces).spec_enabled(),
            match spec_parse_proc_stat(input@) {
                Err(failure) => {
                    &&& result matches Err(CpuSamplerError::Parse(error)) && error@ == failure
                    &&& final(self).spec_previous() == old(self).spec_previous()
                    &&& final(traces).spec_events() == old(traces).spec_events()
                },
                Ok(cores) => match old(self).spec_previous() {
                    None => {
                        &&& result == Ok::<CpuReading, CpuSamplerError>(
                            CpuReading::Primed { core_count: cores.len() as usize },
                        )
                        &&& final(self).spec_previous() matches Some(current) && current.cores@ == cores
                        &&& traced(
                            *old(traces),
                            *final(traces),
                            "metrics.cpu"@,
                            primed_message(cores.len(), " cores"@),
                        )
                    },
                    Some(previous) => if previous.cores@.len() != cores.len() {
                        &&& result == Err::<CpuReading, CpuSamplerError>(
                            CpuSamplerError::Usage(
                                CpuUsageError::CoreCountChanged {
                                    previous: previous.cores@.len() as usize,
                                    current: cores.len() as usize,
                                },
                            ),
                        )
                        &&& final(self).spec_previous() == old(self).spec_previous()
                        &&& final(traces).spec_events() == old(traces).spec_events()
                    } else if !(core_totals_fit(previous.cores@) && core_totals_fit(cores)) {
                        &&& result == Ok::<CpuReading, CpuSamplerError>(CpuReading::Compared(None))
                        &&& final(self).spec_previous() == old(self).spec_previous()
                        &&& final(traces).spec_events() == old(traces).spec_events()
                    } else {
                        &&& result matches Ok(CpuReading::Compared(Some(deltas))) && deltas@.len()
                            == cores.len() && forall|i: int|
                            0 <= i < cores.len() ==> #[trigger] deltas@[i] == spec_core_delta(
                                previous.cores@[i],
                                cores[i],
                            )
                        &&& final(self).spec_previous() matches Some(current) && current.cores@ == cores
                        &&& traced(*old(traces), *final(traces), "metrics.cpu"@, sampled_usage_message(cores.len()))
                    },
                },
            },
    {
        let current = match parse_proc_stat(input) {
            Ok(sample) => sample,
            Err(error) => return Err(CpuSamplerError::Parse(error)),
        };
        match &self.previous {
            None => {
                let core_count = current.cores.len();
                let mut message = String::new();
                append_str(&mut message, "primed with ");
                append_decimal(&mut message, core_count as u64);
                append_str(&mut message, " cores");
                proof {
                    assert(message@ =~= primed_message(core_count as nat, " cores"@));
                }
                self.previous = Some(current);
                traces.record(TraceEvent::from_text(String::from_str("metrics.cpu"), message));
                Ok(CpuReading::Primed { core_count })
            },
            Some(previous) => {
                if previous.cores.len() != current.cores.len() {
                    return Err(
                        CpuSamplerError::Usage(
                            CpuUsageError::CoreCountChanged {
                                previous: previous.cores.len(),
                                current: current.cores.len(),
                            },
                        ),
                    );
                }
                if !(cpu_totals_fit(previous) && cpu_totals_fit(&current)) {
                    return Ok(CpuReading::Compared(None));
                }
                let deltas = match cpu_core_deltas(previous, &current) {
                    Ok(list) => list,
                    Err(error) => return Err(CpuSamplerError::Usage(error)),
                };
                let core_count = current.cores.len();
                let mut message = String::new();
                append_str(&mut message, "sampled usage for ");
                append_decimal(&mut message, core_count as u64);
                append_str(&mut message, " cores");
                proof {
                    assert(message@ =~= sampled_usage_message(core_count as nat));
                }
                self.previous = Some(current);
                traces.record(TraceEvent::from_text(String::from_str("metrics.cpu"), message));
                Ok(CpuReading::Compared(Some(deltas)))
            },
        }
    }
}

impl Default for CpuSampler {
    fn default() -> (sampler: CpuSampler)
        ensures
            sampler.spec_previous() is None,
    {
        CpuSampler::new()
    }
}

} // verus!
