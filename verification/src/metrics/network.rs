use vstd::prelude::*;

use crate::metrics::cpu::{dec, saturating_difference};
use crate::scan::{
    char_seqs, chars_equal_str, find_first, has_prefix, parse_u64, parse_unsigned, split_lines,
    split_once, split_whitespace, split_whitespace_chars, starts_with_chars, string_from_chars,
    text_lines, trim, trim_bounds,
};
use crate::diagnostics::{traced, TraceCollector, TraceEvent};
use crate::metrics::disk::primed_message;
use crate::text::{append_decimal, append_str};

verus! {

broadcast use vstd::string::group_string_axioms;

/// The byte counters of the counted interfaces in one `/proc/net/dev` reading.
#[derive(Clone, Debug, PartialEq, Eq)]
pub struct NetworkSample {
    pub interfaces: Vec<NetworkInterfaceCounters>,
}

/// The cumulative received and transmitted bytes of one interface.
#[derive(Clone, Debug, PartialEq, Eq)]
pub struct NetworkInterfaceCounters {
    pub name: String,
    pub rx_bytes: u64,
    pub tx_bytes: u64,
}

/// An interface reading with its name as characters.
pub open spec fn interface_view(interface: NetworkInterfaceCounters) -> (Seq<char>, u64, u64) {
    (interface.name@, interface.rx_bytes, interface.tx_bytes)
}

pub open spec fn interfaces_view(interfaces: Seq<NetworkInterfaceCounters>) -> Seq<(Seq<char>, u64, u64)> {
    interfaces.map_values(|interface: NetworkInterfaceCounters| interface_view(interface))
}

/// Why a `/proc/net/dev` reading could not be parsed.
#[derive(Clone, Debug, PartialEq, Eq)]
pub enum NetworkParseError {
    MissingCounter { line: usize },
    InvalidCounter { line: usize, value: String },
}

/// A parse error with its text as characters.
pub enum NetworkParseFailure {
    MissingCounter { line: nat },
    InvalidCounter { line: nat, value: Seq<char> },
}

impl View for NetworkParseError {
    type V = NetworkParseFailure;

    open spec fn view(&self) -> NetworkParseFailure {
        match self {
            NetworkParseError::MissingCounter { line } => NetworkParseFailure::MissingCounter {
                line: *line as nat,
            },
            NetworkParseError::InvalidCounter { line, value } => NetworkParseFailure::InvalidCounter {
                line: *line as nat,
                value: value@,
            },
        }
    }
}

impl NetworkParseError {
    pub open spec fn spec_message(&self) -> Seq<char> {
        match self@ {
            NetworkParseFailure::MissingCounter { line } => "missing network counter on line "@ + dec(
                line,
            ),
            NetworkParseFailure::InvalidCounter { line, value } => "invalid network counter '"@
                + value + "' on line "@ + dec(line),
        }
    }

    /// The user-facing description of the error.
    pub fn message(&self) -> (message: String)
        ensures
            message@ == self.spec_message(),
    {
        let mut text = String::new();
        match self {
            NetworkParseError::MissingCounter { line } => {
                append_str(&mut text, "missing network counter on line ");
                append_decimal(&mut text, *line as u64);
            },
            NetworkParseError::InvalidCounter { line, value } => {
                append_str(&mut text, "invalid network counter '");
                append_str(&mut text, value.as_str());
                append_str(&mut text, "' on line ");
                append_decimal(&mut text, *line as u64);
            },
        }
        proof {
            assert(text@ =~= self.spec_message());
        }
        text
    }
}

/// Loopback and the usual container and virtual-machine interfaces, which would otherwise
/// dominate the signal.
pub open spec fn is_excluded_interface(name: Seq<char>) -> bool {
    ||| name == "lo"@
    ||| has_prefix(name, "docker"@)
    ||| has_prefix(name, "veth"@)
    ||| has_prefix(name, "br-"@)
    ||| has_prefix(name, "virbr"@)
    ||| has_prefix(name, "vmnet"@)
    ||| has_prefix(name, "vboxnet"@)
    ||| has_prefix(name, "ifb"@)
    ||| has_prefix(name, "dummy"@)
}

fn excluded_interface(name: &[char]) -> (excluded: bool)
    ensures
        excluded == is_excluded_interface(name@),
{
    chars_equal_str(name, "lo") || starts_with_chars(name, "docker") || starts_with_chars(
        name,
        "veth",
    ) || starts_with_chars(name, "br-") || starts_with_chars(name, "virbr") || starts_with_chars(
        name,
        "vmnet",
    ) || starts_with_chars(name, "vboxnet") || starts_with_chars(name, "ifb") || starts_with_chars(
        name,
        "dummy",
    )
}

/// The counter in token `index` of an interface's counters.
pub open spec fn spec_counter(tokens: Seq<Seq<char>>, index: int, line: nat) -> Result<u64, NetworkParseFailure> {
    if tokens.len() <= index {
        Err(NetworkParseFailure::MissingCounter { line })
    } else {
        match parse_unsigned(tokens[index], u64::MAX as nat) {
            None => Err(NetworkParseFailure::InvalidCounter { line, value: tokens[index] }),
            Some(value) => Ok(value as u64),
        }
    }
}

/// What one line of `/proc/net/dev` contributes.
pub enum NetworkLineOutcome {
    Skip,
    Interface((Seq<char>, u64, u64)),
    Fail(NetworkParseFailure),
}

/// A line counts when it has a colon and the trimmed name before it is neither empty nor
/// excluded; received bytes are the first counter after the colon and transmitted bytes the
/// ninth. `line` is the one-based line number.
pub open spec fn spec_network_line(text: Seq<char>, line: nat) -> NetworkLineOutcome {
    match split_once(text, ':') {
        None => NetworkLineOutcome::Skip,
        Some(parts) => {
            let name = trim(parts.0);
            let tokens = split_whitespace(parts.1);
            if name.len() == 0 || is_excluded_interface(name) {
                NetworkLineOutcome::Skip
            } else {
                match spec_counter(tokens, 0, line) {
                    Err(failure) => NetworkLineOutcome::Fail(failure),
                    Ok(rx) => match spec_counter(tokens, 8, line) {
                        Err(failure) => NetworkLineOutcome::Fail(failure),
                        Ok(tx) => NetworkLineOutcome::Interface((name, rx, tx)),
                    },
                }
            }
        },
    }
}

/// The interfaces of the given lines in order, or the error of the first line that fails.
pub open spec fn spec_network_lines(lines: Seq<Seq<char>>) -> Result<Seq<(Seq<char>, u64, u64)>, NetworkParseFailure>
    decreases lines.len(),
{
    if lines.len() == 0 {
        Ok(Seq::empty())
    } else {
        match spec_network_lines(lines.drop_last()) {
            Err(failure) => Err(failure),
            Ok(interfaces) => match spec_network_line(lines.last(), lines.len()) {
                NetworkLineOutcome::Skip => Ok(interfaces),
                NetworkLineOutcome::Interface(interface) => Ok(interfaces.push(interface)),
                NetworkLineOutcome::Fail(failure) => Err(failure),
            },
        }
    }
}

/// A parsed sample holds no loopback, container or virtual-machine interface: no name is
/// empty or `lo`, and none starts with `docker`, `veth`, `br-`, `virbr`, `vmnet`, `vboxnet`,
/// `ifb` or `dummy`.
pub proof fn lemma_parsed_interfaces_are_not_virtual(lines: Seq<Seq<char>>)
    ensures
        spec_network_lines(lines) matches Ok(interfaces) ==> forall|i: int|
            0 <= i < interfaces.len() ==> {
                let name = (#[trigger] interfaces[i]).0;
                &&& name.len() > 0
                &&& name != "lo"@
                &&& !has_prefix(name, "docker"@)
                &&& !has_prefix(name, "veth"@)
                &&& !has_prefix(name, "br-"@)
                &&& !has_prefix(name, "virbr"@)
                &&& !has_prefix(name, "vmnet"@)
                &&& !has_prefix(name, "vboxnet"@)
                &&& !has_prefix(name, "ifb"@)
                &&& !has_prefix(name, "dummy"@)
            },
    decreases lines.len(),
{
    if lines.len() > 0 {
        lemma_parsed_interfaces_are_not_virtual(lines.drop_last());
    }
}

/// A line whose trimmed name before the colon is a real interface (not empty, not `lo`, and
/// not starting with any of the virtual prefixes) and whose first and ninth counters parse
/// contributes that interface with those received and transmitted bytes.
pub proof fn lemma_physical_interface_line_is_kept(
    text: Seq<char>,
    line: nat,
    name: Seq<char>,
    counters: Seq<char>,
    rx: u64,
    tx: u64,
)
    requires
        split_once(text, ':') matches Some(parts) && trim(parts.0) == name && parts.1 == counters,
        name.len() > 0,
        name != "lo"@,
        !has_prefix(name, "docker"@),
        !has_prefix(name, "veth"@),
        !has_prefix(name, "br-"@),
        !has_prefix(name, "virbr"@),
        !has_prefix(name, "vmnet"@),
        !has_prefix(name, "vboxnet"@),
        !has_prefix(name, "ifb"@),
        !has_prefix(name, "dummy"@),
        spec_counter(split_whitespace(counters), 0, line) == Ok::<u64, NetworkParseFailure>(rx),
        spec_counter(split_whitespace(counters), 8, line) == Ok::<u64, NetworkParseFailure>(tx),
    ensures
        spec_network_line(text, line) == NetworkLineOutcome::Interface((name, rx, tx)),
{
}

pub open spec fn spec_parse_proc_net_dev(input: Seq<char>) -> Result<Seq<(Seq<char>, u64, u64)>, NetworkParseFailure> {
    spec_network_lines(text_lines(input))
}

fn parse_counter(tokens: &Vec<Vec<char>>, index: usize, line: usize) -> (result: Result<u64, NetworkParseError>)
    ensures
        match spec_counter(char_seqs(tokens@), index as int, line as nat) {
            Ok(value) => result == Ok::<u64, NetworkParseError>(value),
            Err(failure) => result matches Err(error) && error@ == failure,
        },
{
    if tokens.len() <= index {
        return Err(NetworkParseError::MissingCounter { line });
    }
    let token = tokens[index].as_slice();
    proof {
        assert(char_seqs(tokens@)[index as int] == token@);
    }
    match parse_u64(token) {
        Some(value) => Ok(value),
        None => Err(NetworkParseError::InvalidCounter { line, value: string_from_chars(token) }),
    }
}

fn parse_network_line(line: &[char], number: usize) -> (outcome: Option<Result<NetworkInterfaceCounters, NetworkParseError>>)
    ensures
        match spec_network_line(line@, number as nat) {
            NetworkLineOutcome::Skip => outcome is None,
            NetworkLineOutcome::Interface(interface) => outcome matches Some(Ok(counters))
                && interface_view(counters) == interface,
            NetworkLineOutcome::Fail(failure) => outcome matches Some(Err(error)) && error@ == failure,
        },
{
    let found = find_first(line, ':');
    if found.is_none() {
        return None;
    }
    let colon = found.unwrap();
    let len = line.len();
    proof {
        assert(colon < len);
    }
    let before = &line[0..colon];
    let after = &line[colon + 1..len];
    let (start, end) = trim_bounds(before);
    let name = &before[start..end];
    if name.len() == 0 || excluded_interface(name) {
        return None;
    }
    let tokens = split_whitespace_chars(after);
    let rx_bytes = match parse_counter(&tokens, 0, number) {
        Ok(value) => value,
        Err(error) => {
            return Some(Err(error));
        },
    };
    let tx_bytes = match parse_counter(&tokens, 8, number) {
        Ok(value) => value,
        Err(error) => {
            return Some(Err(error));
        },
    };
    Some(Ok(NetworkInterfaceCounters { name: string_from_chars(name), rx_bytes, tx_bytes }))
}

proof fn lemma_failure_persists(lines: Seq<Seq<char>>, k: int)
    requires
        0 <= k <= lines.len(),
        spec_network_lines(lines.take(k)) is Err,
    ensures
        spec_network_lines(lines) == spec_network_lines(lines.take(k)),
    decreases lines.len() - k,
{
    if k < lines.len() {
        assert(lines.take(k + 1).drop_last() == lines.take(k));
        lemma_failure_persists(lines, k + 1);
    } else {
        assert(lines.take(k) == lines);
    }
}

/// Reads the received and transmitted byte counters of each counted interface of
/// `/proc/net/dev`, in order.
pub fn parse_proc_net_dev(input: &str) -> (result: Result<NetworkSample, NetworkParseError>)
    ensures
        match spec_parse_proc_net_dev(input@) {
            Ok(interfaces) => result matches Ok(sample) && interfaces_view(sample.interfaces@)
                == interfaces,
            Err(failure) => result matches Err(error) && error@ == failure,
        },
{
    let lines = split_lines(input);
    let ghost all = text_lines(input@);
    let mut interfaces: Vec<NetworkInterfaceCounters> = Vec::new();
    let mut i: usize = 0;
    proof {
        assert(interfaces_view(interfaces@) =~= Seq::<(Seq<char>, u64, u64)>::empty());
        assert(all.take(0) =~= Seq::<Seq<char>>::empty());
    }
    while i < lines.len()
        invariant
            i <= lines@.len(),
            all == char_seqs(lines@),
            all == text_lines(input@),
            spec_network_lines(all.take(i as int)) == Ok::<
                Seq<(Seq<char>, u64, u64)>,
                NetworkParseFailure,
            >(interfaces_view(interfaces@)),
        decreases lines@.len() - i,
    {
        proof {
            assert(all.take(i as int + 1).drop_last() == all.take(i as int));
            assert(all.take(i as int + 1).last() == lines@[i as int]@);
        }
        match parse_network_line(lines[i].as_slice(), i + 1) {
            None => {},
            Some(Ok(interface)) => {
                let ghost before = interfaces@;
                interfaces.push(interface);
                proof {
                    assert(interfaces_view(interfaces@) =~= interfaces_view(before).push(
                        interface_view(interface),
                    ));
                }
            },
            Some(Err(error)) => {
                proof {
                    lemma_failure_persists(all, i as int + 1);
                }
                return Err(error);
            },
        }
        i = i + 1;
    }
    proof {
        assert(all.take(lines@.len() as int) == all);
    }
    Ok(NetworkSample { interfaces })
}

/// The sum of the received-byte counters.
pub open spec fn spec_rx_total(interfaces: Seq<NetworkInterfaceCounters>) -> int
    decreases interfaces.len(),
{
    if interfaces.len() == 0 {
        0
    } else {
        spec_rx_total(interfaces.drop_last()) + interfaces.last().rx_bytes
    }
}

/// The sum of the transmitted-byte counters.
pub open spec fn spec_tx_total(interfaces: Seq<NetworkInterfaceCounters>) -> int
    decreases interfaces.len(),
{
    if interfaces.len() == 0 {
        0
    } else {
        spec_tx_total(interfaces.drop_last()) + interfaces.last().tx_bytes
    }
}

proof fn lemma_totals_nonnegative(interfaces: Seq<NetworkInterfaceCounters>)
    ensures
        spec_rx_total(interfaces) >= 0,
        spec_tx_total(interfaces) >= 0,
    decreases interfaces.len(),
{
    if interfaces.len() > 0 {
        lemma_totals_nonnegative(interfaces.drop_last());
    }
}

proof fn lemma_totals_grow(interfaces: Seq<NetworkInterfaceCounters>, k: int)
    requires
        0 <= k <= interfaces.len(),
    ensures
        spec_rx_total(interfaces.take(k)) <= spec_rx_total(interfaces),
        spec_tx_total(interfaces.take(k)) <= spec_tx_total(interfaces),
        spec_rx_total(interfaces.take(k)) >= 0,
        spec_tx_total(interfaces.take(k)) >= 0,
    decreases interfaces.len() - k,
{
    lemma_totals_nonnegative(interfaces.take(k));
    if k < interfaces.len() {
        assert(interfaces.take(k + 1).drop_last() == interfaces.take(k));
        lemma_totals_grow(interfaces, k + 1);
    } else {
        assert(interfaces.take(k) == interfaces);
    }
}

/// The summed counters of a reading, or `None` where a sum does not fit a `u64`.
fn byte_totals(sample: &NetworkSample) -> (totals: Option<(u64, u64)>)
    ensures
        totals is Some <==> (spec_rx_total(sample.interfaces@) <= u64::MAX && spec_tx_total(
            sample.interfaces@,
        ) <= u64::MAX),
        totals matches Some(pair) ==> pair.0 == spec_rx_total(sample.interfaces@) && pair.1
            == spec_tx_total(sample.interfaces@),
{
    let mut rx: u64 = 0;
    let mut tx: u64 = 0;
    let mut i: usize = 0;
    while i < sample.interfaces.len()
        invariant
            i <= sample.interfaces@.len(),
            rx == spec_rx_total(sample.interfaces@.take(i as int)),
            tx == spec_tx_total(sample.interfaces@.take(i as int)),
        decreases sample.interfaces@.len() - i,
    {
        let interface = &sample.interfaces[i];
        proof {
            assert(sample.interfaces@.take(i as int + 1).drop_last() == sample.interfaces@.take(i as int));
            lemma_totals_grow(sample.interfaces@, i as int + 1);
        }
        rx = match rx.checked_add(interface.rx_bytes) {
            Some(sum) => sum,
            None => {
                return None;
            },
        };
        tx = match tx.checked_add(interface.tx_bytes) {
            Some(sum) => sum,
            None => {
                return None;
            },
        };
        i = i + 1;
    }
    proof {
        assert(sample.interfaces@.take(sample.interfaces@.len() as int) == sample.interfaces@);
    }
    Some((rx, tx))
}

/// How many bytes all counted interfaces received and sent between two readings; a total
/// that went down counts as zero.
#[derive(Clone, Copy, Debug, PartialEq, Eq, Structural)]
pub struct NetworkByteDeltas {
    pub download: u64,
    pub upload: u64,
}

/// The byte deltas between two readings, or `None` where a reading's totals do not fit a
/// `u64`.
pub open spec fn spec_byte_deltas(
    previous: Seq<NetworkInterfaceCounters>,
    current: Seq<NetworkInterfaceCounters>,
) -> Option<NetworkByteDeltas> {
    if spec_rx_total(previous) <= u64::MAX && spec_tx_total(previous) <= u64::MAX && spec_rx_total(current)
        <= u64::MAX && spec_tx_total(current) <= u64::MAX {
        Some(
            NetworkByteDeltas {
                download: saturating_difference(spec_rx_total(current), spec_rx_total(previous)),
                upload: saturating_difference(spec_tx_total(current), spec_tx_total(previous)),
            },
        )
    } else {
        None
    }
}

/// The byte deltas between two readings, or `None` where a reading's totals do not fit a
/// `u64`.
pub fn network_byte_deltas(previous: &NetworkSample, current: &NetworkSample) -> (deltas: Option<
    NetworkByteDeltas,
>)
    ensures
        deltas == spec_byte_deltas(previous.interfaces@, current.interfaces@),
        deltas is Some <==> (spec_rx_total(previous.interfaces@) <= u64::MAX && spec_tx_total(
            previous.interfaces@,
        ) <= u64::MAX && spec_rx_total(current.interfaces@) <= u64::MAX && spec_tx_total(
            current.interfaces@,
        ) <= u64::MAX),
        deltas matches Some(d) ==> d.download == saturating_difference(
            spec_rx_total(current.interfaces@),
            spec_rx_total(previous.interfaces@),
        ) && d.upload == saturating_difference(
            spec_tx_total(current.interfaces@),
            spec_tx_total(previous.interfaces@),
        ),
{
    let before = match byte_totals(previous) {
        Some(totals) => totals,
        None => {
            return None;
        },
    };
    let after = match byte_totals(current) {
        Some(totals) => totals,
        None => {
            return None;
        },
    };
    Some(
        NetworkByteDeltas {
            download: after.0.saturating_sub(before.0),
            upload: after.1.saturating_sub(before.1),
        },
    )
}

/// Why two network readings cannot be compared.
#[derive(Clone, Copy, Debug, PartialEq, Eq, Structural)]
pub enum NetworkFlowError {
    InvalidElapsed,
}

impl NetworkFlowError {
    pub fn message(&self) -> (message: String)
        ensures
            message@ == "network elapsed duration must be positive"@,
    {
        let mut text = String::new();
        append_str(&mut text, "network elapsed duration must be positive");
        proof {
            assert(text@ =~= "network elapsed duration must be positive"@);
        }
        text
    }
}


/// What one network reading gave.
#[derive(Clone, Copy, Debug, PartialEq, Eq, Structural)]
pub enum NetworkReading {
    /// The first reading, which only primes the sampler.
    Primed { interface_count: usize },
    /// A later reading compared with the one before it: the byte deltas, or `None` where a
    /// reading's totals do not fit a `u64`.
    Compared(Option<NetworkByteDeltas>),
}

/// Why a network reading failed.
#[derive(Clone, Debug, PartialEq, Eq)]
pub enum NetworkSamplerError {
    /// `/proc/net/dev` could not be read; the text says why.
    Io(String),
    Parse(NetworkParseError),
    Flow(NetworkFlowError),
}

impl NetworkSamplerError {
    /// The user-facing description of the error.
    pub fn message(&self) -> (message: String)
        ensures
            self matches NetworkSamplerError::Io(reason) ==> message@ == "failed to read /proc/net/dev: "@
                + reason@,
            self matches NetworkSamplerError::Parse(error) ==> message@ == error.spec_message(),
            self is Flow ==> message@ == "network elapsed duration must be positive"@,
    {
        match self {
            NetworkSamplerError::Io(reason) => {
                let mut text = String::new();
                append_str(&mut text, "failed to read /proc/net/dev: ");
                append_str(&mut text, reason.as_str());
                text
            },
            NetworkSamplerError::Parse(error) => error.message(),
            NetworkSamplerError::Flow(error) => error.message(),
        }
    }
}

/// Keeps the last `/proc/net/dev` reading so that each new one can be compared with it.
#[derive(Clone, Debug)]
pub struct NetworkSampler {
    previous: Option<NetworkSample>,
}

impl NetworkSampler {
    /// The reading kept from last time, if any.
    pub closed spec fn spec_previous(&self) -> Option<NetworkSample> {
        self.previous
    }

    /// A sampler that has seen no reading yet.
    pub fn new() -> (sampler: NetworkSampler)
        ensures
            sampler.spec_previous() is None,
    {
        NetworkSampler { previous: None }
    }

    /// Parses a `/proc/net/dev` reading. The first one primes the sampler and is traced
    /// under `metrics.network`; each later one is compared with the one kept from last
    /// time. Either way the reading is kept. A reading that does not parse changes nothing.
    pub fn observe_proc_net_dev(&mut self, input: &str, traces: &mut TraceCollector) -> (result: Result<
        NetworkReading,
        NetworkSamplerError,
    >)
        ensures
            final(traces).spec_enabled() == old(traces).spec_enabled(),
            match spec_parse_proc_net_dev(input@) {
                Err(failure) => {
                    &&& result matches Err(NetworkSamplerError::Parse(error)) && error@ == failure
                    &&& final(self).spec_previous() == old(self).spec_previous()
                    &&& final(traces).spec_events() == old(traces).spec_events()
                },
                Ok(interfaces) => {
                    &&& final(self).spec_previous() matches Some(current) && interfaces_view(
                        current.interfaces@,
                    ) == interfaces
                    &&& match old(self).spec_previous() {
                        None => {
                            &&& result == Ok::<NetworkReading, NetworkSamplerError>(
                                NetworkReading::Primed { interface_count: interfaces.len() as usize },
                            )
                            &&& traced(
                                *old(traces),
                                *final(traces),
                                "metrics.network"@,
                                primed_message(interfaces.len(), " interfaces"@),
                            )
                        },
                        Some(previous) => {
                            &&& result == Ok::<NetworkReading, NetworkSamplerError>(
                                NetworkReading::Compared(
                                    spec_byte_deltas(
                                        previous.interfaces@,
                                        final(self).spec_previous()->0.interfaces@,
                                    ),
                                ),
                            )
                            &&& final(traces).spec_events() == old(traces).spec_events()
                        },
                    }
                },
            },
    {
        let current = match parse_proc_net_dev(input) {
            Ok(sample) => sample,
            Err(error) => return Err(NetworkSamplerError::Parse(error)),
        };
        proof {
            assert(interfaces_view(current.interfaces@).len() == current.interfaces@.len());
        }
        match &self.previous {
            None => {
                let interface_count = current.interfaces.len();
                let mut message = String::new();
                append_str(&mut message, "primed with ");
                append_decimal(&mut message, interface_count as u64);
                append_str(&mut message, " interfaces");
                proof {
                    assert(message@ =~= primed_message(interface_count as nat, " interfaces"@));
                }
                self.previous = Some(current);
                traces.record(TraceEvent::from_text(String::from_str("metrics.network"), message));
                Ok(NetworkReading::Primed { interface_count })
            },
            Some(previous) => {
                let deltas = network_byte_deltas(previous, &current);
                self.previous = Some(current);
                Ok(NetworkReading::Compared(deltas))
            },
        }
    }
}

impl Default for NetworkSampler {
    fn default() -> (sampler: NetworkSampler)
        ensures
            sampler.spec_previous() is None,
    {
        NetworkSampler::new()
    }
}

} // verus!
