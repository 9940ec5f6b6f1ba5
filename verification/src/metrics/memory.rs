use vstd::prelude::*;

use crate::scan::{
    char_seqs, chars_equal_str, find_first, first_token, parse_u64, parse_unsigned, split_lines,
    split_once, split_whitespace, split_whitespace_chars, string_from_chars, text_lines,
};
use crate::text::append_str;

verus! {

broadcast use vstd::string::group_string_axioms;

/// The two `/proc/meminfo` fields the memory signal is computed from.
#[derive(Clone, Copy, Debug, PartialEq, Eq, Structural)]
pub struct MemorySample {
    pub total_kib: u64,
    pub available_kib: u64,
}

/// Why a `/proc/meminfo` reading could not be parsed.
#[derive(Clone, Debug, PartialEq, Eq)]
pub enum MemoryParseError {
    MissingField { field: &'static str },
    MissingValue { field: &'static str },
    InvalidValue { field: &'static str, value: String },
}

/// A parse error with its text as characters.
pub enum MemoryParseFailure {
    MissingField { field: Seq<char> },
    MissingValue { field: Seq<char> },
    InvalidValue { field: Seq<char>, value: Seq<char> },
}

impl View for MemoryParseError {
    type V = MemoryParseFailure;

    open spec fn view(&self) -> MemoryParseFailure {
        match self {
            MemoryParseError::MissingField { field } => MemoryParseFailure::MissingField {
                field: field@,
            },
            MemoryParseError::MissingValue { field } => MemoryParseFailure::MissingValue {
                field: field@,
            },
            MemoryParseError::InvalidValue { field, value } => MemoryParseFailure::InvalidValue {
                field: field@,
                value: value@,
            },
        }
    }
}

impl MemoryParseError {
    pub open spec fn spec_message(&self) -> Seq<char> {
        match self@ {
            MemoryParseFailure::MissingField { field } => "missing "@ + field + " in /proc/meminfo"@,
            MemoryParseFailure::MissingValue { field } => "missing "@ + field
                + " value in /proc/meminfo"@,
            MemoryParseFailure::InvalidValue { field, value } => "invalid "@ + field + " value '"@
                + value + "' in /proc/meminfo"@,
        }
    }

    /// The user-facing description of the error.
    pub fn message(&self) -> (message: String)
        ensures
            message@ == self.spec_message(),
    {
        let mut text = String::new();
        match self {
            MemoryParseError::MissingField { field } => {
                append_str(&mut text, "missing ");
                append_str(&mut text, field);
                append_str(&mut text, " in /proc/meminfo");
            },
            MemoryParseError::MissingValue { field } => {
                append_str(&mut text, "missing ");
                append_str(&mut text, field);
                append_str(&mut text, " value in /proc/meminfo");
            },
            MemoryParseError::InvalidValue { field, value } => {
                append_str(&mut text, "invalid ");
                append_str(&mut text, field);
                append_str(&mut text, " value '");
                append_str(&mut text, value.as_str());
                append_str(&mut text, "' in /proc/meminfo");
            },
        }
        proof {
            assert(text@ =~= self.spec_message());
        }
        text
    }
}

/// The first token after a field's colon, read as a number of KiB.
pub open spec fn spec_kib_value(field: Seq<char>, rest: Seq<char>) -> Result<u64, MemoryParseFailure> {
    match first_token(rest) {
        None => Err(MemoryParseFailure::MissingValue { field }),
        Some(token) => match parse_unsigned(token, u64::MAX as nat) {
            None => Err(MemoryParseFailure::InvalidValue { field, value: token }),
            Some(value) => Ok(value as u64),
        },
    }
}

/// The `MemTotal` and `MemAvailable` values seen so far; a later line for a field replaces
/// an earlier one, and the first malformed value of either field is an error.
pub open spec fn spec_meminfo_lines(lines: Seq<Seq<char>>) -> Result<(Option<u64>, Option<u64>), MemoryParseFailure>
    decreases lines.len(),
{
    if lines.len() == 0 {
        Ok((None, None))
    } else {
        match spec_meminfo_lines(lines.drop_last()) {
            Err(failure) => Err(failure),
            Ok(fields) => match split_once(lines.last(), ':') {
                None => Ok(fields),
                Some(parts) => if parts.0 == "MemTotal"@ {
                    match spec_kib_value("MemTotal"@, parts.1) {
                        Err(failure) => Err(failure),
                        Ok(value) => Ok((Some(value), fields.1)),
                    }
                } else if parts.0 == "MemAvailable"@ {
                    match spec_kib_value("MemAvailable"@, parts.1) {
                        Err(failure) => Err(failure),
                        Ok(value) => Ok((fields.0, Some(value))),
                    }
                } else {
                    Ok(fields)
                },
            },
        }
    }
}

pub open spec fn spec_parse_meminfo(input: Seq<char>) -> Result<MemorySample, MemoryParseFailure> {
    match spec_meminfo_lines(text_lines(input)) {
        Err(failure) => Err(failure),
        Ok(fields) => if fields.0 is None {
            Err(MemoryParseFailure::MissingField { field: "MemTotal"@ })
        } else if fields.1 is None {
            Err(MemoryParseFailure::MissingField { field: "MemAvailable"@ })
        } else {
            Ok(MemorySample { total_kib: fields.0->0, available_kib: fields.1->0 })
        },
    }
}

fn parse_kib_value(field: &'static str, rest: &[char]) -> (result: Result<u64, MemoryParseError>)
    ensures
        match spec_kib_value(field@, rest@) {
            Ok(value) => result == Ok::<u64, MemoryParseError>(value),
            Err(failure) => result matches Err(error) && error@ == failure,
        },
{
    let tokens = split_whitespace_chars(rest);
    if tokens.len() == 0 {
        return Err(MemoryParseError::MissingValue { field });
    }
    proof {
        assert(char_seqs(tokens@)[0] == tokens@[0]@);
    }
    let token = tokens[0].as_slice();
    match parse_u64(token) {
        Some(value) => Ok(value),
        None => Err(MemoryParseError::InvalidValue { field, value: string_from_chars(token) }),
    }
}

proof fn lemma_failure_persists(lines: Seq<Seq<char>>, k: int)
    requires
        0 <= k <= lines.len(),
        spec_meminfo_lines(lines.take(k)) is Err,
    ensures
        spec_meminfo_lines(lines) == spec_meminfo_lines(lines.take(k)),
    decreases lines.len() - k,
{
    if k < lines.len() {
        assert(lines.take(k + 1).drop_last() == lines.take(k));
        lemma_failure_persists(lines, k + 1);
    } else {
        assert(lines.take(k) == lines);
    }
}

/// Reads `MemTotal` and `MemAvailable` from `/proc/meminfo`.
pub fn parse_meminfo(input: &str) -> (result: Result<MemorySample, MemoryParseError>)
    ensures
        match spec_parse_meminfo(input@) {
            Ok(sample) => result == Ok::<MemorySample, MemoryParseError>(sample),
            Err(failure) => result matches Err(error) && error@ == failure,
        },
{
    proof {
        reveal_strlit("MemTotal");
        reveal_strlit("MemAvailable");
    }
    let lines = split_lines(input);
    let ghost all = text_lines(input@);
    let mut total_kib: Option<u64> = None;
    let mut available_kib: Option<u64> = None;
    let mut i: usize = 0;
    while i < lines.len()
        invariant
            i <= lines@.len(),
            all == char_seqs(lines@),
            all == text_lines(input@),
            "MemTotal"@ == seq!['M', 'e', 'm', 'T', 'o', 't', 'a', 'l'],
            "MemAvailable"@ == seq!['M', 'e', 'm', 'A', 'v', 'a', 'i', 'l', 'a', 'b', 'l', 'e'],
            spec_meminfo_lines(all.take(i as int)) == Ok::<(Option<u64>, Option<u64>), MemoryParseFailure>(
                (total_kib, available_kib),
            ),
        decreases lines@.len() - i,
    {
        proof {
            assert(all.take(i as int + 1).drop_last() == all.take(i as int));
            assert(all.take(i as int + 1).last() == lines@[i as int]@);
        }
        let line = lines[i].as_slice();
        match find_first(line, ':') {
            None => {},
            Some(colon) => {
                let key = &line[0..colon];
                let rest = &line[colon + 1..line.len()];
                if chars_equal_str(key, "MemTotal") {
                    match parse_kib_value("MemTotal", rest) {
                        Ok(value) => {
                            total_kib = Some(value);
                        },
                        Err(error) => {
                            proof {
                                lemma_failure_persists(all, i as int + 1);
                            }
                            return Err(error);
                        },
                    }
                } else if chars_equal_str(key, "MemAvailable") {
                    match parse_kib_value("MemAvailable", rest) {
                        Ok(value) => {
                            available_kib = Some(value);
                        },
                        Err(error) => {
                            proof {
                                lemma_failure_persists(all, i as int + 1);
                            }
                            return Err(error);
                        },
                    }
                }
            },
        }
        i = i + 1;
    }
    proof {
        assert(all.take(lines@.len() as int) == all);
    }
    let total_kib = match total_kib {
        Some(value) => value,
        None => {
            return Err(MemoryParseError::MissingField { field: "MemTotal" });
        },
    };
    let available_kib = match available_kib {
        Some(value) => value,
        None => {
            return Err(MemoryParseError::MissingField { field: "MemAvailable" });
        },
    };
    Ok(MemorySample { total_kib, available_kib })
}

/// Why a memory reading cannot be turned into a pressure value.
#[derive(Clone, Copy, Debug, PartialEq, Eq, Structural)]
pub enum MemoryPressureError {
    ZeroTotalMemory,
}

impl MemoryPressureError {
    pub fn message(&self) -> (message: String)
        ensures
            message@ == "MemTotal must be greater than zero"@,
    {
        let mut text = String::new();
        append_str(&mut text, "MemTotal must be greater than zero");
        proof {
            assert(text@ =~= "MemTotal must be greater than zero"@);
        }
        text
    }
}

/// A reading can be turned into a pressure value exactly when its total is not zero.
pub fn check_memory_sample(sample: &MemorySample) -> (result: Result<(), MemoryPressureError>)
    ensures
        result is Err <==> sample.total_kib == 0,
        result is Err ==> result == Err::<(), MemoryPressureError>(MemoryPressureError::ZeroTotalMemory),
{
    if sample.total_kib == 0 {
        Err(MemoryPressureError::ZeroTotalMemory)
    } else {
        Ok(())
    }
}


/// Why a memory reading failed.
#[derive(Clone, Debug, PartialEq, Eq)]
pub enum MemorySamplerError {
    /// `/proc/meminfo` could not be read; the text says why.
    Io(String),
    Parse(MemoryParseError),
    Pressure(MemoryPressureError),
}

impl MemorySamplerError {
    /// The user-facing description of the error.
    pub fn message(&self) -> (message: String)
        ensures
            self matches MemorySamplerError::Io(reason) ==> message@ == "failed to read /proc/meminfo: "@
                + reason@,
            self matches MemorySamplerError::Parse(error) ==> message@ == error.spec_message(),
            self is Pressure ==> message@ == "MemTotal must be greater than zero"@,
    {
        match self {
            MemorySamplerError::Io(reason) => {
                let mut text = String::new();
                append_str(&mut text, "failed to read /proc/meminfo: ");
                append_str(&mut text, reason.as_str());
                text
            },
            MemorySamplerError::Parse(error) => error.message(),
            MemorySamplerError::Pressure(error) => error.message(),
        }
    }
}

/// Turns `/proc/meminfo` readings into memory samples; it keeps no state between them.
#[derive(Clone, Copy, Debug, Default)]
pub struct MemorySampler;

impl MemorySampler {
    /// Parses a `/proc/meminfo` reading and checks that a pressure value can be computed
    /// from it: the sample, or the parse error, or `ZeroTotalMemory` for a zero total.
    pub fn observe_meminfo(&mut self, input: &str) -> (result: Result<MemorySample, MemorySamplerError>)
        ensures
            match spec_parse_meminfo(input@) {
                Err(failure) => result matches Err(MemorySamplerError::Parse(error)) && error@ == failure,
                Ok(sample) => if sample.total_kib == 0 {
                    result == Err::<MemorySample, MemorySamplerError>(
                        MemorySamplerError::Pressure(MemoryPressureError::ZeroTotalMemory),
                    )
                } else {
                    result == Ok::<MemorySample, MemorySamplerError>(sample)
                },
            },
    {
        let sample = match parse_meminfo(input) {
            Ok(sample) => sample,
            Err(error) => return Err(MemorySamplerError::Parse(error)),
        };
        match check_memory_sample(&sample) {
            Ok(()) => Ok(sample),
            Err(error) => Err(MemorySamplerError::Pressure(error)),
        }
    }
}

} // verus!
