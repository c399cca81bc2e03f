//! What the runtime decides at start-up, from values that its caller read.

use vstd::prelude::*;
use vstd::string::StrSliceExecFns;
use crate::common::{join_path, joined};

verus! {

/// The execution timeout in milliseconds where the user names none.
pub const DEFAULT_TIMEOUT_MILLIS: u64 = 1000;

/// How many test cases of the corpus are kept in memory.
pub const CORPUS_CACHE_SIZE: usize = 4096;

/// How many inputs the generator makes for an empty corpus.
pub const GENERATED_INPUTS: usize = 8;

/// The largest length of a generated input.
pub const GENERATED_INPUT_MAX_LEN: usize = 32;

/// The havoc stage stacks up to two to this power edits.
pub const HAVOC_MAX_STACK_POW: u64 = 7;

/// The structural stage stacks up to two to this power edits.
pub const STRUCTURAL_MAX_STACK_POW: u64 = 3;

/// Why a timeout could not be read.
#[derive(Clone, Copy, Debug, PartialEq, Eq, Structural)]
pub enum TimeoutError {
    /// The text is empty.
    Empty,
    /// The text holds something that is no decimal digit, or a sign alone.
    InvalidDigit,
    /// The number does not fit in 64 bits.
    Overflow,
}

/// The value of a decimal digit.
pub open spec fn digit_of(c: char) -> Option<nat> {
    if '0' <= c <= '9' {
        Some((c as nat - '0' as nat) as nat)
    } else {
        None
    }
}

/// Reads decimal digits from position `i` on, with `acc` the value of those
/// before: the digits are taken from left to right, and the first character
/// that is no digit, or the first digit with which the value no longer fits,
/// ends the reading with its error.
pub open spec fn read_digits(s: Seq<char>, i: int, acc: nat) -> Result<u64, TimeoutError>
    decreases s.len() - i,
{
    if i < 0 || i >= s.len() {
        Ok(acc as u64)
    } else {
        match digit_of(s[i]) {
            None => Err(TimeoutError::InvalidDigit),
            Some(d) => if acc * 10 + d > u64::MAX {
                Err(TimeoutError::Overflow)
            } else {
                read_digits(s, i + 1, acc * 10 + d)
            },
        }
    }
}

/// The number of milliseconds that a text stands for: a decimal number of at
/// least one digit, with or without a `+` before it.
pub open spec fn millis_of(s: Seq<char>) -> Result<u64, TimeoutError> {
    if s.len() == 0 {
        Err(TimeoutError::Empty)
    } else if s[0] == '+' {
        if s.len() == 1 {
            Err(TimeoutError::InvalidDigit)
        } else {
            read_digits(s, 1, 0)
        }
    } else {
        read_digits(s, 0, 0)
    }
}

/// Reads an execution timeout, given in milliseconds, from its command-line
/// text.
pub fn timeout_from_millis_str(time: &str) -> (millis: Result<u64, TimeoutError>)
    ensures
        millis == millis_of(time@),
{
    let n: usize = time.unicode_len();
    if n == 0 {
        return Err(TimeoutError::Empty);
    }
    let mut i: usize = 0;
    if time.get_char(0) == '+' {
        if n == 1 {
            return Err(TimeoutError::InvalidDigit);
        }
        i = 1;
    }
    let mut acc: u64 = 0;
    while i < n
        invariant
            i <= n,
            n == time@.len(),
            n > 0,
            millis_of(time@) == read_digits(time@, i as int, acc as nat),
        decreases n - i,
    {
        let c: char = time.get_char(i);
        if c < '0' || c > '9' {
            return Err(TimeoutError::InvalidDigit);
        }
        let d: u64 = (c as u32 - '0' as u32) as u64;
        if acc > (u64::MAX - d) / 10 {
            assert(acc * 10 + d > u64::MAX);
            return Err(TimeoutError::Overflow);
        }
        assert(acc * 10 + d <= u64::MAX);
        acc = acc * 10 + d;
        i = i + 1;
    }
    Ok(acc)
}

/// Where a worker keeps its state below the output directory.
pub struct OutputLayout {
    /// One file for each distinct crash.
    pub crashes: String,
    /// One file for each admitted test case.
    pub corpus: String,
}

/// The directories for crashes and corpus below `output`.
pub fn output_layout(output: &str) -> (layout: OutputLayout)
    ensures
        layout.crashes@ == joined(output@, "crashes"@),
        layout.corpus@ == joined(output@, "corpus"@),
{
    OutputLayout { crashes: join_path(output, "crashes"), corpus: join_path(output, "corpus") }
}

/// What is wrong with the configuration; each of these ends the start-up.
#[derive(Clone, Copy, Debug, PartialEq, Eq, Structural)]
pub enum ConfigurationError {
    /// The output path exists and is no directory.
    OutputNotADirectory,
    /// Neither the input directories nor the generator gave a single input.
    NoInitialInputs,
}

/// A resource that the start-up could not get; this ends it.
#[derive(Clone, Copy, Debug, PartialEq, Eq, Structural)]
pub enum ResourceError {
    /// No port is free for the broker.
    NoFreePort,
}

/// Decides whether the output directory can be used, from whether it was
/// just made or, if not, is a directory.
pub fn check_output_dir(created: bool, is_dir: bool) -> (usable: Result<(), ConfigurationError>)
    ensures
        usable == (if created || is_dir {
            Ok::<(), ConfigurationError>(())
        } else {
            Err::<(), ConfigurationError>(ConfigurationError::OutputNotADirectory)
        }),
{
    if created || is_dir {
        Ok(())
    } else {
        Err(ConfigurationError::OutputNotADirectory)
    }
}

/// Where the first inputs of a worker come from.
#[derive(Clone, Copy, Debug, PartialEq, Eq, Structural)]
pub enum InitialInputs {
    /// The corpus holds test cases already; nothing is added.
    Keep,
    /// The generator makes `count` inputs of at most `max_len` bytes.
    Generate { count: usize, max_len: usize },
    /// The inputs are loaded from the input directories.
    Load,
}

/// Decides where the first inputs come from: a corpus that holds a test
/// case is kept; an empty one is filled by the generator where the user
/// named no input directory, and from the input directories otherwise.
pub fn initial_inputs(corpus_count: usize, input_dirs: usize) -> (plan: InitialInputs)
    ensures
        plan == (if corpus_count >= 1 {
            InitialInputs::Keep
        } else if input_dirs == 0 {
            InitialInputs::Generate { count: GENERATED_INPUTS, max_len: GENERATED_INPUT_MAX_LEN }
        } else {
            InitialInputs::Load
        }),
{
    if corpus_count >= 1 {
        InitialInputs::Keep
    } else if input_dirs == 0 {
        InitialInputs::Generate { count: GENERATED_INPUTS, max_len: GENERATED_INPUT_MAX_LEN }
    } else {
        InitialInputs::Load
    }
}

/// Checks that the corpus holds an input after loading and generating: the
/// engine cannot go on without one.
pub fn check_initial_corpus(corpus_count: usize) -> (ready: Result<(), ConfigurationError>)
    ensures
        ready == (if corpus_count == 0 {
            Err::<(), ConfigurationError>(ConfigurationError::NoInitialInputs)
        } else {
            Ok::<(), ConfigurationError>(())
        }),
{
    if corpus_count == 0 {
        Err(ConfigurationError::NoInitialInputs)
    } else {
        Ok(())
    }
}

/// The port for the broker: the one the user chose, else the free one that
/// was picked, and an error where there is neither.
pub fn broker_port(chosen: Option<u16>, picked: Option<u16>) -> (port: Result<u16, ResourceError>)
    ensures
        port == (match (chosen, picked) {
            (Some(p), _) => Ok::<u16, ResourceError>(p),
            (None, Some(p)) => Ok::<u16, ResourceError>(p),
            (None, None) => Err::<u16, ResourceError>(ResourceError::NoFreePort),
        }),
{
    match chosen {
        Some(p) => Ok(p),
        None => match picked {
            Some(p) => Ok(p),
            None => Err(ResourceError::NoFreePort),
        },
    }
}

/// How the launch of broker and workers ended.
#[derive(Clone, Copy, Debug, PartialEq, Eq, Structural)]
pub enum LaunchEnd {
    /// Everything ran to its end.
    Finished,
    /// The user asked the fuzzer to stop.
    ShuttingDown,
    /// Anything else went wrong.
    Failed,
}

/// Whether the way the launch ended is a failure of the fuzzer: running to
/// the end is none, and being asked to stop is none.
pub fn launch_failed(end: LaunchEnd) -> (failed: bool)
    ensures
        failed == (end == LaunchEnd::Failed),
{
    match end {
        LaunchEnd::Failed => true,
        _ => false,
    }
}

} // verus!
