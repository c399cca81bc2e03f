//! The options of the commands, and the command-line text that selects
//! them.

use vstd::prelude::*;
use vstd::string::StringExecFns;

verus! {

/// The sanitizer that the fuzz target is built with.
#[derive(Clone, Copy, Debug, PartialEq, Eq, Structural)]
pub enum Sanitizer {
    Address,
    Leak,
    Memory,
    Thread,
    Off,
}

/// Whether two strings hold the same characters.
pub fn same_text(a: &str, b: &str) -> (same: bool)
    ensures
        same == (a@ == b@),
{
    a.to_owned() == b.to_owned()
}

impl Sanitizer {
    /// The name of the sanitizer as the compiler knows it; empty for none.
    pub open spec fn name(self) -> Seq<char> {
        match self {
            Sanitizer::Address => "address"@,
            Sanitizer::Leak => "leak"@,
            Sanitizer::Memory => "memory"@,
            Sanitizer::Thread => "thread"@,
            Sanitizer::Off => ""@,
        }
    }

    /// The sanitizer that a command-line word names, if it names one.
    pub open spec fn named(word: Seq<char>) -> Option<Sanitizer> {
        if word == "address"@ {
            Some(Sanitizer::Address)
        } else if word == "leak"@ {
            Some(Sanitizer::Leak)
        } else if word == "memory"@ {
            Some(Sanitizer::Memory)
        } else if word == "thread"@ {
            Some(Sanitizer::Thread)
        } else if word == "none"@ {
            Some(Sanitizer::Off)
        } else {
            None
        }
    }

    /// The text that stands for the sanitizer in a compiler flag.
    pub fn to_string(&self) -> (text: String)
        ensures
            text@ == self.name(),
    {
        match self {
            Sanitizer::Address => String::from_str("address"),
            Sanitizer::Leak => String::from_str("leak"),
            Sanitizer::Memory => String::from_str("memory"),
            Sanitizer::Thread => String::from_str("thread"),
            Sanitizer::Off => String::from_str(""),
        }
    }

    /// Reads a sanitizer from its command-line word. Any other word is
    /// refused with a message that names it.
    pub fn from_str(s: &str) -> (parsed: Result<Sanitizer, String>)
        ensures
            match Sanitizer::named(s@) {
                Some(sanitizer) => parsed == Ok::<Sanitizer, String>(sanitizer),
                None => parsed matches Err(message) && message@ == "unknown sanitizer: "@ + s@,
            },
    {
        if same_text(s, "address") {
            Ok(Sanitizer::Address)
        } else if same_text(s, "leak") {
            Ok(Sanitizer::Leak)
        } else if same_text(s, "memory") {
            Ok(Sanitizer::Memory)
        } else if same_text(s, "thread") {
            Ok(Sanitizer::Thread)
        } else if same_text(s, "none") {
            Ok(Sanitizer::Off)
        } else {
            let mut message: String = String::from_str("unknown sanitizer: ");
            message.append(s);
            Err(message)
        }
    }
}

/// `flag` if `on`, else nothing.
pub open spec fn flag_text(on: bool, flag: Seq<char>) -> Seq<char> {
    if on {
        flag
    } else {
        Seq::empty()
    }
}

/// `prefix` and the value if there is a value, else nothing.
pub open spec fn value_text(prefix: Seq<char>, value: Option<String>) -> Seq<char> {
    match value {
        Some(v) => prefix + v@,
        None => Seq::empty(),
    }
}

/// The sanitizer flag: nothing for the address sanitizer, which is the
/// default, `none` where sanitizers are off, the name otherwise.
pub open spec fn sanitizer_text(sanitizer: Sanitizer) -> Seq<char> {
    match sanitizer {
        Sanitizer::Off => " --sanitizer=none"@,
        Sanitizer::Address => Seq::empty(),
        _ => " --sanitizer="@ + sanitizer.name(),
    }
}

/// The target flag: nothing for the default target.
pub open spec fn target_text(triple: Seq<char>, default_triple: Seq<char>) -> Seq<char> {
    if triple != default_triple {
        " --target="@ + triple
    } else {
        Seq::empty()
    }
}

/// One ` -Z` flag for each unstable flag, in order.
pub open spec fn unstable_text(flags: Seq<String>) -> Seq<char>
    decreases flags.len(),
{
    if flags.len() == 0 {
        Seq::empty()
    } else {
        unstable_text(flags.drop_last()) + " -Z"@ + flags.last()@
    }
}

/// The options with which fuzz targets are built.
#[derive(Clone, Debug, PartialEq, Eq)]
pub struct BuildOptions {
    /// Build artifacts in development mode, without optimizations
    pub dev: bool,
    /// Build artifacts in release mode, with optimizations
    pub release: bool,
    /// Build artifacts with debug assertions and overflow checks enabled
    pub debug_assertions: bool,
    /// Build target with verbose output from `cargo build`
    pub verbose: bool,
    /// Build artifacts with default Cargo features disabled
    pub no_default_features: bool,
    /// Build artifacts with all Cargo features enabled
    pub all_features: bool,
    /// Build artifacts with given Cargo feature enabled
    pub features: Option<String>,
    /// Use a specific sanitizer
    pub sanitizer: Sanitizer,
    /// Build the standard library with the same settings as the fuzz target
    pub build_std: bool,
    /// Build the standard library with debug assertions and extra checks
    pub careful_mode: bool,
    /// Target triple of the fuzz target
    pub triple: String,
    /// Unstable (nightly-only) flags to Cargo
    pub unstable_flags: Vec<String>,
    /// Target dir option to pass to cargo build.
    pub target_dir: Option<String>,
    /// Instrument program code with source-based code coverage information.
    pub coverage: bool,
    /// Do not link dead code
    pub strip_dead_code: bool,
    /// Do not set the `cfg(fuzzing)` compilation configuration
    pub no_cfg_fuzzing: bool,
    /// Do not build with the `sanitizer-coverage-trace-compares` LLVM argument
    pub no_trace_compares: bool,
}

impl BuildOptions {
    /// The command-line text that selects these options: one flag, with a
    /// space before it, for each option that differs from its default, in a
    /// fixed order. `default_triple` is the target that needs no flag.
    pub open spec fn rendered(&self, default_triple: Seq<char>) -> Seq<char> {
        flag_text(self.dev, " -D"@) + flag_text(self.release, " -O"@) + flag_text(
            self.debug_assertions,
            " -a"@,
        ) + flag_text(self.verbose, " -v"@) + flag_text(
            self.no_default_features,
            " --no-default-features"@,
        ) + flag_text(self.all_features, " --all-features"@) + value_text(
            " --features="@,
            self.features,
        ) + sanitizer_text(self.sanitizer) + target_text(self.triple@, default_triple) + unstable_text(
            self.unstable_flags@,
        ) + value_text(" --target-dir="@, self.target_dir) + flag_text(self.coverage, " --coverage"@)
    }

    /// The options as command-line text, where `default_triple` is the
    /// default target.
    pub fn to_string(&self, default_triple: &str) -> (text: String)
        ensures
            text@ == self.rendered(default_triple@),
    {
        let mut out: String = String::new();
        append_flag(&mut out, self.dev, " -D");
        append_flag(&mut out, self.release, " -O");
        append_flag(&mut out, self.debug_assertions, " -a");
        append_flag(&mut out, self.verbose, " -v");
        append_flag(&mut out, self.no_default_features, " --no-default-features");
        append_flag(&mut out, self.all_features, " --all-features");
        append_value(&mut out, " --features=", &self.features);
        append_sanitizer(&mut out, self.sanitizer);
        append_target(&mut out, &self.triple, default_triple);
        append_unstable(&mut out, &self.unstable_flags);
        append_value(&mut out, " --target-dir=", &self.target_dir);
        append_flag(&mut out, self.coverage, " --coverage");
        assert(out@ =~= self.rendered(default_triple@));
        out
    }
}

fn append_flag(out: &mut String, on: bool, flag: &str)
    ensures
        final(out)@ == old(out)@ + flag_text(on, flag@),
{
    if on {
        out.append(flag);
    }
    assert(out@ =~= old(out)@ + flag_text(on, flag@));
}

fn append_value(out: &mut String, prefix: &str, value: &Option<String>)
    ensures
        final(out)@ == old(out)@ + value_text(prefix@, *value),
{
    match value {
        Some(v) => {
            out.append(prefix);
            out.append(v.as_str());
        },
        None => {},
    }
    assert(out@ =~= old(out)@ + value_text(prefix@, *value));
}

fn append_sanitizer(out: &mut String, sanitizer: Sanitizer)
    ensures
        final(out)@ == old(out)@ + sanitizer_text(sanitizer),
{
    match sanitizer {
        Sanitizer::Off => {
            out.append(" --sanitizer=none");
        },
        Sanitizer::Address => {},
        _ => {
            let name: String = sanitizer.to_string();
            out.append(" --sanitizer=");
            out.append(name.as_str());
        },
    }
    assert(out@ =~= old(out)@ + sanitizer_text(sanitizer));
}

fn append_target(out: &mut String, triple: &String, default_triple: &str)
    ensures
        final(out)@ == old(out)@ + target_text(triple@, default_triple@),
{
    if !same_text(triple.as_str(), default_triple) {
        out.append(" --target=");
        out.append(triple.as_str());
    }
    assert(out@ =~= old(out)@ + target_text(triple@, default_triple@));
}

fn append_unstable(out: &mut String, flags: &Vec<String>)
    ensures
        final(out)@ == old(out)@ + unstable_text(flags@),
{
    let mut i: usize = 0;
    while i < flags.len()
        invariant
            i <= flags@.len(),
            out@ == old(out)@ + unstable_text(flags@.take(i as int)),
        decreases flags@.len() - i,
    {
        assert(flags@.take(i + 1).drop_last() =~= flags@.take(i as int));
        out.append(" -Z");
        out.append(flags[i].as_str());
        i = i + 1;
        assert(out@ =~= old(out)@ + unstable_text(flags@.take(i as int)));
    }
    assert(flags@.take(i as int) =~= flags@);
}

/// The directory of the fuzz project, where the user names one.
#[derive(Clone, Debug, PartialEq, Eq)]
pub struct FuzzDirWrapper {
    /// The path to the fuzz project directory.
    pub fuzz_dir: Option<String>,
}

impl FuzzDirWrapper {
    /// The command-line text that names the directory; nothing where none is
    /// named.
    pub open spec fn rendered(&self) -> Seq<char> {
        value_text(" --fuzz-dir="@, self.fuzz_dir)
    }

    /// The option as command-line text.
    pub fn to_string(&self) -> (text: String)
        ensures
            text@ == self.rendered(),
    {
        let mut out: String = String::new();
        append_value(&mut out, " --fuzz-dir=", &self.fuzz_dir);
        assert(out@ =~= self.rendered());
        out
    }
}

/// Adds a new fuzz target.
#[derive(Clone, Debug)]
pub struct Add {
    pub fuzz_dir_wrapper: FuzzDirWrapper,
    /// Name of the new fuzz target
    pub target: String,
}

/// Builds fuzz targets.
#[derive(Clone, Debug)]
pub struct Build {
    pub build: BuildOptions,
    pub fuzz_dir_wrapper: FuzzDirWrapper,
    /// Name of the fuzz target to build, or build all targets if not supplied
    pub target: Option<String>,
}

/// Runs a target on the generated corpus and gathers coverage information.
#[derive(Clone, Debug)]
pub struct Coverage {
    pub build: BuildOptions,
    pub fuzz_dir_wrapper: FuzzDirWrapper,
    /// Name of the fuzz target
    pub target: String,
    /// Custom corpus directories or artifact files
    pub corpus: Vec<String>,
    /// Additional arguments passed through to the binary
    pub args: Vec<String>,
}

/// Why a coverage run cannot start.
#[derive(Clone, Copy, Debug, PartialEq, Eq, Structural)]
pub enum CoverageError {
    /// Building the standard library does not go together with coverage
    /// instrumentation.
    BuildStdUnsupported,
}

impl CoverageError {
    /// The diagnostic shown to the user.
    pub fn message(&self) -> (text: String)
        ensures
            text@
                == "-Zbuild-std is currently incompatible with -Zinstrument-coverage, see https://github.com/rust-lang/wg-cargo-std-aware/issues/63"@,
    {
        String::from_str(
            "-Zbuild-std is currently incompatible with -Zinstrument-coverage, see https://github.com/rust-lang/wg-cargo-std-aware/issues/63",
        )
    }
}

impl Coverage {
    /// Readies the build options for a coverage run: refused where the
    /// standard library is to be built too, otherwise coverage
    /// instrumentation is switched on and nothing else changes.
    pub fn enable_coverage(&mut self) -> (ready: Result<(), CoverageError>)
        ensures
            old(self).build.build_std ==> ready == Err::<(), CoverageError>(
                CoverageError::BuildStdUnsupported,
            ) && *final(self) == *old(self),
            !old(self).build.build_std ==> ready == Ok::<(), CoverageError>(()) && *final(self) == (
            Coverage { build: BuildOptions { coverage: true, ..old(self).build }, ..*old(self) }),
    {
        if self.build.build_std {
            return Err(CoverageError::BuildStdUnsupported);
        }
        self.build.coverage = true;
        Ok(())
    }
}

/// Prints the debug output for an input.
#[derive(Clone, Debug)]
pub struct Fmt {
    pub build: BuildOptions,
    pub fuzz_dir_wrapper: FuzzDirWrapper,
    /// Name of fuzz target
    pub target: String,
    /// Path to the input testcase to debug print
    pub input: String,
}

/// Initializes the fuzz directory.
#[derive(Clone, Debug)]
pub struct Init {
    /// Name of the first fuzz target to create
    pub target: String,
    pub fuzz_dir_wrapper: FuzzDirWrapper,
}

impl Init {
    /// The command with the default name for the first target.
    pub fn with_default_target(fuzz_dir_wrapper: FuzzDirWrapper) -> (init: Init)
        ensures
            init.target@ == "fuzz_target_1"@,
            init.fuzz_dir_wrapper == fuzz_dir_wrapper,
    {
        Init { target: String::from_str("fuzz_target_1"), fuzz_dir_wrapper }
    }
}

/// Lists all the existing fuzz targets.
#[derive(Clone, Debug)]
pub struct List {
    pub fuzz_dir_wrapper: FuzzDirWrapper,
}

/// Runs a fuzz target.
#[derive(Clone, Debug)]
pub struct Run {
    pub build: BuildOptions,
    /// Name of the fuzz target
    pub target: String,
    /// Custom corpus directories or artifact files.
    pub corpus: Vec<String>,
    pub fuzz_dir_wrapper: FuzzDirWrapper,
    /// Additional arguments passed through to the binary
    pub args: Vec<String>,
}

} // verus!
