//! Names of compiler and package versions, and the paths under which the
//! runtime is kept.

use vstd::prelude::*;
use vstd::string::{StrSliceExecFns, StringExecFns};

verus! {

/// How many characters of the compiler's commit hash go into a version name.
pub const SHORT_COMMIT_HASH_LEN: usize = 7;

/// `base` with `part` joined on, as paths: an absolute `part` stands alone;
/// otherwise one `/` separates the two, unless `base` is empty or ends in one.
pub open spec fn joined(base: Seq<char>, part: Seq<char>) -> Seq<char> {
    if part.len() > 0 && part[0] == '/' {
        part
    } else if base.len() == 0 || base.last() == '/' {
        base + part
    } else {
        base + seq!['/'] + part
    }
}

/// Joins `part` onto the path `base`.
pub fn join_path(base: &str, part: &str) -> (path: String)
    ensures
        path@ == joined(base@, part@),
{
    let part_len: usize = part.unicode_len();
    if part_len > 0 && part.get_char(0) == '/' {
        return String::from_str(part);
    }
    let base_len: usize = base.unicode_len();
    let mut path: String = String::from_str(base);
    if base_len > 0 && base.get_char(base_len - 1) != '/' {
        proof {
            reveal_strlit("/");
        }
        path.append("/");
        assert("/"@ =~= seq!['/']);
    }
    path.append(part);
    path
}

/// The first bytes of a commit hash that go into a version name, as
/// characters.
pub open spec fn short_hash(hash: Seq<char>) -> Seq<char> {
    vstd::utf8::decode_utf8(
        vstd::utf8::encode_utf8(hash).subrange(0, SHORT_COMMIT_HASH_LEN as int),
    )
}

/// Whether a commit hash can be cut short: its first seven bytes are whole
/// characters.
pub open spec fn can_shorten(hash: Seq<char>) -> bool {
    vstd::utf8::is_char_boundary(vstd::utf8::encode_utf8(hash), SHORT_COMMIT_HASH_LEN as int)
}

/// The name of a compiler version: `rustc-`, the version number, and where
/// the commit is known a `-` and the first seven bytes of its hash.
pub open spec fn rustc_version_spec(semver: Seq<char>, commit_hash: Option<Seq<char>>) -> Seq<char> {
    "rustc-"@ + semver + (match commit_hash {
        Some(hash) => seq!['-'] + short_hash(hash),
        None => Seq::empty(),
    })
}

/// Whether the commit hash can be cut short for a version name.
pub fn hash_can_be_shortened(hash: &str) -> (yes: bool)
    ensures
        yes == can_shorten(hash@),
{
    hash.is_char_boundary(SHORT_COMMIT_HASH_LEN)
}

/// Names the compiler version that the runtime is built for.
pub fn rustc_version(semver: &str, commit_hash: Option<&str>) -> (name: String)
    requires
        commit_hash matches Some(hash) ==> can_shorten(hash@),
    ensures
        name@ == rustc_version_spec(
            semver@,
            match commit_hash {
                Some(hash) => Some(hash@),
                None => None,
            },
        ),
{
    let mut ret: String = String::from_str("rustc-");
    ret.append(semver);
    match commit_hash {
        Some(hash) => {
            proof {
                reveal_strlit("-");
            }
            ret.append("-");
            assert("-"@ =~= seq!['-']);
            let (short, rest) = hash.split_at(SHORT_COMMIT_HASH_LEN);
            proof {
                vstd::utf8::encode_utf8_decode_utf8(short@);
                assert(short@ == short_hash(hash@));
            }
            ret.append(short);
            assert(ret@ =~= rustc_version_spec(semver@, Some(hash@)));
        },
        None => {
            assert(ret@ =~= rustc_version_spec(semver@, None));
        },
    }
    ret
}

/// Names a version of this package: `cargo-libafl-` and the version number.
pub fn pkg_version(version: &str) -> (name: String)
    requires
        version@.len() > 0,
    ensures
        name@ == "cargo-libafl-"@ + version@,
{
    let mut ret: String = String::from_str("cargo-libafl-");
    ret.append(version);
    ret
}

/// The directory, below the user's data directory, that belongs to one
/// compiler version and one package version.
pub open spec fn prefix_spec(rustc_version: Seq<char>, pkg_version: Seq<char>) -> Seq<char> {
    joined(joined("cargo-libafl"@, rustc_version), pkg_version)
}

/// The prefix under which the runtime is kept, relative to the user's data
/// directory.
pub fn xdg_prefix(rustc_version: &str, pkg_version: &str) -> (prefix: String)
    ensures
        prefix@ == prefix_spec(rustc_version@, pkg_version@),
{
    let first: String = join_path("cargo-libafl", rustc_version);
    join_path(first.as_str(), pkg_version)
}

/// Where the runtime lives: the directory `cargo-libafl` below the prefix,
/// below the user's data directory.
pub open spec fn runtime_dir_spec(
    data_home: Seq<char>,
    rustc_version: Seq<char>,
    pkg_version: Seq<char>,
) -> Seq<char> {
    joined(
        data_home,
        joined(joined(prefix_spec(rustc_version, pkg_version), Seq::empty()), "cargo-libafl"@),
    )
}

/// The directory that holds the runtime, for the data directory
/// `data_home`.
pub fn runtime_dir(data_home: &str, rustc_version: &str, pkg_version: &str) -> (dir: String)
    ensures
        dir@ == runtime_dir_spec(data_home@, rustc_version@, pkg_version@),
{
    let prefix: String = xdg_prefix(rustc_version, pkg_version);
    let profiled: String = join_path(prefix.as_str(), "");
    proof {
        reveal_strlit("");
        assert(""@ =~= Seq::<char>::empty());
    }
    let below: String = join_path(profiled.as_str(), "cargo-libafl");
    join_path(data_home, below.as_str())
}

/// The path of the runtime archive in the runtime directory.
pub fn archive_file_path(runtime_dir: &str) -> (path: String)
    ensures
        path@ == joined(runtime_dir@, "libcargo_libafl_runtime.a"@),
{
    join_path(runtime_dir, "libcargo_libafl_runtime.a")
}

} // verus!
