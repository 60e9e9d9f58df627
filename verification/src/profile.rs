//! Build profiles and target architectures: the four supported
//! build/test profile combinations, where each keeps its artifacts, and
//! where the fel4 manifest lives beside a cargo manifest.

use vstd::prelude::*;

verus! {

broadcast use vstd::string::group_string_axioms;

/// The four supported build profiles: debug and release, each plain or
/// with tests enabled.
#[derive(Clone, Copy, Debug, PartialEq, Eq, Hash, Structural)]
pub enum Fel4BuildProfile {
    Debug,
    Release,
    TestDebug,
    TestRelease,
}

/// The supported target architectures.
#[allow(non_camel_case_types)]
#[derive(Clone, Copy, Debug, PartialEq, Eq, Structural)]
pub enum Arch {
    X86,
    X86_64,
    Armv7,
    Aarch64,
}

/// The profile selected by the release and test command-line flags.
pub fn build_flags_to_profile(is_release: bool, is_test: bool) -> (r: Fel4BuildProfile)
    ensures
        r == (if is_release && is_test {
            Fel4BuildProfile::TestRelease
        } else if is_release {
            Fel4BuildProfile::Release
        } else if is_test {
            Fel4BuildProfile::TestDebug
        } else {
            Fel4BuildProfile::Debug
        }),
{
    match (is_release, is_test) {
        (true, true) => Fel4BuildProfile::TestRelease,
        (true, false) => Fel4BuildProfile::Release,
        (false, true) => Fel4BuildProfile::TestDebug,
        (false, false) => Fel4BuildProfile::Debug,
    }
}

impl Fel4BuildProfile {
    /// The artifact subdirectory this profile builds into.
    pub open spec fn artifact_subdir_spec(self) -> Seq<char> {
        match self {
            Fel4BuildProfile::Debug => "debug"@,
            Fel4BuildProfile::Release => "release"@,
            Fel4BuildProfile::TestDebug => "test/debug"@,
            Fel4BuildProfile::TestRelease => "test/release"@,
        }
    }

    /// The artifact subdirectory this profile builds into, as a
    /// `/`-separated relative path.
    pub fn artifact_subdir_path(&self) -> (r: String)
        ensures
            r@ == self.artifact_subdir_spec(),
    {
        match *self {
            Fel4BuildProfile::Debug => "debug".to_owned(),
            Fel4BuildProfile::Release => "release".to_owned(),
            Fel4BuildProfile::TestDebug => "test/debug".to_owned(),
            Fel4BuildProfile::TestRelease => "test/release".to_owned(),
        }
    }
}

/// Length of the leading directory prefix of a `/`-separated path, up
/// to and including the last separator; `0` when the path has none.
pub open spec fn dir_prefix_len(s: Seq<char>) -> int
    decreases s.len(),
{
    if s.len() == 0 {
        0
    } else if s[s.len() - 1] == '/' {
        s.len() as int
    } else {
        dir_prefix_len(s.drop_last())
    }
}

/// The path of the fel4 manifest expected beside a cargo manifest: the
/// final component of the cargo manifest path replaced by `fel4.toml`.
pub open spec fn fel4_manifest_sibling(s: Seq<char>) -> Seq<char> {
    s.subrange(0, dir_prefix_len(s)) + "fel4.toml"@
}

/// Locate the fel4 manifest beside a cargo manifest, treating the path
/// as `/`-separated text whose final component names the cargo manifest
/// file.
pub fn fel4_manifest_path_from_cargo_manifest_path(cargo_manifest_path: &str) -> (r: String)
    ensures
        r@ == fel4_manifest_sibling(cargo_manifest_path@),
{
    let n = cargo_manifest_path.unicode_len();
    proof {
        assert(cargo_manifest_path@.subrange(0, n as int) =~= cargo_manifest_path@);
    }
    let mut i: usize = n;
    while i > 0 && cargo_manifest_path.get_char(i - 1) != '/'
        invariant
            0 <= i <= n,
            n == cargo_manifest_path@.len(),
            dir_prefix_len(cargo_manifest_path@) == dir_prefix_len(
                cargo_manifest_path@.subrange(0, i as int),
            ),
        decreases i,
    {
        proof {
            assert(cargo_manifest_path@.subrange(0, i as int)[i - 1] == cargo_manifest_path@[i
                - 1]);
            assert(cargo_manifest_path@.subrange(0, i as int).drop_last()
                =~= cargo_manifest_path@.subrange(0, i - 1));
        }
        i = i - 1;
    }
    proof {
        if i > 0 {
            assert(cargo_manifest_path@.subrange(0, i as int)[i - 1] == '/');
        }
        assert(dir_prefix_len(cargo_manifest_path@) == i);
    }
    let mut r = cargo_manifest_path.substring_char(0, i).to_owned();
    r.append("fel4.toml");
    r
}

} // verus!
