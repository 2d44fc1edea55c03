//! The intercept environment: the two interception strategies, the
//! environment-variable overlay they inject, the search-path insertion
//! algorithm, and the mapping from a child's terminal status to an exit code.
//!
//! Nothing here touches the real process environment or spawns anything: the
//! caller reads the inherited variable value, hands it in as a string, and
//! receives the overlay and launch data back as plain values.

use vstd::prelude::*;
use vstd::string::StrSliceExecFns;
use vstd::string::StringExecFns;
use crate::model::env_keys_unique;

verus! {

/// Variable set on the child's environment to the collector's address.
pub const KEY_DESTINATION: &'static str = "INTERCEPT_REPORTER_ADDRESS";

/// Dynamic-linker preload list, rewritten in preload mode.
pub const KEY_PRELOAD_PATH: &'static str = "LD_PRELOAD";

/// Executable search path, rewritten in wrapper mode.
pub const KEY_SEARCH_PATH: &'static str = "PATH";

/// Exit code reported when the child was terminated by a signal and the OS
/// supplies no numeric exit code.
pub const FAILURE_EXIT_CODE: u8 = 1;

// ---------------------------------------------------------------------------
// Search-path insertion
// ---------------------------------------------------------------------------

/// The entries of `s` split on `':'`; splitting the empty sequence yields one
/// empty entry.
pub open spec fn split_colon_spec(s: Seq<char>) -> Seq<Seq<char>>
    decreases s.len(),
{
    if s.len() == 0 {
        seq![Seq::<char>::empty()]
    } else if s.last() == ':' {
        split_colon_spec(s.drop_last()).push(Seq::empty())
    } else {
        let parts = split_colon_spec(s.drop_last());
        parts.update(parts.len() - 1, parts.last().push(s.last()))
    }
}

/// The entries of `parts` that differ from `first`, in order.
pub open spec fn retain_differing(parts: Seq<Seq<char>>, first: Seq<char>) -> Seq<Seq<char>>
    decreases parts.len(),
{
    if parts.len() == 0 {
        Seq::empty()
    } else if parts.last() == first {
        retain_differing(parts.drop_last(), first)
    } else {
        retain_differing(parts.drop_last(), first).push(parts.last())
    }
}

/// The entries joined with `':'` between them.
pub open spec fn join_colon(parts: Seq<Seq<char>>) -> Seq<char>
    decreases parts.len(),
{
    if parts.len() == 0 {
        Seq::empty()
    } else if parts.len() == 1 {
        parts[0]
    } else {
        join_colon(parts.drop_last()) + seq![':'] + parts.last()
    }
}

/// What inserting `first` into a `PATH`-like value yields: split `original`
/// on `':'`, drop every entry exactly equal to `first` (a string match, not a
/// path normalization), put `first` in front, and rejoin.  An empty
/// `original` yields just `first`, with no delimiter.
pub open spec fn insert_to_path_spec(original: Seq<char>, first: Seq<char>) -> Seq<char> {
    if original.len() == 0 {
        first
    } else {
        join_colon(seq![first] + retain_differing(split_colon_spec(original), first))
    }
}

fn split_colon(s: &str) -> (parts: Vec<String>)
    ensures
        parts.deep_view() == split_colon_spec(s@),
{
    let n = s.unicode_len();
    let mut parts: Vec<String> = Vec::new();
    let mut current: Vec<char> = Vec::new();
    let mut i: usize = 0;
    while i < n
        invariant
            i <= n,
            n == s@.len(),
            split_colon_spec(s@.take(i as int)) == parts.deep_view().push(current@),
        decreases n - i,
    {
        let c = s.get_char(i);
        proof {
            assert(s@.take(i as int + 1).drop_last() =~= s@.take(i as int));
            assert(s@.take(i as int + 1).last() == s@[i as int]);
        }
        if c == ':' {
            let ghost prev_parts = parts.deep_view();
            let entry = crate::model::string_from_chars(&current);
            parts.push(entry);
            current.clear();
            proof {
                assert(parts.deep_view() =~= prev_parts.push(current@).update(
                    prev_parts.len() as int,
                    parts.deep_view().last(),
                ));
                assert(split_colon_spec(s@.take(i as int + 1)) =~= parts.deep_view().push(
                    Seq::<char>::empty(),
                ));
            }
        } else {
            let ghost prev = current@;
            current.push(c);
            proof {
                let before = parts.deep_view().push(prev);
                assert(before.update(before.len() - 1, before.last().push(s@[i as int]))
                    =~= parts.deep_view().push(current@));
            }
        }
        i += 1;
    }
    proof {
        assert(s@.take(n as int) =~= s@);
    }
    let entry = crate::model::string_from_chars(&current);
    parts.push(entry);
    proof {
        assert(parts.deep_view() =~= split_colon_spec(s@));
    }
    parts
}

/// Inserts `first` at the front of a `PATH`-like value, removing any entry
/// already exactly equal to it and preserving the order of the rest.
pub fn insert_to_path(original: &str, first: String) -> (r: String)
    ensures
        r@ == insert_to_path_spec(original@, first@),
{
    if original.unicode_len() == 0 {
        return first;
    }
    let parts = split_colon(original);
    let ghost dv = parts.deep_view();
    let n = parts.len();
    let mut result: String = first.clone();
    proof {
        assert(seq![first@] + retain_differing(dv.take(0), first@) =~= seq![first@]);
    }
    let mut i: usize = 0;
    while i < n
        invariant
            i <= n,
            n == dv.len(),
            dv == parts.deep_view(),
            result@ == join_colon(seq![first@] + retain_differing(dv.take(i as int), first@)),
        decreases n - i,
    {
        proof {
            assert(dv.take(i as int + 1).drop_last() =~= dv.take(i as int));
            assert(dv.take(i as int + 1).last() == dv[i as int]);
            assert(dv[i as int] == parts@[i as int]@);
        }
        if !parts[i].eq(&first) {
            let ghost kept = retain_differing(dv.take(i as int), first@);
            result.append(":");
            result.append(parts[i].as_str());
            proof {
                reveal_strlit(":");
                assert(":"@ =~= seq![':']);
                let whole = seq![first@] + kept.push(dv[i as int]);
                assert(whole =~= (seq![first@] + kept).push(dv[i as int]));
                assert(whole.drop_last() =~= seq![first@] + kept);
                assert(result@ =~= join_colon(whole));
            }
        }
        i += 1;
    }
    proof {
        assert(dv.take(n as int) =~= dv);
    }
    result
}

// ---------------------------------------------------------------------------
// Exit-code mapping
// ---------------------------------------------------------------------------

/// The exit code owed for a terminal status: the low byte of the numeric exit
/// code when the OS reports one, [`FAILURE_EXIT_CODE`] when the child was
/// terminated by a signal and no code exists.
pub open spec fn spec_exit_code(status: Option<i32>) -> u8 {
    match status {
        Some(c) => (c & 0xff) as u8,
        None => FAILURE_EXIT_CODE,
    }
}

/// Maps a child's terminal status to the exit code of the build: a reported
/// code in 0..=255 is passed through unchanged, a signal termination becomes
/// [`FAILURE_EXIT_CODE`].  A non-zero result is a normal outcome, not an
/// error.
pub fn exit_code_from_status(status: Option<i32>) -> (r: u8)
    ensures
        r == spec_exit_code(status),
        match status {
            Some(c) => 0 <= c <= 255 ==> r == c,
            None => r == FAILURE_EXIT_CODE,
        },
{
    match status {
        Some(c) => {
            let low = c & 0xff;
            proof {
                assert(0 <= (c & 0xff) < 256) by (bit_vector);
                assert(0 <= c <= 255 ==> (c & 0xff) == c) by (bit_vector);
            }
            low as u8
        },
        None => FAILURE_EXIT_CODE,
    }
}

// ---------------------------------------------------------------------------
// The intercept environment
// ---------------------------------------------------------------------------

/// The two mutually exclusive interception strategies.
///
/// `Wrapper` places shim executables, hard-linked into a temporary directory,
/// ahead of the real ones on `PATH`; `Preload` injects a shared library into
/// children through the dynamic linker's preload list.  Both record the
/// collector's published address.  The temporary directory itself and the
/// collector service handle are owned by the caller for exactly the lifetime
/// of this value.
pub enum InterceptEnvironment {
    Wrapper { bin_dir: String, address: String },
    Preload { path: String, address: String },
}

/// One build command: its arguments, `argv[0]` first.
pub struct BuildCommand {
    pub arguments: Vec<String>,
}

/// Everything needed to supervise the build command: the program, its
/// remaining arguments, and the environment overlay to apply on top of the
/// inherited environment.
pub struct Launch {
    pub program: String,
    pub arguments: Vec<String>,
    pub overlay: Vec<(String, String)>,
}

impl InterceptEnvironment {
    /// The collector address recorded in this environment.
    pub open spec fn spec_address(&self) -> Seq<char> {
        match self {
            InterceptEnvironment::Wrapper { address, .. } => address@,
            InterceptEnvironment::Preload { address, .. } => address@,
        }
    }

    /// The entry inserted in front of the search path: the shim directory in
    /// wrapper mode, the preload library in preload mode.
    pub open spec fn spec_inserted_entry(&self) -> Seq<char> {
        match self {
            InterceptEnvironment::Wrapper { bin_dir, .. } => bin_dir@,
            InterceptEnvironment::Preload { path, .. } => path@,
        }
    }

    /// The name of the `PATH`-like variable this variant rewrites.
    pub open spec fn spec_path_variable(&self) -> Seq<char> {
        match self {
            InterceptEnvironment::Wrapper { .. } => "PATH"@,
            InterceptEnvironment::Preload { .. } => "LD_PRELOAD"@,
        }
    }

    /// The overlay owed for an inherited search-path value: the rewritten
    /// `PATH`-like variable, then the reporter destination variable.
    pub open spec fn spec_overlay(&self, inherited: Seq<char>) -> Seq<(Seq<char>, Seq<char>)> {
        seq![
            (self.spec_path_variable(), insert_to_path_spec(inherited, self.spec_inserted_entry())),
            ("INTERCEPT_REPORTER_ADDRESS"@, self.spec_address()),
        ]
    }

    /// Records a wrapper-mode environment.
    pub fn new_wrapper(bin_dir: String, address: String) -> (r: InterceptEnvironment)
        ensures
            r == (InterceptEnvironment::Wrapper { bin_dir, address }),
    {
        InterceptEnvironment::Wrapper { bin_dir, address }
    }

    /// Records a preload-mode environment.
    pub fn new_preload(path: String, address: String) -> (r: InterceptEnvironment)
        ensures
            r == (InterceptEnvironment::Preload { path, address }),
    {
        InterceptEnvironment::Preload { path, address }
    }

    /// The name of the variable whose inherited value must be handed to
    /// [`Self::environment`] and [`Self::prepare_build_command`].
    pub fn path_variable_name(&self) -> (r: &'static str)
        ensures
            r@ == self.spec_path_variable(),
    {
        match self {
            InterceptEnvironment::Wrapper { .. } => KEY_SEARCH_PATH,
            InterceptEnvironment::Preload { .. } => KEY_PRELOAD_PATH,
        }
    }

    /// Computes the environment overlay for the spawned child without
    /// mutating the real process environment.  `inherited` is the current
    /// value of the variable named by [`Self::path_variable_name`], empty
    /// when unset.  The overlay's keys are distinct.
    pub fn environment(&self, inherited: &str) -> (overlay: Vec<(String, String)>)
        ensures
            overlay.deep_view() == self.spec_overlay(inherited@),
            env_keys_unique(overlay.deep_view()),
    {
        let entry = match self {
            InterceptEnvironment::Wrapper { bin_dir, .. } => bin_dir.clone(),
            InterceptEnvironment::Preload { path, .. } => path.clone(),
        };
        let variable = self.path_variable_name();
        let updated = insert_to_path(inherited, entry);
        let mut overlay: Vec<(String, String)> = Vec::new();
        overlay.push((String::from_str(variable), updated));
        let address = match self {
            InterceptEnvironment::Wrapper { address, .. } => address.clone(),
            InterceptEnvironment::Preload { address, .. } => address.clone(),
        };
        overlay.push((String::from_str(KEY_DESTINATION), address));
        proof {
            assert(overlay.deep_view() =~= self.spec_overlay(inherited@));
            reveal_strlit("PATH");
            reveal_strlit("LD_PRELOAD");
            reveal_strlit("INTERCEPT_REPORTER_ADDRESS");
            assert(self.spec_path_variable().len() != "INTERCEPT_REPORTER_ADDRESS"@.len());
            let dv = overlay.deep_view();
            assert forall|i: int, j: int| 0 <= i < j < dv.len() implies dv[i].0 != dv[j].0 by {
                assert(i == 0 && j == 1);
            }
        }
        overlay
    }

    /// Splits the build command into the program (`argv[0]`) and the
    /// remaining arguments, and pairs them with the environment overlay.
    /// Yields `None` exactly when the command has no arguments at all, so no
    /// program exists to launch.
    pub fn prepare_build_command(&self, input: &BuildCommand, inherited: &str) -> (r: Option<
        Launch,
    >)
        ensures
            r is Some <==> input.arguments@.len() >= 1,
            r matches Some(launch) ==> {
                &&& launch.program@ == input.arguments.deep_view()[0]
                &&& launch.arguments.deep_view() == input.arguments.deep_view().skip(1)
                &&& launch.overlay.deep_view() == self.spec_overlay(inherited@)
            },
    {
        if input.arguments.len() == 0 {
            return None;
        }
        let program = input.arguments[0].clone();
        let n = input.arguments.len();
        let ghost dv = input.arguments.deep_view();
        let mut rest: Vec<String> = Vec::new();
        let mut i: usize = 1;
        while i < n
            invariant
                1 <= i <= n,
                n == dv.len(),
                dv == input.arguments.deep_view(),
                rest.deep_view() == dv.subrange(1, i as int),
            decreases n - i,
        {
            let ghost prev = rest.deep_view();
            rest.push(input.arguments[i].clone());
            proof {
                assert(dv[i as int] == input.arguments@[i as int]@);
                assert(prev.push(dv[i as int]) =~= dv.subrange(1, i as int + 1));
            }
            i += 1;
        }
        let overlay = self.environment(inherited);
        proof {
            assert(dv.subrange(1, n as int) =~= dv.skip(1));
            assert(program@ == dv[0]);
        }
        Some(Launch { program, arguments: rest, overlay })
    }
}

} // verus!
