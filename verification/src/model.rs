//! Value types describing one observed process launch, and the envelope that
//! carries an observation across the process boundary.
//!
//! All values here are plain data: paths and environment entries are strings,
//! the environment mapping is a vector of key/value pairs whose keys are kept
//! unique (last write wins when the same key is set again).

use vstd::prelude::*;

verus! {

/// OS-assigned numeric identifier of a process.
///
/// Not unique over a build's lifetime: the OS recycles them.
#[derive(Clone, Copy, Debug, PartialEq, Eq, Structural)]
pub struct ProcessId(pub u32);

/// Identifier generated once per reporter-process instance.
///
/// Unique within the scope of one build; a reporter reuses it for every event
/// it emits.  It exists because [`ProcessId`] reuse makes the PID alone
/// unreliable for correlating events to the same logical invocation.
#[derive(Clone, Copy, Debug, PartialEq, Eq, Structural)]
pub struct ReporterId(pub u64);

/// Everything needed to reproduce a process launch.
///
/// Excludes the outcome (exit code, duration, signals).  `arguments` keeps
/// positional order and includes `argv[0]`; `environment` is a mapping with
/// unique keys (see [`env_keys_unique`]).
#[derive(Clone, Debug, PartialEq)]
pub struct Execution {
    pub executable: String,
    pub arguments: Vec<String>,
    pub working_dir: String,
    pub environment: Vec<(String, String)>,
}

/// One observation: a process was launched.
#[derive(Clone, Debug, PartialEq)]
pub struct Event {
    pub pid: ProcessId,
    pub execution: Execution,
}

/// The unit of wire transfer: one event together with the identity of the
/// reporter that observed it and a timestamp.
#[derive(Clone, Debug, PartialEq)]
pub struct Envelope {
    pub rid: ReporterId,
    pub timestamp: u64,
    pub event: Event,
}

/// Mathematical value of an [`Execution`].
#[verifier::ext_equal]
pub ghost struct ExecutionView {
    pub executable: Seq<char>,
    pub arguments: Seq<Seq<char>>,
    pub working_dir: Seq<char>,
    pub environment: Seq<(Seq<char>, Seq<char>)>,
}

/// Mathematical value of an [`Event`].
#[verifier::ext_equal]
pub ghost struct EventView {
    pub pid: u32,
    pub execution: ExecutionView,
}

/// Mathematical value of an [`Envelope`].
#[verifier::ext_equal]
pub ghost struct EnvelopeView {
    pub rid: u64,
    pub timestamp: u64,
    pub event: EventView,
}

impl View for Execution {
    type V = ExecutionView;

    open spec fn view(&self) -> ExecutionView {
        ExecutionView {
            executable: self.executable@,
            arguments: self.arguments.deep_view(),
            working_dir: self.working_dir@,
            environment: self.environment.deep_view(),
        }
    }
}

impl View for Event {
    type V = EventView;

    open spec fn view(&self) -> EventView {
        EventView { pid: self.pid.0, execution: self.execution@ }
    }
}

impl View for Envelope {
    type V = EnvelopeView;

    open spec fn view(&self) -> EnvelopeView {
        EnvelopeView { rid: self.rid.0, timestamp: self.timestamp, event: self.event@ }
    }
}

impl Envelope {
    /// Wraps one observed event for wire transfer, under the reporter's
    /// stable identity and the moment of reporting.
    pub fn new(rid: ReporterId, timestamp: u64, event: Event) -> (r: Envelope)
        ensures
            r@ == (EnvelopeView { rid: rid.0, timestamp, event: event@ }),
    {
        Envelope { rid, timestamp, event }
    }
}

/// The environment mapping invariant: no key occurs twice.
pub open spec fn env_keys_unique(env: Seq<(Seq<char>, Seq<char>)>) -> bool {
    forall|i: int, j: int| 0 <= i < j < env.len() ==> env[i].0 != env[j].0
}

/// The given environment with every entry for `key` removed; the order of the
/// remaining entries is preserved.
pub open spec fn env_remove_key(
    env: Seq<(Seq<char>, Seq<char>)>,
    key: Seq<char>,
) -> Seq<(Seq<char>, Seq<char>)>
    decreases env.len(),
{
    if env.len() == 0 {
        Seq::empty()
    } else if env.last().0 == key {
        env_remove_key(env.drop_last(), key)
    } else {
        env_remove_key(env.drop_last(), key).push(env.last())
    }
}

/// The value bound to `key`, taking the latest entry when several exist.
pub open spec fn env_lookup(
    env: Seq<(Seq<char>, Seq<char>)>,
    key: Seq<char>,
) -> Option<Seq<char>>
    decreases env.len(),
{
    if env.len() == 0 {
        None
    } else if env.last().0 == key {
        Some(env.last().1)
    } else {
        env_lookup(env.drop_last(), key)
    }
}

/// No entry of `env_remove_key(env, key)` carries `key`, and every other entry
/// survives in order.
proof fn lemma_env_remove_key(env: Seq<(Seq<char>, Seq<char>)>, key: Seq<char>)
    ensures
        forall|i: int|
            0 <= i < env_remove_key(env, key).len() ==> env_remove_key(env, key)[i].0 != key,
        forall|i: int|
            0 <= i < env_remove_key(env, key).len() ==> env.contains(
                #[trigger] env_remove_key(env, key)[i],
            ),
        env_lookup(env_remove_key(env, key), key) is None,
    decreases env.len(),
{
    if env.len() > 0 {
        lemma_env_remove_key(env.drop_last(), key);
        if env.last().0 != key {
            let rec = env_remove_key(env.drop_last(), key);
            assert(rec.push(env.last()).drop_last() =~= rec);
            assert(rec.push(env.last()).last() == env.last());
        }
        assert forall|i: int|
            0 <= i < env_remove_key(env, key).len() implies env.contains(
            #[trigger] env_remove_key(env, key)[i],
        ) by {
            if env.last().0 != key && i == env_remove_key(env, key).len() - 1 {
                assert(env[env.len() - 1] == env_remove_key(env, key)[i]);
            } else {
                assert(env.drop_last().contains(env_remove_key(env, key)[i]));
                let j = choose|j: int|
                    0 <= j < env.drop_last().len() && env.drop_last()[j] == env_remove_key(
                        env,
                        key,
                    )[i];
                assert(env[j] == env_remove_key(env, key)[i]);
            }
        }
    }
}

/// Removing a key keeps the uniqueness of the remaining keys.
proof fn lemma_env_remove_key_unique(env: Seq<(Seq<char>, Seq<char>)>, key: Seq<char>)
    requires
        env_keys_unique(env),
    ensures
        env_keys_unique(env_remove_key(env, key)),
    decreases env.len(),
{
    if env.len() > 0 {
        assert(env_keys_unique(env.drop_last()));
        lemma_env_remove_key_unique(env.drop_last(), key);
        if env.last().0 != key {
            lemma_env_remove_key(env.drop_last(), key);
            let r = env_remove_key(env.drop_last(), key);
            assert forall|i: int, j: int|
                0 <= i < j < r.push(env.last()).len() implies r.push(env.last())[i].0 != r.push(
                env.last(),
            )[j].0 by {
                if j == r.len() {
                    assert(env.drop_last().contains(r[i]));
                    let m = choose|m: int|
                        0 <= m < env.drop_last().len() && env.drop_last()[m] == r[i];
                    assert(env[m].0 != env[env.len() - 1].0);
                }
            }
        }
    }
}

/// Binds `key` to `value` in the environment mapping, replacing any earlier
/// binding of the same key (last write wins), and preserves key uniqueness.
pub fn env_set(environment: &mut Vec<(String, String)>, key: String, value: String)
    requires
        env_keys_unique(old(environment).deep_view()),
    ensures
        final(environment).deep_view() == env_remove_key(
            old(environment).deep_view(),
            key@,
        ).push((key@, value@)),
        env_keys_unique(final(environment).deep_view()),
        env_lookup(final(environment).deep_view(), key@) == Some(value@),
{
    let ghost orig = environment.deep_view();
    let mut kept: Vec<(String, String)> = Vec::new();
    let n = environment.len();
    let mut i: usize = 0;
    while i < n
        invariant
            n == environment.deep_view().len(),
            environment.deep_view() == orig,
            0 <= i <= n,
            kept.deep_view() == env_remove_key(orig.take(i as int), key@),
        decreases n - i,
    {
        proof {
            assert(orig.take(i + 1).drop_last() =~= orig.take(i as int));
            assert(orig.take(i + 1).last() == orig[i as int]);
        }
        if !strings_equal(&environment[i].0, &key) {
            let entry = (environment[i].0.clone(), environment[i].1.clone());
            kept.push(entry);
        }
        i += 1;
    }
    proof {
        assert(orig.take(n as int) =~= orig);
    }
    kept.push((key, value));
    *environment = kept;
    proof {
        lemma_env_remove_key(orig, key@);
        lemma_env_remove_key_unique(orig, key@);
        let out = environment.deep_view();
        let rem = env_remove_key(orig, key@);
        assert forall|i: int, j: int| 0 <= i < j < out.len() implies out[i].0 != out[j].0 by {
            assert(out[i] == rem[i]);
            if j < out.len() - 1 {
                assert(out[j] == rem[j]);
            }
        }
    }
}

/// Whether two strings hold the same characters.
fn strings_equal(a: &String, b: &String) -> (r: bool)
    ensures
        r == (a@ == b@),
{
    a.eq(b)
}

/// Relies on `String`'s `FromIterator<char>` implementation: collecting
/// characters yields the string of exactly those characters in order.
#[verifier::external_body]
pub(crate) fn string_from_chars(cs: &Vec<char>) -> (r: String)
    ensures
        r@ == cs@,
{
    cs.iter().collect()
}

} // verus!
