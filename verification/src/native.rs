//! Native runtime: commands run directly on the host, without container isolation.
//!
//! The host starts, waits for and kills processes; this module decides what a command is
//! started with, which variables of the host reach it, and what is reported of its end.
use std::path::PathBuf;

use vstd::prelude::*;
use vstd::string::*;
use vstd::utf8::*;

use crate::launch::{Launch, Stream};
#[allow(unused_imports)]
use crate::launch::{
    last_value, lemma_assigned, lemma_last_value_concat, pairs, texts,
};

verus! {

/// How a command is to be run.
#[derive(Debug)]
pub struct ContainerConfig {
    /// The directory to run in, where one is set.
    pub workdir: Option<PathBuf>,
    /// The variables to set for the command, in order.
    pub env: Vec<(String, String)>,
    /// After how many seconds the command is given up.
    pub timeout_secs: u64,
}

/// What a command left behind.
#[derive(Debug)]
pub struct CommandOutput {
    /// Its standard output.
    pub stdout: String,
    /// Its standard error.
    pub stderr: String,
    /// Its exit code, where it exited by itself.
    pub exit_code: Option<i32>,
}

/// Why a command has no output.
#[derive(Debug)]
pub enum RuntimeError {
    /// It could not be started or waited for.
    ExecutionFailed(String),
    /// It was given up after this many seconds.
    Timeout(u64),
}

/// The result of running a command.
pub type RuntimeResult<T> = Result<T, RuntimeError>;

/// How a started command ended, as the host saw it.
#[derive(Debug)]
pub enum ChildOutcome {
    /// The host could not start it, for this reason.
    SpawnFailed(String),
    /// It was still running, or its pipes were still open, when the time was up.
    TimedOut,
    /// The host could not wait for it, for this reason.
    WaitFailed(String),
    /// It ended, with what its pipes carried and its exit code, where it has one.
    Exited { stdout: Vec<u8>, stderr: Vec<u8>, code: Option<i32> },
}

/// What is done once a command has ended.
#[derive(Debug)]
pub struct Conclusion {
    /// Whether the child and its process group are killed.
    pub kill_tree: bool,
    /// What the caller gets.
    pub result: RuntimeResult<CommandOutput>,
}

/// The text that lossy decoding makes of `bytes`.
pub uninterp spec fn utf8_lossy(bytes: Seq<u8>) -> Seq<char>;

/// `String::from_utf8_lossy`, made owned. Its result is named `utf8_lossy`; bytes that are
/// valid UTF-8 decode to the text they encode. How invalid bytes are replaced is left to the
/// name.
#[verifier::external_body]
fn decode_lossy(bytes: &Vec<u8>) -> (text: String)
    ensures
        text@ == utf8_lossy(bytes@),
        valid_utf8(bytes@) ==> text@ == decode_utf8(bytes@),
{
    String::from_utf8_lossy(bytes).to_string()
}

impl CommandOutput {
    /// The output of a command from its parts.
    pub fn new(stdout: String, stderr: String, exit_code: Option<i32>) -> (res: Self)
        ensures
            res.stdout == stdout,
            res.stderr == stderr,
            res.exit_code == exit_code,
    {
        CommandOutput { stdout, stderr, exit_code }
    }

    /// Whether the command exited by itself with code zero.
    pub fn success(&self) -> (res: bool)
        ensures
            res == (self.exit_code == Some(0i32)),
    {
        match self.exit_code {
            Some(code) => code == 0,
            None => false,
        }
    }
}

/// The names of the host variables that reach a command. Everything else (cloud credentials,
/// API tokens, ...) is stripped.
pub open spec fn passthrough_names() -> Seq<Seq<char>> {
    seq![
        "PATH"@,
        "HOME"@,
        "USER"@,
        "SHELL"@,
        "TERM"@,
        "LANG"@,
        "LC_ALL"@,
        "TMPDIR"@,
        "TZ"@,
        "HTTP_PROXY"@,
        "HTTPS_PROXY"@,
        "NO_PROXY"@,
        "http_proxy"@,
        "https_proxy"@,
        "no_proxy"@,
        "SSL_CERT_FILE"@,
        "SSL_CERT_DIR"@,
        "SSH_AUTH_SOCK"@,
    ]
}

/// The contents of the host's answers, where it has any.
pub open spec fn answers_of(list: Seq<Option<String>>) -> Seq<Option<Seq<char>>> {
    list.map_values(
        |answer: Option<String>|
            match answer {
                Some(value) => Some(value@),
                None => None,
            },
    )
}

/// The variables named in `names` that the host has, in that order; `answers[k]` is what the
/// host has under `names[k]`.
pub open spec fn forwarded(
    names: Seq<Seq<char>>,
    answers: Seq<Option<Seq<char>>>,
) -> Seq<(Seq<char>, Seq<char>)>
    decreases names.len(),
{
    if names.len() == 0 {
        Seq::empty()
    } else {
        let before = forwarded(names.drop_last(), answers);
        match answers[names.len() - 1] {
            Some(value) => before.push((names.last(), value)),
            None => before,
        }
    }
}

/// What the host answered for `name`; nothing for a name that it was not asked for.
pub open spec fn answer_for(
    names: Seq<Seq<char>>,
    answers: Seq<Option<Seq<char>>>,
    name: Seq<char>,
) -> Option<Seq<char>> {
    if names.contains(name) {
        answers[names.index_of(name)]
    } else {
        None
    }
}

/// The variables that are set for a command: those of the host that are let through, then
/// those that its configuration gives.
pub open spec fn scrubbed(
    answers: Seq<Option<Seq<char>>>,
    extra: Seq<(Seq<char>, Seq<char>)>,
) -> Seq<(Seq<char>, Seq<char>)> {
    forwarded(passthrough_names(), answers) + extra
}

/// The names of the host variables that reach a command.
pub fn env_passthrough() -> (names: Vec<&'static str>)
    ensures
        names@.map_values(|s: &'static str| s@) == passthrough_names(),
{
    // The last ones are trust anchors and agent sockets that some child tools depend on.
    let names: Vec<&'static str> = vec![
        "PATH", "HOME", "USER", "SHELL", "TERM", "LANG", "LC_ALL", "TMPDIR", "TZ",
        "HTTP_PROXY", "HTTPS_PROXY", "NO_PROXY", "http_proxy", "https_proxy", "no_proxy",
        "SSL_CERT_FILE", "SSL_CERT_DIR", "SSH_AUTH_SOCK",
    ];
    assert(names@.map_values(|s: &'static str| s@) =~= passthrough_names());
    names
}

/// The variables that a command is started with: the whitelisted ones that the host has, and
/// all of `extra` after them.
///
/// `answers[k]` is what the host has under the `k`th name of [`env_passthrough`], by its own
/// rules for looking a name up; it is asked for no other.
pub fn scrubbed_env(answers: &Vec<Option<String>>, extra: &Vec<(String, String)>) -> (res: Vec<
    (String, String),
>)
    requires
        answers@.len() == passthrough_names().len(),
    ensures
        pairs(res@) == scrubbed(answers_of(answers@), pairs(extra@)),
{
    let names = env_passthrough();
    let ghost wanted = passthrough_names();
    let ghost given = answers_of(answers@);
    let mut res: Vec<(String, String)> = Vec::new();
    let mut i: usize = 0;
    assert(names@.len() == wanted.len()) by {
        assert(names@.map_values(|s: &'static str| s@).len() == names@.len());
    }
    assert(pairs(res@) =~= forwarded(wanted.take(0), given));
    while i < names.len()
        invariant
            i <= names@.len(),
            names@.len() == wanted.len(),
            answers@.len() == wanted.len(),
            given == answers_of(answers@),
            names@.map_values(|s: &'static str| s@) == wanted,
            pairs(res@) == forwarded(wanted.take(i as int), given),
        decreases names.len() - i,
    {
        let ghost done = pairs(res@);
        proof {
            assert(names@.map_values(|s: &'static str| s@)[i as int] == names@[i as int]@);
            assert(wanted.take(i + 1).drop_last() == wanted.take(i as int));
        }
        if let Some(value) = &answers[i] {
            let name: String = names[i].to_owned();
            let ghost entry = (name@, value@);
            res.push((name, value.clone()));
            assert(pairs(res@) =~= done.push(entry));
        }
        i += 1;
    }
    assert(wanted.take(wanted.len() as int) == wanted);
    let ghost let_through = pairs(res@);
    let mut j: usize = 0;
    while j < extra.len()
        invariant
            j <= extra@.len(),
            pairs(res@) =~= let_through + pairs(extra@).take(j as int),
        decreases extra.len() - j,
    {
        let ghost done = pairs(res@);
        let entry: (String, String) = (extra[j].0.clone(), extra[j].1.clone());
        assert((entry.0@, entry.1@) == pairs(extra@)[j as int]);
        res.push(entry);
        assert(pairs(res@) =~= done.push(pairs(extra@)[j as int]));
        j += 1;
    }
    assert(pairs(extra@).take(extra@.len() as int) =~= pairs(extra@));
    res
}

/// Which process group is signalled to kill the tree of the child with identifier `pid`: the
/// negated identifier, since the child leads its group. Nothing for a child that is gone.
pub fn kill_target(pid: Option<u32>) -> (res: Option<i32>)
    requires
        pid matches Some(p) ==> 1 <= p <= i32::MAX,
    ensures
        match pid {
            Some(p) => res matches Some(target) && target == -(p as int),
            None => res is None,
        },
{
    match pid {
        Some(p) => Some(-(p as i32)),
        None => None,
    }
}

/// Native runtime that executes commands directly on the host.
#[derive(Debug, Clone, Copy)]
pub struct NativeRuntime;

impl Default for NativeRuntime {
    fn default() -> (res: Self)
        ensures
            res == NativeRuntime,
    {
        NativeRuntime
    }
}

impl NativeRuntime {
    /// Create a new native runtime.
    pub fn new() -> (res: Self)
        ensures
            res == NativeRuntime,
    {
        Self
    }

    /// The name of this runtime.
    pub fn name(&self) -> (res: &'static str)
        ensures
            res@ == "native"@,
    {
        "native"
    }

    /// The native runtime is always available.
    pub fn is_available(&self) -> (res: bool)
        ensures
            res,
    {
        true
    }

    /// What `command` is started with under `config`, on a host that gave `answers` for
    /// the names of [`env_passthrough`]: a shell that leads its own process group, sees only
    /// scrubbed variables, reads nothing, and whose output is captured.
    pub fn plan<'a>(
        &self,
        command: &str,
        config: &'a ContainerConfig,
        answers: &Vec<Option<String>>,
    ) -> (res: Launch<'a>)
        requires
            answers@.len() == passthrough_names().len(),
        ensures
            res.program@ == "sh"@,
            texts(res.args@) == seq!["-c"@, command@],
            res.args@.len() == 2,
            res.args@[0]@ == "-c"@,
            res.args@[1]@ == command@,
            res.clear_env,
            pairs(res.env@) == scrubbed(answers_of(answers@), pairs(config.env@)),
            match config.workdir {
                Some(dir) => res.workdir == Some(&dir),
                None => res.workdir is None,
            },
            res.own_process_group,
            res.stdin == Stream::Null,
            res.stdout == Stream::Piped,
            res.stderr == Stream::Piped,
    {
        let mut args: Vec<String> = Vec::new();
        args.push("-c".to_owned());
        args.push(command.to_owned());
        assert(texts(args@) =~= seq!["-c"@, command@]);
        Launch {
            program: "sh",
            args,
            clear_env: true,
            env: scrubbed_env(answers, &config.env),
            workdir: config.workdir.as_ref(),
            own_process_group: true,
            stdin: Stream::Null,
            stdout: Stream::Piped,
            stderr: Stream::Piped,
        }
    }

    /// What is done and reported once a command that had `timeout_secs` seconds has ended.
    pub fn conclude(&self, outcome: ChildOutcome, timeout_secs: u64) -> (res: Conclusion)
        ensures
            res.kill_tree == (outcome is TimedOut),
            match outcome {
                ChildOutcome::SpawnFailed(reason) => res.result == Err::<CommandOutput, _>(
                    RuntimeError::ExecutionFailed(reason),
                ),
                ChildOutcome::TimedOut => res.result == Err::<CommandOutput, _>(
                    RuntimeError::Timeout(timeout_secs),
                ),
                ChildOutcome::WaitFailed(reason) => res.result == Err::<CommandOutput, _>(
                    RuntimeError::ExecutionFailed(reason),
                ),
                ChildOutcome::Exited { stdout, stderr, code } => match res.result {
                    Ok(output) => {
                        &&& output.stdout@ == utf8_lossy(stdout@)
                        &&& output.stderr@ == utf8_lossy(stderr@)
                        &&& valid_utf8(stdout@) ==> output.stdout@ == decode_utf8(stdout@)
                        &&& valid_utf8(stderr@) ==> output.stderr@ == decode_utf8(stderr@)
                        &&& output.exit_code == code
                    },
                    Err(_) => false,
                },
            },
    {
        match outcome {
            ChildOutcome::SpawnFailed(reason) => Conclusion {
                kill_tree: false,
                result: Err(RuntimeError::ExecutionFailed(reason)),
            },
            ChildOutcome::TimedOut => Conclusion {
                kill_tree: true,
                result: Err(RuntimeError::Timeout(timeout_secs)),
            },
            ChildOutcome::WaitFailed(reason) => Conclusion {
                kill_tree: false,
                result: Err(RuntimeError::ExecutionFailed(reason)),
            },
            ChildOutcome::Exited { stdout, stderr, code } => Conclusion {
                kill_tree: false,
                result: Ok(CommandOutput::new(decode_lossy(&stdout), decode_lossy(&stderr), code)),
            },
        }
    }
}

/// No name stands on the whitelist twice.
proof fn lemma_names_are_distinct()
    ensures
        passthrough_names().no_duplicates(),
{
    reveal_strlit("PATH");
    reveal_strlit("HOME");
    reveal_strlit("USER");
    reveal_strlit("SHELL");
    reveal_strlit("TERM");
    reveal_strlit("LANG");
    reveal_strlit("LC_ALL");
    reveal_strlit("TMPDIR");
    reveal_strlit("TZ");
    reveal_strlit("HTTP_PROXY");
    reveal_strlit("HTTPS_PROXY");
    reveal_strlit("NO_PROXY");
    reveal_strlit("http_proxy");
    reveal_strlit("https_proxy");
    reveal_strlit("no_proxy");
    reveal_strlit("SSL_CERT_FILE");
    reveal_strlit("SSL_CERT_DIR");
    reveal_strlit("SSH_AUTH_SOCK");
    let names = passthrough_names();
    // The length, the first and the third character tell any two of them apart.
    let third = |s: Seq<char>| if s.len() > 2 { s[2] } else { s[1] };
    assert forall|i: int, j: int| 0 <= i < j < names.len() implies names[i] != names[j] by {
        assert(names[i].len() != names[j].len() || names[i][0] != names[j][0] || third(names[i])
            != third(names[j]));
    }
}

/// What is forwarded under a name is the host's answer for it, and only for names on the list.
proof fn lemma_forwarded(
    names: Seq<Seq<char>>,
    answers: Seq<Option<Seq<char>>>,
    name: Seq<char>,
)
    requires
        names.no_duplicates(),
    ensures
        last_value(forwarded(names, answers), name) == answer_for(names, answers, name),
    decreases names.len(),
{
    if names.len() > 0 {
        let before = names.drop_last();
        lemma_forwarded(before, answers, name);
        if let Some(value) = answers[names.len() - 1] {
            let all = forwarded(before, answers).push((names.last(), value));
            assert(all.drop_last() == forwarded(before, answers));
        }
        if names.last() == name {
            assert(names.contains(name));
            assert(names.index_of(name) == names.len() - 1);
            assert(!before.contains(name)) by {
                if before.contains(name) {
                    let i = before.index_of(name);
                    assert(names[i] == name);
                }
            }
        } else if names.contains(name) {
            let i = names.index_of(name);
            assert(before[i] == name);
            assert(names[before.index_of(name)] == name);
        } else if before.contains(name) {
            assert(names[before.index_of(name)] == name);
        }
    }
}

/// What is forwarded has a name on the list.
proof fn lemma_forwarded_names(names: Seq<Seq<char>>, answers: Seq<Option<Seq<char>>>, i: int)
    requires
        0 <= i < forwarded(names, answers).len(),
    ensures
        names.contains(forwarded(names, answers)[i].0),
    decreases names.len(),
{
    let before = forwarded(names.drop_last(), answers);
    if i < before.len() {
        lemma_forwarded_names(names.drop_last(), answers, i);
        let k = names.drop_last().index_of(before[i].0);
        assert(names[k] == before[i].0);
    } else {
        assert(names[names.len() - 1] == names.last());
    }
}

/// A command sees exactly the variables that its configuration gives, with the value given
/// last, and of the host's variables those on the whitelist that the configuration leaves
/// alone. What the parent process inherited plays no further part.
pub proof fn law_command_environment(
    launch: Launch,
    inherited: Map<Seq<char>, Seq<char>>,
    answers: Seq<Option<Seq<char>>>,
    extra: Seq<(Seq<char>, Seq<char>)>,
    name: Seq<char>,
)
    requires
        launch.clear_env,
        pairs(launch.env@) == scrubbed(answers, extra),
    ensures
        launch.environment(inherited).get(name) == (match last_value(extra, name) {
            Some(value) => Some(value),
            None => answer_for(passthrough_names(), answers, name),
        }),
{
    let let_through = forwarded(passthrough_names(), answers);
    lemma_assigned(Map::empty(), let_through + extra, name);
    lemma_last_value_concat(let_through, extra, name);
    lemma_names_are_distinct();
    lemma_forwarded(passthrough_names(), answers, name);
}

/// No variable reaches a command under a name that is neither on the whitelist nor given by
/// the configuration: none is set under one, and the environment holds none.
pub proof fn law_host_secrets_are_stripped(
    launch: Launch,
    inherited: Map<Seq<char>, Seq<char>>,
    answers: Seq<Option<Seq<char>>>,
    extra: Seq<(Seq<char>, Seq<char>)>,
    name: Seq<char>,
)
    requires
        launch.clear_env,
        pairs(launch.env@) == scrubbed(answers, extra),
        !passthrough_names().contains(name),
        forall|i: int| 0 <= i < extra.len() ==> (#[trigger] extra[i]).0 != name,
    ensures
        forall|i: int|
            0 <= i < pairs(launch.env@).len() ==> (#[trigger] pairs(launch.env@)[i]).0 != name,
        !launch.environment(inherited).contains_key(name),
{
    law_command_environment(launch, inherited, answers, extra, name);
    lemma_last_value_absent(extra, name);
    let let_through = forwarded(passthrough_names(), answers);
    assert forall|i: int| 0 <= i < pairs(launch.env@).len() implies (#[trigger] pairs(
        launch.env@,
    )[i]).0 != name by {
        if i < let_through.len() {
            lemma_forwarded_names(passthrough_names(), answers, i);
        } else {
            assert(pairs(launch.env@)[i] == extra[i - let_through.len()]);
        }
    }
}

/// A name that stands nowhere in the list has no value there.
proof fn lemma_last_value_absent(list: Seq<(Seq<char>, Seq<char>)>, name: Seq<char>)
    requires
        forall|i: int| 0 <= i < list.len() ==> (#[trigger] list[i]).0 != name,
    ensures
        last_value(list, name) is None,
    decreases list.len(),
{
    if list.len() > 0 {
        lemma_last_value_absent(list.drop_last(), name);
    }
}

/// The answers of the host are stood for by all their contents.
pub proof fn law_answers_are_whole(list: Seq<Option<String>>)
    ensures
        answers_of(list).len() == list.len(),
        forall|i: int|
            0 <= i < list.len() ==> #[trigger] answers_of(list)[i] == (match list[i] {
                Some(value) => Some(value@),
                None => None,
            }),
{
}

/// `i` is where the answer to `names[k]` stands among the assignments.
proof fn lemma_forwarded_all(
    names: Seq<Seq<char>>,
    answers: Seq<Option<Seq<char>>>,
    k: int,
) -> (i: int)
    requires
        0 <= k < names.len(),
        answers[k] is Some,
    ensures
        0 <= i < forwarded(names, answers).len(),
        forwarded(names, answers)[i] == (names[k], answers[k]->0),
    decreases names.len(),
{
    let before = forwarded(names.drop_last(), answers);
    if k == names.len() - 1 {
        before.len() as int
    } else {
        let i = lemma_forwarded_all(names.drop_last(), answers, k);
        assert(forwarded(names, answers)[i] == before[i]);
        i
    }
}

/// `k` is the name that the `i`th assignment answers to.
proof fn lemma_forwarded_only(
    names: Seq<Seq<char>>,
    answers: Seq<Option<Seq<char>>>,
    i: int,
) -> (k: int)
    requires
        0 <= i < forwarded(names, answers).len(),
    ensures
        0 <= k < names.len(),
        answers[k] is Some,
        forwarded(names, answers)[i] == (names[k], answers[k]->0),
    decreases names.len(),
{
    let before = forwarded(names.drop_last(), answers);
    if i < before.len() {
        let k = lemma_forwarded_only(names.drop_last(), answers, i);
        assert(forwarded(names, answers)[i] == before[i]);
        k
    } else {
        names.len() - 1
    }
}

/// The assignments stand in the order of the names.
proof fn lemma_forwarded_in_order(
    names: Seq<Seq<char>>,
    answers: Seq<Option<Seq<char>>>,
    i: int,
    j: int,
    k: int,
    l: int,
)
    requires
        names.no_duplicates(),
        0 <= i < j < forwarded(names, answers).len(),
        0 <= k < names.len(),
        0 <= l < names.len(),
        forwarded(names, answers)[i].0 == names[k],
        forwarded(names, answers)[j].0 == names[l],
    ensures
        k < l,
    decreases names.len(),
{
    let shorter = names.drop_last();
    let before = forwarded(shorter, answers);
    assert(forwarded(names, answers)[i] == before[i]);
    let m = lemma_forwarded_only(shorter, answers, i);
    assert(names[m] == names[k]);
    assert(m == k);
    if j < before.len() {
        assert(forwarded(names, answers)[j] == before[j]);
        let n = lemma_forwarded_only(shorter, answers, j);
        assert(names[n] == names[l]);
        assert(n == l);
        lemma_forwarded_in_order(shorter, answers, i, j, k, l);
    } else {
        assert(names[names.len() - 1] == names[l]);
    }
}

/// What `forwarded` and `extra` hold, one assignment after the other.
proof fn lemma_assignments(
    names: Seq<Seq<char>>,
    answers: Seq<Option<Seq<char>>>,
    extra: Seq<(Seq<char>, Seq<char>)>,
    set: Seq<(Seq<char>, Seq<char>)>,
)
    requires
        set == forwarded(names, answers) + extra,
    ensures
        set.len() >= extra.len(),
        forall|i: int|
            0 <= i < extra.len() ==> set[set.len() - extra.len() + i] == #[trigger] extra[i],
        forall|i: int|
            0 <= i < set.len() - extra.len() ==> exists|k: int|
                0 <= k < names.len() && (#[trigger] set[i]).0 == names[k] && #[trigger] answers[k]
                    == Some(set[i].1),
        forall|k: int|
            0 <= k < names.len() && (#[trigger] answers[k]) is Some ==> exists|i: int|
                0 <= i < set.len() - extra.len() && #[trigger] set[i] == (names[k], answers[k]->0),
{
    let let_through = forwarded(names, answers);
    assert forall|i: int| 0 <= i < set.len() - extra.len() implies exists|k: int|
        0 <= k < names.len() && (#[trigger] set[i]).0 == names[k] && #[trigger] answers[k] == Some(
            set[i].1,
        ) by {
        let k = lemma_forwarded_only(names, answers, i);
        assert(set[i] == let_through[i]);
        assert(answers[k] == Some(set[i].1));
    }
    assert forall|k: int| 0 <= k < names.len() && (#[trigger] answers[k]) is Some implies exists|
        i: int,
    |
        0 <= i < set.len() - extra.len() && #[trigger] set[i] == (names[k], answers[k]->0) by {
        let i = lemma_forwarded_all(names, answers, k);
        assert(set[i] == let_through[i]);
    }
}

/// What is set for a command, one assignment after the other: first each name on the whitelist
/// that the host has, with the host's value and nothing else; then everything that the
/// configuration gives, as it gives it.
pub proof fn law_assignments(
    names: Seq<Seq<char>>,
    answers: Seq<Option<Seq<char>>>,
    extra: Seq<(Seq<char>, Seq<char>)>,
    set: Seq<(Seq<char>, Seq<char>)>,
)
    requires
        names == passthrough_names(),
        answers.len() == names.len(),
        set == scrubbed(answers, extra),
    ensures
        set.len() >= extra.len(),
        forall|i: int|
            0 <= i < extra.len() ==> set[set.len() - extra.len() + i] == #[trigger] extra[i],
        forall|i: int|
            0 <= i < set.len() - extra.len() ==> exists|k: int|
                0 <= k < names.len() && (#[trigger] set[i]).0 == names[k] && #[trigger] answers[k]
                    == Some(set[i].1),
        forall|k: int|
            0 <= k < names.len() && (#[trigger] answers[k]) is Some ==> exists|i: int|
                0 <= i < set.len() - extra.len() && #[trigger] set[i] == (names[k], answers[k]->0),
{
    lemma_assignments(names, answers, extra, set);
}

/// The variables of the host are set in the order of the whitelist, and none of them twice.
pub proof fn law_assignments_in_order(
    names: Seq<Seq<char>>,
    answers: Seq<Option<Seq<char>>>,
    extra: Seq<(Seq<char>, Seq<char>)>,
    set: Seq<(Seq<char>, Seq<char>)>,
    i: int,
    j: int,
    k: int,
    l: int,
)
    requires
        names == passthrough_names(),
        answers.len() == names.len(),
        set == scrubbed(answers, extra),
        0 <= i < j < set.len() - extra.len(),
        0 <= k < names.len(),
        0 <= l < names.len(),
        set[i].0 == names[k],
        set[j].0 == names[l],
    ensures
        k < l,
{
    lemma_names_are_distinct();
    assert(set[i] == forwarded(names, answers)[i]);
    assert(set[j] == forwarded(names, answers)[j]);
    lemma_forwarded_in_order(names, answers, i, j, k, l);
}

/// The host's value for a name on the whitelist reaches a command unchanged, unless the
/// configuration gives that name a value.
pub proof fn law_host_value_reaches_the_command(
    launch: Launch,
    inherited: Map<Seq<char>, Seq<char>>,
    answers: Seq<Option<Seq<char>>>,
    extra: Seq<(Seq<char>, Seq<char>)>,
    k: int,
)
    requires
        launch.clear_env,
        pairs(launch.env@) == scrubbed(answers, extra),
        0 <= k < passthrough_names().len(),
        forall|i: int|
            0 <= i < extra.len() ==> (#[trigger] extra[i]).0 != passthrough_names()[k],
    ensures
        launch.environment(inherited).get(passthrough_names()[k]) == answers[k],
{
    let name = passthrough_names()[k];
    law_command_environment(launch, inherited, answers, extra, name);
    lemma_last_value_absent(extra, name);
    lemma_names_are_distinct();
    assert(passthrough_names().contains(name));
    assert(passthrough_names().index_of(name) == k);
}

/// The value that the configuration gives a name last is the one that the command sees.
pub proof fn law_configured_value_wins(
    launch: Launch,
    inherited: Map<Seq<char>, Seq<char>>,
    answers: Seq<Option<Seq<char>>>,
    extra: Seq<(Seq<char>, Seq<char>)>,
    i: int,
)
    requires
        launch.clear_env,
        pairs(launch.env@) == scrubbed(answers, extra),
        0 <= i < extra.len(),
        forall|j: int| i < j < extra.len() ==> (#[trigger] extra[j]).0 != extra[i].0,
    ensures
        launch.environment(inherited).get(extra[i].0) == Some(extra[i].1),
{
    law_command_environment(launch, inherited, answers, extra, extra[i].0);
    lemma_last_value_at(extra, i);
}

/// The last entry of a name gives its value.
proof fn lemma_last_value_at(list: Seq<(Seq<char>, Seq<char>)>, i: int)
    requires
        0 <= i < list.len(),
        forall|j: int| i < j < list.len() ==> (#[trigger] list[j]).0 != list[i].0,
    ensures
        last_value(list, list[i].0) == Some(list[i].1),
    decreases list.len(),
{
    if i < list.len() - 1 {
        assert(list.last().0 != list[i].0);
        lemma_last_value_at(list.drop_last(), i);
    }
}

} // verus!
