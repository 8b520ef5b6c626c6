//! What a child process is started with, as plain values.
use std::path::PathBuf;

use vstd::prelude::*;
use vstd::string::*;

verus! {

/// `std::path::PathBuf`, carried through to the process builder. Nothing is stated of it.
#[verifier::external_type_specification]
#[verifier::external_body]
pub struct ExPathBuf(std::path::PathBuf);

/// What a standard stream of a child process is connected to.
#[derive(Clone, Copy, Debug, PartialEq, Eq, Structural)]
pub enum Stream {
    /// Nothing: reads see the end of the stream.
    Null,
    /// A pipe held by the parent.
    Piped,
}

/// Everything that decides how a child process is started.
#[derive(Debug)]
pub struct Launch<'a> {
    /// The program to run.
    pub program: &'static str,
    /// Its arguments, in order.
    pub args: Vec<String>,
    /// Whether the inherited environment is cleared first.
    pub clear_env: bool,
    /// The variables to set, in order; a later one replaces an earlier one of the same name.
    pub env: Vec<(String, String)>,
    /// The directory to run in, where it is not the parent's.
    pub workdir: Option<&'a PathBuf>,
    /// Whether the child leads a process group of its own.
    pub own_process_group: bool,
    /// Standard input.
    pub stdin: Stream,
    /// Standard output.
    pub stdout: Stream,
    /// Standard error.
    pub stderr: Stream,
}

/// The contents of a list of strings.
pub open spec fn texts(list: Seq<String>) -> Seq<Seq<char>> {
    list.map_values(|s: String| s@)
}

/// The contents of a list of names with their values.
pub open spec fn pairs(list: Seq<(String, String)>) -> Seq<(Seq<char>, Seq<char>)> {
    list.map_values(|p: (String, String)| (p.0@, p.1@))
}

/// The environment that `base` becomes once `assignments` are made in order.
pub open spec fn assigned(
    base: Map<Seq<char>, Seq<char>>,
    assignments: Seq<(Seq<char>, Seq<char>)>,
) -> Map<Seq<char>, Seq<char>>
    decreases assignments.len(),
{
    if assignments.len() == 0 {
        base
    } else {
        assigned(base, assignments.drop_last()).insert(assignments.last().0, assignments.last().1)
    }
}

/// The value of the last entry of `list` named `name`.
pub open spec fn last_value(list: Seq<(Seq<char>, Seq<char>)>, name: Seq<char>) -> Option<Seq<char>>
    decreases list.len(),
{
    if list.len() == 0 {
        None
    } else if list.last().0 == name {
        Some(list.last().1)
    } else {
        last_value(list.drop_last(), name)
    }
}

impl<'a> Launch<'a> {
    /// The environment that the child runs with, when the parent runs with `inherited`. Names
    /// are compared exactly, as on unix.
    pub open spec fn environment(
        self,
        inherited: Map<Seq<char>, Seq<char>>,
    ) -> Map<Seq<char>, Seq<char>> {
        let base = if self.clear_env {
            Map::empty()
        } else {
            inherited
        };
        assigned(base, pairs(self.env@))
    }
}

/// After the assignments a name has the value that was assigned to it last, or else the one it
/// had before.
pub proof fn lemma_assigned(
    base: Map<Seq<char>, Seq<char>>,
    assignments: Seq<(Seq<char>, Seq<char>)>,
    name: Seq<char>,
)
    ensures
        assigned(base, assignments).get(name) == (match last_value(assignments, name) {
            Some(value) => Some(value),
            None => base.get(name),
        }),
    decreases assignments.len(),
{
    if assignments.len() > 0 {
        lemma_assigned(base, assignments.drop_last(), name);
    }
}

/// What is assigned in the second list wins over the first.
pub proof fn lemma_last_value_concat(
    a: Seq<(Seq<char>, Seq<char>)>,
    b: Seq<(Seq<char>, Seq<char>)>,
    name: Seq<char>,
)
    ensures
        last_value(a + b, name) == (match last_value(b, name) {
            Some(value) => Some(value),
            None => last_value(a, name),
        }),
    decreases b.len(),
{
    if b.len() == 0 {
        assert(a + b == a);
    } else {
        assert((a + b).drop_last() == a + b.drop_last());
        lemma_last_value_concat(a, b.drop_last(), name);
    }
}

/// Lists of strings and of names with their values are stood for by all their contents.
pub proof fn law_contents_are_whole(list: Seq<String>, named: Seq<(String, String)>)
    ensures
        texts(list).len() == list.len(),
        forall|i: int| 0 <= i < list.len() ==> #[trigger] texts(list)[i] == list[i]@,
        pairs(named).len() == named.len(),
        forall|i: int|
            0 <= i < named.len() ==> (#[trigger] pairs(named)[i]).0 == named[i].0@
                && pairs(named)[i].1 == named[i].1@,
{
}

} // verus!
