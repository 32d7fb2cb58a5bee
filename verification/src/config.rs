//! The sweep definition and the unit of work it expands into.

use vstd::prelude::*;

verus! {

/// One full sweep definition, loaded once and immutable thereafter.
///
/// `arguments` maps each argument name to its ordered list of values.  It is
/// kept as an association list sorted by the caller into the fixed key order
/// that identifiers are generated in; the library never reorders it.
pub struct Config {
    /// Sweep name; also the result subdirectory and remote staging name.
    pub name: String,
    /// Identifiers of the remote hosts to run on.
    pub hosts: Vec<String>,
    /// Local working directory staged to every host.
    pub workdir: String,
    /// Executable to run, relative to the working directory.
    pub executable: String,
    /// How many replicas of every value combination to run.
    pub repeat: usize,
    /// Threads one task needs; `0` means "ignore capacity, one worker".
    pub threads_per_task: usize,
    /// Argument name, and the ordered list of values to sweep over.
    pub arguments: Vec<(String, Vec<String>)>,
}

/// Strict lexicographic order on character sequences, by code point: the
/// order argument names are kept in.
pub open spec fn lex_lt(a: Seq<char>, b: Seq<char>) -> bool
    decreases a.len(),
{
    if b.len() == 0 {
        false
    } else if a.len() == 0 {
        true
    } else if a[0] != b[0] {
        (a[0] as u32) < (b[0] as u32)
    } else {
        lex_lt(a.drop_first(), b.drop_first())
    }
}

/// Strict order is irreflexive: no name precedes itself.
pub proof fn lemma_lex_lt_irreflexive(a: Seq<char>)
    ensures
        !lex_lt(a, a),
    decreases a.len(),
{
    if a.len() > 0 {
        lemma_lex_lt_irreflexive(a.drop_first());
    }
}

impl Config {
    /// The argument list is a well-formed mapping: names strictly
    /// ascending, so every name occurs once, and identifiers come out in
    /// the same reproducible order on every run.
    pub open spec fn arguments_wf(&self) -> bool {
        forall|i: int, j: int|
            0 <= i < j < self.arguments@.len() ==> lex_lt(
                (#[trigger] self.arguments@[i]).0@,
                (#[trigger] self.arguments@[j]).0@,
            )
    }
}

/// A well-formed argument list never repeats a name.
pub proof fn lemma_wf_arguments_names_unique(c: &Config)
    requires
        c.arguments_wf(),
    ensures
        forall|i: int, j: int|
            0 <= i < j < c.arguments@.len() ==> (#[trigger] c.arguments@[i]).0@ != (
            #[trigger] c.arguments@[j]).0@,
{
    assert forall|i: int, j: int|
        0 <= i < j < c.arguments@.len() implies (#[trigger] c.arguments@[i]).0@ != (
    #[trigger] c.arguments@[j]).0@ by {
        if c.arguments@[i].0@ == c.arguments@[j].0@ {
            lemma_lex_lt_irreflexive(c.arguments@[i].0@);
        }
    }
}

/// One point of the sweep: a unique identifier (also the name of its result
/// directory) and the rendered command-line parameters.
#[derive(Clone, Debug)]
pub struct Permutation {
    pub id: String,
    pub parameters: String,
}

/// The mathematical content of a [`Permutation`]: both strings as
/// character sequences.
pub ghost struct PermView {
    pub id: Seq<char>,
    pub parameters: Seq<char>,
}

impl View for Permutation {
    type V = PermView;

    open spec fn view(&self) -> PermView {
        PermView { id: self.id@, parameters: self.parameters@ }
    }
}

} // verus!
