//! Static configuration: problems with their test cases, languages
//! with their command templates, and the command-line options.
//!
//! Reading the configuration file is the caller's business; the types
//! here hold what the judge's logic reads from it.

use vstd::prelude::*;
use crate::compare::str_eq;
use crate::wire::ProblemType;

verus! {

/// A problem's one test case: its weight and limits. The caller reads
/// the input and answer files under the recorded paths.
pub struct Case {
    /// Score weight, in points.
    pub score: u64,
    pub input_file: String,
    pub answer_file: String,
    /// The unit is microseconds, 0 means no limit.
    pub time_limit: u64,
    /// The unit is bytes, 0 means no limit.
    pub memory_limit: u64,
}

/// Extra per-problem settings; none are recognized yet.
pub struct Misc {}

/// A configured problem: its comparison mode and ordered cases.
pub struct Problem {
    pub id: usize,
    pub name: String,
    pub ty: ProblemType,
    pub misc: Option<Misc>,
    pub cases: Vec<Case>,
}

impl Problem {
    /// An empty placeholder problem.
    pub fn new() -> (p: Problem)
        ensures
            p.id == 0,
            p.name@ == Seq::<char>::empty(),
            p.ty == ProblemType::Standard,
            p.misc is None,
            p.cases@ == Seq::<Case>::empty(),
    {
        Problem {
            id: 0,
            name: String::new(),
            ty: ProblemType::Standard,
            misc: None,
            cases: Vec::new(),
        }
    }
}

/// A configured language: the file its sources are written under and
/// the compile command template.
pub struct Language {
    pub name: String,
    pub file_name: String,
    pub command: Vec<String>,
}

impl Language {
    /// An empty placeholder language.
    pub fn new() -> (l: Language)
        ensures
            l.name@ == Seq::<char>::empty(),
            l.file_name@ == Seq::<char>::empty(),
            l.command@ == Seq::<String>::empty(),
    {
        Language { name: String::new(), file_name: String::new(), command: Vec::new() }
    }

    /// A usable command template: a program to run, at least.
    /// Checked once at configuration load, not at judge time.
    pub fn command_well_formed(&self) -> (r: bool)
        ensures
            r == (self.command@.len() >= 1),
    {
        self.command.len() >= 1
    }
}

/// The command-line options of the server binary.
pub struct Cli {
    /// Path of the configuration file.
    pub config: String,
    /// Whether to drop all stored data at startup.
    pub flush_data: bool,
}

/// Where the server binds.
pub struct Server {
    pub bind_address: Option<String>,
    pub bind_port: Option<i32>,
}

/// The whole configuration file.
pub struct Config {
    pub server: Server,
    pub problems: Vec<Problem>,
    pub languages: Vec<Language>,
}

/// One template token after substitution: the placeholder tokens become
/// the recorded paths, anything else stays itself.
pub open spec fn subst_token(tok: Seq<char>, source_path: Seq<char>, binary_path: Seq<char>) -> Seq<
    char,
> {
    if tok == "%OUTPUT%"@ {
        binary_path
    } else if tok == "%INPUT%"@ {
        source_path
    } else {
        tok
    }
}

/// The compile command of a language: the template's program word
/// unchanged, every later token substituted.
pub open spec fn command_spec(
    template: Seq<Seq<char>>,
    source_path: Seq<char>,
    binary_path: Seq<char>,
) -> Seq<Seq<char>> {
    Seq::new(
        template.len(),
        |i: int|
            if i == 0 {
                template[0]
            } else {
                subst_token(template[i], source_path, binary_path)
            },
    )
}

/// Substitute `%INPUT%` and `%OUTPUT%` in the language's command
/// template: `%INPUT%` becomes the source path, `%OUTPUT%` the path the
/// built binary shall take.
pub fn build_command(language: &Language, source_path: &str, binary_path: &str) -> (cmd: Vec<
    String,
>)
    ensures
        cmd.deep_view() == command_spec(language.command.deep_view(), source_path@, binary_path@),
{
    let ghost goal = command_spec(language.command.deep_view(), source_path@, binary_path@);
    let mut cmd: Vec<String> = Vec::new();
    let n = language.command.len();
    let mut i: usize = 0;
    while i < n
        invariant
            i <= n,
            n == language.command@.len(),
            goal == command_spec(language.command.deep_view(), source_path@, binary_path@),
            cmd.deep_view() =~= goal.take(i as int),
        decreases n - i,
    {
        let tok: &String = &language.command[i];
        proof {
            assert(language.command.deep_view()[i as int] == language.command@[i as int]@);
        }
        let piece: String = if i == 0 {
            tok.clone()
        } else if str_eq(tok.as_str(), "%OUTPUT%") {
            binary_path.to_owned()
        } else if str_eq(tok.as_str(), "%INPUT%") {
            source_path.to_owned()
        } else {
            tok.clone()
        };
        let ghost before = cmd.deep_view();
        cmd.push(piece);
        proof {
            assert(cmd.deep_view() =~= before.push(piece@));
            assert(cmd.deep_view() =~= goal.take(i + 1));
        }
        i += 1;
    }
    proof {
        assert(cmd.deep_view() =~= goal);
    }
    cmd
}

} // verus!
