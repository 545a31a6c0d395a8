//! The interactive shell's decisions: how a typed line is read, and how a
//! pipe of stages turns each previous response into the next command line.
//! Reading lines, running commands and loading specs stay with the caller.

use vstd::prelude::*;
use crate::chain::{binding_views, chain_parse, resolve_fold, resolved_args, str_views, ChainExpr};
use crate::ir::OperationInfo;
use crate::json::Json;
use crate::text;

verus! {

/// The words `shlex::split` reads from a line as a POSIX shell would, or
/// `None` for an unterminated quote or escape.
pub uninterp spec fn shlex_words(line: Seq<char>) -> Option<Seq<Seq<char>>>;

/// `shlex::split`: its result is named `shlex_words` of the line.
#[verifier::external_body]
fn shell_words(line: &str) -> (r: Option<Vec<String>>)
    ensures
        match r {
            Some(w) => shlex_words(line@) == Some(text::views(w@)),
            None => shlex_words(line@) is None,
        },
{
    shlex::split(line)
}

/// What a line typed at the shell asks for.
pub enum ReplInput {
    /// Nothing but whitespace.
    Blank,
    /// A pipe: its stages, each trimmed.
    Pipe(Vec<String>),
    /// `quit` or `exit`.
    Quit,
    /// `help`.
    Help,
    /// `history`.
    History,
    /// A quote or escape left open.
    UnmatchedQuote,
    /// Quotes and separators but no word.
    NoWords,
    /// `repl` typed inside the shell.
    AlreadyInRepl,
    /// A command line: the program name, then the words typed.
    Command(Vec<String>),
}

/// `ReplInput` with its strings as character sequences.
pub enum ReplInputV {
    Blank,
    Pipe(Seq<Seq<char>>),
    Quit,
    Help,
    History,
    UnmatchedQuote,
    NoWords,
    AlreadyInRepl,
    Command(Seq<Seq<char>>),
}

/// The view of a `ReplInput`.
pub open spec fn input_view(i: ReplInput) -> ReplInputV {
    match i {
        ReplInput::Blank => ReplInputV::Blank,
        ReplInput::Pipe(s) => ReplInputV::Pipe(text::views(s@)),
        ReplInput::Quit => ReplInputV::Quit,
        ReplInput::Help => ReplInputV::Help,
        ReplInput::History => ReplInputV::History,
        ReplInput::UnmatchedQuote => ReplInputV::UnmatchedQuote,
        ReplInput::NoWords => ReplInputV::NoWords,
        ReplInput::AlreadyInRepl => ReplInputV::AlreadyInRepl,
        ReplInput::Command(w) => ReplInputV::Command(text::views(w@)),
    }
}

/// The program name put before the words of a command line.
pub open spec fn program_name() -> Seq<char> {
    "spall"@
}

/// What the words of a line ask for: nothing when a quote is left open or
/// no word is there, a refusal for `repl`, else that command line.
pub open spec fn words_input(words: Option<Seq<Seq<char>>>) -> ReplInputV {
    match words {
        None => ReplInputV::UnmatchedQuote,
        Some(w) => if w.len() == 0 {
            ReplInputV::NoWords
        } else if w[0] == "repl"@ {
            ReplInputV::AlreadyInRepl
        } else {
            ReplInputV::Command(seq![program_name()] + w)
        },
    }
}

/// The stages of a pipe line: the pieces between `|`, each trimmed.
pub open spec fn pipe_stages(line: Seq<char>) -> Seq<Seq<char>> {
    text::split(line, '|').map_values(|s: Seq<char>| text::trim(s))
}

/// What a typed line asks for. The line is trimmed first; a `|` anywhere
/// makes it a pipe; the shell's own words come next; anything else is read
/// into words as a shell would.
pub open spec fn repl_input_of(line: Seq<char>) -> ReplInputV {
    let t = text::trim(line);
    if t.len() == 0 {
        ReplInputV::Blank
    } else if text::index_of(t, '|') is Some {
        ReplInputV::Pipe(pipe_stages(t))
    } else if t == "quit"@ || t == "exit"@ {
        ReplInputV::Quit
    } else if t == "help"@ {
        ReplInputV::Help
    } else if t == "history"@ {
        ReplInputV::History
    } else {
        words_input(shlex_words(t))
    }
}

/// The program name, then the words.
fn with_program_name(w: &Vec<String>) -> (r: Vec<String>)
    ensures
        text::views(r@) == seq![program_name()] + text::views(w@),
{
    let mut out: Vec<String> = Vec::new();
    out.push("spall".to_owned());
    let mut i: usize = 0;
    while i < w.len()
        invariant
            i <= w.len(),
            text::views(out@) == seq![program_name()] + text::views(w@.subrange(0, i as int)),
        decreases w.len() - i,
    {
        let ghost before = out@;
        out.push(w[i].clone());
        proof {
            assert(text::views(out@) =~= text::views(before).push(w@[i as int]@));
            assert(text::views(w@.subrange(0, i + 1)) =~= text::views(w@.subrange(0, i as int)).push(w@[i as int]@));
            assert(text::views(out@) =~= seq![program_name()] + text::views(w@.subrange(0, i + 1)));
        }
        i = i + 1;
    }
    proof {
        assert(w@.subrange(0, w@.len() as int) =~= w@);
    }
    out
}

/// What the words read from a line ask for (see `words_input`).
pub fn input_from_words(words: Option<Vec<String>>) -> (r: ReplInput)
    ensures
        input_view(r) == words_input(match words { Some(w) => Some(text::views(w@)), None => None }),
{
    match words {
        None => ReplInput::UnmatchedQuote,
        Some(w) => {
            if w.len() == 0 {
                ReplInput::NoWords
            } else if crate::json::str_eq(w[0].as_str(), "repl") {
                ReplInput::AlreadyInRepl
            } else {
                ReplInput::Command(with_program_name(&w))
            }
        },
    }
}

/// The trimmed pieces of `v` between `|`.
fn stages_of(v: &Vec<char>) -> (r: Vec<String>)
    ensures
        text::views(r@) == pipe_stages(v@),
{
    let pieces = text::split_exec(v, '|');
    let mut out: Vec<String> = Vec::new();
    let mut i: usize = 0;
    while i < pieces.len()
        invariant
            i <= pieces.len(),
            pieces@.len() == text::split(v@, '|').len(),
            forall|k: int| 0 <= k < pieces@.len() ==> #[trigger] pieces@[k]@ == text::split(v@, '|')[k],
            text::views(out@) == pipe_stages(v@).subrange(0, i as int),
        decreases pieces.len() - i,
    {
        let s = text::trim_vec(&pieces[i]);
        let ghost before = out@;
        out.push(s);
        proof {
            assert(text::views(out@) =~= text::views(before).push(text::trim(text::split(v@, '|')[i as int])));
            assert(text::views(out@) =~= pipe_stages(v@).subrange(0, i + 1));
        }
        i = i + 1;
    }
    proof {
        assert(pipe_stages(v@).subrange(0, i as int) =~= pipe_stages(v@));
    }
    out
}

/// What a typed line asks for (see `repl_input_of`).
pub fn read_line(line: &str) -> (r: ReplInput)
    ensures
        input_view(r) == repl_input_of(line@),
{
    let t = text::trim_exec(line);
    let tv = text::chars_of(t.as_str());
    if tv.len() == 0 {
        return ReplInput::Blank;
    }
    if text::find_char(&tv, '|').is_some() {
        return ReplInput::Pipe(stages_of(&tv));
    }
    if crate::json::str_eq(t.as_str(), "quit") || crate::json::str_eq(t.as_str(), "exit") {
        ReplInput::Quit
    } else if crate::json::str_eq(t.as_str(), "help") {
        ReplInput::Help
    } else if crate::json::str_eq(t.as_str(), "history") {
        ReplInput::History
    } else {
        let words = shell_words(t.as_str());
        input_from_words(words)
    }
}


/// A pipe that failed, with the stage where it failed.
pub enum PipeError {
    /// A stage could not be read.
    Parse { stage: usize, expr: String, reason: String },
    /// A chain stage's bindings could not be evaluated.
    JmesPath { stage: usize, expr: String, reason: String },
    /// The previous stage left no response.
    NoPreviousResponse { stage: usize },
    /// The chain target is not an operation of the first stage's API.
    UnknownTarget { stage: usize, api: String, target: String },
    /// The first stage's API spec could not be loaded.
    SpecLoad { stage: usize, api: String, reason: String },
    /// A stage's command failed.
    Http { stage: usize, reason: String },
}

/// `PipeError` with its strings as character sequences.
pub enum PipeErrorV {
    Parse(nat, Seq<char>, Seq<char>),
    JmesPath(nat, Seq<char>, Seq<char>),
    NoPreviousResponse(nat),
    UnknownTarget(nat, Seq<char>, Seq<char>),
    SpecLoad(nat, Seq<char>, Seq<char>),
    Http(nat, Seq<char>),
}

/// The view of a `PipeError`.
pub open spec fn pipe_error_view(e: PipeError) -> PipeErrorV {
    match e {
        PipeError::Parse { stage, expr, reason } => PipeErrorV::Parse(stage as nat, expr@, reason@),
        PipeError::JmesPath { stage, expr, reason } => PipeErrorV::JmesPath(stage as nat, expr@, reason@),
        PipeError::NoPreviousResponse { stage } => PipeErrorV::NoPreviousResponse(stage as nat),
        PipeError::UnknownTarget { stage, api, target } => PipeErrorV::UnknownTarget(stage as nat, api@, target@),
        PipeError::SpecLoad { stage, api, reason } => PipeErrorV::SpecLoad(stage as nat, api@, reason@),
        PipeError::Http { stage, reason } => PipeErrorV::Http(stage as nat, reason@),
    }
}

/// `Pipe failed at stage <n>: `.
pub open spec fn stage_head(stage: nat) -> Seq<char> {
    "Pipe failed at stage "@ + text::dec(stage) + ": "@
}

/// The message shown for a failed pipe: what failed, the expression and
/// the reason where there are ones, and how to look into it.
pub open spec fn pipe_message(e: PipeErrorV) -> Seq<char> {
    match e {
        PipeErrorV::Parse(n, expr, reason) => stage_head(n) + "parse error\n  Expression: "@ + expr
            + "\n  Reason:     "@ + reason + "\n  To debug:   spall chain validate '"@ + expr + "'"@,
        PipeErrorV::JmesPath(n, expr, reason) => stage_head(n) + "jmespath error\n  Expression: "@ + expr
            + "\n  Reason:     "@ + reason + "\n  To debug:   echo '{}' | spall jmespath '"@ + expr + "'"@,
        PipeErrorV::NoPreviousResponse(n) => stage_head(n)
            + "no response from previous stage to feed into next stage\n  To debug:   ensure stage "@
            + text::dec((n - 1) as nat) + " succeeded and returned JSON"@,
        PipeErrorV::UnknownTarget(n, api, target) => stage_head(n) + "chain target '"@ + target
            + "' is not an operation of API '"@ + api
            + "'\n  Reason:     chaining stays within a single API; to chain across APIs run them as separate pipes\n  To debug:   spall "@
            + api + " --help"@,
        PipeErrorV::SpecLoad(n, api, reason) => stage_head(n) + "could not load the spec for API '"@ + api
            + "'\n  Reason:     "@ + reason,
        PipeErrorV::Http(n, reason) => stage_head(n) + "request error\n  Reason:     "@ + reason,
    }
}

impl PipeError {
    /// The message shown for this failure (see `pipe_message`). A missing
    /// response is reported from the second stage on.
    pub fn message(&self) -> (m: String)
        requires
            self matches PipeError::NoPreviousResponse { stage } ==> stage >= 1,
        ensures
            m@ == pipe_message(pipe_error_view(*self)),
    {
        let mut m = "Pipe failed at stage ".to_owned();
        let n: usize = match self {
            PipeError::Parse { stage, .. } => *stage,
            PipeError::JmesPath { stage, .. } => *stage,
            PipeError::NoPreviousResponse { stage } => *stage,
            PipeError::UnknownTarget { stage, .. } => *stage,
            PipeError::SpecLoad { stage, .. } => *stage,
            PipeError::Http { stage, .. } => *stage,
        };
        text::push_dec(&mut m, n as u128);
        m.append(": ");
        let ghost head = m@;
        match self {
            PipeError::Parse { expr, reason, .. } => {
                m.append("parse error\n  Expression: ");
                m.append(expr.as_str());
                m.append("\n  Reason:     ");
                m.append(reason.as_str());
                m.append("\n  To debug:   spall chain validate '");
                m.append(expr.as_str());
                m.append("'");
            },
            PipeError::JmesPath { expr, reason, .. } => {
                m.append("jmespath error\n  Expression: ");
                m.append(expr.as_str());
                m.append("\n  Reason:     ");
                m.append(reason.as_str());
                m.append("\n  To debug:   echo '{}' | spall jmespath '");
                m.append(expr.as_str());
                m.append("'");
            },
            PipeError::NoPreviousResponse { stage } => {
                m.append("no response from previous stage to feed into next stage\n  To debug:   ensure stage ");
                text::push_dec(&mut m, (*stage - 1) as u128);
                m.append(" succeeded and returned JSON");
            },
            PipeError::UnknownTarget { api, target, .. } => {
                m.append("chain target '");
                m.append(target.as_str());
                m.append("' is not an operation of API '");
                m.append(api.as_str());
                m.append("'\n  Reason:     chaining stays within a single API; to chain across APIs run them as separate pipes\n  To debug:   spall ");
                m.append(api.as_str());
                m.append(" --help");
            },
            PipeError::SpecLoad { api, reason, .. } => {
                m.append("could not load the spec for API '");
                m.append(api.as_str());
                m.append("'\n  Reason:     ");
                m.append(reason.as_str());
            },
            PipeError::Http { reason, .. } => {
                m.append("request error\n  Reason:     ");
                m.append(reason.as_str());
            },
        }
        proof {
            assert(head == stage_head(n as nat));
            assert(m@ =~= pipe_message(pipe_error_view(*self)));
        }
        m
    }
}


/// The command line of a pipe's first stage, from the words read from it:
/// the program name, then the words (the first of which names the API that
/// every later stage chains within).
pub open spec fn stage0_words(stage: Seq<char>, words: Option<Seq<Seq<char>>>) -> Result<Seq<Seq<char>>, PipeErrorV> {
    match words {
        None => Err(PipeErrorV::Parse(0, stage, "unmatched quote in pipe stage 0"@)),
        Some(w) => if w.len() == 0 {
            Err(PipeErrorV::Parse(0, stage, "empty pipe stage 0"@))
        } else {
            Ok(seq![program_name()] + w)
        },
    }
}

/// The command line of a pipe's first stage; a pipe needs two stages.
pub open spec fn stage0_of(stages: Seq<Seq<char>>) -> Result<Seq<Seq<char>>, PipeErrorV> {
    if stages.len() < 2 {
        Err(PipeErrorV::Parse(0, if stages.len() == 0 { ""@ } else { stages[0] }, "pipe requires at least two stages"@))
    } else {
        stage0_words(stages[0], shlex_words(stages[0]))
    }
}

/// Whether a result matches its plain-value description.
pub open spec fn args_result_is(r: Result<Vec<String>, PipeError>, v: Result<Seq<Seq<char>>, PipeErrorV>) -> bool {
    match (r, v) {
        (Ok(a), Ok(b)) => text::views(a@) == b,
        (Err(e), Err(f)) => pipe_error_view(e) == f,
        _ => false,
    }
}

/// The first stage's command line from the words read from it (see
/// `stage0_words`).
pub fn stage0_from_words(stage: &str, words: Option<Vec<String>>) -> (r: Result<Vec<String>, PipeError>)
    ensures
        args_result_is(r, stage0_words(stage@, match words { Some(w) => Some(text::views(w@)), None => None })),
{
    match words {
        None => Err(PipeError::Parse {
            stage: 0,
            expr: stage.to_owned(),
            reason: "unmatched quote in pipe stage 0".to_owned(),
        }),
        Some(w) => {
            if w.len() == 0 {
                Err(PipeError::Parse { stage: 0, expr: stage.to_owned(), reason: "empty pipe stage 0".to_owned() })
            } else {
                Ok(with_program_name(&w))
            }
        },
    }
}


/// The command line of a pipe's first stage (see `stage0_of`).
pub fn pipe_stage0(stages: &Vec<String>) -> (r: Result<Vec<String>, PipeError>)
    ensures
        args_result_is(r, stage0_of(text::views(stages@))),
{
    if stages.len() < 2 {
        let expr = if stages.len() == 0 { "".to_owned() } else { stages[0].clone() };
        return Err(PipeError::Parse { stage: 0, expr, reason: "pipe requires at least two stages".to_owned() });
    }
    let words = shell_words(stages[0].as_str());
    stage0_from_words(stages[0].as_str(), words)
}

/// A chain stage read against the previous stage's response: the stage
/// needs that response, and its text must parse as a chain expression
/// (the parser's message, as shown, is the reason otherwise).
pub fn parse_chain_stage(stage_num: usize, stage: &str, response: Option<Json>) -> (r: Result<(ChainExpr, Json), PipeError>)
    ensures
        match r {
            Ok((c, j)) => response == Some(j) && (chain_parse(stage@) matches Ok((t, b))
                && c.target_op_id@ == t && binding_views(c.bindings@) == b),
            Err(e) => match response {
                None => pipe_error_view(e) == PipeErrorV::NoPreviousResponse(stage_num as nat),
                Some(_) => chain_parse(stage@) matches Err(m)
                    && pipe_error_view(e) == PipeErrorV::Parse(stage_num as nat, stage@, "Usage error: "@ + m),
            },
        },
{
    let response = match response {
        Some(j) => j,
        None => return Err(PipeError::NoPreviousResponse { stage: stage_num }),
    };
    match ChainExpr::parse(stage) {
        Ok(c) => Ok((c, response)),
        Err(e) => {
            let reason = e.message();
            Err(PipeError::Parse { stage: stage_num, expr: stage.to_owned(), reason })
        },
    }
}

/// The command line a chain stage runs: the program name, the API of the
/// first stage, then what the chain resolves to against the target
/// operation. The target must be an operation of that API (the first with
/// its id); a binding that cannot be resolved fails the stage.
pub open spec fn chain_stage_of(
    stage_num: nat,
    stage: Seq<char>,
    api: Seq<char>,
    target: Seq<char>,
    binds: Seq<(Seq<char>, Seq<char>)>,
    response: crate::json::JsonV,
    ops: Seq<OperationInfo>,
) -> Result<Seq<Seq<char>>, PipeErrorV> {
    match crate::arazzo::runner::op_index(ops, target) {
        None => Err(PipeErrorV::UnknownTarget(stage_num, api, target)),
        Some(k) => match resolve_fold(target, ops[k].parameters@, binds, response) {
            Ok((pos, flags)) => Ok(seq![program_name(), api] + resolved_args(target, pos, flags)),
            Err(m) => Err(PipeErrorV::JmesPath(stage_num, stage, "Usage error: "@ + m)),
        },
    }
}

/// The command line a chain stage runs (see `chain_stage_of`).
pub fn chain_stage_args(
    stage_num: usize,
    stage: &str,
    api: &str,
    chain: &ChainExpr,
    response: &Json,
    ops: &Vec<OperationInfo>,
) -> (r: Result<Vec<String>, PipeError>)
    ensures
        args_result_is(r, chain_stage_of(stage_num as nat, stage@, api@, chain.target_op_id@,
            binding_views(chain.bindings@), response@, ops@)),
{
    let k = match crate::arazzo::runner::op_index_exec(ops, chain.target_op_id.as_str()) {
        Some(k) => k,
        None => {
            return Err(PipeError::UnknownTarget {
                stage: stage_num,
                api: api.to_owned(),
                target: chain.target_op_id.clone(),
            })
        },
    };
    match chain.resolve(response, &ops[k]) {
        Ok(args) => {
            let mut line: Vec<String> = Vec::new();
            line.push("spall".to_owned());
            line.push(api.to_owned());
            let mut i: usize = 0;
            proof {
                assert(text::views(line@) =~= seq![program_name(), api@]);
                assert(str_views(args@) =~= text::views(args@));
            }
            while i < args.len()
                invariant
                    i <= args.len(),
                    text::views(line@) == seq![program_name(), api@] + text::views(args@.subrange(0, i as int)),
                decreases args.len() - i,
            {
                let ghost before = line@;
                line.push(args[i].clone());
                proof {
                    assert(text::views(line@) =~= text::views(before).push(args@[i as int]@));
                    assert(text::views(args@.subrange(0, i + 1)) =~= text::views(args@.subrange(0, i as int)).push(args@[i as int]@));
                    assert(text::views(line@) =~= seq![program_name(), api@] + text::views(args@.subrange(0, i + 1)));
                }
                i = i + 1;
            }
            proof {
                assert(args@.subrange(0, args@.len() as int) =~= args@);
            }
            Ok(line)
        },
        Err(e) => {
            let reason = e.message();
            Err(PipeError::JmesPath { stage: stage_num, expr: stage.to_owned(), reason })
        },
    }
}

} // verus!
