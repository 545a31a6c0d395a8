//! Arazzo 1.0.1 §4.6 / §4.7 action dispatch: resolving `$components`
//! references and walking a chain of actions to decide how the step loop
//! proceeds. Criteria are taken already evaluated, in order.

use vstd::prelude::*;
use crate::text;

verus! {

/// `retryLimit` when a `type: retry` action omits it.
pub const DEFAULT_RETRY_LIMIT: u32 = 1;
/// Cap on a retry's wait, in seconds.
pub const MAX_RETRY_WAIT_SECS: u64 = 60;

/// What the step loop does after a chain is evaluated.
pub enum StepFlow {
    /// Proceed to the next step in order.
    Continue,
    /// Jump to the step with this id.
    Goto { step_id: String },
    /// Terminate the workflow with this outcome.
    End { success: bool },
    /// Re-run the current step after `after_ms` milliseconds, at most
    /// `limit` times.
    Retry { after_ms: u64, limit: u32 },
}

/// The value of a `StepFlow`.
pub enum FlowV {
    Continue,
    Goto(Seq<char>),
    End(bool),
    Retry(u64, u32),
}

impl View for StepFlow {
    type V = FlowV;

    open spec fn view(&self) -> FlowV {
        match self {
            StepFlow::Continue => FlowV::Continue,
            StepFlow::Goto { step_id } => FlowV::Goto(step_id@),
            StepFlow::End { success } => FlowV::End(*success),
            StepFlow::Retry { after_ms, limit } => FlowV::Retry(*after_ms, *limit),
        }
    }
}

/// Errors raised while resolving or walking an action chain.
pub enum ActionDispatchError {
    UnknownReference { reference: String },
    MalformedReference { reference: String },
    UnknownActionKind { name: String, kind: String },
    GotoMissingStepId { name: String },
    UnsupportedCriterionType { name: String, kind: String },
    CriterionExpression { name: String, index: usize, message: String },
    NestedWorkflowGoto { name: String },
}

/// The value of an `ActionDispatchError`.
pub enum DispatchErrV {
    UnknownReference(Seq<char>),
    MalformedReference(Seq<char>),
    UnknownActionKind(Seq<char>, Seq<char>),
    GotoMissingStepId(Seq<char>),
    UnsupportedCriterionType(Seq<char>, Seq<char>),
    CriterionExpression(Seq<char>, int, Seq<char>),
    NestedWorkflowGoto(Seq<char>),
}

impl View for ActionDispatchError {
    type V = DispatchErrV;

    open spec fn view(&self) -> DispatchErrV {
        match self {
            ActionDispatchError::UnknownReference { reference } => DispatchErrV::UnknownReference(reference@),
            ActionDispatchError::MalformedReference { reference } => DispatchErrV::MalformedReference(reference@),
            ActionDispatchError::UnknownActionKind { name, kind } => DispatchErrV::UnknownActionKind(name@, kind@),
            ActionDispatchError::GotoMissingStepId { name } => DispatchErrV::GotoMissingStepId(name@),
            ActionDispatchError::UnsupportedCriterionType { name, kind } => DispatchErrV::UnsupportedCriterionType(name@, kind@),
            ActionDispatchError::CriterionExpression { name, index, message } => DispatchErrV::CriterionExpression(name@, *index as int, message@),
            ActionDispatchError::NestedWorkflowGoto { name } => DispatchErrV::NestedWorkflowGoto(name@),
        }
    }
}

/// One criterion, already evaluated: its type (`simple` when absent) and
/// the outcome of its condition, or the expression error's text.
pub struct CriterionInfo {
    pub kind: Option<String>,
    pub outcome: Result<bool, String>,
}

/// A success action.
pub struct ActionInfo {
    pub name: String,
    pub kind: String,
    pub workflow_id: Option<String>,
    pub step_id: Option<String>,
    pub criteria: Vec<CriterionInfo>,
}

/// A failure action.
pub struct FailureActionInfo {
    pub name: String,
    pub kind: String,
    pub workflow_id: Option<String>,
    pub step_id: Option<String>,
    /// `retryAfter`, in milliseconds (negative values already clamped to 0).
    pub retry_after_ms: Option<u64>,
    pub retry_limit: Option<u32>,
    pub criteria: Vec<CriterionInfo>,
}

/// An action given inline or as a `$components` reference.
pub enum ActionOrRef<A> {
    Inline(A),
    Reference(String),
}

/// The reusable actions of a document.
pub struct Components {
    pub success_actions: Vec<(String, ActionInfo)>,
    pub failure_actions: Vec<(String, FailureActionInfo)>,
}

/// The kind of a criterion (`simple` when absent).
pub open spec fn criterion_kind(c: CriterionInfo) -> Seq<char> {
    match c.kind {
        Some(k) => k@,
        None => "simple"@,
    }
}

/// Whether every criterion passes, in order: a criterion of another type
/// than `simple` is refused, an expression error is reported with its
/// index, the first false condition stops the walk.
pub open spec fn criteria_pass_from(name: Seq<char>, cs: Seq<CriterionInfo>, start: int) -> Result<bool, DispatchErrV>
    decreases cs.len() - start,
{
    if start >= cs.len() || start < 0 {
        Ok(true)
    } else if criterion_kind(cs[start]) != "simple"@ {
        Err(DispatchErrV::UnsupportedCriterionType(name, criterion_kind(cs[start])))
    } else {
        match cs[start].outcome {
            Err(m) => Err(DispatchErrV::CriterionExpression(name, start, m@)),
            Ok(false) => Ok(false),
            Ok(true) => criteria_pass_from(name, cs, start + 1),
        }
    }
}

/// Whether every criterion passes.
pub open spec fn criteria_pass_spec(name: Seq<char>, cs: Seq<CriterionInfo>) -> Result<bool, DispatchErrV> {
    criteria_pass_from(name, cs, 0)
}

/// The error view of a `Result`.
pub open spec fn res_view<T, V>(r: Result<T, ActionDispatchError>, f: spec_fn(T) -> V) -> Result<V, DispatchErrV> {
    match r {
        Ok(t) => Ok(f(t)),
        Err(e) => Err(e@),
    }
}

/// Evaluate every criterion; all must pass for the action to fire.
pub fn criteria_pass(action_name: &str, criteria: &Vec<CriterionInfo>) -> (r: Result<bool, ActionDispatchError>)
    ensures
        res_view(r, |b: bool| b) == criteria_pass_spec(action_name@, criteria@),
{
    let mut idx: usize = 0;
    proof {
        reveal_strlit("simple");
    }
    while idx < criteria.len()
        invariant
            idx <= criteria.len(),
            criteria_pass_spec(action_name@, criteria@) == criteria_pass_from(action_name@, criteria@, idx as int),
        decreases criteria.len() - idx,
    {
        let c = &criteria[idx];
        let kind: &str = match &c.kind {
            Some(k) => k.as_str(),
            None => "simple",
        };
        if !crate::json::str_eq(kind, "simple") {
            return Err(ActionDispatchError::UnsupportedCriterionType { name: action_name.to_owned(), kind: kind.to_owned() });
        }
        match &c.outcome {
            Err(m) => {
                return Err(ActionDispatchError::CriterionExpression { name: action_name.to_owned(), index: idx, message: m.clone() });
            }
            Ok(false) => return Ok(false),
            Ok(true) => {}
        }
        idx = idx + 1;
    }
    Ok(true)
}

/// The flow of a `goto` action: nested workflows are refused and a step
/// id is required.
pub open spec fn goto_of(name: Seq<char>, workflow_id: Option<String>, step_id: Option<String>) -> Result<FlowV, DispatchErrV> {
    if workflow_id is Some {
        Err(DispatchErrV::NestedWorkflowGoto(name))
    } else {
        match step_id {
            Some(s) => Ok(FlowV::Goto(s@)),
            None => Err(DispatchErrV::GotoMissingStepId(name)),
        }
    }
}

/// The flow of a `goto` action.
fn goto_flow(name: &String, workflow_id: &Option<String>, step_id: &Option<String>) -> (r: Result<StepFlow, ActionDispatchError>)
    ensures
        res_view(r, |f: StepFlow| f@) == goto_of(name@, *workflow_id, *step_id),
{
    if workflow_id.is_some() {
        return Err(ActionDispatchError::NestedWorkflowGoto { name: name.clone() });
    }
    match step_id {
        Some(s) => Ok(StepFlow::Goto { step_id: s.clone() }),
        None => Err(ActionDispatchError::GotoMissingStepId { name: name.clone() }),
    }
}

/// Walk a success chain from `start`: the first action whose criteria all
/// pass decides (`end` ends successfully, `goto` jumps); with none,
/// `Continue`.
pub open spec fn success_from(actions: Seq<ActionInfo>, start: int) -> Result<FlowV, DispatchErrV>
    decreases actions.len() - start,
{
    if start >= actions.len() || start < 0 {
        Ok(FlowV::Continue)
    } else {
        let a = actions[start];
        match criteria_pass_spec(a.name@, a.criteria@) {
            Err(e) => Err(e),
            Ok(false) => success_from(actions, start + 1),
            Ok(true) => if a.kind@ == "end"@ {
                Ok(FlowV::End(true))
            } else if a.kind@ == "goto"@ {
                goto_of(a.name@, a.workflow_id, a.step_id)
            } else {
                Err(DispatchErrV::UnknownActionKind(a.name@, a.kind@))
            },
        }
    }
}

/// Walk a failure chain from `start`: like the success side, but `end`
/// ends unsuccessfully and `retry` asks for a re-run (after 0 ms and at
/// most `DEFAULT_RETRY_LIMIT` times unless given).
pub open spec fn failure_from(actions: Seq<FailureActionInfo>, start: int) -> Result<FlowV, DispatchErrV>
    decreases actions.len() - start,
{
    if start >= actions.len() || start < 0 {
        Ok(FlowV::Continue)
    } else {
        let a = actions[start];
        match criteria_pass_spec(a.name@, a.criteria@) {
            Err(e) => Err(e),
            Ok(false) => failure_from(actions, start + 1),
            Ok(true) => if a.kind@ == "end"@ {
                Ok(FlowV::End(false))
            } else if a.kind@ == "goto"@ {
                goto_of(a.name@, a.workflow_id, a.step_id)
            } else if a.kind@ == "retry"@ {
                Ok(FlowV::Retry(
                    match a.retry_after_ms { Some(ms) => ms, None => 0 },
                    match a.retry_limit { Some(l) => l, None => DEFAULT_RETRY_LIMIT },
                ))
            } else {
                Err(DispatchErrV::UnknownActionKind(a.name@, a.kind@))
            },
        }
    }
}

/// Walk a resolved success chain.
pub fn dispatch_success_chain(actions: &Vec<&ActionInfo>) -> (r: Result<StepFlow, ActionDispatchError>)
    ensures
        res_view(r, |f: StepFlow| f@) == success_from(derefs(actions@), 0),
{
    let ghost av = derefs(actions@);
    let mut i: usize = 0;
    while i < actions.len()
        invariant
            i <= actions.len(),
            av == derefs(actions@),
            success_from(av, 0) == success_from(av, i as int),
        decreases actions.len() - i,
    {
        let a: &ActionInfo = actions[i];
        match criteria_pass(a.name.as_str(), &a.criteria) {
            Err(e) => return Err(e),
            Ok(false) => {
                i = i + 1;
                continue;
            }
            Ok(true) => {}
        }
        if crate::json::str_eq(a.kind.as_str(), "end") {
            return Ok(StepFlow::End { success: true });
        } else if crate::json::str_eq(a.kind.as_str(), "goto") {
            return goto_flow(&a.name, &a.workflow_id, &a.step_id);
        } else {
            return Err(ActionDispatchError::UnknownActionKind { name: a.name.clone(), kind: a.kind.clone() });
        }
    }
    Ok(StepFlow::Continue)
}

/// Walk a resolved failure chain.
pub fn dispatch_failure_chain(actions: &Vec<&FailureActionInfo>) -> (r: Result<StepFlow, ActionDispatchError>)
    ensures
        res_view(r, |f: StepFlow| f@) == failure_from(derefs(actions@), 0),
{
    let ghost av = derefs(actions@);
    let mut i: usize = 0;
    while i < actions.len()
        invariant
            i <= actions.len(),
            av == derefs(actions@),
            failure_from(av, 0) == failure_from(av, i as int),
        decreases actions.len() - i,
    {
        let a: &FailureActionInfo = actions[i];
        match criteria_pass(a.name.as_str(), &a.criteria) {
            Err(e) => return Err(e),
            Ok(false) => {
                i = i + 1;
                continue;
            }
            Ok(true) => {}
        }
        if crate::json::str_eq(a.kind.as_str(), "end") {
            return Ok(StepFlow::End { success: false });
        } else if crate::json::str_eq(a.kind.as_str(), "goto") {
            return goto_flow(&a.name, &a.workflow_id, &a.step_id);
        } else if crate::json::str_eq(a.kind.as_str(), "retry") {
            let after_ms = match a.retry_after_ms {
                Some(ms) => ms,
                None => 0,
            };
            let limit = match a.retry_limit {
                Some(l) => l,
                None => DEFAULT_RETRY_LIMIT,
            };
            return Ok(StepFlow::Retry { after_ms, limit });
        } else {
            return Err(ActionDispatchError::UnknownActionKind { name: a.name.clone(), kind: a.kind.clone() });
        }
    }
    Ok(StepFlow::Continue)
}

/// The prefix of success-action references.
pub open spec fn success_prefix() -> Seq<char> {
    "$components.successActions."@
}

/// The prefix of failure-action references.
pub open spec fn failure_prefix() -> Seq<char> {
    "$components.failureActions."@
}

/// The name a reference points at, when it has the prefix.
pub open spec fn ref_name(reference: Seq<char>, prefix: Seq<char>) -> Option<Seq<char>> {
    if text::starts_with(reference, prefix) {
        Some(reference.subrange(prefix.len() as int, reference.len() as int))
    } else {
        None
    }
}

/// The name after `prefix`, or a malformed-reference error.
fn strip_ref(reference: &str, prefix: &str) -> (r: Result<String, ActionDispatchError>)
    ensures
        match (r, ref_name(reference@, prefix@)) {
            (Ok(n), Some(m)) => n@ == m,
            (Err(e), None) => e@ == DispatchErrV::MalformedReference(reference@),
            _ => false,
        },
{
    let v = text::chars_of(reference);
    let p = text::chars_of(prefix);
    if text::starts_with_exec(&v, &p) {
        Ok(text::string_of(&text::v_range(&v, p.len(), v.len())))
    } else {
        Err(ActionDispatchError::MalformedReference { reference: reference.to_owned() })
    }
}

/// The component name of a success-action reference.
pub fn parse_success_ref(reference: &str) -> (r: Result<String, ActionDispatchError>)
    ensures
        match (r, ref_name(reference@, success_prefix())) {
            (Ok(n), Some(m)) => n@ == m,
            (Err(e), None) => e@ == DispatchErrV::MalformedReference(reference@),
            _ => false,
        },
{
    strip_ref(reference, "$components.successActions.")
}

/// The component name of a failure-action reference.
pub fn parse_failure_ref(reference: &str) -> (r: Result<String, ActionDispatchError>)
    ensures
        match (r, ref_name(reference@, failure_prefix())) {
            (Ok(n), Some(m)) => n@ == m,
            (Err(e), None) => e@ == DispatchErrV::MalformedReference(reference@),
            _ => false,
        },
{
    strip_ref(reference, "$components.failureActions.")
}


/// The values behind a run of references.
pub open spec fn derefs<T>(s: Seq<&T>) -> Seq<T> {
    s.map_values(|a: &T| *a)
}

/// The first component action named `n`.
pub open spec fn component<A>(m: Seq<(String, A)>, n: Seq<char>) -> Option<A>
    decreases m.len(),
{
    if m.len() == 0 {
        None
    } else if m[0].0@ == n {
        Some(m[0].1)
    } else {
        component(m.drop_first(), n)
    }
}

/// The actions a chain stands for, references resolved against the
/// component table `comps` (none when the document has no components),
/// or the first reference that fails.
pub open spec fn resolve_chain<A>(chain: Seq<ActionOrRef<A>>, prefix: Seq<char>, comps: Option<Seq<(String, A)>>) -> Result<Seq<A>, DispatchErrV>
    decreases chain.len(),
{
    if chain.len() == 0 {
        Ok(seq![])
    } else {
        let head: Result<A, DispatchErrV> = match chain[0] {
            ActionOrRef::Inline(a) => Ok(a),
            ActionOrRef::Reference(r) => match ref_name(r@, prefix) {
                None => Err(DispatchErrV::MalformedReference(r@)),
                Some(n) => match comps {
                    Some(m) => match component(m, n) {
                        Some(a) => Ok(a),
                        None => Err(DispatchErrV::UnknownReference(r@)),
                    },
                    None => Err(DispatchErrV::UnknownReference(r@)),
                },
            },
        };
        match head {
            Err(e) => Err(e),
            Ok(a) => match resolve_chain(chain.drop_first(), prefix, comps) {
                Ok(rest) => Ok(seq![a] + rest),
                Err(e) => Err(e),
            },
        }
    }
}

/// The first component action named `n`.
fn find_component<'a, A>(m: &'a Vec<(String, A)>, n: &str) -> (r: Option<&'a A>)
    ensures
        match r {
            Some(a) => component(m@, n@) == Some(*a),
            None => component(m@, n@) is None,
        },
{
    let mut i: usize = 0;
    proof {
        assert(m@.subrange(0, m@.len() as int) =~= m@);
    }
    while i < m.len()
        invariant
            i <= m.len(),
            component(m@, n@) == component(m@.subrange(i as int, m@.len() as int), n@),
        decreases m.len() - i,
    {
        proof {
            let rest = m@.subrange(i as int, m@.len() as int);
            assert(rest.drop_first() =~= m@.subrange(i + 1, m@.len() as int));
            assert(rest[0] == m@[i as int]);
        }
        if crate::json::str_eq(m[i].0.as_str(), n) {
            return Some(&m[i].1);
        }
        i = i + 1;
    }
    None
}

/// Once a suffix of the chain resolves, prepending a resolved head works.
proof fn lemma_resolve_suffix<A>(chain: Seq<ActionOrRef<A>>, prefix: Seq<char>, comps: Option<Seq<(String, A)>>, i: int)
    requires
        0 <= i < chain.len(),
    ensures
        resolve_chain(chain.subrange(i, chain.len() as int), prefix, comps) == ({
            let head: Result<A, DispatchErrV> = match chain[i] {
                ActionOrRef::Inline(a) => Ok(a),
                ActionOrRef::Reference(r) => match ref_name(r@, prefix) {
                    None => Err(DispatchErrV::MalformedReference(r@)),
                    Some(n) => match comps {
                        Some(m) => match component(m, n) {
                            Some(a) => Ok(a),
                            None => Err(DispatchErrV::UnknownReference(r@)),
                        },
                        None => Err(DispatchErrV::UnknownReference(r@)),
                    },
                },
            };
            match head {
                Err(e) => Err(e),
                Ok(a) => match resolve_chain(chain.subrange(i + 1, chain.len() as int), prefix, comps) {
                    Ok(rest) => Ok(seq![a] + rest),
                    Err(e) => Err(e),
                },
            }
        }),
{
    let t = chain.subrange(i, chain.len() as int);
    assert(t.drop_first() =~= chain.subrange(i + 1, chain.len() as int));
    assert(t[0] == chain[i]);
}

/// The component table of the success or failure side.
pub open spec fn comps_of<A>(c: Option<&Vec<(String, A)>>) -> Option<Seq<(String, A)>> {
    match c {
        Some(m) => Some(m@),
        None => None,
    }
}

/// Resolve every reference in a chain into the action it names.
pub fn resolve_chain_exec<'a, A>(
    chain: &'a Vec<ActionOrRef<A>>,
    prefix: &str,
    comps: Option<&'a Vec<(String, A)>>,
) -> (r: Result<Vec<&'a A>, ActionDispatchError>)
    ensures
        match (r, resolve_chain(chain@, prefix@, comps_of(comps))) {
            (Ok(v), Ok(s)) => derefs(v@) == s,
            (Err(e), Err(f)) => e@ == f,
            _ => false,
        },
{
    let n = chain.len();
    let mut out: Vec<&'a A> = Vec::new();
    let mut k: usize = 0;
    proof {
        assert(chain@.subrange(0, n as int) =~= chain@);
        assert(derefs(out@) =~= Seq::<A>::empty());
        match resolve_chain(chain@, prefix@, comps_of(comps)) {
            Ok(rest) => {
                assert(derefs(out@) + rest =~= rest);
            }
            Err(e) => {}
        }
    }
    while k < n
        invariant
            k <= n == chain.len(),
            resolve_chain(chain@, prefix@, comps_of(comps)) == match resolve_chain(chain@.subrange(k as int, n as int), prefix@, comps_of(comps)) {
                Ok(rest) => Ok(derefs(out@) + rest),
                Err(e) => Err::<Seq<A>, DispatchErrV>(e),
            },
        decreases n - k,
    {
        proof {
            lemma_resolve_suffix(chain@, prefix@, comps_of(comps), k as int);
        }
        let head: &'a A = match &chain[k] {
            ActionOrRef::Inline(a) => a,
            ActionOrRef::Reference(r) => {
                let name = match strip_ref(r.as_str(), prefix) {
                    Ok(nm) => nm,
                    Err(e) => return Err(e),
                };
                let found = match comps {
                    Some(m) => find_component(m, name.as_str()),
                    None => None,
                };
                match found {
                    Some(a) => a,
                    None => return Err(ActionDispatchError::UnknownReference { reference: r.clone() }),
                }
            }
        };
        let ghost before = derefs(out@);
        out.push(head);
        proof {
            assert(derefs(out@) =~= before.push(*head));
            match resolve_chain(chain@.subrange(k + 1, n as int), prefix@, comps_of(comps)) {
                Ok(rest) => {
                    assert(before + (seq![*head] + rest) =~= derefs(out@) + rest);
                }
                Err(e) => {}
            }
        }
        k = k + 1;
    }
    proof {
        assert(chain@.subrange(n as int, n as int) =~= Seq::<ActionOrRef<A>>::empty());
        assert(derefs(out@) + Seq::<A>::empty() =~= derefs(out@));
    }
    Ok(out)
}

/// Resolve every `$components.successActions.<name>` reference of a
/// success chain.
pub fn resolve_success_chain<'a>(
    chain: &'a Vec<ActionOrRef<ActionInfo>>,
    components: Option<&'a Components>,
) -> (r: Result<Vec<&'a ActionInfo>, ActionDispatchError>)
    ensures
        match (r, resolve_chain(chain@, success_prefix(), match components { Some(c) => Some(c.success_actions@), None => None })) {
            (Ok(v), Ok(s)) => derefs(v@) == s,
            (Err(e), Err(f)) => e@ == f,
            _ => false,
        },
{
    let comps = match components {
        Some(c) => Some(&c.success_actions),
        None => None,
    };
    resolve_chain_exec(chain, "$components.successActions.", comps)
}

/// Resolve every `$components.failureActions.<name>` reference of a
/// failure chain.
pub fn resolve_failure_chain<'a>(
    chain: &'a Vec<ActionOrRef<FailureActionInfo>>,
    components: Option<&'a Components>,
) -> (r: Result<Vec<&'a FailureActionInfo>, ActionDispatchError>)
    ensures
        match (r, resolve_chain(chain@, failure_prefix(), match components { Some(c) => Some(c.failure_actions@), None => None })) {
            (Ok(v), Ok(s)) => derefs(v@) == s,
            (Err(e), Err(f)) => e@ == f,
            _ => false,
        },
{
    let comps = match components {
        Some(c) => Some(&c.failure_actions),
        None => None,
    };
    resolve_chain_exec(chain, "$components.failureActions.", comps)
}

/// The message of each dispatch error.
pub open spec fn dispatch_message(e: DispatchErrV) -> Seq<char> {
    match e {
        DispatchErrV::UnknownReference(r) => "action reference '"@ + r + "' is not in $components"@,
        DispatchErrV::MalformedReference(r) => "action reference '"@ + r
            + "' has unsupported form (expected '$components.successActions.<name>' or '$components.failureActions.<name>')"@,
        DispatchErrV::UnknownActionKind(n, k) => "action '"@ + n + "' has unknown type '"@ + k
            + "' (expected 'end' | 'goto' | 'retry')"@,
        DispatchErrV::GotoMissingStepId(n) => "action '"@ + n + "' type=goto is missing required stepId"@,
        DispatchErrV::UnsupportedCriterionType(n, k) => "action '"@ + n + "' has unsupported criterion type '"@ + k
            + "' (jsonpath/regex are v2 \u{2014} see issue #5)"@,
        DispatchErrV::CriterionExpression(n, i, m) => "action '"@ + n + "' criterion #"@ + text::dec(i as nat) + ": "@ + m,
        DispatchErrV::NestedWorkflowGoto(n) => "action '"@ + n
            + "': type=workflowId is not supported in v1.5 (nested workflows are v2)"@,
    }
}

impl ActionDispatchError {
    /// The message of this error.
    pub fn message(&self) -> (m: String)
        ensures
            m@ == dispatch_message(self@),
    {
        match self {
            ActionDispatchError::UnknownReference { reference } => {
                let mut m = String::from_str("action reference '");
                m.append(reference.as_str());
                m.append("' is not in $components");
                m
            }
            ActionDispatchError::MalformedReference { reference } => {
                let mut m = String::from_str("action reference '");
                m.append(reference.as_str());
                m.append("' has unsupported form (expected '$components.successActions.<name>' or '$components.failureActions.<name>')");
                m
            }
            ActionDispatchError::UnknownActionKind { name, kind } => {
                let mut m = String::from_str("action '");
                m.append(name.as_str());
                m.append("' has unknown type '");
                m.append(kind.as_str());
                m.append("' (expected 'end' | 'goto' | 'retry')");
                m
            }
            ActionDispatchError::GotoMissingStepId { name } => {
                let mut m = String::from_str("action '");
                m.append(name.as_str());
                m.append("' type=goto is missing required stepId");
                m
            }
            ActionDispatchError::UnsupportedCriterionType { name, kind } => {
                let mut m = String::from_str("action '");
                m.append(name.as_str());
                m.append("' has unsupported criterion type '");
                m.append(kind.as_str());
                m.append("' (jsonpath/regex are v2 \u{2014} see issue #5)");
                m
            }
            ActionDispatchError::CriterionExpression { name, index, message } => {
                let mut m = String::from_str("action '");
                m.append(name.as_str());
                m.append("' criterion #");
                text::push_dec(&mut m, *index as u128);
                m.append(": ");
                m.append(message.as_str());
                m
            }
            ActionDispatchError::NestedWorkflowGoto { name } => {
                let mut m = String::from_str("action '");
                m.append(name.as_str());
                m.append("': type=workflowId is not supported in v1.5 (nested workflows are v2)");
                m
            }
        }
    }
}

/// Whether a criterion is a `simple` one that held.
pub open spec fn criterion_held(c: CriterionInfo) -> bool {
    criterion_kind(c) == "simple"@ && c.outcome == Ok::<bool, String>(true)
}

/// Whether a criterion is a `simple` one that was evaluated (true or false).
pub open spec fn criterion_evaluated(c: CriterionInfo) -> bool {
    criterion_kind(c) == "simple"@ && c.outcome is Ok
}

/// The walk from `start` passes exactly when every criterion from there
/// held, and fails on a false one when all before it were evaluated.
proof fn lemma_criteria_from(name: Seq<char>, cs: Seq<CriterionInfo>, start: int)
    requires
        0 <= start <= cs.len(),
    ensures
        criteria_pass_from(name, cs, start) == Ok::<bool, DispatchErrV>(true)
            <==> (forall|i: int| start <= i < cs.len() ==> #[trigger] criterion_held(cs[i])),
        forall|k: int| start <= k < cs.len() && criterion_kind(cs[k]) == "simple"@ && cs[k].outcome == Ok::<bool, String>(false)
            && (forall|j: int| start <= j < k ==> #[trigger] criterion_evaluated(cs[j]))
            ==> criteria_pass_from(name, cs, start) == Ok::<bool, DispatchErrV>(false),
    decreases cs.len() - start,
{
    if start < cs.len() {
        lemma_criteria_from(name, cs, start + 1);
        if criterion_held(cs[start]) {
            assert(criteria_pass_from(name, cs, start) == criteria_pass_from(name, cs, start + 1));
            assert((forall|i: int| start <= i < cs.len() ==> #[trigger] criterion_held(cs[i]))
                <==> (forall|i: int| start + 1 <= i < cs.len() ==> #[trigger] criterion_held(cs[i])));
        } else {
            assert(criteria_pass_from(name, cs, start) != Ok::<bool, DispatchErrV>(true));
        }
        if criterion_kind(cs[start]) == "simple"@ {
            assert forall|k: int| start <= k < cs.len() && criterion_kind(cs[k]) == "simple"@ && cs[k].outcome == Ok::<bool, String>(false)
                && (forall|j: int| start <= j < k ==> #[trigger] criterion_evaluated(cs[j]))
                implies criteria_pass_from(name, cs, start) == Ok::<bool, DispatchErrV>(false) by {
                if k > start {
                    assert(criterion_evaluated(cs[start]));
                    assert forall|j: int| start + 1 <= j < k implies #[trigger] criterion_evaluated(cs[j]) by {}
                }
            }
        } else {
            assert(!criterion_held(cs[start]));
            assert forall|k: int| start <= k < cs.len() && criterion_kind(cs[k]) == "simple"@ && cs[k].outcome == Ok::<bool, String>(false)
                && (forall|j: int| start <= j < k ==> #[trigger] criterion_evaluated(cs[j]))
                implies criteria_pass_from(name, cs, start) == Ok::<bool, DispatchErrV>(false) by {
                if k > start {
                    assert(criterion_evaluated(cs[start]));
                }
            }
        }
    }
}

/// An action's criteria pass only when every one of them is a `simple`
/// criterion that held; a criterion that is false makes them fail when
/// every criterion before it was evaluated (none refused, none in error).
pub proof fn law_all_criteria_must_hold(name: Seq<char>, cs: Seq<CriterionInfo>)
    ensures
        criteria_pass_spec(name, cs) == Ok::<bool, DispatchErrV>(true)
            <==> (forall|i: int| 0 <= i < cs.len() ==> #[trigger] criterion_held(cs[i])),
        forall|k: int| 0 <= k < cs.len() && criterion_kind(cs[k]) == "simple"@ && cs[k].outcome == Ok::<bool, String>(false)
            && (forall|j: int| 0 <= j < k ==> #[trigger] criterion_evaluated(cs[j]))
            ==> criteria_pass_spec(name, cs) == Ok::<bool, DispatchErrV>(false),
{
    lemma_criteria_from(name, cs, 0);
}

} // verus!
