//! The shape of the per-API command tree: which subcommands exist, how each
//! operation's arguments are named, and how operations group by tag.
//!
//! The program turns these specifications into its argument parser.

use vstd::prelude::*;
use crate::chain;
use crate::ir::ParameterLocation;
use crate::text;

verus! {

/// A parameter as the command tree sees it.
pub struct LightParam {
    pub name: String,
    /// `x-cli-name`.
    pub cli_name: Option<String>,
    /// `x-cli-hidden`.
    pub hidden: bool,
    pub location: ParameterLocation,
    pub required: bool,
    pub description: Option<String>,
}

/// An operation as the command tree sees it.
pub struct LightOp {
    pub operation_id: String,
    /// `x-cli-name`.
    pub cli_name: Option<String>,
    /// `x-cli-hidden`.
    pub hidden: bool,
    /// `x-cli-group`.
    pub group: Option<String>,
    pub summary: Option<String>,
    pub deprecated: bool,
    pub tags: Vec<String>,
    pub params: Vec<LightParam>,
    pub has_body: bool,
    pub body_required: bool,
}

/// One argument of an operation's command.
pub struct ArgSpec {
    /// The id the parsed value is found under: `path-`, `query-`,
    /// `header-` or `cookie-` and the parameter's name.
    pub id: String,
    /// The long flag without its dashes; `None` for a positional argument.
    pub long: Option<String>,
    /// The value name shown for a positional argument.
    pub value_name: Option<String>,
    pub required: bool,
    pub help: String,
    /// Whether a value that starts with `-` (such as `-5`) is taken as the
    /// argument's value rather than as a flag.
    pub allow_hyphen_values: bool,
}

/// An operation's command.
pub struct OpCmd {
    pub name: String,
    pub about: String,
    /// Shown before the help of a deprecated operation.
    pub deprecated: bool,
    pub args: Vec<ArgSpec>,
    /// `Some(required)` when the operation takes a body: then `--data`
    /// (required when the body is), `--no-data` (only when it is optional),
    /// `--form` and `--field` exist, at most one of `--data`, `--form`,
    /// `--field` may be given, and each of those three takes values that
    /// start with `-`.
    pub body: Option<bool>,
}

/// The view of an optional string.
pub open spec fn opt_view(o: Option<String>) -> Option<Seq<char>> {
    match o {
        Some(s) => Some(s@),
        None => None,
    }
}

/// An optional text, or the empty text.
pub open spec fn or_empty(o: Option<String>) -> Seq<char> {
    match o {
        Some(s) => s@,
        None => seq![],
    }
}

/// An argument as plain values: `(id, long flag, value name, required,
/// help, takes values that start with '-')`.
pub type ArgV = (Seq<char>, Option<Seq<char>>, Option<Seq<char>>, bool, Seq<char>, bool);

/// The view of an argument.
pub open spec fn arg_view(a: ArgSpec) -> ArgV {
    (a.id@, opt_view(a.long), opt_view(a.value_name), a.required, a.help@, a.allow_hyphen_values)
}

/// The argument of a parameter: a path parameter is positional under its
/// name; a query parameter is `--name`; header and cookie parameters are
/// `--header-name` and `--cookie-name` with the name kebab-cased;
/// `x-cli-name` replaces the name in the flag. Every such argument takes a
/// value that starts with `-` as its value (`-5`, `--offset -10`).
pub open spec fn param_arg(p: LightParam) -> ArgV {
    let long = match p.cli_name {
        Some(c) => c@,
        None => p.name@,
    };
    let help = or_empty(p.description);
    match p.location {
        ParameterLocation::Path => ("path-"@ + p.name@, None, Some(p.name@), p.required, help, true),
        ParameterLocation::Query => ("query-"@ + p.name@, Some(long), None, p.required, help, true),
        ParameterLocation::Header => ("header-"@ + p.name@, Some("header-"@ + chain::kebab(long)), None, p.required, help, true),
        ParameterLocation::Cookie => ("cookie-"@ + p.name@, Some("cookie-"@ + chain::kebab(long)), None, p.required, help, true),
    }
}

/// The arguments of some parameters: hidden ones have none.
pub open spec fn params_args(ps: Seq<LightParam>) -> Seq<ArgV>
    decreases ps.len(),
{
    if ps.len() == 0 {
        seq![]
    } else if ps.last().hidden {
        params_args(ps.drop_last())
    } else {
        params_args(ps.drop_last()).push(param_arg(ps.last()))
    }
}

/// The name an operation is shown under: `x-cli-name`, else its id.
pub open spec fn display_name(op: LightOp) -> Seq<char> {
    match op.cli_name {
        Some(c) => c@,
        None => op.operation_id@,
    }
}

/// `prefix` followed by `s`.
fn prefixed(prefix: &str, s: &str) -> (r: String)
    ensures
        r@ == prefix@ + s@,
{
    let mut r = prefix.to_owned();
    r.append(s);
    r
}

/// A copy of an optional text, or the empty text.
fn or_empty_exec(o: &Option<String>) -> (r: String)
    ensures
        r@ == or_empty(*o),
{
    match o {
        Some(s) => s.clone(),
        None => String::new(),
    }
}

/// The argument of a parameter (see `param_arg`).
pub fn arg_for(p: &LightParam) -> (r: ArgSpec)
    ensures
        arg_view(r) == param_arg(*p),
{
    let long: &str = match &p.cli_name {
        Some(c) => c.as_str(),
        None => p.name.as_str(),
    };
    let help = or_empty_exec(&p.description);
    match p.location {
        ParameterLocation::Path => ArgSpec {
            id: prefixed("path-", p.name.as_str()),
            long: None,
            value_name: Some(p.name.clone()),
            required: p.required,
            help,
            allow_hyphen_values: true,
        },
        ParameterLocation::Query => ArgSpec {
            id: prefixed("query-", p.name.as_str()),
            long: Some(long.to_owned()),
            value_name: None,
            required: p.required,
            help,
            allow_hyphen_values: true,
        },
        ParameterLocation::Header => {
            let k = chain::kebab_exec(long);
            ArgSpec {
                id: prefixed("header-", p.name.as_str()),
                long: Some(prefixed("header-", k.as_str())),
                value_name: None,
                required: p.required,
                help,
                allow_hyphen_values: true,
            }
        },
        ParameterLocation::Cookie => {
            let k = chain::kebab_exec(long);
            ArgSpec {
                id: prefixed("cookie-", p.name.as_str()),
                long: Some(prefixed("cookie-", k.as_str())),
                value_name: None,
                required: p.required,
                help,
                allow_hyphen_values: true,
            }
        },
    }
}

/// Every argument of visible parameters takes values that start with `-`.
proof fn lemma_params_args_hyphen(ps: Seq<LightParam>)
    ensures
        forall|i: int| 0 <= i < params_args(ps).len() ==> (#[trigger] params_args(ps)[i]).5,
    decreases ps.len(),
{
    if ps.len() > 0 {
        let pre = params_args(ps.drop_last());
        lemma_params_args_hyphen(ps.drop_last());
        if !ps.last().hidden {
            let q = pre.push(param_arg(ps.last()));
            assert(param_arg(ps.last()).5);
            assert forall|i: int| 0 <= i < q.len() implies (#[trigger] q[i]).5 by {
                if i < pre.len() {
                    assert(q[i] == pre[i]);
                }
            }
        }
    }
}

/// The command of an operation: named by `display_name`, described by its
/// summary, with the arguments of its visible parameters in order (each
/// taking values that start with `-`) and the body flags when it takes a
/// body.
pub fn build_op_cmd(op: &LightOp) -> (r: OpCmd)
    ensures
        r.name@ == display_name(*op),
        r.about@ == or_empty(op.summary),
        r.deprecated == op.deprecated,
        r.args@.map_values(|a: ArgSpec| arg_view(a)) == params_args(op.params@),
        forall|i: int| 0 <= i < r.args.len() ==> (#[trigger] r.args@[i]).allow_hyphen_values,
        r.body == if op.has_body { Some(op.body_required) } else { None::<bool> },
{
    let name = match &op.cli_name {
        Some(c) => c.clone(),
        None => op.operation_id.clone(),
    };
    let mut args: Vec<ArgSpec> = Vec::new();
    let mut i: usize = 0;
    while i < op.params.len()
        invariant
            i <= op.params.len(),
            args@.map_values(|a: ArgSpec| arg_view(a)) == params_args(op.params@.subrange(0, i as int)),
        decreases op.params.len() - i,
    {
        proof {
            assert(op.params@.subrange(0, i + 1).drop_last() =~= op.params@.subrange(0, i as int));
        }
        let ghost pre = args@;
        if !op.params[i].hidden {
            args.push(arg_for(&op.params[i]));
            proof {
                assert(args@.map_values(|a: ArgSpec| arg_view(a)) =~= pre.map_values(|a: ArgSpec| arg_view(a)).push(param_arg(op.params@[i as int])));
            }
        }
        i = i + 1;
    }
    proof {
        assert(op.params@.subrange(0, op.params@.len() as int) =~= op.params@);
        lemma_params_args_hyphen(op.params@);
        assert forall|k: int| 0 <= k < args.len() implies (#[trigger] args@[k]).allow_hyphen_values by {
            assert(args@.map_values(|a: ArgSpec| arg_view(a))[k] == arg_view(args@[k]));
        }
    }
    OpCmd {
        name,
        about: or_empty_exec(&op.summary),
        deprecated: op.deprecated,
        args,
        body: if op.has_body { Some(op.body_required) } else { None },
    }
}


/// The key an operation is grouped under: `x-cli-group`, else its first
/// tag, else `default`.
pub open spec fn group_key(op: LightOp) -> Seq<char> {
    match op.group {
        Some(g) => g@,
        None => if op.tags@.len() > 0 {
            op.tags@[0]@
        } else {
            "default"@
        },
    }
}

/// The position of group `k`, if there is one.
pub open spec fn group_pos(g: Seq<(Seq<char>, Seq<int>)>, k: Seq<char>) -> Option<int>
    decreases g.len(),
{
    if g.len() == 0 {
        None
    } else if g.last().0 == k {
        match group_pos(g.drop_last(), k) {
            Some(j) => Some(j),
            None => Some(g.len() - 1),
        }
    } else {
        group_pos(g.drop_last(), k)
    }
}

/// The groups of the visible operations, in order of first appearance, each
/// with its operations' positions in order.
pub open spec fn groups_of(ops: Seq<LightOp>) -> Seq<(Seq<char>, Seq<int>)>
    decreases ops.len(),
{
    if ops.len() == 0 {
        seq![]
    } else {
        let g = groups_of(ops.drop_last());
        let i = ops.len() - 1;
        if ops.last().hidden {
            g
        } else {
            let k = group_key(ops.last());
            match group_pos(g, k) {
                Some(j) => g.update(j, (k, g[j].1.push(i))),
                None => g.push((k, seq![i])),
            }
        }
    }
}

/// The group key of an operation.
fn group_key_exec(op: &LightOp) -> (r: String)
    ensures
        r@ == group_key(*op),
{
    match &op.group {
        Some(g) => g.clone(),
        None => if op.tags.len() > 0 {
            op.tags[0].clone()
        } else {
            "default".to_owned()
        },
    }
}

/// The views of the groups.
pub open spec fn groups_view(g: Seq<(String, Vec<usize>)>) -> Seq<(Seq<char>, Seq<int>)> {
    g.map_values(|e: (String, Vec<usize>)| (e.0@, e.1@.map_values(|i: usize| i as int)))
}

/// `group_pos` is the first group with that key.
pub proof fn lemma_group_pos(g: Seq<(Seq<char>, Seq<int>)>, k: Seq<char>)
    ensures
        group_pos(g, k) matches Some(j) ==> 0 <= j < g.len() && g[j].0 == k && forall|m: int| 0 <= m < j ==> g[m].0 != k,
        group_pos(g, k) is None ==> forall|m: int| 0 <= m < g.len() ==> g[m].0 != k,
    decreases g.len(),
{
    if g.len() > 0 {
        let d = g.drop_last();
        lemma_group_pos(d, k);
        if let Some(j) = group_pos(g, k) {
            assert(g[j].0 == k);
            assert forall|m: int| 0 <= m < j implies g[m].0 != k by {
                assert(d[m] == g[m]);
            }
        } else {
            assert forall|m: int| 0 <= m < g.len() implies g[m].0 != k by {
                if m < g.len() - 1 {
                    assert(d[m] == g[m]);
                }
            }
        }
    }
}

/// The position of the first group keyed `k`.
fn find_group(g: &Vec<(String, Vec<usize>)>, k: &str) -> (r: Option<usize>)
    ensures
        match r {
            Some(j) => group_pos(groups_view(g@), k@) == Some(j as int),
            None => group_pos(groups_view(g@), k@) is None,
        },
{
    let ghost gv = groups_view(g@);
    proof {
        lemma_group_pos(gv, k@);
    }
    let mut j: usize = 0;
    while j < g.len()
        invariant
            j <= g.len() == gv.len(),
            gv == groups_view(g@),
            forall|m: int| 0 <= m < j ==> gv[m].0 != k@,
            group_pos(gv, k@) matches Some(x) ==> 0 <= x < gv.len() && gv[x].0 == k@ && forall|m: int| 0 <= m < x ==> gv[m].0 != k@,
            group_pos(gv, k@) is None ==> forall|m: int| 0 <= m < gv.len() ==> gv[m].0 != k@,
        decreases g.len() - j,
    {
        if crate::json::str_eq(g[j].0.as_str(), k) {
            proof {
                assert(gv[j as int].0 == k@);
                if let Some(x) = group_pos(gv, k@) {
                    if x < j {
                        assert(gv[x].0 != k@);
                    }
                    if x > j {
                        assert(gv[j as int].0 != k@);
                    }
                }
            }
            return Some(j);
        }
        proof {
            assert(gv[j as int].0 != k@);
        }
        j = j + 1;
    }
    None
}

/// The groups of the visible operations (see `groups_of`).
pub fn group_by_tag(ops: &Vec<LightOp>) -> (r: Vec<(String, Vec<usize>)>)
    ensures
        groups_view(r@) == groups_of(ops@),
{
    let mut g: Vec<(String, Vec<usize>)> = Vec::new();
    let mut i: usize = 0;
    while i < ops.len()
        invariant
            i <= ops.len(),
            groups_view(g@) == groups_of(ops@.subrange(0, i as int)),
        decreases ops.len() - i,
    {
        let ghost sub = ops@.subrange(0, i + 1);
        proof {
            assert(sub.drop_last() =~= ops@.subrange(0, i as int));
            assert(sub.last() == ops@[i as int]);
        }
        if !ops[i].hidden {
            let k = group_key_exec(&ops[i]);
            let ghost before = groups_view(g@);
            match find_group(&g, k.as_str()) {
                Some(j) => {
                    proof {
                        lemma_group_pos(before, k@);
                    }
                    let ghost g0 = g@;
                    let mut entry = g.remove(j);
                    entry.1.push(i);
                    g.insert(j, entry);
                    proof {
                        assert(g@ =~= g0.update(j as int, g@[j as int]));
                        assert(g@[j as int].0@ == k@);
                        assert(g@[j as int].1@.map_values(|x: usize| x as int) =~= before[j as int].1.push(i as int));
                        assert(groups_view(g@) =~= before.update(j as int, (k@, before[j as int].1.push(i as int))));
                    }
                },
                None => {
                    let mut v: Vec<usize> = Vec::new();
                    v.push(i);
                    proof {
                        assert(v@.map_values(|x: usize| x as int) =~= seq![i as int]);
                    }
                    let ghost g0 = g@;
                    g.push((k, v));
                    proof {
                        assert(g@ =~= g0.push(g@.last()));
                        assert(groups_view(g@) =~= before.push((k@, seq![i as int])));
                    }
                },
            }
        }
        i = i + 1;
    }
    proof {
        assert(ops@.subrange(0, ops@.len() as int) =~= ops@);
    }
    g
}


/// The operations of the groups, group after group.
pub open spec fn grouped_ops(g: Seq<(Seq<char>, Seq<int>)>) -> Seq<int>
    decreases g.len(),
{
    if g.len() == 0 {
        seq![]
    } else {
        grouped_ops(g.drop_last()) + g.last().1
    }
}

/// Whether one of the operations at `r` is shown under `name`.
pub open spec fn name_taken(ops: Seq<LightOp>, r: Seq<int>, name: Seq<char>) -> bool {
    exists|j: int| 0 <= j < r.len() && display_name(ops[#[trigger] r[j]]) == name
}

/// The operations at `idx`, keeping only the first under each display name.
pub open spec fn first_by_name(ops: Seq<LightOp>, idx: Seq<int>) -> Seq<int>
    decreases idx.len(),
{
    if idx.len() == 0 {
        seq![]
    } else {
        let r = first_by_name(ops, idx.drop_last());
        if name_taken(ops, r, display_name(ops[idx.last()])) {
            r
        } else {
            r.push(idx.last())
        }
    }
}

/// The top level of the command tree.
pub struct RootLayout {
    /// `<title> API (<version>)`.
    pub about: String,
    /// The operations registered directly under the root, in order.
    pub root_ops: Vec<usize>,
    /// The tag subcommands and their operations.
    pub groups: Vec<(String, Vec<usize>)>,
}

/// The top level: with a single group its operations sit directly under the
/// root and there are no tag subcommands; otherwise each group is a tag
/// subcommand, and each operation is also registered at the root unless an
/// earlier one has the same display name.
pub open spec fn layout_of(ops: Seq<LightOp>) -> (Seq<int>, Seq<(Seq<char>, Seq<int>)>) {
    let g = groups_of(ops);
    if g.len() == 1 {
        (g[0].1, seq![])
    } else {
        (first_by_name(ops, grouped_ops(g)), g)
    }
}

/// The display name of an operation.
fn display_name_exec(op: &LightOp) -> (r: &String)
    ensures
        r@ == display_name(*op),
{
    match &op.cli_name {
        Some(c) => c,
        None => &op.operation_id,
    }
}

/// Whether `names` holds `n`.
fn names_have(names: &Vec<String>, n: &str) -> (b: bool)
    ensures
        b == exists|j: int| 0 <= j < names@.len() && #[trigger] names@[j]@ == n@,
{
    let mut j: usize = 0;
    while j < names.len()
        invariant
            j <= names.len(),
            forall|m: int| 0 <= m < j ==> #[trigger] names@[m]@ != n@,
        decreases names.len() - j,
    {
        if crate::json::str_eq(names[j].as_str(), n) {
            return true;
        }
        j = j + 1;
    }
    false
}

/// The top level of the command tree (see `layout_of`).
pub fn build_root_layout(title: &str, version: &str, ops: &Vec<LightOp>) -> (r: RootLayout)
    ensures
        r.about@ == title@ + " API ("@ + version@ + ")"@,
        r.root_ops@.map_values(|i: usize| i as int) == layout_of(ops@).0,
        groups_view(r.groups@) == layout_of(ops@).1,
{
    let mut about = title.to_owned();
    about.append(" API (");
    about.append(version);
    about.append(")");
    let groups = group_by_tag(ops);
    let ghost gv = groups_view(groups@);
    if groups.len() == 1 {
        let root_ops = groups[0].1.clone();
        proof {
            assert(gv[0].1 == groups@[0].1@.map_values(|i: usize| i as int));
        }
        return RootLayout { about, root_ops, groups: Vec::new() };
    }
    proof {
        lemma_groups_in_range(ops@);
    }
    let mut root_ops: Vec<usize> = Vec::new();
    let mut names: Vec<String> = Vec::new();
    let mut gi: usize = 0;
    while gi < groups.len()
        invariant
            gi <= groups.len() == gv.len(),
            gv == groups_view(groups@),
            gv == groups_of(ops@),
            forall|a: int, b: int| 0 <= a < gv.len() && 0 <= b < gv[a].1.len() ==> 0 <= #[trigger] gv[a].1[b] < ops@.len(),
            names@.len() == root_ops@.len(),
            forall|m: int| 0 <= m < root_ops@.len() ==> (#[trigger] root_ops@[m] as int) < ops@.len()
                && names@[m]@ == display_name(ops@[root_ops@[m] as int]),
            root_ops@.map_values(|i: usize| i as int) == first_by_name(ops@, grouped_ops(gv.subrange(0, gi as int))),
        decreases groups.len() - gi,
    {
        let members = &groups[gi].1;
        let ghost before = grouped_ops(gv.subrange(0, gi as int));
        proof {
            assert(gv.subrange(0, gi + 1).drop_last() =~= gv.subrange(0, gi as int));
            assert(gv[gi as int].1 == members@.map_values(|i: usize| i as int));
            assert forall|b: int| 0 <= b < members@.len() implies (#[trigger] members@[b] as int) < ops@.len() by {
                assert(gv[gi as int].1[b] == members@[b] as int);
            }
        }
        let mut k: usize = 0;
        while k < members.len()
            invariant
                k <= members.len(),
                gi < gv.len(),
                gv[gi as int].1 == members@.map_values(|i: usize| i as int),
                forall|b: int| 0 <= b < members@.len() ==> (#[trigger] members@[b] as int) < ops@.len(),
                names@.len() == root_ops@.len(),
                forall|m: int| 0 <= m < root_ops@.len() ==> (#[trigger] root_ops@[m] as int) < ops@.len()
                    && names@[m]@ == display_name(ops@[root_ops@[m] as int]),
                root_ops@.map_values(|i: usize| i as int) == first_by_name(ops@, before + gv[gi as int].1.subrange(0, k as int)),
            decreases members.len() - k,
        {
            proof {
                assert(gv[gi as int].1[k as int] == members@[k as int] as int);
            }
            let i = members[k];
            let name = display_name_exec(&ops[i]);
            let ghost prev = root_ops@.map_values(|x: usize| x as int);
            let ghost idx = before + gv[gi as int].1.subrange(0, k + 1);
            proof {
                assert(idx.drop_last() =~= before + gv[gi as int].1.subrange(0, k as int));
                assert(idx.last() == i as int);
            }
            let taken = names_have(&names, name.as_str());
            proof {
                if taken {
                    let j = choose|j: int| 0 <= j < names@.len() && #[trigger] names@[j]@ == name@;
                    assert(prev[j] == root_ops@[j] as int);
                    assert(name_taken(ops@, prev, display_name(ops@[i as int])));
                } else {
                    assert forall|j: int| 0 <= j < prev.len() implies display_name(ops@[#[trigger] prev[j]]) != display_name(ops@[i as int]) by {
                        assert(prev[j] == root_ops@[j] as int);
                        assert(names@[j]@ != name@);
                    }
                }
            }
            if !taken {
                root_ops.push(i);
                names.push(name.clone());
                proof {
                    assert(root_ops@.map_values(|x: usize| x as int) =~= prev.push(i as int));
                }
            }
            k = k + 1;
        }
        proof {
            assert(gv[gi as int].1.subrange(0, members@.len() as int) =~= gv[gi as int].1);
            assert(grouped_ops(gv.subrange(0, gi + 1)) == before + gv[gi as int].1);
        }
        gi = gi + 1;
    }
    proof {
        assert(gv.subrange(0, gv.len() as int) =~= gv);
    }
    RootLayout { about, root_ops, groups }
}

/// Every operation position in a group is in range.
pub proof fn lemma_groups_in_range(ops: Seq<LightOp>)
    ensures
        forall|a: int, b: int| 0 <= a < groups_of(ops).len() && 0 <= b < groups_of(ops)[a].1.len()
            ==> 0 <= #[trigger] groups_of(ops)[a].1[b] < ops.len(),
    decreases ops.len(),
{
    if ops.len() > 0 {
        lemma_groups_in_range(ops.drop_last());
        let g = groups_of(ops.drop_last());
        if !ops.last().hidden {
            lemma_group_pos(g, group_key(ops.last()));
        }
    }
}


/// Whether `name` is among `names`.
pub open spec fn has_name(names: Seq<String>, name: Seq<char>) -> bool {
    exists|i: int| 0 <= i < names.len() && names[i]@ == name
}

/// The API whose help is asked for by `spall <api> --help` (or `-h`), when
/// `<api>` is registered; the program name comes first in `args`.
pub open spec fn api_help_of(api_names: Seq<String>, args: Seq<String>) -> Option<Seq<char>> {
    if args.len() >= 3 && (args[2]@ == "--help"@ || args[2]@ == "-h"@) && has_name(api_names, args[1]@) {
        Some(args[1]@)
    } else {
        None
    }
}

/// The API whose help is asked for (see `api_help_of`).
pub fn detect_api_help(api_names: &Vec<String>, args: &Vec<String>) -> (r: Option<String>)
    ensures
        match r {
            Some(a) => api_help_of(api_names@, args@) == Some(a@),
            None => api_help_of(api_names@, args@) is None,
        },
{
    if args.len() < 3 {
        return None;
    }
    let next = args[2].as_str();
    if !(crate::json::str_eq(next, "--help") || crate::json::str_eq(next, "-h")) {
        return None;
    }
    let mut i: usize = 0;
    while i < api_names.len()
        invariant
            i <= api_names.len(),
            args.len() >= 3,
            args@[2]@ == "--help"@ || args@[2]@ == "-h"@,
            forall|j: int| 0 <= j < i ==> api_names@[j]@ != args@[1]@,
        decreases api_names.len() - i,
    {
        if crate::json::str_eq(api_names[i].as_str(), args[1].as_str()) {
            return Some(args[1].clone());
        }
        i = i + 1;
    }
    None
}

/// The operation a parsed command line names: the first word is an
/// operation id, or else a tag whose subcommand (the second word) must be
/// one; the first operation with that id is taken.
pub open spec fn invoked_operation_of(ops: Seq<crate::ir::OperationInfo>, first: Seq<char>, second: Option<Seq<char>>) -> Result<int, Seq<char>> {
    match crate::arazzo::runner::op_index(ops, first) {
        Some(k) => Ok(k),
        None => match second {
            None => Err("No operation specified. Use --help to list operations."@),
            Some(n) => match crate::arazzo::runner::op_index(ops, n) {
                Some(k) => Ok(k),
                None => Err("Unknown operation: "@ + n),
            },
        },
    }
}

/// The operation a parsed command line names (see `invoked_operation_of`);
/// the error is a usage error.
pub fn invoked_operation(ops: &Vec<crate::ir::OperationInfo>, first: &str, second: Option<&str>) -> (r: Result<usize, crate::error::SpallCliError>)
    ensures
        match (r, invoked_operation_of(ops@, first@, match second { Some(n) => Some(n@), None => None })) {
            (Ok(k), Ok(j)) => k as int == j && k < ops.len(),
            (Err(crate::error::SpallCliError::Usage(e)), Err(f)) => e@ == f,
            _ => false,
        },
{
    if let Some(k) = crate::arazzo::runner::op_index_exec(ops, first) {
        return Ok(k);
    }
    match second {
        None => Err(crate::error::SpallCliError::Usage("No operation specified. Use --help to list operations.".to_owned())),
        Some(n) => match crate::arazzo::runner::op_index_exec(ops, n) {
            Some(k) => Ok(k),
            None => {
                let mut m = "Unknown operation: ".to_owned();
                m.append(n);
                Err(crate::error::SpallCliError::Usage(m))
            },
        },
    }
}

} // verus!
