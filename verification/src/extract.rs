//! The symbol extractor: walks the classified nodes of a file's tree
//! in source order and produces the file's workspace, classifying
//! every interesting identifier as a definition or as a reference
//! with a best-effort target.
//!
//! Throughout extraction the state keeps three soundness properties
//! of every reference with a variable target: the variable is defined
//! at or before the reference, a binding invalidated by `clear` is
//! only referenced before the clearing row, and a reference never
//! resolves into a sibling soft-scope branch nor into the left-hand
//! side of its own assignment.

use vstd::prelude::*;

use crate::ident::str_eq;
use crate::ident::str_eq_ignore_case;
use crate::scan::pkg_basename;
use vstd::string::StrSliceExecFns;
use crate::range::point_le;
use crate::range::Range;
use crate::store::ParsedFile;
use crate::store::Store;
use crate::symbols::Workspace;
use crate::symbols::fd_eq;
use crate::range::Point;
use crate::symbols::FunMap;
use crate::symbols::FunctionDefinition;
use crate::symbols::Reference;
use crate::symbols::ReferenceTarget;
use crate::symbols::VariableDefinition;
use crate::tree::anc_of_kind;
use crate::tree::first_child_from;
use crate::tree::first_child_of_kind;
use crate::tree::first_child_with_field;
use crate::tree::is_child;
use crate::tree::is_scope_kind;
use crate::tree::spec_parent_function;
use crate::tree::spec_soft_scope_parent;
use crate::tree::Field;
use crate::tree::NodeKind;
use crate::tree::SyntaxNode;
use crate::tree::SyntaxTree;

verus! {

/// The classification of a node that the extractor acts on.
#[derive(Clone, Copy, Debug, PartialEq, Eq, Structural)]
pub enum CaptureKind {
    /// A function definition or lambda: opens a scope.
    FnDef,
    /// An identifier in a definition-introducing position.
    VarDef,
    /// The bare name of a command-form statement.
    Command,
    /// A function-call node.
    FnCall,
    /// A bare identifier read.
    IdentifierRef,
    /// A field expression `object.field...`.
    FieldExpr,
}

/// One node the extractor acts on.
#[derive(Clone, Copy, Debug, PartialEq, Eq, Structural)]
pub struct Capture {
    pub kind: CaptureKind,
    pub node: usize,
}

/// Whether the identifier at `i` stands in a position that
/// introduces a binding: the left of an assignment, a multi-output
/// list, a function output or argument list, a `global` operand, a
/// loop iterator, a lambda parameter, or the name of an indexed
/// assignment target.
pub open spec fn is_vardef_position(ns: Seq<SyntaxNode>, i: int) -> bool {
    match ns[i].parent {
        Option::None => false,
        Option::Some(p) => {
            let pk = ns[p as int].kind;
            ||| (pk == NodeKind::Assignment && ns[i].field == Field::FieldLeft)
            ||| pk == NodeKind::MultioutputVariable
            ||| pk == NodeKind::FunctionOutput
            ||| pk == NodeKind::FunctionArguments
            ||| pk == NodeKind::GlobalOperator
            ||| (pk == NodeKind::LoopIterator && first_child_from_is(ns, p as int, i))
            ||| (pk == NodeKind::Arguments && parent_kind_is(ns, p as int, NodeKind::Lambda))
            ||| (pk == NodeKind::FunctionCall && ns[i].field == Field::FieldName && ns[p as int].field
                == Field::FieldLeft && parent_kind_is(ns, p as int, NodeKind::Assignment))
        },
    }
}

/// Whether `i` is the first child of `p`.
pub open spec fn first_child_from_is(ns: Seq<SyntaxNode>, p: int, i: int) -> bool {
    crate::tree::first_child_from(ns, p, 0) == Some(i as usize)
}

/// Whether the parent of `p` exists and has kind `k`.
pub open spec fn parent_kind_is(ns: Seq<SyntaxNode>, p: int, k: NodeKind) -> bool {
    match ns[p].parent {
        Option::None => false,
        Option::Some(q) => (q as int) < ns.len() && ns[q as int].kind == k,
    }
}

/// How the extractor classifies the node at `i`, if at all.
pub open spec fn capture_of(ns: Seq<SyntaxNode>, i: int) -> Option<CaptureKind> {
    let k = ns[i].kind;
    if is_scope_kind(k) {
        Some(CaptureKind::FnDef)
    } else if k == NodeKind::FunctionCall {
        Some(CaptureKind::FnCall)
    } else if k == NodeKind::FieldExpression {
        Some(CaptureKind::FieldExpr)
    } else if k == NodeKind::CommandName {
        Some(CaptureKind::Command)
    } else if k == NodeKind::Identifier {
        if is_vardef_position(ns, i) {
            Some(CaptureKind::VarDef)
        } else {
            Some(CaptureKind::IdentifierRef)
        }
    } else {
        None
    }
}

/// The captures among the first `n` nodes, in node order.
pub open spec fn caps_upto(ns: Seq<SyntaxNode>, n: int) -> Seq<Capture>
    decreases n,
{
    if n <= 0 {
        Seq::empty()
    } else {
        caps_upto(ns, n - 1) + match capture_of(ns, n - 1) {
            Some(k) => seq![Capture { kind: k, node: (n - 1) as usize }],
            None => Seq::empty(),
        }
    }
}

/// Every capture node is in range, carries its classification, and
/// the node indices strictly increase.
pub proof fn lemma_caps_upto(ns: Seq<SyntaxNode>, n: int)
    requires
        n <= ns.len(),
        ns.len() <= usize::MAX,
    ensures
        forall|k: int|
            0 <= k < caps_upto(ns, n).len() ==> (#[trigger] caps_upto(ns, n)[k]).node < n
                && capture_of(ns, (caps_upto(ns, n)[k]).node as int) == Some(
                caps_upto(ns, n)[k].kind,
            ),
        forall|k1: int, k2: int|
            0 <= k1 < k2 < caps_upto(ns, n).len() ==> (#[trigger] caps_upto(ns, n)[k1]).node < (
            #[trigger] caps_upto(ns, n)[k2]).node,
    decreases n,
{
    if n > 0 {
        lemma_caps_upto(ns, n - 1);
        let pre = caps_upto(ns, n - 1);
        let cur = caps_upto(ns, n);
        match capture_of(ns, n - 1) {
            Some(kk) => {
                assert(cur =~= pre.push(Capture { kind: kk, node: (n - 1) as usize }));
            },
            None => {
                assert(cur =~= pre);
            },
        }
        assert forall|k: int| 0 <= k < cur.len() implies (#[trigger] cur[k]).node < n
            && capture_of(ns, (cur[k]).node as int) == Some(cur[k].kind) by {
            if k < pre.len() {
                assert(cur[k] == pre[k]);
            }
        }
        assert forall|k1: int, k2: int| 0 <= k1 < k2 < cur.len() implies (
        #[trigger] cur[k1]).node < (#[trigger] cur[k2]).node by {
            if k2 < pre.len() {
                assert(cur[k1] == pre[k1] && cur[k2] == pre[k2]);
            } else {
                assert(cur[k1] == pre[k1]);
            }
        }
    }
}

/// Classifies every node of the tree, in source order.
pub fn collect_captures(tree: &SyntaxTree) -> (r: Vec<Capture>)
    requires
        tree.wf(),
    ensures
        r@ == caps_upto(tree.nodes@, tree.nodes@.len() as int),
{
    let ghost ns = tree.nodes@;
    let n = tree.nodes.len();
    let mut r: Vec<Capture> = Vec::new();
    let mut i: usize = 0;
    while i < n
        invariant
            tree.wf(),
            ns == tree.nodes@,
            n == ns.len(),
            i <= n,
            r@ == caps_upto(ns, i as int),
        decreases n - i,
    {
        let k = tree.nodes[i].kind;
        let cap: Option<CaptureKind> = if k == NodeKind::FunctionDefinition || k
            == NodeKind::Lambda {
            Some(CaptureKind::FnDef)
        } else if k == NodeKind::FunctionCall {
            Some(CaptureKind::FnCall)
        } else if k == NodeKind::FieldExpression {
            Some(CaptureKind::FieldExpr)
        } else if k == NodeKind::CommandName {
            Some(CaptureKind::Command)
        } else if k == NodeKind::Identifier {
            if is_vardef_position_exec(tree, i) {
                Some(CaptureKind::VarDef)
            } else {
                Some(CaptureKind::IdentifierRef)
            }
        } else {
            None
        };
        proof {
            assert(cap == capture_of(ns, i as int));
        }
        match cap {
            Some(ck) => {
                r.push(Capture { kind: ck, node: i });
                proof {
                    assert(r@ =~= caps_upto(ns, (i + 1) as int));
                }
            },
            None => {
                proof {
                    assert(r@ =~= caps_upto(ns, (i + 1) as int));
                }
            },
        }
        i = i + 1;
    }
    r
}

/// Decides `is_vardef_position`.
fn is_vardef_position_exec(tree: &SyntaxTree, i: usize) -> (r: bool)
    requires
        tree.wf(),
        i < tree.nodes@.len(),
    ensures
        r == is_vardef_position(tree.nodes@, i as int),
{
    let ghost ns = tree.nodes@;
    match tree.nodes[i].parent {
        Option::None => false,
        Option::Some(p) => {
            let pk = tree.nodes[p].kind;
            let fi = tree.nodes[i].field;
            if pk == NodeKind::Assignment && fi == Field::FieldLeft {
                true
            } else if pk == NodeKind::MultioutputVariable || pk == NodeKind::FunctionOutput || pk
                == NodeKind::FunctionArguments || pk == NodeKind::GlobalOperator {
                true
            } else if pk == NodeKind::LoopIterator {
                tree.first_child(p) == Some(i)
            } else if pk == NodeKind::Arguments {
                match tree.nodes[p].parent {
                    Option::Some(q) => tree.nodes[q].kind == NodeKind::Lambda,
                    Option::None => false,
                }
            } else if pk == NodeKind::FunctionCall && fi == Field::FieldName && tree.nodes[p].field
                == Field::FieldLeft {
                match tree.nodes[p].parent {
                    Option::Some(q) => tree.nodes[q].kind == NodeKind::Assignment,
                    Option::None => false,
                }
            } else {
                false
            }
        },
    }
}

/// Whether the reference site `nref` may resolve to a binding at
/// `ndef` under the soft-scope discipline: climbing the soft-scope
/// statements enclosing `cur`, no statement that contains both
/// positions has a branch holding the binding but not the reference.
pub open spec fn spec_in_soft_scope(ns: Seq<SyntaxNode>, nref: int, cur: int, ndef: int) -> bool
    decreases cur,
{
    match spec_soft_scope_parent(ns, cur) {
        Option::None => true,
        Option::Some(p) => {
            if soft_scope_blocks(ns, p as int, nref, ndef) {
                false
            } else if (p as int) < cur {
                spec_in_soft_scope(ns, nref, p as int, ndef)
            } else {
                true
            }
        },
    }
}

/// Whether the soft-scope statement `p` separates `ndef` from
/// `nref`: it covers both positions, and one of its branches covers
/// the binding but not the reference.
pub open spec fn soft_scope_blocks(ns: Seq<SyntaxNode>, p: int, nref: int, ndef: int) -> bool {
    &&& ns[p].range.spec_covers(ns[nref].range.start)
    &&& ns[p].range.spec_covers(ns[ndef].range.start)
    &&& exists|c: int|
        is_child(ns, c, p) && crate::tree::is_branch_kind((#[trigger] ns[c]).kind)
            && ns[c].range.spec_covers(ns[ndef].range.start) && !ns[c].range.spec_covers(
            ns[nref].range.start,
        )
}

/// Decides `soft_scope_blocks`.
fn soft_scope_blocks_exec(tree: &SyntaxTree, p: usize, nref: usize, ndef: usize) -> (r: bool)
    requires
        tree.wf(),
        p < tree.nodes@.len(),
        nref < tree.nodes@.len(),
        ndef < tree.nodes@.len(),
    ensures
        r == soft_scope_blocks(tree.nodes@, p as int, nref as int, ndef as int),
{
    let ghost ns = tree.nodes@;
    let pref = tree.nodes[nref].range.start;
    let pdef = tree.nodes[ndef].range.start;
    if !tree.nodes[p].range.covers(pref) || !tree.nodes[p].range.covers(pdef) {
        return false;
    }
    let n = tree.nodes.len();
    let mut c: usize = 0;
    while c < n
        invariant
            ns == tree.nodes@,
            n == ns.len(),
            c <= n,
            p < n,
            nref < n,
            ndef < n,
            pref == ns[nref as int].range.start,
            pdef == ns[ndef as int].range.start,
            ns[p as int].range.spec_covers(pref),
            ns[p as int].range.spec_covers(pdef),
            forall|c2: int|
                0 <= c2 < c && is_child(ns, c2, p as int) && crate::tree::is_branch_kind(
                    ns[c2].kind,
                ) ==> !((#[trigger] ns[c2].range).spec_covers(ns[ndef as int].range.start) && !ns[
                    c2
                ].range.spec_covers(ns[nref as int].range.start)),
        decreases n - c,
    {
        if let Option::Some(cp) = tree.nodes[c].parent {
            if cp == p {
                let bk = tree.nodes[c].kind;
                let is_branch = bk == NodeKind::Block || bk == NodeKind::ElseClause || bk
                    == NodeKind::ElseifClause || bk == NodeKind::CaseClause || bk
                    == NodeKind::OtherwiseClause || bk == NodeKind::CatchClause;
                if is_branch && tree.nodes[c].range.covers(pdef) && !tree.nodes[c].range.covers(
                    pref,
                ) {
                    proof {
                        assert(is_child(ns, c as int, p as int) && crate::tree::is_branch_kind(
                            ns[c as int].kind,
                        ) && ns[c as int].range.spec_covers(ns[ndef as int].range.start) && !ns[
                            c as int
                        ].range.spec_covers(ns[nref as int].range.start));
                    }
                    return true;
                }
            }
        }
        c = c + 1;
    }
    false
}

/// Decides `spec_in_soft_scope` from the reference site itself.
pub fn is_in_soft_scope(tree: &SyntaxTree, nref: usize, ndef: usize) -> (r: bool)
    requires
        tree.wf(),
        nref < tree.nodes@.len(),
        ndef < tree.nodes@.len(),
    ensures
        r == spec_in_soft_scope(tree.nodes@, nref as int, nref as int, ndef as int),
{
    let ghost ns = tree.nodes@;
    let mut cur: usize = nref;
    loop
        invariant
            tree.wf(),
            ns == tree.nodes@,
            cur < ns.len(),
            nref < ns.len(),
            ndef < ns.len(),
            spec_in_soft_scope(ns, nref as int, nref as int, ndef as int) == spec_in_soft_scope(
                ns,
                nref as int,
                cur as int,
                ndef as int,
            ),
        decreases cur,
    {
        match tree.soft_scope_parent(cur) {
            Option::None => {
                return true;
            },
            Option::Some(p) => {
                if soft_scope_blocks_exec(tree, p, nref, ndef) {
                    return false;
                }
                cur = p;
            },
        }
    }
}

/// A function or lambda scope discovered in the tree.
#[derive(Clone, Copy, Debug, PartialEq, Eq, Structural)]
pub struct Scope {
    /// The scope's defining node.
    pub node: usize,
    /// Whether the scope is a lambda, which captures enclosing
    /// locals.
    pub is_lambda: bool,
}

/// The extractor's working state: an arena of variables with their
/// owning scope, the references found so far, the scopes, and the
/// function maps of the file and of each scope.
pub struct ExtractState {
    pub vars: Vec<VariableDefinition>,
    /// For each variable, the position of its owning scope in
    /// `scopes`, or nothing for the file scope.
    pub var_owner: Vec<Option<usize>>,
    pub refs: Vec<Reference>,
    pub scopes: Vec<Scope>,
    /// Functions of nested scopes: (scope position, name,
    /// definition), in insertion order.
    pub scope_funs: Vec<(usize, String, FunctionDefinition)>,
    /// Functions of the file scope.
    pub file_funs: FunMap,
}

/// The left-hand side of the assignment enclosing `n`, if any.
pub open spec fn assign_lhs(ns: Seq<SyntaxNode>, n: int) -> Option<usize> {
    match anc_of_kind(ns, n, NodeKind::Assignment) {
        Some(a) => first_child_with_field(ns, a as int, Field::FieldLeft, 0),
        None => None,
    }
}

/// A reference at `n` may not target a binding that lies inside the
/// left-hand side of the assignment enclosing `n`.
pub open spec fn p2_ok(ns: Seq<SyntaxNode>, n: int, v: VariableDefinition) -> bool {
    match assign_lhs(ns, n) {
        Some(l) => !ns[l as int].range.spec_fully_contains(v.loc),
        None => true,
    }
}

/// Soundness of one reference: when it targets a variable, the
/// variable is defined at or before it, was not cleared before its
/// row, does not sit in the left-hand side of the reference's own
/// assignment, and shares its soft scope.
pub open spec fn var_ref_sound(
    ns: Seq<SyntaxNode>,
    vars: Seq<VariableDefinition>,
    r: Reference,
) -> bool {
    match r.target {
        ReferenceTarget::Variable(vi) => {
            &&& (vi as int) < vars.len()
            &&& point_le(vars[vi as int].loc.start, r.loc.start)
            &&& (vars[vi as int].cleared == 0 || vars[vi as int].cleared >= r.loc.start.row)
            &&& p2_ok(ns, r.node as int, vars[vi as int])
            &&& spec_in_soft_scope(ns, r.node as int, r.node as int, vars[vi as int].node as int)
        },
        _ => true,
    }
}

/// A variable of the arena is tied to its defining node, which lies
/// at or before the extraction bound.
pub open spec fn var_ok(ns: Seq<SyntaxNode>, v: VariableDefinition, bound: Point) -> bool {
    &&& (v.node as int) < ns.len()
    &&& v.loc == ns[v.node as int].range
    &&& point_le(v.loc.start, bound)
}

/// A reference is tied to its node, which lies at or before the
/// extraction bound.
pub open spec fn ref_ok(ns: Seq<SyntaxNode>, r: Reference, bound: Point) -> bool {
    &&& (r.node as int) < ns.len()
    &&& r.loc == ns[r.node as int].range
    &&& point_le(r.loc.start, bound)
}

/// Structural well-formedness of the extraction state.
pub open spec fn state_wf(ns: Seq<SyntaxNode>, st: ExtractState) -> bool {
    &&& st.vars@.len() == st.var_owner@.len()
    &&& (forall|i: int|
        0 <= i < st.vars@.len() ==> ((#[trigger] st.vars@[i]).node as int) < ns.len())
    &&& (forall|i: int|
        0 <= i < st.var_owner@.len() ==> match #[trigger] st.var_owner@[i] {
            Option::Some(s) => (s as int) < st.scopes@.len(),
            Option::None => true,
        })
    &&& (forall|i: int|
        0 <= i < st.scopes@.len() ==> ((#[trigger] st.scopes@[i]).node as int) < ns.len())
    &&& (forall|i: int|
        0 <= i < st.scope_funs@.len() ==> ((#[trigger] st.scope_funs@[i]).0 as int)
            < st.scopes@.len())
    &&& st.file_funs.wf()
}

/// The full extraction invariant at bound `bound`: structure, node
/// ties, and soundness of every reference.
pub open spec fn state_inv(ns: Seq<SyntaxNode>, st: ExtractState, bound: Point) -> bool {
    &&& state_wf(ns, st)
    &&& (forall|i: int| 0 <= i < st.vars@.len() ==> var_ok(ns, #[trigger] st.vars@[i], bound))
    &&& (forall|i: int| 0 <= i < st.refs@.len() ==> ref_ok(ns, #[trigger] st.refs@[i], bound))
    &&& (forall|i: int|
        0 <= i < st.refs@.len() ==> var_ref_sound(ns, st.vars@, #[trigger] st.refs@[i]))
}

/// The invariant is monotone in the bound.
pub proof fn lemma_state_inv_mono(
    ns: Seq<SyntaxNode>,
    st: ExtractState,
    b1: Point,
    b2: Point,
)
    requires
        state_inv(ns, st, b1),
        point_le(b1, b2),
    ensures
        state_inv(ns, st, b2),
{
    assert forall|i: int| 0 <= i < st.vars@.len() implies var_ok(
        ns,
        #[trigger] st.vars@[i],
        b2,
    ) by {
        assert(var_ok(ns, st.vars@[i], b1));
    }
    assert forall|i: int| 0 <= i < st.refs@.len() implies ref_ok(
        ns,
        #[trigger] st.refs@[i],
        b2,
    ) by {
        assert(ref_ok(ns, st.refs@[i], b1));
    }
}

/// Whether the variable `vi` can answer a lookup of `name` at
/// `node`: live, same name, outside the assignment's left-hand side,
/// and in the same soft scope.
pub open spec fn acceptable(
    ns: Seq<SyntaxNode>,
    vars: Seq<VariableDefinition>,
    name: Seq<char>,
    node: int,
    vi: int,
) -> bool {
    &&& vars[vi].cleared == 0
    &&& vars[vi].name@ == name
    &&& p2_ok(ns, node, vars[vi])
    &&& spec_in_soft_scope(ns, node, node, vars[vi].node as int)
}

/// Decides `acceptable`.
fn acceptable_exec(
    tree: &SyntaxTree,
    vars: &Vec<VariableDefinition>,
    name: &str,
    node: usize,
    vi: usize,
) -> (r: bool)
    requires
        tree.wf(),
        node < tree.nodes@.len(),
        vi < vars@.len(),
        (vars@[vi as int].node as int) < tree.nodes@.len(),
    ensures
        r == acceptable(tree.nodes@, vars@, name@, node as int, vi as int),
{
    if vars[vi].cleared != 0 {
        return false;
    }
    if !str_eq(vars[vi].name.as_str(), name) {
        return false;
    }
    match tree.parent_of_kind(NodeKind::Assignment, node) {
        Option::Some(a) => {
            match tree.child_by_field(a, Field::FieldLeft) {
                Option::Some(l) => {
                    if tree.nodes[l].range.fully_contains(vars[vi].loc) {
                        return false;
                    }
                },
                Option::None => {},
            }
        },
        Option::None => {},
    }
    is_in_soft_scope(tree, node, vars[vi].node)
}

/// The indices below `from` owned by `o`, from the most recent down.
pub open spec fn owned_rev(owner: Seq<Option<usize>>, o: Option<usize>, from: int) -> Seq<usize>
    decreases from,
{
    if from <= 0 {
        Seq::empty()
    } else if owner[from - 1] == o {
        seq![(from - 1) as usize] + owned_rev(owner, o, from - 1)
    } else {
        owned_rev(owner, o, from - 1)
    }
}

/// Whether the file scope takes part in a lookup: the scope stack is
/// empty, or holds lambdas only.
pub open spec fn spec_use_file(st: ExtractState, scopes: Seq<usize>) -> bool {
    scopes.len() == 0 || (forall|i: int|
        0 <= i < scopes.len() ==> ((#[trigger] scopes[i]) as int) < st.scopes@.len()
            && st.scopes@[scopes[i] as int].is_lambda)
}

/// The lookup order from the `i`-th scope on: each scope's variables
/// most recent first, innermost scope first, the file scope last.
pub open spec fn search_suffix(
    st: ExtractState,
    scopes: Seq<usize>,
    use_file: bool,
    i: int,
) -> Seq<usize>
    decreases scopes.len() - i,
{
    if i < 0 || i >= scopes.len() {
        if use_file {
            owned_rev(st.var_owner@, None, st.var_owner@.len() as int)
        } else {
            Seq::empty()
        }
    } else {
        owned_rev(st.var_owner@, Some(scopes[i]), st.var_owner@.len() as int) + search_suffix(
            st,
            scopes,
            use_file,
            i + 1,
        )
    }
}

/// The whole lookup order for a scope stack.
pub open spec fn search_order(st: ExtractState, scopes: Seq<usize>) -> Seq<usize> {
    search_suffix(st, scopes, spec_use_file(st, scopes), 0)
}

/// The first index in `order` from `k` on that is an acceptable
/// answer.
pub open spec fn first_acceptable(
    ns: Seq<SyntaxNode>,
    vars: Seq<VariableDefinition>,
    name: Seq<char>,
    node: int,
    order: Seq<usize>,
    k: int,
) -> Option<usize>
    decreases order.len() - k,
{
    if k < 0 || k >= order.len() {
        None
    } else if (order[k] as int) < vars.len() && acceptable(ns, vars, name, node, order[k] as int) {
        Some(order[k])
    } else {
        first_acceptable(ns, vars, name, node, order, k + 1)
    }
}

/// Builds the lookup order for a scope stack: each scope's variables
/// most recent first, innermost scope first, the file scope when the
/// stack is empty or all lambdas.
fn build_search_order(st: &ExtractState, scopes: &Vec<usize>) -> (r: Vec<usize>)
    requires
        forall|i: int| 0 <= i < scopes@.len() ==> ((#[trigger] scopes@[i]) as int) < st.scopes@.len(),
    ensures
        r@ == search_order(*st, scopes@),
{
    let ghost owner = st.var_owner@;
    let n = st.var_owner.len();
    // whether the file scope takes part
    let mut use_file = true;
    let ns_len = scopes.len();
    let mut i: usize = 0;
    while i < ns_len
        invariant
            ns_len == scopes@.len(),
            i <= ns_len,
            forall|j: int|
                0 <= j < scopes@.len() ==> ((#[trigger] scopes@[j]) as int) < st.scopes@.len(),
            use_file == (forall|j: int|
                0 <= j < i ==> st.scopes@[#[trigger] scopes@[j] as int].is_lambda),
        decreases ns_len - i,
    {
        if !st.scopes[scopes[i]].is_lambda {
            use_file = false;
            proof {
                assert(!st.scopes@[scopes@[i as int] as int].is_lambda);
            }
        }
        i = i + 1;
    }
    proof {
        assert(use_file == spec_use_file(*st, scopes@));
    }
    let ghost uf = spec_use_file(*st, scopes@);
    let mut order: Vec<usize> = Vec::new();
    let mut i2: usize = 0;
    while i2 < ns_len
        invariant
            ns_len == scopes@.len(),
            i2 <= ns_len,
            n == owner.len(),
            owner == st.var_owner@,
            uf == spec_use_file(*st, scopes@),
            use_file == uf,
            forall|j: int|
                0 <= j < scopes@.len() ==> ((#[trigger] scopes@[j]) as int) < st.scopes@.len(),
            search_suffix(*st, scopes@, uf, 0) =~= order@ + search_suffix(
                *st,
                scopes@,
                uf,
                i2 as int,
            ),
        decreases ns_len - i2,
    {
        let ghost base = order@;
        let o = Some(scopes[i2]);
        let mut j: usize = n;
        while j > 0
            invariant
                n == owner.len(),
                owner == st.var_owner@,
                j <= n,
                base + owned_rev(owner, o, n as int) =~= order@ + owned_rev(owner, o, j as int),
            decreases j,
        {
            j = j - 1;
            if st.var_owner[j] == o {
                order.push(j);
                proof {
                    assert(owned_rev(owner, o, (j + 1) as int) =~= seq![j] + owned_rev(
                        owner,
                        o,
                        j as int,
                    ));
                    assert(base + owned_rev(owner, o, n as int) =~= order@ + owned_rev(
                        owner,
                        o,
                        j as int,
                    ));
                }
            } else {
                proof {
                    assert(owned_rev(owner, o, (j + 1) as int) =~= owned_rev(owner, o, j as int));
                }
            }
        }
        proof {
            assert(owned_rev(owner, o, 0) =~= Seq::<usize>::empty());
            assert(order@ =~= base + owned_rev(owner, o, n as int));
            assert(search_suffix(*st, scopes@, uf, i2 as int) == owned_rev(owner, o, n as int)
                + search_suffix(*st, scopes@, uf, (i2 + 1) as int));
            assert(search_suffix(*st, scopes@, uf, 0) =~= order@ + search_suffix(
                *st,
                scopes@,
                uf,
                (i2 + 1) as int,
            ));
        }
        i2 = i2 + 1;
    }
    if use_file {
        let ghost base = order@;
        let ghost o: Option<usize> = None;
        let mut j: usize = n;
        while j > 0
            invariant
                n == owner.len(),
                owner == st.var_owner@,
                j <= n,
                base + owned_rev(owner, o, n as int) =~= order@ + owned_rev(owner, o, j as int),
                o is None,
            decreases j,
        {
            j = j - 1;
            let ow = st.var_owner[j];
            if ow.is_none() {
                order.push(j);
                proof {
                    assert(owner[j as int] == o);
                    assert(owned_rev(owner, o, (j + 1) as int) =~= seq![j] + owned_rev(
                        owner,
                        o,
                        j as int,
                    ));
                    assert(base + owned_rev(owner, o, n as int) =~= order@ + owned_rev(
                        owner,
                        o,
                        j as int,
                    ));
                }
            } else {
                proof {
                    assert(owner[j as int] != o);
                    assert(owned_rev(owner, o, (j + 1) as int) =~= owned_rev(owner, o, j as int));
                }
            }
        }
        proof {
            assert(owned_rev(owner, o, 0) =~= Seq::<usize>::empty());
            assert(order@ =~= base + owned_rev(owner, o, n as int));
            assert(search_suffix(*st, scopes@, uf, ns_len as int) == owned_rev(
                owner,
                o,
                n as int,
            ));
            assert(order@ =~= search_suffix(*st, scopes@, uf, 0));
        }
    } else {
        proof {
            assert(search_suffix(*st, scopes@, uf, ns_len as int) =~= Seq::<usize>::empty());
            assert(order@ =~= search_suffix(*st, scopes@, uf, 0));
        }
    }
    order
}

/// Looks up the variable a read of `name` at `node` resolves to:
/// the first acceptable binding, searching the scopes innermost
/// first and each scope's bindings most recent first; the file scope
/// takes part only when the stack is empty or all lambdas.
pub fn ref_to_var(
    tree: &SyntaxTree,
    st: &ExtractState,
    name: &str,
    scopes: &Vec<usize>,
    node: usize,
) -> (r: Option<usize>)
    requires
        tree.wf(),
        node < tree.nodes@.len(),
        state_wf(tree.nodes@, *st),
        forall|i: int| 0 <= i < scopes@.len() ==> ((#[trigger] scopes@[i]) as int) < st.scopes@.len(),
    ensures
        r == first_acceptable(
            tree.nodes@,
            st.vars@,
            name@,
            node as int,
            search_order(*st, scopes@),
            0,
        ),
        r matches Some(vi) ==> (vi as int) < st.vars@.len() && acceptable(
            tree.nodes@,
            st.vars@,
            name@,
            node as int,
            vi as int,
        ),
{
    let ghost ns = tree.nodes@;
    let order = build_search_order(st, scopes);
    let ghost ord = order@;
    let m = order.len();
    let mut k: usize = 0;
    let nvars = st.vars.len();
    while k < m
        invariant
            tree.wf(),
            ns == tree.nodes@,
            node < ns.len(),
            state_wf(ns, *st),
            nvars == st.vars@.len(),
            ord == order@,
            ord == search_order(*st, scopes@),
            m == ord.len(),
            k <= m,
            first_acceptable(ns, st.vars@, name@, node as int, ord, 0) == first_acceptable(
                ns,
                st.vars@,
                name@,
                node as int,
                ord,
                k as int,
            ),
        decreases m - k,
    {
        let vi = order[k];
        if vi < nvars {
            if acceptable_exec(tree, &st.vars, name, node, vi) {
                proof {
                    assert((ord[k as int] as int) < st.vars@.len() && acceptable(
                        ns,
                        st.vars@,
                        name@,
                        node as int,
                        ord[k as int] as int,
                    ));
                    assert(first_acceptable(ns, st.vars@, name@, node as int, ord, k as int)
                        == Some(vi));
                }
                return Some(vi);
            }
        }
        k = k + 1;
    }
    None
}

/// Records a reference at `node` to the acceptable variable `vi`.
fn push_var_ref(tree: &SyntaxTree, st: &mut ExtractState, name: &str, node: usize, vi: usize)
    requires
        tree.wf(),
        node < tree.nodes@.len(),
        state_inv(tree.nodes@, *old(st), tree.nodes@[node as int].range.start),
        vi < old(st).vars@.len(),
        acceptable(tree.nodes@, old(st).vars@, name@, node as int, vi as int),
    ensures
        state_inv(tree.nodes@, *final(st), tree.nodes@[node as int].range.start),
        final(st).vars == old(st).vars,
        final(st).var_owner == old(st).var_owner,
        final(st).scopes == old(st).scopes,
        final(st).scope_funs == old(st).scope_funs,
        final(st).file_funs == old(st).file_funs,
        final(st).refs@.len() == old(st).refs@.len() + 1,
        final(st).refs@ =~= old(st).refs@.push(final(st).refs@.last()),
        final(st).refs@.last().loc == tree.nodes@[node as int].range,
        final(st).refs@.last().name@ == name@,
        final(st).refs@.last().node == node,
        final(st).refs@.last().target == ReferenceTarget::Variable(vi),
{
    let ghost ns = tree.nodes@;
    let ghost bound = ns[node as int].range.start;
    let r = Reference {
        loc: tree.nodes[node].range,
        name: name.to_owned(),
        target: ReferenceTarget::Variable(vi),
        node,
    };
    let ghost r0 = st.refs@;
    st.refs.push(r);
    proof {
        assert forall|i: int| 0 <= i < st.refs@.len() implies ref_ok(
            ns,
            #[trigger] st.refs@[i],
            bound,
        ) && var_ref_sound(ns, st.vars@, st.refs@[i]) by {
            if i < r0.len() {
                assert(st.refs@[i] == r0[i]);
                assert(ref_ok(ns, r0[i], bound));
                assert(var_ref_sound(ns, st.vars@, r0[i]));
            } else {
                assert(st.refs@[i] == r);
                assert(var_ok(ns, st.vars@[vi as int], bound));
            }
        }
    }
}

/// Records a reference at `node` with a non-variable target.
fn push_plain_ref(
    tree: &SyntaxTree,
    st: &mut ExtractState,
    name: String,
    node: usize,
    target: ReferenceTarget,
)
    requires
        tree.wf(),
        node < tree.nodes@.len(),
        state_inv(tree.nodes@, *old(st), tree.nodes@[node as int].range.start),
        !(target is Variable),
    ensures
        state_inv(tree.nodes@, *final(st), tree.nodes@[node as int].range.start),
        final(st).vars == old(st).vars,
        final(st).var_owner == old(st).var_owner,
        final(st).scopes == old(st).scopes,
        final(st).scope_funs == old(st).scope_funs,
        final(st).file_funs == old(st).file_funs,
        final(st).refs@ =~= old(st).refs@.push(
            Reference { loc: tree.nodes@[node as int].range, name: name, target: target, node: node },
        ),
{
    let ghost ns = tree.nodes@;
    let ghost bound = ns[node as int].range.start;
    let r = Reference { loc: tree.nodes[node].range, name, target, node };
    let ghost r0 = st.refs@;
    st.refs.push(r);
    proof {
        assert forall|i: int| 0 <= i < st.refs@.len() implies ref_ok(
            ns,
            #[trigger] st.refs@[i],
            bound,
        ) && var_ref_sound(ns, st.vars@, st.refs@[i]) by {
            if i < r0.len() {
                assert(st.refs@[i] == r0[i]);
                assert(ref_ok(ns, r0[i], bound));
                assert(var_ref_sound(ns, st.vars@, r0[i]));
            } else {
                assert(st.refs@[i] == r);
            }
        }
    }
}

/// Appends a fresh variable definition at `node` to the arena, owned
/// by `owner`.
fn push_var_def(
    tree: &SyntaxTree,
    st: &mut ExtractState,
    name: String,
    node: usize,
    owner: Option<usize>,
    is_parameter: bool,
    is_global: bool,
)
    requires
        tree.wf(),
        node < tree.nodes@.len(),
        state_inv(tree.nodes@, *old(st), tree.nodes@[node as int].range.start),
        match owner {
            Option::Some(s) => (s as int) < old(st).scopes@.len(),
            Option::None => true,
        },
    ensures
        state_inv(tree.nodes@, *final(st), tree.nodes@[node as int].range.start),
        final(st).vars@ =~= old(st).vars@.push(
            VariableDefinition {
                loc: tree.nodes@[node as int].range,
                name: name,
                cleared: 0,
                is_parameter: is_parameter,
                is_global: is_global,
                node: node,
            },
        ),
        final(st).var_owner@ =~= old(st).var_owner@.push(owner),
        final(st).refs == old(st).refs,
        final(st).scopes == old(st).scopes,
        final(st).scope_funs == old(st).scope_funs,
        final(st).file_funs == old(st).file_funs,
{
    let ghost ns = tree.nodes@;
    let ghost bound = ns[node as int].range.start;
    let v = VariableDefinition {
        loc: tree.nodes[node].range,
        name,
        cleared: 0,
        is_parameter,
        is_global,
        node,
    };
    let ghost v0 = st.vars@;
    st.vars.push(v);
    st.var_owner.push(owner);
    proof {
        assert forall|i: int| 0 <= i < st.vars@.len() implies var_ok(
            ns,
            #[trigger] st.vars@[i],
            bound,
        ) by {
            if i < v0.len() {
                assert(st.vars@[i] == v0[i]);
                assert(var_ok(ns, v0[i], bound));
            } else {
                assert(st.vars@[i] == v);
            }
        }
        assert forall|i: int| 0 <= i < st.refs@.len() implies var_ref_sound(
            ns,
            st.vars@,
            #[trigger] st.refs@[i],
        ) by {
            assert(var_ref_sound(ns, v0, st.refs@[i]));
            match st.refs@[i].target {
                ReferenceTarget::Variable(vi) => {
                    assert(st.vars@[vi as int] == v0[vi as int]);
                },
                _ => {},
            }
        }
    }
}

/// Whether `pt` is the start of an output parameter of the function
/// enclosing `node`: the single identifier of its output clause, or
/// one name of its multi-output list.
pub open spec fn is_out_point(ns: Seq<SyntaxNode>, node: int, pt: Point) -> bool {
    match spec_parent_function(ns, node) {
        Option::Some(f) => match first_child_of_kind(ns, f as int, NodeKind::FunctionOutput, 0) {
            Option::Some(output) => match first_child_from(ns, output as int, 0) {
                Option::Some(c0) => if ns[c0 as int].kind == NodeKind::Identifier {
                    pt == ns[c0 as int].range.start
                } else if ns[c0 as int].kind == NodeKind::MultioutputVariable {
                    exists|c: usize|
                        is_child(ns, c as int, c0 as int) && pt == ns[c as int].range.start
                } else {
                    false
                },
                Option::None => false,
            },
            Option::None => false,
        },
        Option::None => false,
    }
}

/// Whether the variable `vi` is an output parameter of the
/// enclosing function that a binding of `name` at `node` rebinds:
/// owned by the innermost scope, holding an output-parameter point,
/// and acceptable at `node`.
pub open spec fn out_rebind_witness(
    ns: Seq<SyntaxNode>,
    st: ExtractState,
    name: Seq<char>,
    scopes: Seq<usize>,
    node: int,
    vi: int,
) -> bool {
    &&& scopes.len() > 0
    &&& 0 <= vi < st.vars@.len()
    &&& st.var_owner@[vi] == Some(scopes[0])
    &&& exists|pt: Point|
        #[trigger] is_out_point(ns, node, pt) && st.vars@[vi].loc.spec_contains(pt)
    &&& acceptable(ns, st.vars@, name, node, vi)
}

/// Whether `t` targets a variable that answers as an
/// output-parameter rebind.
pub open spec fn rebind_ref_target(
    ns: Seq<SyntaxNode>,
    st: ExtractState,
    name: Seq<char>,
    scopes: Seq<usize>,
    node: int,
    t: ReferenceTarget,
) -> bool {
    exists|vi: int|
        #[trigger] out_rebind_witness(ns, st, name, scopes, node, vi) && t
            == ReferenceTarget::Variable(vi as usize)
}

/// Whether some variable answers as an output-parameter rebind.
pub open spec fn out_rebind_hit(
    ns: Seq<SyntaxNode>,
    st: ExtractState,
    name: Seq<char>,
    scopes: Seq<usize>,
    node: int,
) -> bool {
    exists|vi: int| #[trigger] out_rebind_witness(ns, st, name, scopes, node, vi)
}

/// What one `def_var` call does, stated over views: an
/// output-parameter or soft-scope rebind appends one reference to
/// the found binding; a visible binding inside an index expression
/// changes nothing; anything else appends one fresh definition to
/// the innermost scope.
pub open spec fn def_var_rel(
    ns: Seq<SyntaxNode>,
    pre: ExtractState,
    post: ExtractState,
    name: Seq<char>,
    scopes: Seq<usize>,
    node: int,
) -> bool {
    &&& post.scopes == pre.scopes
    &&& post.scope_funs == pre.scope_funs
    &&& post.file_funs == pre.file_funs
    &&& ({
        let vref = first_acceptable(ns, pre.vars@, name, node, search_order(pre, scopes), 0);
        let hit = out_rebind_hit(ns, pre, name, scopes, node);
        &&& (hit ==> post.vars == pre.vars && post.var_owner == pre.var_owner && post.refs@
            == pre.refs@.push(post.refs@.last()) && post.refs@.last().loc == ns[node].range
            && post.refs@.last().name@ == name && post.refs@.last().node == node
            && rebind_ref_target(ns, pre, name, scopes, node, post.refs@.last().target))
        &&& (!hit && vref is Some && anc_of_kind(ns, node, NodeKind::FunctionCall) is Some
            ==> post == pre)
        &&& (!hit && vref is Some && anc_of_kind(ns, node, NodeKind::FunctionCall) is None
            && spec_soft_scope_parent(ns, node) is Some ==> post.vars == pre.vars
            && post.var_owner == pre.var_owner && post.refs@ == pre.refs@.push(
            post.refs@.last(),
        ) && post.refs@.last().loc == ns[node].range && post.refs@.last().name@ == name
            && post.refs@.last().node == node && post.refs@.last().target
            == ReferenceTarget::Variable(vref->0))
        &&& (!hit && (vref is None || (anc_of_kind(ns, node, NodeKind::FunctionCall) is None
            && spec_soft_scope_parent(ns, node) is None)) ==> post.refs == pre.refs
            && post.vars@ == pre.vars@.push(post.vars@.last()) && post.vars@.last().loc == ns[
            node
        ].range && post.vars@.last().name@ == name && post.vars@.last().cleared == 0
            && post.vars@.last().is_parameter == spec_is_param(ns, node)
            && post.vars@.last().is_global == (anc_of_kind(ns, node, NodeKind::GlobalOperator)
            is Some) && post.vars@.last().node == node && post.var_owner@
            == pre.var_owner@.push(
            if scopes.len() > 0 {
                Some(scopes[0])
            } else {
                None
            },
        ))
    })
}

/// A run of cursor-guarded `def_var` calls over the listed argument
/// nodes: each in-order argument introduces its binding and advances
/// the cursor; an out-of-order argument is passed over.
pub open spec fn def_fold(
    ns: Seq<SyntaxNode>,
    args: Seq<usize>,
    scopes: Seq<usize>,
    sts: Seq<ExtractState>,
    curs: Seq<Point>,
) -> bool {
    &&& sts.len() == args.len() + 1
    &&& curs.len() == args.len() + 1
    &&& forall|j: int|
        0 <= j < args.len() ==> ({
            let a = (#[trigger] args[j]) as int;
            if point_le(curs[j], ns[a].range.start) {
                def_var_rel(ns, sts[j], sts[j + 1], ns[a].text@, scopes, a) && curs[j + 1] == ns[
                    a
                ].range.start
            } else {
                sts[j + 1] == sts[j] && curs[j + 1] == curs[j]
            }
        })
}

/// The trailing mode words a `syms` command accepts.
pub open spec fn is_syms_mode_word(t: Seq<char>) -> bool {
    t == "matrix"@ || t == "clear"@ || t == "real"@ || t == "positive"@
}

/// Whether the `syms` argument walk stops at argument `j`: a final
/// mode word, or any argument that is not a legal identifier.
pub open spec fn syms_stop(ns: Seq<SyntaxNode>, args: Seq<usize>, j: int) -> bool {
    (j == args.len() - 1 && is_syms_mode_word(ns[args[j] as int].text@))
        || !crate::ident::is_valid_ident(ns[args[j] as int].text@)
}

/// The first `syms` argument the walk stops at, from `j` on; the
/// argument count when it never stops.
pub open spec fn syms_first_stop(ns: Seq<SyntaxNode>, args: Seq<usize>, j: int) -> int
    decreases args.len() - j,
{
    if j < 0 || j >= args.len() {
        args.len() as int
    } else if syms_stop(ns, args, j) {
        j
    } else {
        syms_first_stop(ns, args, j + 1)
    }
}

/// Whether the node's own parent makes the binding a parameter: a
/// function output, a function argument list, or a multi-output
/// list.
pub open spec fn spec_is_param(ns: Seq<SyntaxNode>, node: int) -> bool {
    match ns[node].parent {
        Option::Some(p) => ns[p as int].kind == NodeKind::FunctionOutput || ns[p as int].kind
            == NodeKind::FunctionArguments || ns[p as int].kind == NodeKind::MultioutputVariable,
        Option::None => false,
    }
}

/// Collects the output-parameter points of the function enclosing
/// `node`: exactly the points `is_out_point` admits.
fn out_points(tree: &SyntaxTree, node: usize) -> (ps: Vec<Point>)
    requires
        tree.wf(),
        node < tree.nodes@.len(),
    ensures
        forall|k: int|
            0 <= k < ps@.len() ==> is_out_point(tree.nodes@, node as int, #[trigger] ps@[k]),
        forall|pt: Point|
            #[trigger] is_out_point(tree.nodes@, node as int, pt) ==> ps@.contains(pt),
{
    let ghost ns = tree.nodes@;
    let mut ps: Vec<Point> = Vec::new();
    if let Option::Some(f) = tree.parent_function(node) {
        if let Option::Some(output) = tree.child_of_kind(f, NodeKind::FunctionOutput) {
            if let Option::Some(c0) = tree.first_child(output) {
                if tree.nodes[c0].kind == NodeKind::Identifier {
                    ps.push(tree.nodes[c0].range.start);
                    proof {
                        assert(ps@[0] == ns[c0 as int].range.start);
                        assert forall|pt: Point|
                            #[trigger] is_out_point(ns, node as int, pt) implies ps@.contains(
                            pt,
                        ) by {
                            assert(ps@[0] == pt);
                        }
                    }
                } else if tree.nodes[c0].kind == NodeKind::MultioutputVariable {
                    let kids = tree.children_of(c0);
                    let nk = kids.len();
                    let mut ki: usize = 0;
                    while ki < nk
                        invariant
                            ns == tree.nodes@,
                            nk == kids@.len(),
                            ki <= nk,
                            ps@.len() == ki,
                            forall|k: int|
                                0 <= k < kids@.len() ==> is_child(
                                    ns,
                                    #[trigger] kids@[k] as int,
                                    c0 as int,
                                ),
                            forall|k: int|
                                0 <= k < ki ==> (#[trigger] ps@[k]) == ns[kids@[k] as int].range.start,
                        decreases nk - ki,
                    {
                        ps.push(tree.nodes[kids[ki]].range.start);
                        ki = ki + 1;
                    }
                    proof {
                        assert forall|pt: Point|
                            #[trigger] is_out_point(ns, node as int, pt) implies ps@.contains(
                            pt,
                        ) by {
                            let c = choose|c: usize|
                                is_child(ns, c as int, c0 as int) && pt == ns[c as int].range.start;
                            assert(kids@.contains(c));
                            let k = choose|k: int| 0 <= k < kids@.len() && kids@[k] == c;
                            assert(ps@[k] == pt);
                        }
                        assert forall|k: int| 0 <= k < ps@.len() implies is_out_point(
                            ns,
                            node as int,
                            #[trigger] ps@[k],
                        ) by {
                            let c: usize = kids@[k];
                            assert(is_child(ns, c as int, c0 as int) && ps@[k] == ns[
                                c as int
                            ].range.start);
                        }
                    }
                }
            }
        }
    }
    ps
}

/// Introduces the binding written at `node` under `name`, with an
/// exact case split. A rebind of an output parameter of the
/// enclosing function, or of a soft-scoped visible binding, appends
/// one reference to that binding and defines nothing; a visible
/// binding read inside an index expression changes nothing; any
/// other occurrence appends exactly one fresh definition — located
/// at the node, never cleared, a parameter or global as its context
/// says — to the innermost scope, or to the file scope when the
/// stack is empty.
pub fn def_var(
    tree: &SyntaxTree,
    st: &mut ExtractState,
    name: String,
    scopes: &Vec<usize>,
    node: usize,
)
    requires
        tree.wf(),
        node < tree.nodes@.len(),
        state_inv(tree.nodes@, *old(st), tree.nodes@[node as int].range.start),
        forall|i: int|
            0 <= i < scopes@.len() ==> ((#[trigger] scopes@[i]) as int) < old(st).scopes@.len(),
    ensures
        state_inv(tree.nodes@, *final(st), tree.nodes@[node as int].range.start),
        final(st).scopes == old(st).scopes,
        final(st).scope_funs == old(st).scope_funs,
        final(st).file_funs == old(st).file_funs,
        ({
            let ns = tree.nodes@;
            let st0 = *old(st);
            let vref = first_acceptable(
                ns,
                st0.vars@,
                name@,
                node as int,
                search_order(st0, scopes@),
                0,
            );
            let hit = out_rebind_hit(ns, st0, name@, scopes@, node as int);
            &&& (hit ==> final(st).vars == st0.vars && final(st).var_owner == st0.var_owner
                && final(st).refs@ == st0.refs@.push(final(st).refs@.last())
                && final(st).refs@.last().loc == ns[node as int].range
                && final(st).refs@.last().name@ == name@ && final(st).refs@.last().node == node
                && rebind_ref_target(
                ns,
                st0,
                name@,
                scopes@,
                node as int,
                final(st).refs@.last().target,
            ))
            &&& (!hit && vref is Some && anc_of_kind(ns, node as int, NodeKind::FunctionCall)
                is Some ==> *final(st) == st0)
            &&& (!hit && vref is Some && anc_of_kind(ns, node as int, NodeKind::FunctionCall)
                is None && spec_soft_scope_parent(ns, node as int) is Some ==> final(st).vars
                == st0.vars && final(st).var_owner == st0.var_owner && final(st).refs@
                == st0.refs@.push(final(st).refs@.last()) && final(st).refs@.last().loc == ns[
                node as int
            ].range && final(st).refs@.last().name@ == name@ && final(st).refs@.last().node == node
                && final(st).refs@.last().target == ReferenceTarget::Variable(vref->0))
            &&& (!hit && (vref is None || (anc_of_kind(ns, node as int, NodeKind::FunctionCall)
                is None && spec_soft_scope_parent(ns, node as int) is None)) ==> final(st).refs
                == st0.refs && final(st).vars@ == st0.vars@.push(
                VariableDefinition {
                    loc: ns[node as int].range,
                    name: name,
                    cleared: 0,
                    is_parameter: spec_is_param(ns, node as int),
                    is_global: anc_of_kind(ns, node as int, NodeKind::GlobalOperator) is Some,
                    node: node,
                },
            ) && final(st).var_owner@ == st0.var_owner@.push(
                if scopes@.len() > 0 {
                    Some(scopes@[0])
                } else {
                    None
                },
            ))
        }),
        def_var_rel(tree.nodes@, *old(st), *final(st), name@, scopes@, node as int),
{
    let ghost ns = tree.nodes@;
    let ghost st0 = *old(st);
    let ghost bound = ns[node as int].range.start;
    let ps = out_points(tree, node);
    if scopes.len() > 0 {
        let s0 = scopes[0];
        let np = ps.len();
        let mut pi: usize = 0;
        while pi < np
            invariant
                tree.wf(),
                ns == tree.nodes@,
                node < ns.len(),
                np == ps@.len(),
                pi <= np,
                *st == st0,
                st0 == *old(st),
                s0 == scopes@[0],
                scopes@.len() > 0,
                state_inv(ns, *st, bound),
                bound == ns[node as int].range.start,
                forall|k: int|
                    0 <= k < ps@.len() ==> is_out_point(ns, node as int, #[trigger] ps@[k]),
                forall|kk: int, vv: int|
                    0 <= kk < pi && 0 <= vv < st0.vars@.len() ==> !(st0.var_owner@[vv] == Some(s0)
                        && (#[trigger] st0.vars@[vv]).loc.spec_contains(#[trigger] ps@[kk])
                        && acceptable(ns, st0.vars@, name@, node as int, vv)),
            decreases np - pi,
        {
            let p = ps[pi];
            let nv = st.vars.len();
            let mut vi: usize = 0;
            while vi < nv
                invariant
                    tree.wf(),
                    ns == tree.nodes@,
                    node < ns.len(),
                    nv == st.vars@.len(),
                    vi <= nv,
                    *st == st0,
                    st0 == *old(st),
                    s0 == scopes@[0],
                    scopes@.len() > 0,
                    pi < np,
                    np == ps@.len(),
                    p == ps@[pi as int],
                    state_inv(ns, *st, bound),
                    bound == ns[node as int].range.start,
                    forall|k: int|
                        0 <= k < ps@.len() ==> is_out_point(ns, node as int, #[trigger] ps@[k]),
                    forall|vv: int|
                        0 <= vv < vi ==> !(st0.var_owner@[vv] == Some(s0) && (
                        #[trigger] st0.vars@[vv]).loc.spec_contains(ps@[pi as int])
                            && acceptable(ns, st0.vars@, name@, node as int, vv)),
                    forall|kk: int, vv: int|
                        0 <= kk < pi && 0 <= vv < st0.vars@.len() ==> !(st0.var_owner@[vv] == Some(
                            s0,
                        ) && (#[trigger] st0.vars@[vv]).loc.spec_contains(#[trigger] ps@[kk])
                            && acceptable(ns, st0.vars@, name@, node as int, vv)),
                decreases nv - vi,
            {
                let owner = st.var_owner[vi];
                let owner_matches = match owner {
                    Option::Some(s) => s == s0,
                    Option::None => false,
                };
                if owner_matches && st.vars[vi].loc.contains(p) && acceptable_exec(
                    tree,
                    &st.vars,
                    name.as_str(),
                    node,
                    vi,
                ) {
                    proof {
                        assert(out_rebind_witness(ns, st0, name@, scopes@, node as int, vi as int))
                            by {
                            assert(is_out_point(ns, node as int, ps@[pi as int])
                                && st0.vars@[vi as int].loc.spec_contains(ps@[pi as int]));
                        }
                        assert(out_rebind_hit(ns, st0, name@, scopes@, node as int));
                    }
                    push_var_ref(tree, st, name.as_str(), node, vi);
                    proof {
                        assert(rebind_ref_target(
                            ns,
                            st0,
                            name@,
                            scopes@,
                            node as int,
                            st.refs@.last().target,
                        )) by {
                            assert(out_rebind_witness(
                                ns,
                                st0,
                                name@,
                                scopes@,
                                node as int,
                                vi as int,
                            ) && st.refs@.last().target == ReferenceTarget::Variable(
                                (vi as int) as usize,
                            ));
                        }
                    }
                    return ;
                }
                vi = vi + 1;
            }
            pi = pi + 1;
        }
    }
    proof {
        assert(!out_rebind_hit(ns, st0, name@, scopes@, node as int)) by {
            if out_rebind_hit(ns, st0, name@, scopes@, node as int) {
                let vi = choose|vi: int|
                    #[trigger] out_rebind_witness(ns, st0, name@, scopes@, node as int, vi);
                let pt = choose|pt: Point|
                    #[trigger] is_out_point(ns, node as int, pt) && st0.vars@[vi].loc.spec_contains(
                        pt,
                    );
                assert(ps@.contains(pt));
                let kk = choose|kk: int| 0 <= kk < ps@.len() && ps@[kk] == pt;
                assert(false);
            }
        }
    }
    let vref = ref_to_var(tree, st, name.as_str(), scopes, node);
    if let Option::Some(vi) = vref {
        // A read inside an index expression is a reference that the
        // call handler records.
        if tree.parent_of_kind(NodeKind::FunctionCall, node).is_some() {
            return ;
        }
        // Inside a soft scope, a rebind refers to the existing
        // binding rather than defining a fresh one.
        if tree.soft_scope_parent(node).is_some() {
            push_var_ref(tree, st, name.as_str(), node, vi);
            return ;
        }
    }
    let is_global = tree.parent_of_kind(NodeKind::GlobalOperator, node).is_some();
    let is_parameter = match tree.nodes[node].parent {
        Option::Some(p) => {
            let pk = tree.nodes[p].kind;
            pk == NodeKind::FunctionOutput || pk == NodeKind::FunctionArguments || pk
                == NodeKind::MultioutputVariable
        },
        Option::None => false,
    };
    let owner: Option<usize> = if scopes.len() > 0 {
        Some(scopes[0])
    } else {
        None
    };
    push_var_def(tree, st, name, node, owner, is_parameter, is_global);
}

/// The first function of a nested scope on the stack with the given
/// name, searching the stack from `si` and the scope functions from
/// `j` on.
pub open spec fn first_scope_fn(
    sf: Seq<(usize, String, FunctionDefinition)>,
    scopes: Seq<usize>,
    name: Seq<char>,
    si: int,
    j: int,
) -> Option<FunctionDefinition>
    decreases scopes.len() - si, sf.len() - j,
{
    if si < 0 || si >= scopes.len() {
        None
    } else if j < 0 || j >= sf.len() {
        first_scope_fn(sf, scopes, name, si + 1, 0)
    } else if sf[j].0 == scopes[si] && sf[j].2.name@ == name {
        Some(sf[j].2)
    } else {
        first_scope_fn(sf, scopes, name, si, j + 1)
    }
}

/// The first entry from `j` on whose definition has the given name.
pub open spec fn first_named_fn(
    entries: Seq<(String, FunctionDefinition)>,
    name: Seq<char>,
    j: int,
) -> Option<FunctionDefinition>
    decreases entries.len() - j,
{
    if j < 0 || j >= entries.len() {
        None
    } else if entries[j].1.name@ == name {
        Some(entries[j].1)
    } else {
        first_named_fn(entries, name, j + 1)
    }
}

/// The first store entry from `j` on with the given name; entries in
/// a package take part only when `pkg` is set.
pub open spec fn first_store_fn(
    entries: Seq<(String, FunctionDefinition)>,
    name: Seq<char>,
    pkg: bool,
    j: int,
) -> Option<FunctionDefinition>
    decreases entries.len() - j,
{
    if j < 0 || j >= entries.len() {
        None
    } else if entries[j].1.name@ == name && (entries[j].1.package@.len() == 0 || pkg) {
        Some(entries[j].1)
    } else {
        first_store_fn(entries, name, pkg, j + 1)
    }
}

/// What a function lookup resolves to: the scopes innermost first,
/// the file's functions next, the store's functions last.
pub open spec fn spec_ref_to_fn(
    st: ExtractState,
    store: Store,
    scopes: Seq<usize>,
    name: Seq<char>,
    pkg: bool,
) -> Option<FunctionDefinition> {
    match first_scope_fn(st.scope_funs@, scopes, name, 0, 0) {
        Some(f) => Some(f),
        None => match first_named_fn(st.file_funs@, name, 0) {
            Some(f) => Some(f),
            None => first_store_fn(store.functions@, name, pkg, 0),
        },
    }
}

/// Looks up the function a call of `name` resolves to, searching the
/// scopes innermost first, the file's functions, and the store's
/// functions; a store function inside a package answers only when
/// `pkg` is set. First match wins.
pub fn ref_to_fn(
    st: &ExtractState,
    store: &Store,
    scopes: &Vec<usize>,
    name: &str,
    pkg: bool,
) -> (r: Option<FunctionDefinition>)
    ensures
        r is Some <==> spec_ref_to_fn(*st, *store, scopes@, name@, pkg) is Some,
        r matches Some(fd) ==> fd_eq(fd, spec_ref_to_fn(*st, *store, scopes@, name@, pkg)->0),
{
    let nsc = scopes.len();
    let nsf = st.scope_funs.len();
    let mut si: usize = 0;
    while si < nsc
        invariant
            nsc == scopes@.len(),
            nsf == st.scope_funs@.len(),
            si <= nsc,
            first_scope_fn(st.scope_funs@, scopes@, name@, 0, 0) == first_scope_fn(
                st.scope_funs@,
                scopes@,
                name@,
                si as int,
                0,
            ),
        decreases nsc - si,
    {
        let mut j: usize = 0;
        while j < nsf
            invariant
                nsc == scopes@.len(),
                nsf == st.scope_funs@.len(),
                si < nsc,
                j <= nsf,
                first_scope_fn(st.scope_funs@, scopes@, name@, 0, 0) == first_scope_fn(
                    st.scope_funs@,
                    scopes@,
                    name@,
                    si as int,
                    j as int,
                ),
            decreases nsf - j,
        {
            if st.scope_funs[j].0 == scopes[si] && str_eq(
                st.scope_funs[j].2.name.as_str(),
                name,
            ) {
                return Some(st.scope_funs[j].2.clone());
            }
            j = j + 1;
        }
        si = si + 1;
    }
    let nf = st.file_funs.len();
    let mut j2: usize = 0;
    while j2 < nf
        invariant
            nf == st.file_funs@.len(),
            j2 <= nf,
            first_scope_fn(st.scope_funs@, scopes@, name@, 0, 0) is None,
            first_named_fn(st.file_funs@, name@, 0) == first_named_fn(
                st.file_funs@,
                name@,
                j2 as int,
            ),
        decreases nf - j2,
    {
        let e = st.file_funs.entry(j2);
        if str_eq(e.1.name.as_str(), name) {
            return Some(st.file_funs.entry(j2).1.clone());
        }
        j2 = j2 + 1;
    }
    let ng = store.functions.len();
    let mut j3: usize = 0;
    while j3 < ng
        invariant
            ng == store.functions@.len(),
            j3 <= ng,
            first_scope_fn(st.scope_funs@, scopes@, name@, 0, 0) is None,
            first_named_fn(st.file_funs@, name@, 0) is None,
            first_store_fn(store.functions@, name@, pkg, 0) == first_store_fn(
                store.functions@,
                name@,
                pkg,
                j3 as int,
            ),
        decreases ng - j3,
    {
        let e = store.functions.entry(j3);
        if str_eq(e.1.name.as_str(), name) && (e.1.package.as_str().unicode_len() == 0 || pkg) {
            return Some(store.functions.entry(j3).1.clone());
        }
        j3 = j3 + 1;
    }
    None
}

/// Whether a reference was already recorded at exactly `loc`.
fn has_ref_at(st: &ExtractState, loc: Range) -> (r: bool)
    ensures
        r == exists|i: int| 0 <= i < st.refs@.len() && (#[trigger] st.refs@[i]).loc == loc,
{
    let n = st.refs.len();
    let mut i: usize = 0;
    while i < n
        invariant
            n == st.refs@.len(),
            i <= n,
            forall|j: int| 0 <= j < i ==> (#[trigger] st.refs@[j]).loc != loc,
        decreases n - i,
    {
        if st.refs[i].loc == loc {
            return true;
        }
        i = i + 1;
    }
    false
}

/// Marks the live variable `vi` as cleared on the row of `node`.
fn set_cleared(tree: &SyntaxTree, st: &mut ExtractState, node: usize, vi: usize)
    requires
        tree.wf(),
        node < tree.nodes@.len(),
        state_inv(tree.nodes@, *old(st), tree.nodes@[node as int].range.start),
        vi < old(st).vars@.len(),
        old(st).vars@[vi as int].cleared == 0,
    ensures
        state_inv(tree.nodes@, *final(st), tree.nodes@[node as int].range.start),
        final(st).vars@ =~= old(st).vars@.update(
            vi as int,
            VariableDefinition {
                cleared: tree.nodes@[node as int].range.start.row,
                ..old(st).vars@[vi as int]
            },
        ),
        final(st).var_owner == old(st).var_owner,
        final(st).refs == old(st).refs,
        final(st).scopes == old(st).scopes,
        final(st).scope_funs == old(st).scope_funs,
        final(st).file_funs == old(st).file_funs,
{
    let ghost ns = tree.nodes@;
    let ghost bound = ns[node as int].range.start;
    let ghost v0 = st.vars@;
    let row = tree.nodes[node].range.start.row;
    let nv = VariableDefinition {
        loc: st.vars[vi].loc,
        name: st.vars[vi].name.clone(),
        cleared: row,
        is_parameter: st.vars[vi].is_parameter,
        is_global: st.vars[vi].is_global,
        node: st.vars[vi].node,
    };
    st.vars.set(vi, nv);
    proof {
        assert forall|i: int| 0 <= i < st.vars@.len() implies var_ok(
            ns,
            #[trigger] st.vars@[i],
            bound,
        ) by {
            if i != vi {
                assert(st.vars@[i] == v0[i]);
            }
            assert(var_ok(ns, v0[i], bound));
        }
        assert forall|i: int| 0 <= i < st.refs@.len() implies var_ref_sound(
            ns,
            st.vars@,
            #[trigger] st.refs@[i],
        ) by {
            let r = st.refs@[i];
            assert(var_ref_sound(ns, v0, r));
            assert(ref_ok(ns, r, bound));
            match r.target {
                ReferenceTarget::Variable(tvi) => {
                    if tvi == vi {
                        assert(r.loc.start.row <= bound.row);
                    } else {
                        assert(st.vars@[tvi as int] == v0[tvi as int]);
                    }
                },
                _ => {},
            }
        }
    }
}

/// The string with the smallest length; on ties the last one.
fn shortest_string(v: &Vec<String>) -> (r: Option<String>)
    ensures
        r is None <==> v@.len() == 0,
        r matches Some(s) ==> exists|i: int|
            0 <= i < v@.len() && v@[i] == s && (forall|j: int|
                0 <= j < v@.len() ==> (#[trigger] v@[j])@.len() >= s@.len()),
{
    let n = v.len();
    if n == 0 {
        return None;
    }
    let mut best: usize = 0;
    let mut best_len: usize = v[0].as_str().unicode_len();
    let mut i: usize = 1;
    while i < n
        invariant
            n == v@.len(),
            1 <= i <= n,
            best < n,
            best_len == v@[best as int]@.len(),
            forall|j: int| 0 <= j < i ==> (#[trigger] v@[j])@.len() >= best_len,
        decreases n - i,
    {
        let l = v[i].as_str().unicode_len();
        if l <= best_len {
            best = i;
            best_len = l;
        }
        i = i + 1;
    }
    let s = v[best].clone();
    proof {
        assert(v@[best as int] == s);
    }
    Some(s)
}

/// Whether the identifier at `node` is skipped: it belongs to a
/// larger construct (a field expression, a function definition, a
/// multi-output list, or an indexed target of a field assignment),
/// it is the `end` keyword inside an index or range expression, it
/// sits inside the left-hand side of its assignment, or a reference
/// was already recorded at its position.
pub open spec fn ident_skip(ns: Seq<SyntaxNode>, refs: Seq<Reference>, node: int) -> bool {
    ||| match ns[node].parent {
        Option::Some(p) => {
            ||| ns[p as int].kind == NodeKind::FieldExpression
            ||| ns[p as int].kind == NodeKind::FunctionDefinition
            ||| ns[p as int].kind == NodeKind::MultioutputVariable
            ||| (ns[p as int].kind == NodeKind::FunctionCall && match ns[p as int].parent {
                Option::Some(gp) => ns[gp as int].kind == NodeKind::FieldExpression,
                Option::None => false,
            })
            ||| ((ns[p as int].kind == NodeKind::Arguments || ns[p as int].kind
                == NodeKind::RangeExpression) && ns[node].text@ == "end"@)
        },
        Option::None => false,
    }
    ||| (match anc_of_kind(ns, node, NodeKind::Assignment) {
        Option::Some(a) => match first_child_with_field(ns, a as int, Field::FieldLeft, 0) {
            Option::Some(l) => ns[l as int].range.spec_contains(ns[node].range.start),
            Option::None => false,
        },
        Option::None => false,
    })
    ||| (exists|j: int| 0 <= j < refs.len() && (#[trigger] refs[j]).loc == ns[node].range)
}

/// Handles a bare identifier, with an exact case split: a skipped
/// identifier (see `ident_skip`) changes nothing; any other records
/// exactly one reference at the node, to the visible binding the
/// lookup finds, or to an unknown variable on a miss.
pub fn identifier_capture(
    tree: &SyntaxTree,
    st: &mut ExtractState,
    scopes: &Vec<usize>,
    node: usize,
)
    requires
        tree.wf(),
        node < tree.nodes@.len(),
        state_inv(tree.nodes@, *old(st), tree.nodes@[node as int].range.start),
        forall|i: int|
            0 <= i < scopes@.len() ==> ((#[trigger] scopes@[i]) as int) < old(st).scopes@.len(),
    ensures
        state_inv(tree.nodes@, *final(st), tree.nodes@[node as int].range.start),
        final(st).scopes == old(st).scopes,
        final(st).scope_funs == old(st).scope_funs,
        final(st).file_funs == old(st).file_funs,
        ({
            let ns = tree.nodes@;
            let st0 = *old(st);
            let vref = first_acceptable(
                ns,
                st0.vars@,
                ns[node as int].text@,
                node as int,
                search_order(st0, scopes@),
                0,
            );
            &&& (ident_skip(ns, st0.refs@, node as int) ==> *final(st) == st0)
            &&& (!ident_skip(ns, st0.refs@, node as int) ==> final(st).vars == st0.vars
                && final(st).var_owner == st0.var_owner && final(st).refs@ == st0.refs@.push(
                final(st).refs@.last(),
            ) && final(st).refs@.last().loc == ns[node as int].range
                && final(st).refs@.last().name@ == ns[node as int].text@
                && final(st).refs@.last().node == node && final(st).refs@.last().target == (
            match vref {
                Option::Some(vi) => ReferenceTarget::Variable(vi),
                Option::None => ReferenceTarget::UnknownVariable,
            }))
        }),
{
    let ghost ns = tree.nodes@;
    let ghost st0 = *old(st);
    if let Option::Some(p) = tree.nodes[node].parent {
        let pk = tree.nodes[p].kind;
        if pk == NodeKind::FieldExpression || pk == NodeKind::FunctionDefinition || pk
            == NodeKind::MultioutputVariable {
            return ;
        }
        if pk == NodeKind::FunctionCall {
            if let Option::Some(gp) = tree.nodes[p].parent {
                if tree.nodes[gp].kind == NodeKind::FieldExpression {
                    // an indexed target of a field assignment
                    return ;
                }
            }
        }
        if (pk == NodeKind::Arguments || pk == NodeKind::RangeExpression) && str_eq(
            tree.nodes[node].text.as_str(),
            "end",
        ) {
            return ;
        }
    }
    if let Option::Some(a) = tree.parent_of_kind(NodeKind::Assignment, node) {
        if let Option::Some(l) = tree.child_by_field(a, Field::FieldLeft) {
            if tree.nodes[l].range.contains(tree.nodes[node].range.start) {
                return ;
            }
        }
    }
    if has_ref_at(st, tree.nodes[node].range) {
        return ;
    }
    let name = tree.nodes[node].text.clone();
    match ref_to_var(tree, st, name.as_str(), scopes, node) {
        Option::Some(vi) => push_var_ref(tree, st, name.as_str(), node, vi),
        Option::None => push_plain_ref(tree, st, name, node, ReferenceTarget::UnknownVariable),
    }
}

/// Whether a function-call node is skipped: it sits under a field
/// expression, has no identifier name child, its name position is
/// already covered by a reference, or its name precedes the call
/// node in document order.
pub open spec fn fncall_skip(ns: Seq<SyntaxNode>, refs: Seq<Reference>, node: int) -> bool {
    ||| (match ns[node].parent {
        Option::Some(p) => ns[p as int].kind == NodeKind::FieldExpression,
        Option::None => false,
    })
    ||| (match first_child_with_field(ns, node, Field::FieldName, 0) {
        Option::Some(c) => {
            ||| ns[c as int].kind != NodeKind::Identifier
            ||| (exists|j: int| 0 <= j < refs.len() && (#[trigger] refs[j]).loc == ns[c as int].range)
            ||| !point_le(ns[node].range.start, ns[c as int].range.start)
        },
        Option::None => true,
    })
}

/// Whether an unresolved call name is recorded: the call stands on
/// the right of its assignment, or under none.
pub open spec fn fncall_right_def(ns: Seq<SyntaxNode>, node: int) -> bool {
    match anc_of_kind(ns, node, NodeKind::Assignment) {
        Option::Some(a) => match first_child_with_field(ns, a as int, Field::FieldRight, 0) {
            Option::Some(right) => ns[right as int].range.spec_contains(ns[node].range.start),
            Option::None => true,
        },
        Option::None => true,
    }
}

/// Whether `t` is a function target whose definition matches `fd`
/// field for field.
pub open spec fn fn_target_eq(t: ReferenceTarget, fd: FunctionDefinition) -> bool {
    match t {
        ReferenceTarget::Function(g) => fd_eq(g, fd),
        _ => false,
    }
}

/// Handles a function-call node, with an exact case split: a skipped
/// call (see `fncall_skip`) changes nothing; otherwise the name
/// resolves first as a variable (a variable shadows a call of the
/// same name), next as a function, and an unresolved name is
/// recorded as an unknown function exactly when the call stands on
/// the right of an assignment, or in none.
pub fn fncall_capture(
    tree: &SyntaxTree,
    st: &mut ExtractState,
    store: &Store,
    scopes: &Vec<usize>,
    node: usize,
) -> (ncur: Point)
    requires
        tree.wf(),
        node < tree.nodes@.len(),
        state_inv(tree.nodes@, *old(st), tree.nodes@[node as int].range.start),
        forall|i: int|
            0 <= i < scopes@.len() ==> ((#[trigger] scopes@[i]) as int) < old(st).scopes@.len(),
    ensures
        state_inv(tree.nodes@, *final(st), ncur),
        point_le(tree.nodes@[node as int].range.start, ncur),
        final(st).scopes == old(st).scopes,
        final(st).scope_funs == old(st).scope_funs,
        final(st).file_funs == old(st).file_funs,
        ({
            let ns = tree.nodes@;
            let st0 = *old(st);
            &&& (fncall_skip(ns, st0.refs@, node as int) ==> *final(st) == st0)
            &&& (!fncall_skip(ns, st0.refs@, node as int) ==> ({
                let nm = first_child_with_field(ns, node as int, Field::FieldName, 0)->0;
                let fname = ns[nm as int].text@;
                let vref = first_acceptable(
                    ns,
                    st0.vars@,
                    fname,
                    nm as int,
                    search_order(st0, scopes@),
                    0,
                );
                let fd = spec_ref_to_fn(st0, *store, scopes@, fname, false);
                &&& ncur == ns[nm as int].range.start
                &&& final(st).vars == st0.vars
                &&& final(st).var_owner == st0.var_owner
                &&& (vref is None && fd is None && !fncall_right_def(ns, node as int)
                    ==> *final(st) == st0)
                &&& (!(vref is None && fd is None && !fncall_right_def(ns, node as int))
                    ==> final(st).refs@ == st0.refs@.push(final(st).refs@.last())
                    && final(st).refs@.last().loc == ns[nm as int].range
                    && final(st).refs@.last().name@ == fname
                    && final(st).refs@.last().node == nm && (match vref {
                    Option::Some(vi) => final(st).refs@.last().target
                        == ReferenceTarget::Variable(vi),
                    Option::None => (match fd {
                        Option::Some(g) => fn_target_eq(final(st).refs@.last().target, g),
                        Option::None => final(st).refs@.last().target
                            == ReferenceTarget::UnknownFunction,
                    }),
                }))
            }))
        }),
{
    let ghost ns = tree.nodes@;
    let ghost st0 = *old(st);
    let cur = tree.nodes[node].range.start;
    if let Option::Some(p) = tree.nodes[node].parent {
        if tree.nodes[p].kind == NodeKind::FieldExpression {
            return cur;
        }
    }
    let name_node = match tree.child_by_field(node, Field::FieldName) {
        Option::Some(c) => c,
        Option::None => {
            return cur;
        },
    };
    if !(tree.nodes[name_node].kind == NodeKind::Identifier) {
        return cur;
    }
    if has_ref_at(st, tree.nodes[name_node].range) {
        return cur;
    }
    let nstart = tree.nodes[name_node].range.start;
    if !crate::range::point_le_exec(cur, nstart) {
        return cur;
    }
    proof {
        lemma_state_inv_mono(ns, *st, cur, nstart);
    }
    let fname = tree.nodes[name_node].text.clone();
    match ref_to_var(tree, st, fname.as_str(), scopes, name_node) {
        Option::Some(vi) => {
            push_var_ref(tree, st, fname.as_str(), name_node, vi);
            return nstart;
        },
        Option::None => {},
    }
    match ref_to_fn(st, store, scopes, fname.as_str(), false) {
        Option::Some(fd) => {
            push_plain_ref(tree, st, fname, name_node, ReferenceTarget::Function(fd));
        },
        Option::None => {
            let right_def = match tree.parent_of_kind(NodeKind::Assignment, node) {
                Option::Some(a) => {
                    match tree.child_by_field(a, Field::FieldRight) {
                        Option::Some(right) => tree.nodes[right].range.contains(
                            tree.nodes[node].range.start,
                        ),
                        Option::None => true,
                    }
                },
                Option::None => true,
            };
            if right_def {
                push_plain_ref(tree, st, fname, name_node, ReferenceTarget::UnknownFunction);
            }
        },
    }
    nstart
}

/// The `command_argument` children of `par` among the first `i`
/// nodes, in source order.
pub open spec fn cmd_args_upto(ns: Seq<SyntaxNode>, par: int, i: int) -> Seq<usize>
    decreases i,
{
    if i <= 0 {
        Seq::empty()
    } else {
        cmd_args_upto(ns, par, i - 1) + if is_child(ns, i - 1, par) && ns[i - 1].kind
            == NodeKind::CommandArgument {
            seq![(i - 1) as usize]
        } else {
            Seq::empty()
        }
    }
}

/// The `command_argument` children of `par`, in source order.
pub open spec fn spec_cmd_args(ns: Seq<SyntaxNode>, par: int) -> Seq<usize> {
    cmd_args_upto(ns, par, ns.len() as int)
}

/// The texts of the listed argument nodes, in order.
pub open spec fn arg_texts(ns: Seq<SyntaxNode>, args: Seq<usize>) -> Seq<Seq<char>> {
    Seq::new(args.len(), |k: int| ns[args[k] as int].text@)
}

/// The `command_argument` children of `par`, in source order.
fn command_args(tree: &SyntaxTree, par: usize) -> (r: Vec<usize>)
    requires
        par < tree.nodes@.len(),
    ensures
        r@ == spec_cmd_args(tree.nodes@, par as int),
        forall|k: int|
            0 <= k < r@.len() ==> is_child(tree.nodes@, #[trigger] r@[k] as int, par as int)
                && tree.nodes@[r@[k] as int].kind == NodeKind::CommandArgument,
        r@.len() == 0 <==> first_child_of_kind(
            tree.nodes@,
            par as int,
            NodeKind::CommandArgument,
            0,
        ) is None,
{
    let ghost ns = tree.nodes@;
    let n = tree.nodes.len();
    let mut r: Vec<usize> = Vec::new();
    let mut i: usize = 0;
    while i < n
        invariant
            ns == tree.nodes@,
            n == ns.len(),
            i <= n,
            r@ =~= cmd_args_upto(ns, par as int, i as int),
            forall|k: int|
                0 <= k < r@.len() ==> is_child(ns, #[trigger] r@[k] as int, par as int)
                    && ns[r@[k] as int].kind == NodeKind::CommandArgument,
            r@.len() == 0 ==> first_child_of_kind(ns, par as int, NodeKind::CommandArgument, 0)
                == first_child_of_kind(ns, par as int, NodeKind::CommandArgument, i as int),
            r@.len() > 0 ==> first_child_of_kind(ns, par as int, NodeKind::CommandArgument, 0)
                is Some,
        decreases n - i,
    {
        if let Option::Some(p) = tree.nodes[i].parent {
            if p == par && tree.nodes[i].kind == NodeKind::CommandArgument {
                r.push(i);
                proof {
                    assert(r@.last() == i);
                }
            }
        }
        i = i + 1;
    }
    r
}

/// Whether `s` ends in `.*`.
fn ends_dotstar(s: &str) -> (r: bool)
    ensures
        r == (s@.len() >= 2 && s@[s@.len() - 2] == '.' && s@[s@.len() - 1] == '*'),
{
    let n = s.unicode_len();
    n >= 2 && s.get_char(n - 2) == '.' && s.get_char(n - 1) == '*'
}

/// Whether `s` starts with `-`.
fn starts_dash(s: &str) -> (r: bool)
    ensures
        r == (s@.len() > 0 && s@[0] == '-'),
{
    let n = s.unicode_len();
    n > 0 && s.get_char(0) == '-'
}

/// `load f a b`: every named argument after the file becomes a
/// variable definition.
fn load_command(
    tree: &SyntaxTree,
    st: &mut ExtractState,
    scopes: &Vec<usize>,
    node: usize,
) -> (ncur: Point)
    requires
        tree.wf(),
        node < tree.nodes@.len(),
        state_inv(tree.nodes@, *old(st), tree.nodes@[node as int].range.start),
        forall|i: int|
            0 <= i < scopes@.len() ==> ((#[trigger] scopes@[i]) as int) < old(st).scopes@.len(),
    ensures
        state_inv(tree.nodes@, *final(st), ncur),
        point_le(tree.nodes@[node as int].range.start, ncur),
        final(st).scopes == old(st).scopes,
        final(st).scope_funs == old(st).scope_funs,
        final(st).file_funs == old(st).file_funs,
        tree.nodes@[node as int].parent is None ==> *final(st) == *old(st) && ncur == tree.nodes@[
            node as int
        ].range.start,
        ({
            let ns = tree.nodes@;
            ns[node as int].parent matches Some(par) ==> ({
                let args = spec_cmd_args(ns, par as int);
                &&& (args.len() <= 1 ==> *final(st) == *old(st) && ncur == ns[
                    node as int
                ].range.start)
                &&& (args.len() > 1 ==> exists|sts: Seq<ExtractState>, curs: Seq<Point>|
                    #[trigger] def_fold(ns, args.skip(1), scopes@, sts, curs) && sts[0] == *old(st)
                        && curs[0] == ns[node as int].range.start && sts.last() == *final(st)
                        && curs.last() == ncur)
            })
        }),
{
    let ghost ns = tree.nodes@;
    let ghost st0 = *old(st);
    let mut cur = tree.nodes[node].range.start;
    let par = match tree.nodes[node].parent {
        Option::Some(p) => p,
        Option::None => {
            return cur;
        },
    };
    let args = command_args(tree, par);
    let na = args.len();
    if na <= 1 {
        return cur;
    }
    let ghost mut sts: Seq<ExtractState> = seq![st0];
    let ghost mut curs: Seq<Point> = seq![ns[node as int].range.start];
    let mut ai: usize = 1;
    while ai < na
        invariant
            tree.wf(),
            ns == tree.nodes@,
            node < ns.len(),
            na == args@.len(),
            args@ == spec_cmd_args(ns, par as int),
            1 <= ai <= na,
            forall|k: int|
                0 <= k < args@.len() ==> is_child(ns, #[trigger] args@[k] as int, par as int)
                    && ns[args@[k] as int].kind == NodeKind::CommandArgument,
            state_inv(ns, *st, cur),
            point_le(ns[node as int].range.start, cur),
            st.scopes == old(st).scopes,
            st.scope_funs == old(st).scope_funs,
            st.file_funs == old(st).file_funs,
            forall|i: int|
                0 <= i < scopes@.len() ==> ((#[trigger] scopes@[i]) as int) < st.scopes@.len(),
            sts.len() == ai as int,
            curs.len() == ai as int,
            sts[0] == st0,
            curs[0] == ns[node as int].range.start,
            sts.last() == *st,
            curs.last() == cur,
            def_fold(ns, args@.skip(1).take(ai - 1), scopes@, sts, curs),
        decreases na - ai,
    {
        let ghost stpre = *st;
        let arg = args[ai];
        let astart = tree.nodes[arg].range.start;
        proof {
            assert(args@.skip(1)[ai - 1] == args@[ai as int]);
            assert(args@.skip(1).take((ai + 1) - 1) =~= args@.skip(1).take(ai - 1).push(
                args@[ai as int],
            ));
        }
        if crate::range::point_le_exec(cur, astart) {
            proof {
                lemma_state_inv_mono(ns, *st, cur, astart);
            }
            let varname = tree.nodes[arg].text.clone();
            def_var(tree, st, varname, scopes, arg);
            proof {
                sts = sts.push(*st);
                curs = curs.push(astart);
                assert(def_var_rel(ns, stpre, *st, ns[arg as int].text@, scopes@, arg as int));
            }
            cur = astart;
        } else {
            proof {
                sts = sts.push(*st);
                curs = curs.push(cur);
            }
        }
        proof {
            assert forall|j: int| 0 <= j < args@.skip(1).take((ai + 1) - 1).len() implies ({
                let a = (#[trigger] args@.skip(1).take((ai + 1) - 1)[j]) as int;
                if point_le(curs[j], ns[a].range.start) {
                    def_var_rel(ns, sts[j], sts[j + 1], ns[a].text@, scopes@, a) && curs[j + 1]
                        == ns[a].range.start
                } else {
                    sts[j + 1] == sts[j] && curs[j + 1] == curs[j]
                }
            }) by {
                if j < ai - 1 {
                    assert(args@.skip(1).take((ai + 1) - 1)[j] == args@.skip(1).take(ai - 1)[j]);
                }
            }
        }
        ai = ai + 1;
    }
    proof {
        assert(args@.skip(1).take(na - 1) =~= args@.skip(1));
        assert(def_fold(ns, args@.skip(1), scopes@, sts, curs) && sts[0] == st0 && curs[0] == ns[
            node as int
        ].range.start && sts.last() == *st && curs.last() == cur);
    }
    cur
}

/// Copies the functions that an `import a.b.c` or `import a.b.*`
/// names from the store into the file's functions, under their
/// basenames.
fn import_one(st: &mut ExtractState, store: &Store, path: &str)
    requires
        old(st).file_funs.wf(),
        store.wf(),
    ensures
        final(st).file_funs.wf(),
        final(st).vars == old(st).vars,
        final(st).var_owner == old(st).var_owner,
        final(st).refs == old(st).refs,
        final(st).scopes == old(st).scopes,
        final(st).scope_funs == old(st).scope_funs,
{
    let n = path.unicode_len();
    if ends_dotstar(path) {
        let prefix = path.substring_char(0, n - 2);
        let ng = store.functions.len();
        let mut i: usize = 0;
        while i < ng
            invariant
                ng == store.functions@.len(),
                i <= ng,
                store.wf(),
                st.file_funs.wf(),
                st.vars == old(st).vars,
                st.var_owner == old(st).var_owner,
                st.refs == old(st).refs,
                st.scopes == old(st).scopes,
                st.scope_funs == old(st).scope_funs,
            decreases ng - i,
        {
            let qname = store.functions.entry(i).0.clone();
            let pair = pkg_basename(qname.as_str());
            if str_eq(pair.0.as_str(), prefix) {
                let def = store.functions.entry(i).1.clone();
                st.file_funs.insert(pair.1, def);
            }
            i = i + 1;
        }
    } else {
        let found = match store.get_function(path) {
            Option::Some(fd) => Option::Some(fd.clone()),
            Option::None => Option::None,
        };
        if let Option::Some(fd) = found {
            let pair = pkg_basename(path);
            st.file_funs.insert(pair.1, fd);
        }
    }
}

/// `import` with every argument of the command.
fn import_command(tree: &SyntaxTree, st: &mut ExtractState, store: &Store, node: usize)
    requires
        tree.wf(),
        node < tree.nodes@.len(),
        state_inv(tree.nodes@, *old(st), tree.nodes@[node as int].range.start),
        store.wf(),
    ensures
        state_inv(tree.nodes@, *final(st), tree.nodes@[node as int].range.start),
        final(st).scopes == old(st).scopes,
        final(st).scope_funs == old(st).scope_funs,
{
    let ghost ns = tree.nodes@;
    let ghost bound = ns[node as int].range.start;
    let par = match tree.nodes[node].parent {
        Option::Some(p) => p,
        Option::None => {
            return ;
        },
    };
    let args = command_args(tree, par);
    let na = args.len();
    let mut ai: usize = 0;
    while ai < na
        invariant
            tree.wf(),
            ns == tree.nodes@,
            node < ns.len(),
            na == args@.len(),
            ai <= na,
            forall|k: int|
                0 <= k < args@.len() ==> is_child(ns, #[trigger] args@[k] as int, par as int),
            state_inv(ns, *st, bound),
            bound == ns[node as int].range.start,
            store.wf(),
            st.scopes == old(st).scopes,
            st.scope_funs == old(st).scope_funs,
        decreases na - ai,
    {
        let arg = args[ai];
        import_one(st, store, tree.nodes[arg].text.as_str());
        ai = ai + 1;
    }
}

/// The parsed argument lists of a `clear`/`clearvars` command, from
/// argument `i` on: the delete patterns, the keep patterns (after
/// `-except`, for `clearvars`), and whether `global` was named. Any
/// other `-`-token ends the parse.
pub open spec fn spec_clear_parse(ts: Seq<Seq<char>>, is_cv: bool, i: int, except: bool) -> (
    Seq<Seq<char>>,
    Seq<Seq<char>>,
    bool,
)
    decreases ts.len() - i,
{
    if i < 0 || i >= ts.len() {
        (Seq::empty(), Seq::empty(), false)
    } else {
        let t = ts[i];
        if crate::ident::eq_ignore_ascii_case(t, "global"@) {
            let r = spec_clear_parse(ts, is_cv, i + 1, except);
            (r.0, r.1, true)
        } else if is_cv && crate::ident::eq_ignore_ascii_case(t, "-except"@) {
            spec_clear_parse(ts, is_cv, i + 1, true)
        } else if t.len() > 0 && t[0] == '-' {
            (Seq::empty(), Seq::empty(), false)
        } else if !except {
            let r = spec_clear_parse(ts, is_cv, i + 1, except);
            (seq![t] + r.0, r.1, r.2)
        } else {
            let r = spec_clear_parse(ts, is_cv, i + 1, except);
            (r.0, seq![t] + r.1, r.2)
        }
    }
}

/// Whether some pattern of the view list matches the name.
pub open spec fn glob_any_v(ps: Seq<Seq<char>>, name: Seq<char>) -> bool {
    exists|i: int| 0 <= i < ps.len() && crate::ident::glob_match(#[trigger] ps[i], name)
}

/// The clear decision over view-level pattern lists.
pub open spec fn should_clear_v(
    v: VariableDefinition,
    delete: Seq<Seq<char>>,
    keep: Seq<Seq<char>>,
    globals: bool,
) -> bool {
    &&& glob_any_v(delete, v.name@)
    &&& !glob_any_v(keep, v.name@)
    &&& v.cleared == 0
    &&& (!v.is_global || globals)
}

/// Whether some pattern of the list matches the name.
pub open spec fn spec_glob_any(ps: Seq<String>, name: Seq<char>) -> bool {
    exists|i: int| 0 <= i < ps.len() && crate::ident::glob_match((#[trigger] ps[i])@, name)
}

/// The string-level and view-level any-pattern tests agree.
pub proof fn lemma_glob_any_views(ps: Seq<String>, name: Seq<char>)
    ensures
        spec_glob_any(ps, name) == glob_any_v(crate::hover::views_of(ps), name),
{
    if spec_glob_any(ps, name) {
        let i = choose|i: int|
            0 <= i < ps.len() && crate::ident::glob_match((#[trigger] ps[i])@, name);
        assert(crate::hover::views_of(ps)[i] == ps[i]@);
    }
    if glob_any_v(crate::hover::views_of(ps), name) {
        let i = choose|i: int|
            0 <= i < crate::hover::views_of(ps).len() && crate::ident::glob_match(
                #[trigger] crate::hover::views_of(ps)[i],
                name,
            );
        assert(crate::hover::views_of(ps)[i] == ps[i]@);
        assert(crate::ident::glob_match(ps[i]@, name));
    }
}

/// The clear decision for one binding: a delete pattern matches its
/// name, no keep pattern does, it is live, and it is not a global
/// kept by default.
pub open spec fn spec_should_clear(
    v: VariableDefinition,
    delete: Seq<String>,
    keep: Seq<String>,
    globals: bool,
) -> bool {
    &&& spec_glob_any(delete, v.name@)
    &&& !spec_glob_any(keep, v.name@)
    &&& v.cleared == 0
    &&& (!v.is_global || globals)
}

/// Clears `vi` exactly when `spec_should_clear` says so, setting its
/// `cleared` row to the command's row and changing nothing else.
fn maybe_clear(
    tree: &SyntaxTree,
    st: &mut ExtractState,
    node: usize,
    vi: usize,
    delete: &Vec<String>,
    keep: &Vec<String>,
    globals: bool,
)
    requires
        tree.wf(),
        node < tree.nodes@.len(),
        state_inv(tree.nodes@, *old(st), tree.nodes@[node as int].range.start),
        vi < old(st).vars@.len(),
    ensures
        state_inv(tree.nodes@, *final(st), tree.nodes@[node as int].range.start),
        final(st).vars@.len() == old(st).vars@.len(),
        final(st).var_owner == old(st).var_owner,
        final(st).refs == old(st).refs,
        final(st).scopes == old(st).scopes,
        final(st).scope_funs == old(st).scope_funs,
        final(st).file_funs == old(st).file_funs,
        final(st).vars@ == if spec_should_clear(old(st).vars@[vi as int], delete@, keep@, globals) {
            old(st).vars@.update(
                vi as int,
                VariableDefinition {
                    cleared: tree.nodes@[node as int].range.start.row,
                    ..old(st).vars@[vi as int]
                },
            )
        } else {
            old(st).vars@
        },
{
    let ghost v0 = old(st).vars@[vi as int];
    let name = st.vars[vi].name.clone();
    let nd = delete.len();
    let mut dmatch = false;
    let mut di: usize = 0;
    while di < nd
        invariant
            old(st) == st,
            v0 == old(st).vars@[vi as int],
            vi < st.vars@.len(),
            name@ == st.vars@[vi as int].name@,
            nd == delete@.len(),
            di <= nd,
            dmatch ==> spec_glob_any(delete@, name@),
            !dmatch ==> forall|k: int|
                0 <= k < di ==> !crate::ident::glob_match((#[trigger] delete@[k])@, name@),
        decreases nd - di,
    {
        if crate::ident::glob_matches(delete[di].as_str(), name.as_str()) {
            proof {
                assert(crate::ident::glob_match(delete@[di as int]@, name@));
            }
            dmatch = true;
        }
        di = di + 1;
    }
    if !dmatch {
        proof {
            assert(!spec_glob_any(delete@, v0.name@));
        }
        return ;
    }
    let nk = keep.len();
    let mut ki: usize = 0;
    while ki < nk
        invariant
            old(st) == st,
            v0 == old(st).vars@[vi as int],
            tree.wf(),
            node < tree.nodes@.len(),
            vi < st.vars@.len(),
            name@ == st.vars@[vi as int].name@,
            state_inv(tree.nodes@, *st, tree.nodes@[node as int].range.start),
            nk == keep@.len(),
            ki <= nk,
            spec_glob_any(delete@, name@),
            forall|k: int| 0 <= k < ki ==> !crate::ident::glob_match((#[trigger] keep@[k])@, name@),
        decreases nk - ki,
    {
        if crate::ident::glob_matches(keep[ki].as_str(), name.as_str()) {
            proof {
                assert(0 <= (ki as int) < keep@.len() && crate::ident::glob_match(
                    keep@[ki as int]@,
                    v0.name@,
                ));
                assert(spec_glob_any(keep@, v0.name@));
            }
            return ;
        }
        ki = ki + 1;
    }
    proof {
        assert(!spec_glob_any(keep@, v0.name@));
    }
    if st.vars[vi].cleared == 0 && (!st.vars[vi].is_global || globals) {
        set_cleared(tree, st, node, vi);
    }
}

/// Whether a binding's owner takes part in a clear: its scope is on
/// the active stack, or it is a file-scope binding and the stack is
/// empty.
pub open spec fn owner_active(owner: Option<usize>, scopes: Seq<usize>) -> bool {
    match owner {
        Option::Some(s) => scopes.contains(s),
        Option::None => scopes.len() == 0,
    }
}

/// Whether `b` is `a` with at most the `cleared` row changed.
pub open spec fn clear_only(a: VariableDefinition, b: VariableDefinition) -> bool {
    b.loc == a.loc && b.name == a.name && b.node == a.node && b.is_parameter == a.is_parameter
        && b.is_global == a.is_global
}

/// The result of a no-argument `clear` on one binding: an active,
/// live, non-global binding is cleared on the command's row; every
/// other binding is kept as it is.
pub open spec fn spec_clear_all(
    v: VariableDefinition,
    owner: Option<usize>,
    scopes: Seq<usize>,
    row: usize,
) -> VariableDefinition {
    if owner_active(owner, scopes) && v.cleared == 0 && !v.is_global {
        VariableDefinition { cleared: row, ..v }
    } else {
        v
    }
}

/// `clear` / `clearvars`: with no arguments, marks exactly every
/// live non-global binding of the active scope (or of the file) as
/// cleared on this row; with arguments, clears by anchored `*`
/// patterns, honouring `global` and, for `clearvars`, `-except`.
/// Only `cleared` rows ever change; references and ownership are
/// kept.
fn clear_command(
    tree: &SyntaxTree,
    st: &mut ExtractState,
    scopes: &Vec<usize>,
    node: usize,
    is_clearvars: bool,
)
    requires
        tree.wf(),
        node < tree.nodes@.len(),
        state_inv(tree.nodes@, *old(st), tree.nodes@[node as int].range.start),
        forall|i: int|
            0 <= i < scopes@.len() ==> ((#[trigger] scopes@[i]) as int) < old(st).scopes@.len(),
    ensures
        state_inv(tree.nodes@, *final(st), tree.nodes@[node as int].range.start),
        final(st).scopes == old(st).scopes,
        final(st).scope_funs == old(st).scope_funs,
        final(st).file_funs == old(st).file_funs,
        final(st).var_owner == old(st).var_owner,
        final(st).refs == old(st).refs,
        final(st).vars@.len() == old(st).vars@.len(),
        forall|i: int|
            0 <= i < final(st).vars@.len() ==> clear_only(
                old(st).vars@[i],
                #[trigger] final(st).vars@[i],
            ),
        tree.nodes@[node as int].parent is None ==> final(st).vars == old(st).vars,
        ({
            let ns = tree.nodes@;
            let row = ns[node as int].range.start.row;
            ns[node as int].parent matches Some(par) ==> first_child_of_kind(
                ns,
                par as int,
                NodeKind::CommandArgument,
                0,
            ) is None ==> forall|i: int|
                0 <= i < final(st).vars@.len() ==> #[trigger] final(st).vars@[i] == spec_clear_all(
                    old(st).vars@[i],
                    old(st).var_owner@[i],
                    scopes@,
                    row,
                )
        }),
        ({
            let ns = tree.nodes@;
            let row = ns[node as int].range.start.row;
            ns[node as int].parent matches Some(par) ==> first_child_of_kind(
                ns,
                par as int,
                NodeKind::CommandArgument,
                0,
            ) is Some ==> ({
                let ts = arg_texts(ns, spec_cmd_args(ns, par as int));
                let p = spec_clear_parse(ts, is_clearvars, 0, false);
                let d = if p.0.len() == 0 {
                    seq!["*"@]
                } else {
                    p.0
                };
                forall|i: int|
                    0 <= i < final(st).vars@.len() ==> #[trigger] final(st).vars@[i] == if owner_active(
                        old(st).var_owner@[i],
                        scopes@,
                    ) && should_clear_v(old(st).vars@[i], d, p.1, p.2) {
                        VariableDefinition { cleared: row, ..old(st).vars@[i] }
                    } else {
                        old(st).vars@[i]
                    }
            })
        }),
{
    let ghost ns = tree.nodes@;
    let ghost st0 = *old(st);
    let ghost bound = ns[node as int].range.start;
    let ghost row = ns[node as int].range.start.row;
    let par = match tree.nodes[node].parent {
        Option::Some(p) => p,
        Option::None => {
            return ;
        },
    };
    let args = command_args(tree, par);
    let ghost ts = arg_texts(ns, args@);
    let na = args.len();
    if na == 0 {
        let nv = st.vars.len();
        let mut vi: usize = 0;
        while vi < nv
            invariant
                tree.wf(),
                ns == tree.nodes@,
                node < ns.len(),
                nv == st.vars@.len(),
                vi <= nv,
                st0 == *old(st),
                nv == st0.vars@.len(),
                state_inv(ns, *st, bound),
                bound == ns[node as int].range.start,
                row == bound.row,
                st.scopes == st0.scopes,
                st.scope_funs == st0.scope_funs,
                st.file_funs == st0.file_funs,
                st.var_owner == st0.var_owner,
                st.refs == st0.refs,
                forall|i: int|
                    0 <= i < vi ==> #[trigger] st.vars@[i] == spec_clear_all(
                        st0.vars@[i],
                        st0.var_owner@[i],
                        scopes@,
                        row,
                    ),
                forall|i: int| vi <= i < nv ==> #[trigger] st.vars@[i] == st0.vars@[i],
                forall|i: int|
                    0 <= i < scopes@.len() ==> ((#[trigger] scopes@[i]) as int)
                        < st.scopes@.len(),
            decreases nv - vi,
        {
            let ghost pre = st.vars@;
            let owner = st.var_owner[vi];
            let active = match owner {
                Option::Some(s) => {
                    let mut found = false;
                    let nsc = scopes.len();
                    let mut si: usize = 0;
                    while si < nsc
                        invariant
                            nsc == scopes@.len(),
                            si <= nsc,
                            found <==> exists|j: int| 0 <= j < si && (#[trigger] scopes@[j]) == s,
                        decreases nsc - si,
                    {
                        if scopes[si] == s {
                            proof {
                                assert(scopes@[si as int] == s);
                            }
                            found = true;
                        }
                        si = si + 1;
                    }
                    proof {
                        assert(found == scopes@.contains(s));
                    }
                    found
                },
                Option::None => scopes.len() == 0,
            };
            proof {
                assert(active == owner_active(st0.var_owner@[vi as int], scopes@));
            }
            if active && st.vars[vi].cleared == 0 && !st.vars[vi].is_global {
                set_cleared(tree, st, node, vi);
                proof {
                    assert(st.vars@[vi as int] == spec_clear_all(
                        st0.vars@[vi as int],
                        st0.var_owner@[vi as int],
                        scopes@,
                        row,
                    ));
                }
            } else {
                proof {
                    assert(st.vars@[vi as int] == spec_clear_all(
                        st0.vars@[vi as int],
                        st0.var_owner@[vi as int],
                        scopes@,
                        row,
                    ));
                }
            }
            vi = vi + 1;
        }
    }
    let mut delete: Vec<String> = Vec::new();
    let mut keep: Vec<String> = Vec::new();
    let mut globals = false;
    let mut except = false;
    let mut ai: usize = 0;
    while ai < na
        invariant
            ns == tree.nodes@,
            na == args@.len(),
            ai <= na,
            ts == arg_texts(ns, args@),
            na == 0 ==> !globals && keep@.len() == 0 && delete@.len() == 0,
            forall|k: int|
                0 <= k < args@.len() ==> is_child(ns, #[trigger] args@[k] as int, par as int),
            ({
                let r = spec_clear_parse(ts, is_clearvars, ai as int, except);
                let full = spec_clear_parse(ts, is_clearvars, 0, false);
                full.0 == crate::hover::views_of(delete@) + r.0 && full.1 == crate::hover::views_of(
                    keep@,
                ) + r.1 && full.2 == (globals || r.2)
            }),
        ensures
            ({
                let full = spec_clear_parse(ts, is_clearvars, 0, false);
                full.0 == crate::hover::views_of(delete@) && full.1 == crate::hover::views_of(
                    keep@,
                ) && full.2 == globals
            }),
        decreases na - ai,
    {
        let ghost vd0 = crate::hover::views_of(delete@);
        let ghost vk0 = crate::hover::views_of(keep@);
        let text = tree.nodes[args[ai]].text.clone();
        proof {
            assert(text@ == ts[ai as int]);
        }
        if str_eq_ignore_case(text.as_str(), "global") {
            globals = true;
        } else if is_clearvars && str_eq_ignore_case(text.as_str(), "-except") {
            except = true;
        } else if starts_dash(text.as_str()) {
            // any other option ends the parse
            proof {
                assert(spec_clear_parse(ts, is_clearvars, ai as int, except) == (
                    Seq::<Seq<char>>::empty(),
                    Seq::<Seq<char>>::empty(),
                    false,
                ));
                assert(crate::hover::views_of(delete@) + Seq::<Seq<char>>::empty()
                    =~= crate::hover::views_of(delete@));
                assert(crate::hover::views_of(keep@) + Seq::<Seq<char>>::empty()
                    =~= crate::hover::views_of(keep@));
            }
            break ;
        } else if !except {
            delete.push(text);
            proof {
                assert(crate::hover::views_of(delete@) =~= vd0.push(ts[ai as int]));
                assert(vd0 + (seq![ts[ai as int]] + spec_clear_parse(
                    ts,
                    is_clearvars,
                    (ai + 1) as int,
                    except,
                ).0) =~= crate::hover::views_of(delete@) + spec_clear_parse(
                    ts,
                    is_clearvars,
                    (ai + 1) as int,
                    except,
                ).0);
            }
        } else {
            keep.push(text);
            proof {
                assert(crate::hover::views_of(keep@) =~= vk0.push(ts[ai as int]));
                assert(vk0 + (seq![ts[ai as int]] + spec_clear_parse(
                    ts,
                    is_clearvars,
                    (ai + 1) as int,
                    except,
                ).1) =~= crate::hover::views_of(keep@) + spec_clear_parse(
                    ts,
                    is_clearvars,
                    (ai + 1) as int,
                    except,
                ).1);
            }
        }
        ai = ai + 1;
    }
    proof {
        assert(spec_clear_parse(ts, is_clearvars, na as int, except) == (
            Seq::<Seq<char>>::empty(),
            Seq::<Seq<char>>::empty(),
            false,
        ));
    }
    let ghost p_parsed = spec_clear_parse(ts, is_clearvars, 0, false);
    if delete.len() == 0 {
        delete.push("*".to_owned());
        proof {
            assert(crate::hover::views_of(delete@) =~= seq!["*"@]);
        }
    }
    let ghost mid = *st;
    let nv2 = st.vars.len();
    let mut vi2: usize = 0;
    while vi2 < nv2
        invariant
            tree.wf(),
            ns == tree.nodes@,
            node < ns.len(),
            nv2 == st.vars@.len(),
            vi2 <= nv2,
            st0 == *old(st),
            nv2 == mid.vars@.len(),
            state_inv(ns, *st, bound),
            bound == ns[node as int].range.start,
            row == bound.row,
            st.scopes == mid.scopes,
            st.scope_funs == mid.scope_funs,
            st.file_funs == mid.file_funs,
            st.var_owner == mid.var_owner,
            st.refs == mid.refs,
            forall|i: int|
                0 <= i < vi2 ==> #[trigger] st.vars@[i] == if owner_active(
                    mid.var_owner@[i],
                    scopes@,
                ) && spec_should_clear(mid.vars@[i], delete@, keep@, globals) {
                    VariableDefinition { cleared: row, ..mid.vars@[i] }
                } else {
                    mid.vars@[i]
                },
            forall|i: int| vi2 <= i < nv2 ==> #[trigger] st.vars@[i] == mid.vars@[i],
            forall|i: int|
                0 <= i < scopes@.len() ==> ((#[trigger] scopes@[i]) as int) < st.scopes@.len(),
        decreases nv2 - vi2,
    {
        let owner = st.var_owner[vi2];
        let active = match owner {
            Option::Some(s) => {
                let mut found = false;
                let nsc = scopes.len();
                let mut si: usize = 0;
                while si < nsc
                    invariant
                        nsc == scopes@.len(),
                        si <= nsc,
                        found <==> exists|j: int| 0 <= j < si && (#[trigger] scopes@[j]) == s,
                    decreases nsc - si,
                {
                    if scopes[si] == s {
                        proof {
                            assert(scopes@[si as int] == s);
                        }
                        found = true;
                    }
                    si = si + 1;
                }
                proof {
                    assert(found == scopes@.contains(s));
                }
                found
            },
            Option::None => scopes.len() == 0,
        };
        proof {
            assert(active == owner_active(mid.var_owner@[vi2 as int], scopes@));
        }
        if active {
            maybe_clear(tree, st, node, vi2, &delete, &keep, globals);
        }
        vi2 = vi2 + 1;
    }
    proof {
        assert forall|i: int| 0 <= i < st.vars@.len() implies clear_only(
            st0.vars@[i],
            #[trigger] st.vars@[i],
        ) by {}
        if first_child_of_kind(ns, par as int, NodeKind::CommandArgument, 0) is Some {
            assert(na > 0);
            assert(mid == st0);
            let tsx = arg_texts(ns, spec_cmd_args(ns, par as int));
            assert(tsx == ts);
            let p = spec_clear_parse(ts, is_clearvars, 0, false);
            let d = if p.0.len() == 0 {
                seq!["*"@]
            } else {
                p.0
            };
            assert(crate::hover::views_of(delete@) == d);
            assert(crate::hover::views_of(keep@) == p.1 && globals == p.2);
            assert forall|i: int| 0 <= i < st.vars@.len() implies #[trigger] st.vars@[i]
                == if owner_active(st0.var_owner@[i], scopes@) && should_clear_v(
                st0.vars@[i],
                d,
                p.1,
                p.2,
            ) {
                VariableDefinition { cleared: row, ..st0.vars@[i] }
            } else {
                st0.vars@[i]
            } by {
                lemma_glob_any_views(delete@, st0.vars@[i].name@);
                lemma_glob_any_views(keep@, st0.vars@[i].name@);
            }
        }
        if first_child_of_kind(ns, par as int, NodeKind::CommandArgument, 0) is None {
            assert(na == 0);
            assert forall|i: int| 0 <= i < st.vars@.len() implies #[trigger] st.vars@[i]
                == spec_clear_all(st0.vars@[i], st0.var_owner@[i], scopes@, row) by {
                assert(mid.vars@[i] == spec_clear_all(
                    st0.vars@[i],
                    st0.var_owner@[i],
                    scopes@,
                    row,
                ));
                if owner_active(mid.var_owner@[i], scopes@) && spec_should_clear(
                    mid.vars@[i],
                    delete@,
                    keep@,
                    globals,
                ) {
                    // only a clear on row zero leaves a just-cleared
                    // binding live; re-clearing it changes nothing
                    assert(mid.vars@[i].cleared == 0 && !mid.vars@[i].is_global);
                    assert(st.vars@[i] == VariableDefinition { cleared: row, ..mid.vars@[i] });
                    if owner_active(st0.var_owner@[i], scopes@) && st0.vars@[i].cleared == 0
                        && !st0.vars@[i].is_global {
                        assert(mid.vars@[i] == VariableDefinition { cleared: row, ..st0.vars@[i] });
                        assert(row == 0);
                    } else {
                        assert(mid.vars@[i] == st0.vars@[i]);
                        assert(false);
                    }
                }
            }
        }
    }
}

/// `syms a b c`: every argument that is a legal identifier becomes a
/// variable; a final mode word is skipped; anything else ends the
/// parse. The walk is exactly a cursor-guarded `def_var` fold over
/// the arguments before the first stop.
fn syms_command(
    tree: &SyntaxTree,
    st: &mut ExtractState,
    scopes: &Vec<usize>,
    node: usize,
) -> (ncur: Point)
    requires
        tree.wf(),
        node < tree.nodes@.len(),
        state_inv(tree.nodes@, *old(st), tree.nodes@[node as int].range.start),
        forall|i: int|
            0 <= i < scopes@.len() ==> ((#[trigger] scopes@[i]) as int) < old(st).scopes@.len(),
    ensures
        state_inv(tree.nodes@, *final(st), ncur),
        point_le(tree.nodes@[node as int].range.start, ncur),
        final(st).scopes == old(st).scopes,
        final(st).scope_funs == old(st).scope_funs,
        final(st).file_funs == old(st).file_funs,
        tree.nodes@[node as int].parent is None ==> *final(st) == *old(st) && ncur == tree.nodes@[
            node as int
        ].range.start,
        ({
            let ns = tree.nodes@;
            ns[node as int].parent matches Some(par) ==> ({
                let args = spec_cmd_args(ns, par as int);
                let lim = syms_first_stop(ns, args, 0);
                exists|sts: Seq<ExtractState>, curs: Seq<Point>|
                    #[trigger] def_fold(ns, args.take(lim), scopes@, sts, curs) && sts[0] == *old(
                        st,
                    ) && curs[0] == ns[node as int].range.start && sts.last() == *final(st)
                        && curs.last() == ncur
            })
        }),
{
    let ghost ns = tree.nodes@;
    let ghost st0 = *old(st);
    let mut cur = tree.nodes[node].range.start;
    let par = match tree.nodes[node].parent {
        Option::Some(p) => p,
        Option::None => {
            return cur;
        },
    };
    let args = command_args(tree, par);
    let na = args.len();
    let ghost mut sts: Seq<ExtractState> = seq![st0];
    let ghost mut curs: Seq<Point> = seq![ns[node as int].range.start];
    let mut ai: usize = 0;
    while ai < na
        invariant
            tree.wf(),
            ns == tree.nodes@,
            node < ns.len(),
            na == args@.len(),
            args@ == spec_cmd_args(ns, par as int),
            ai <= na,
            forall|k: int|
                0 <= k < args@.len() ==> is_child(ns, #[trigger] args@[k] as int, par as int)
                    && ns[args@[k] as int].kind == NodeKind::CommandArgument,
            state_inv(ns, *st, cur),
            point_le(ns[node as int].range.start, cur),
            st.scopes == old(st).scopes,
            st.scope_funs == old(st).scope_funs,
            st.file_funs == old(st).file_funs,
            forall|i: int|
                0 <= i < scopes@.len() ==> ((#[trigger] scopes@[i]) as int) < st.scopes@.len(),
            sts.len() == ai + 1,
            curs.len() == ai + 1,
            sts[0] == st0,
            curs[0] == ns[node as int].range.start,
            sts.last() == *st,
            curs.last() == cur,
            def_fold(ns, args@.take(ai as int), scopes@, sts, curs),
            syms_first_stop(ns, args@, 0) == syms_first_stop(ns, args@, ai as int),
        ensures
            state_inv(ns, *st, cur),
            point_le(ns[node as int].range.start, cur),
            st.scopes == old(st).scopes,
            st.scope_funs == old(st).scope_funs,
            st.file_funs == old(st).file_funs,
            def_fold(
                ns,
                args@.take(syms_first_stop(ns, args@, 0)),
                scopes@,
                sts,
                curs,
            ),
            sts[0] == st0,
            curs[0] == ns[node as int].range.start,
            sts.last() == *st,
            curs.last() == cur,
        decreases na - ai,
    {
        let ghost stpre = *st;
        let arg = args[ai];
        let text = tree.nodes[arg].text.clone();
        if ai == na - 1 && (str_eq(text.as_str(), "matrix") || str_eq(text.as_str(), "clear")
            || str_eq(text.as_str(), "real") || str_eq(text.as_str(), "positive")) {
            proof {
                assert(syms_stop(ns, args@, ai as int));
                assert(syms_first_stop(ns, args@, 0) == ai as int);
            }
            break ;
        }
        if crate::ident::is_valid_identifier(text.as_str()) {
            proof {
                assert(!syms_stop(ns, args@, ai as int));
                assert(args@.take((ai + 1) as int) =~= args@.take(ai as int).push(
                    args@[ai as int],
                ));
            }
            let astart = tree.nodes[arg].range.start;
            if crate::range::point_le_exec(cur, astart) {
                proof {
                    lemma_state_inv_mono(ns, *st, cur, astart);
                }
                def_var(tree, st, text, scopes, arg);
                proof {
                    sts = sts.push(*st);
                    curs = curs.push(astart);
                    assert(def_var_rel(ns, stpre, *st, ns[arg as int].text@, scopes@, arg as int));
                }
                cur = astart;
            } else {
                proof {
                    sts = sts.push(*st);
                    curs = curs.push(cur);
                }
            }
            proof {
                assert forall|j: int| 0 <= j < args@.take((ai + 1) as int).len() implies ({
                    let a = (#[trigger] args@.take((ai + 1) as int)[j]) as int;
                    if point_le(curs[j], ns[a].range.start) {
                        def_var_rel(ns, sts[j], sts[j + 1], ns[a].text@, scopes@, a) && curs[j + 1]
                            == ns[a].range.start
                    } else {
                        sts[j + 1] == sts[j] && curs[j + 1] == curs[j]
                    }
                }) by {
                    if j < ai as int {
                        assert(args@.take((ai + 1) as int)[j] == args@.take(ai as int)[j]);
                    }
                }
            }
        } else {
            proof {
                assert(syms_stop(ns, args@, ai as int));
                assert(syms_first_stop(ns, args@, 0) == ai as int);
            }
            break ;
        }
        ai = ai + 1;
    }
    proof {
        let lim = syms_first_stop(ns, args@, 0);
        assert(def_fold(ns, args@.take(lim), scopes@, sts, curs) && sts[0] == st0 && curs[0] == ns[
            node as int
        ].range.start && sts.last() == *st && curs.last() == cur);
    }
    cur
}

/// Handles a command-form statement, dispatching on the lower-cased
/// command name; an unknown name resolves to a script, or to a
/// function.
pub fn command_capture(
    tree: &SyntaxTree,
    st: &mut ExtractState,
    store: &Store,
    scopes: &Vec<usize>,
    node: usize,
) -> (ncur: Point)
    requires
        tree.wf(),
        node < tree.nodes@.len(),
        state_inv(tree.nodes@, *old(st), tree.nodes@[node as int].range.start),
        store.wf(),
        forall|i: int|
            0 <= i < scopes@.len() ==> ((#[trigger] scopes@[i]) as int) < old(st).scopes@.len(),
    ensures
        state_inv(tree.nodes@, *final(st), ncur),
        point_le(tree.nodes@[node as int].range.start, ncur),
        final(st).scopes == old(st).scopes,
        final(st).scope_funs == old(st).scope_funs,
        ({
            let ns = tree.nodes@;
            let st0 = *old(st);
            let row = ns[node as int].range.start.row;
            (crate::ident::eq_ignore_ascii_case(ns[node as int].text@, "clear"@)
                || crate::ident::eq_ignore_ascii_case(ns[node as int].text@, "clearvars"@)) ==> {
                &&& ncur == ns[node as int].range.start
                &&& final(st).refs == st0.refs
                &&& final(st).var_owner == st0.var_owner
                &&& final(st).file_funs == st0.file_funs
                &&& final(st).vars@.len() == st0.vars@.len()
                &&& (forall|i: int|
                    0 <= i < final(st).vars@.len() ==> clear_only(
                        st0.vars@[i],
                        #[trigger] final(st).vars@[i],
                    ))
                &&& (ns[node as int].parent is None ==> final(st).vars == st0.vars)
                &&& (ns[node as int].parent matches Some(par) ==> first_child_of_kind(
                    ns,
                    par as int,
                    NodeKind::CommandArgument,
                    0,
                ) is None ==> forall|i: int|
                    0 <= i < final(st).vars@.len() ==> #[trigger] final(st).vars@[i]
                        == spec_clear_all(st0.vars@[i], st0.var_owner@[i], scopes@, row))
                &&& (ns[node as int].parent matches Some(par) ==> first_child_of_kind(
                    ns,
                    par as int,
                    NodeKind::CommandArgument,
                    0,
                ) is Some ==> ({
                    let ts = arg_texts(ns, spec_cmd_args(ns, par as int));
                    let p = spec_clear_parse(
                        ts,
                        crate::ident::eq_ignore_ascii_case(ns[node as int].text@, "clearvars"@),
                        0,
                        false,
                    );
                    let d = if p.0.len() == 0 {
                        seq!["*"@]
                    } else {
                        p.0
                    };
                    forall|i: int|
                        0 <= i < final(st).vars@.len() ==> #[trigger] final(st).vars@[i]
                            == if owner_active(st0.var_owner@[i], scopes@) && should_clear_v(
                            st0.vars@[i],
                            d,
                            p.1,
                            p.2,
                        ) {
                            VariableDefinition { cleared: row, ..st0.vars@[i] }
                        } else {
                            st0.vars@[i]
                        }
                }))
            }
        }),
        ({
            let ns = tree.nodes@;
            let st0 = *old(st);
            crate::ident::eq_ignore_ascii_case(ns[node as int].text@, "syms"@) ==> ({
                &&& (ns[node as int].parent is None ==> *final(st) == st0 && ncur == ns[
                    node as int
                ].range.start)
                &&& (ns[node as int].parent matches Some(par) ==> ({
                    let args = spec_cmd_args(ns, par as int);
                    let lim = syms_first_stop(ns, args, 0);
                    exists|sts: Seq<ExtractState>, curs: Seq<Point>|
                        #[trigger] def_fold(ns, args.take(lim), scopes@, sts, curs) && sts[0]
                            == st0 && curs[0] == ns[node as int].range.start && sts.last()
                            == *final(st) && curs.last() == ncur
                }))
            })
        }),
        ({
            let ns = tree.nodes@;
            let st0 = *old(st);
            crate::ident::eq_ignore_ascii_case(ns[node as int].text@, "load"@) ==> ({
                &&& (ns[node as int].parent is None ==> *final(st) == st0 && ncur == ns[
                    node as int
                ].range.start)
                &&& (ns[node as int].parent matches Some(par) ==> ({
                    let args = spec_cmd_args(ns, par as int);
                    &&& (args.len() <= 1 ==> *final(st) == st0 && ncur == ns[
                        node as int
                    ].range.start)
                    &&& (args.len() > 1 ==> exists|sts: Seq<ExtractState>, curs: Seq<Point>|
                        #[trigger] def_fold(ns, args.skip(1), scopes@, sts, curs) && sts[0] == st0
                            && curs[0] == ns[node as int].range.start && sts.last() == *final(st)
                            && curs.last() == ncur)
                }))
            })
        }),
        ({
            let ns = tree.nodes@;
            let st0 = *old(st);
            let text = ns[node as int].text@;
            !(crate::ident::eq_ignore_ascii_case(text, "load"@) || crate::ident::eq_ignore_ascii_case(
                text,
                "import"@,
            ) || crate::ident::eq_ignore_ascii_case(text, "clear"@)
                || crate::ident::eq_ignore_ascii_case(text, "clearvars"@)
                || crate::ident::eq_ignore_ascii_case(text, "syms"@)) ==> {
                &&& ncur == ns[node as int].range.start
                &&& final(st).vars == st0.vars
                &&& final(st).var_owner == st0.var_owner
                &&& final(st).file_funs == st0.file_funs
                &&& match crate::store::spec_first_script(store.parsed_files@, text, 0) {
                    Option::Some(pf) => final(st).refs@ == st0.refs@.push(
                        Reference {
                            loc: ns[node as int].range,
                            name: ns[node as int].text,
                            target: ReferenceTarget::Script(pf.path),
                            node: node,
                        },
                    ),
                    Option::None => match spec_ref_to_fn(st0, *store, scopes@, text, false) {
                        Option::Some(fd) => final(st).refs@ == st0.refs@.push(
                            final(st).refs@.last(),
                        ) && final(st).refs@.last().loc == ns[node as int].range
                            && final(st).refs@.last().name@ == text
                            && final(st).refs@.last().node == node && fn_target_eq(
                            final(st).refs@.last().target,
                            fd,
                        ),
                        Option::None => *final(st) == st0,
                    },
                }
            }
        }),
{
    let ghost ns = tree.nodes@;
    let ghost st0 = *old(st);
    proof {
        reveal_strlit("load");
        reveal_strlit("import");
        reveal_strlit("clear");
        reveal_strlit("clearvars");
        reveal_strlit("syms");
    }
    let cur = tree.nodes[node].range.start;
    let name = tree.nodes[node].text.clone();
    if str_eq_ignore_case(name.as_str(), "load") {
        proof {
            if crate::ident::eq_ignore_ascii_case(ns[node as int].text@, "syms"@) {
                assert(crate::ident::lower_code(ns[node as int].text@[0] as u32)
                    == crate::ident::lower_code("load"@[0] as u32));
                assert(crate::ident::lower_code(ns[node as int].text@[0] as u32)
                    == crate::ident::lower_code("syms"@[0] as u32));
                assert(false);
            }
        }
        return load_command(tree, st, scopes, node);
    }
    if str_eq_ignore_case(name.as_str(), "import") {
        import_command(tree, st, store, node);
        return cur;
    }
    if str_eq_ignore_case(name.as_str(), "clear") {
        clear_command(tree, st, scopes, node, false);
        return cur;
    }
    if str_eq_ignore_case(name.as_str(), "clearvars") {
        clear_command(tree, st, scopes, node, true);
        return cur;
    }
    if str_eq_ignore_case(name.as_str(), "syms") {
        return syms_command(tree, st, scopes, node);
    }
    let script_path: Option<String> = match store.get_script(name.as_str()) {
        Option::Some(pf) => Option::Some(pf.path.clone()),
        Option::None => Option::None,
    };
    match script_path {
        Option::Some(path) => {
            push_plain_ref(tree, st, name, node, ReferenceTarget::Script(path));
        },
        Option::None => {
            match ref_to_fn(st, store, scopes, name.as_str(), false) {
                Option::Some(fd) => {
                    push_plain_ref(tree, st, name, node, ReferenceTarget::Function(fd));
                },
                Option::None => {},
            }
        },
    }
    cur
}

/// Removes one leading dot, if present.
fn strip_leading_dot(s: String) -> (r: String)
    ensures
        r@ == if s@.len() > 0 && s@[0] == '.' {
            s@.subrange(1, s@.len() as int)
        } else {
            s@
        },
{
    let n = s.as_str().unicode_len();
    if n > 0 && s.as_str().get_char(0) == '.' {
        s.as_str().substring_char(1, n).to_owned()
    } else {
        s
    }
}

/// The `field` children of the field expression at `node`, paired
/// with the identifier (or call name) they stand on, walked left to
/// right and truncated at the first field on another row or of an
/// unexpected shape.
fn field_chain(tree: &SyntaxTree, node: usize) -> (r: Vec<(String, usize)>)
    requires
        tree.wf(),
        node < tree.nodes@.len(),
    ensures
        forall|k: int| 0 <= k < r@.len() ==> ((#[trigger] r@[k]).1 as int) < tree.nodes@.len(),
{
    let ghost ns = tree.nodes@;
    let n = tree.nodes.len();
    let row = tree.nodes[node].range.start.row;
    let mut r: Vec<(String, usize)> = Vec::new();
    let mut c: usize = 0;
    while c < n
        invariant
            tree.wf(),
            ns == tree.nodes@,
            n == ns.len(),
            c <= n,
            node < n,
            forall|k: int| 0 <= k < r@.len() ==> ((#[trigger] r@[k]).1 as int) < ns.len(),
        decreases n - c,
    {
        let mut is_field = false;
        if let Option::Some(p) = tree.nodes[c].parent {
            if p == node && tree.nodes[c].field == Field::FieldMember {
                is_field = true;
            }
        }
        if is_field {
            if tree.nodes[c].range.start.row != row {
                // a field on another row belongs to the next line
                return r;
            }
            if tree.nodes[c].kind == NodeKind::Identifier {
                r.push((tree.nodes[c].text.clone(), c));
            } else if tree.nodes[c].kind == NodeKind::FunctionCall {
                match tree.child_by_field(c, Field::FieldName) {
                    Option::Some(nc) => {
                        r.push((tree.nodes[nc].text.clone(), nc));
                    },
                    Option::None => {
                        return r;
                    },
                }
            } else {
                return r;
            }
        }
        c = c + 1;
    }
    r
}

/// Whether a field expression stands in definition position: under
/// a multi-output list, or as the left-hand side of its assignment.
pub open spec fn spec_field_is_def(ns: Seq<SyntaxNode>, node: int) -> bool {
    match ns[node].parent {
        Option::Some(p) => ns[p as int].kind == NodeKind::MultioutputVariable || (ns[p as int].kind
            == NodeKind::Assignment && first_child_with_field(ns, p as int, Field::FieldLeft, 0)
            == Some(node as usize)),
        Option::None => false,
    }
}

/// What the field walk's first step does to the state, read off the
/// final state: in definition mode a visible binding of the base is
/// referenced, or the base is introduced by `def_var` (witness
/// `st1`); in reference mode the base resolves as a variable, or
/// opens the namespace walk with a package whose name extends the
/// base, or — when no package matches — the walk records nothing.
pub open spec fn field_first_step(
    ns: Seq<SyntaxNode>,
    store: Store,
    st0: ExtractState,
    st1: ExtractState,
    cur_st: ExtractState,
    scopes: Seq<usize>,
    node: int,
    object: int,
) -> bool {
    let path0 = ns[object].text@;
    let vref0 = first_acceptable(ns, st0.vars@, path0, object, search_order(st0, scopes), 0);
    let at0 = st0.refs@.len() as int;
    if spec_field_is_def(ns, node) {
        if vref0 is Some {
            &&& cur_st.refs@.len() > st0.refs@.len()
            &&& cur_st.refs@[at0].loc == ns[object].range
            &&& cur_st.refs@[at0].name@ == path0
            &&& cur_st.refs@[at0].node == object as usize
            &&& cur_st.refs@[at0].target == ReferenceTarget::Variable(vref0->0)
        } else {
            &&& def_var_rel(ns, st0, st1, path0, scopes, object)
            &&& st1.refs@.is_prefix_of(cur_st.refs@)
            &&& st1.vars@.is_prefix_of(cur_st.vars@)
        }
    } else {
        if vref0 is Some {
            &&& cur_st.refs@.len() > st0.refs@.len()
            &&& cur_st.refs@[at0].loc == ns[object].range
            &&& cur_st.refs@[at0].name@ == path0
            &&& cur_st.refs@[at0].node == object as usize
            &&& cur_st.refs@[at0].target == ReferenceTarget::Variable(vref0->0)
        } else {
            if exists|ci: int|
                0 <= ci < store.packages@.len() && crate::ident::spec_starts_with(
                    (#[trigger] store.packages@[ci])@,
                    path0,
                ) {
                &&& cur_st.refs@.len() > st0.refs@.len()
                &&& cur_st.refs@[at0].loc == ns[object].range
                &&& cur_st.refs@[at0].name@ == path0
                &&& cur_st.refs@[at0].node == object as usize
                &&& (cur_st.refs@[at0].target matches ReferenceTarget::Namespace(x)
                    && crate::ident::spec_starts_with(x@, path0) && exists|ci: int|
                    0 <= ci < store.packages@.len() && (#[trigger] store.packages@[ci])@ == x@)
            } else {
                cur_st == st0
            }
        }
    }
}

/// A sequence is a prefix of itself.
pub proof fn lemma_prefix_refl<T>(a: Seq<T>)
    ensures
        a.is_prefix_of(a),
{
    assert(a =~= a.subrange(0, a.len() as int));
}

/// Appending keeps every prefix.
pub proof fn lemma_prefix_push<T>(a: Seq<T>, b: Seq<T>, x: T)
    requires
        a.is_prefix_of(b),
    ensures
        a.is_prefix_of(b.push(x)),
{
    assert(b.push(x).subrange(0, a.len() as int) =~= b.subrange(0, a.len() as int));
}

/// Prefixes chain.
pub proof fn lemma_prefix_trans<T>(a: Seq<T>, b: Seq<T>, c: Seq<T>)
    requires
        a.is_prefix_of(b),
        b.is_prefix_of(c),
    ensures
        a.is_prefix_of(c),
{
    assert(c.subrange(0, a.len() as int) =~= c.subrange(0, b.len() as int).subrange(
        0,
        a.len() as int,
    ));
}

/// An indexed element persists under a prefix extension.
pub proof fn lemma_prefix_index<T>(a: Seq<T>, b: Seq<T>, i: int)
    requires
        a.is_prefix_of(b),
        0 <= i < a.len(),
    ensures
        a[i] == b[i],
{
    assert(a[i] == b.subrange(0, a.len() as int)[i]);
}

/// The first field step survives further appends to the state.
proof fn lemma_first_step_grow(
    ns: Seq<SyntaxNode>,
    store: Store,
    st0: ExtractState,
    st1: ExtractState,
    a: ExtractState,
    b: ExtractState,
    scopes: Seq<usize>,
    node: int,
    object: int,
)
    requires
        field_first_step(ns, store, st0, st1, a, scopes, node, object),
        a.refs@.is_prefix_of(b.refs@),
        a.vars@.is_prefix_of(b.vars@),
        spec_field_is_def(ns, node) || first_acceptable(
            ns,
            st0.vars@,
            ns[object].text@,
            object,
            search_order(st0, scopes),
            0,
        ) is Some || (exists|ci: int|
            0 <= ci < store.packages@.len() && crate::ident::spec_starts_with(
                (#[trigger] store.packages@[ci])@,
                ns[object].text@,
            )),
    ensures
        field_first_step(ns, store, st0, st1, b, scopes, node, object),
{
    let at0 = st0.refs@.len() as int;
    if a.refs@.len() > st0.refs@.len() {
        lemma_prefix_index(a.refs@, b.refs@, at0);
    }
    let path0 = ns[object].text@;
    let vref0 = first_acceptable(ns, st0.vars@, path0, object, search_order(st0, scopes), 0);
    if spec_field_is_def(ns, node) && vref0 is None {
        lemma_prefix_trans(st1.refs@, a.refs@, b.refs@);
        lemma_prefix_trans(st1.vars@, a.vars@, b.vars@);
    }
}

/// Handles a field expression `object.field...`: on the left of an
/// assignment it introduces struct-like definitions; elsewhere the
/// base resolves as a variable, or opens a namespace walk through
/// the store's packages and functions.
pub fn field_capture(
    tree: &SyntaxTree,
    st: &mut ExtractState,
    store: &Store,
    scopes: &Vec<usize>,
    node: usize,
) -> (ncur: Point)
    requires
        tree.wf(),
        node < tree.nodes@.len(),
        state_inv(tree.nodes@, *old(st), tree.nodes@[node as int].range.start),
        store.wf(),
        forall|i: int|
            0 <= i < scopes@.len() ==> ((#[trigger] scopes@[i]) as int) < old(st).scopes@.len(),
    ensures
        state_inv(tree.nodes@, *final(st), ncur),
        point_le(tree.nodes@[node as int].range.start, ncur),
        final(st).scopes == old(st).scopes,
        final(st).scope_funs == old(st).scope_funs,
        final(st).file_funs == old(st).file_funs,
        old(st).refs@.is_prefix_of(final(st).refs@),
        ({
            let ns = tree.nodes@;
            first_child_with_field(ns, node as int, Field::FieldObject, 0) is None ==> *final(st)
                == *old(st) && ncur == ns[node as int].range.start
        }),
        ({
            let ns = tree.nodes@;
            let st0 = *old(st);
            first_child_with_field(ns, node as int, Field::FieldObject, 0) matches Some(object)
                ==> ns[object as int].kind != NodeKind::FunctionCall ==> {
                &&& (!point_le(ns[node as int].range.start, ns[object as int].range.start)
                    ==> *final(st) == st0 && ncur == ns[node as int].range.start)
                &&& (point_le(ns[node as int].range.start, ns[object as int].range.start)
                    ==> point_le(ns[object as int].range.start, ncur) && exists|
                    st1: ExtractState,
                |
                    #[trigger] field_first_step(
                        ns,
                        *store,
                        st0,
                        st1,
                        *final(st),
                        scopes@,
                        node as int,
                        object as int,
                    ))
            }
        }),
{
    let ghost ns = tree.nodes@;
    let ghost st0 = *old(st);
    let mut cur = tree.nodes[node].range.start;
    let is_def = match tree.nodes[node].parent {
        Option::Some(p) => {
            if tree.nodes[p].kind == NodeKind::MultioutputVariable {
                true
            } else if tree.nodes[p].kind == NodeKind::Assignment {
                match tree.child_by_field(p, Field::FieldLeft) {
                    Option::Some(l) => l == node,
                    Option::None => false,
                }
            } else {
                false
            }
        },
        Option::None => false,
    };
    let object = match tree.child_by_field(node, Field::FieldObject) {
        Option::Some(o) => o,
        Option::None => {
            proof {
                lemma_prefix_refl(st0.refs@);
            }
            return cur;
        },
    };
    if tree.nodes[object].kind == NodeKind::FunctionCall {
        // `obj(1).f`: resolve the call's name as usual, and in
        // definition mode also define it.
        let name_node = match tree.child_by_field(object, Field::FieldName) {
            Option::Some(nc) => nc,
            Option::None => {
                proof {
                    lemma_prefix_refl(st0.refs@);
                }
                return cur;
            },
        };
        if !(tree.nodes[name_node].kind == NodeKind::Identifier) {
            proof {
                lemma_prefix_refl(st0.refs@);
            }
            return cur;
        }
        let nstart = tree.nodes[name_node].range.start;
        if !crate::range::point_le_exec(cur, nstart) {
            proof {
                lemma_prefix_refl(st0.refs@);
            }
            return cur;
        }
        proof {
            lemma_state_inv_mono(ns, *st, cur, nstart);
        }
        cur = nstart;
        let name = tree.nodes[name_node].text.clone();
        match ref_to_var(tree, st, name.as_str(), scopes, name_node) {
            Option::Some(vi) => {
                push_var_ref(tree, st, name.as_str(), name_node, vi);
                proof {
                    lemma_prefix_refl(st0.refs@);
                    lemma_prefix_push(st0.refs@, st0.refs@, st.refs@.last());
                }
            },
            Option::None => {
                match ref_to_fn(st, store, scopes, name.as_str(), false) {
                    Option::Some(fd) => {
                        push_plain_ref(
                            tree,
                            st,
                            name.clone(),
                            name_node,
                            ReferenceTarget::Function(fd),
                        );
                        proof {
                            lemma_prefix_refl(st0.refs@);
                            lemma_prefix_push(st0.refs@, st0.refs@, st.refs@.last());
                        }
                    },
                    Option::None => {
                        proof {
                            lemma_prefix_refl(st0.refs@);
                        }
                    },
                }
            },
        }
        proof {
            assert(st0.refs@.is_prefix_of(st.refs@));
        }
        if is_def {
            let ghost stm = *st;
            def_var(tree, st, name, scopes, name_node);
            proof {
                if st.refs@.len() > stm.refs@.len() {
                    assert(st.refs@ == stm.refs@.push(st.refs@.last()));
                    lemma_prefix_refl(stm.refs@);
                    lemma_prefix_push(stm.refs@, stm.refs@, st.refs@.last());
                    lemma_prefix_trans(st0.refs@, stm.refs@, st.refs@);
                } else {
                    assert(st.refs@ == stm.refs@);
                }
            }
        }
        return cur;
    }
    let mut list: Vec<(String, usize)> = Vec::new();
    list.push((tree.nodes[object].text.clone(), object));
    let chain = field_chain(tree, node);
    let nch = chain.len();
    let mut ci: usize = 0;
    while ci < nch
        invariant
            ns == tree.nodes@,
            nch == chain@.len(),
            ci <= nch,
            object < ns.len(),
            list@.len() >= 1,
            list@[0].1 == object,
            list@[0].0@ == ns[object as int].text@,
            forall|k: int| 0 <= k < chain@.len() ==> ((#[trigger] chain@[k]).1 as int) < ns.len(),
            forall|k: int| 0 <= k < list@.len() ==> ((#[trigger] list@[k]).1 as int) < ns.len(),
        decreases nch - ci,
    {
        let fname = chain[ci].0.clone();
        list.push((fname, chain[ci].1));
        ci = ci + 1;
    }
    let mut is_pack = false;
    let mut current_ns: Option<String> = None;
    let mut path = String::new();
    let nl = list.len();
    let ghost vref0 = first_acceptable(
        ns,
        st0.vars@,
        ns[object as int].text@,
        object as int,
        search_order(st0, scopes@),
        0,
    );
    let ghost mut st1g = st0;
    let mut i: usize = 0;
    while i < nl
        invariant
            tree.wf(),
            ns == tree.nodes@,
            node < ns.len(),
            object < ns.len(),
            nl == list@.len(),
            nl >= 1,
            i <= nl,
            list@[0].1 == object,
            list@[0].0@ == ns[object as int].text@,
            first_child_with_field(ns, node as int, Field::FieldObject, 0) == Some(object),
            ns[object as int].kind != NodeKind::FunctionCall,
            i > 0 ==> point_le(ns[node as int].range.start, ns[object as int].range.start),
            is_def == spec_field_is_def(ns, node as int),
            vref0 == first_acceptable(
                ns,
                st0.vars@,
                ns[object as int].text@,
                object as int,
                search_order(st0, scopes@),
                0,
            ),
            forall|k: int| 0 <= k < list@.len() ==> ((#[trigger] list@[k]).1 as int) < ns.len(),
            state_inv(ns, *st, cur),
            point_le(ns[node as int].range.start, cur),
            store.wf(),
            st0 == *old(st),
            st.scopes == st0.scopes,
            st.scope_funs == st0.scope_funs,
            st.file_funs == st0.file_funs,
            st0.refs@.is_prefix_of(st.refs@),
            st0.vars@.is_prefix_of(st.vars@),
            i == 0 ==> *st == st0 && cur == ns[node as int].range.start,
            i == 0 ==> current_ns is None,
            i > 0 ==> point_le(ns[object as int].range.start, cur),
            i > 0 ==> field_first_step(
                ns,
                *store,
                st0,
                st1g,
                *st,
                scopes@,
                node as int,
                object as int,
            ),
            i > 0 ==> (spec_field_is_def(ns, node as int) || vref0 is Some || (exists|ci: int|
                0 <= ci < store.packages@.len() && crate::ident::spec_starts_with(
                    (#[trigger] store.packages@[ci])@,
                    ns[object as int].text@,
                ))),
            forall|j: int|
                0 <= j < scopes@.len() ==> ((#[trigger] scopes@[j]) as int) < st.scopes@.len(),
        decreases nl - i,
    {
        let ghost stpre = *st;
        let fname = list[i].0.clone();
        let fnode = list[i].1;
        path = if i == 0 {
            fname.clone()
        } else {
            crate::store::qualified_name(path.as_str(), fname.as_str())
        };
        let fstart = tree.nodes[fnode].range.start;
        if !crate::range::point_le_exec(cur, fstart) {
            return cur;
        }
        proof {
            lemma_state_inv_mono(ns, *st, cur, fstart);
        }
        cur = fstart;
        if is_def {
            // Definitions can shadow namespaces, so namespaces play
            // no part here.
            match ref_to_var(tree, st, path.as_str(), scopes, fnode) {
                Option::Some(vi) => {
                    push_var_ref(tree, st, path.as_str(), fnode, vi);
                    proof {
                        lemma_prefix_refl(stpre.refs@);
                        lemma_prefix_push(stpre.refs@, stpre.refs@, st.refs@.last());
                        lemma_prefix_trans(st0.refs@, stpre.refs@, st.refs@);
                        lemma_prefix_refl(stpre.vars@);
                        if i == 0 {
                            assert(st.refs@[st0.refs@.len() as int] == st.refs@.last());
                            assert(field_first_step(
                                ns,
                                *store,
                                st0,
                                st1g,
                                *st,
                                scopes@,
                                node as int,
                                object as int,
                            ));
                        } else {
                            lemma_first_step_grow(
                                ns,
                                *store,
                                st0,
                                st1g,
                                stpre,
                                *st,
                                scopes@,
                                node as int,
                                object as int,
                            );
                        }
                    }
                    i = i + 1;
                    continue ;
                },
                Option::None => {
                    if i > 0 {
                        push_plain_ref(
                            tree,
                            st,
                            path.clone(),
                            fnode,
                            ReferenceTarget::UnknownVariable,
                        );
                        proof {
                            lemma_prefix_refl(stpre.refs@);
                            lemma_prefix_push(stpre.refs@, stpre.refs@, st.refs@.last());
                        }
                    } else {
                        proof {
                            lemma_prefix_refl(stpre.refs@);
                        }
                    }
                },
            }
            let ghost stm = *st;
            proof {
                assert(stpre.refs@.is_prefix_of(stm.refs@));
                lemma_prefix_refl(stpre.vars@);
            }
            if i == 0 || i == nl - 1 {
                def_var(tree, st, path.clone(), scopes, fnode);
                proof {
                    if st.refs@.len() > stm.refs@.len() {
                        assert(st.refs@ == stm.refs@.push(st.refs@.last()));
                        lemma_prefix_refl(stm.refs@);
                        lemma_prefix_push(stm.refs@, stm.refs@, st.refs@.last());
                        lemma_prefix_trans(stpre.refs@, stm.refs@, st.refs@);
                    }
                    if st.vars@.len() > stm.vars@.len() {
                        assert(st.vars@ == stm.vars@.push(st.vars@.last()));
                        lemma_prefix_refl(stm.vars@);
                        lemma_prefix_push(stm.vars@, stm.vars@, st.vars@.last());
                    }
                    assert(stpre.refs@.is_prefix_of(st.refs@));
                    assert(stpre.vars@.is_prefix_of(st.vars@));
                    if i == 0 {
                        st1g = *st;
                        assert(def_var_rel(ns, st0, st1g, ns[object as int].text@, scopes@, object as int));
                        lemma_prefix_refl(st1g.refs@);
                        lemma_prefix_refl(st1g.vars@);
                        assert(field_first_step(
                            ns,
                            *store,
                            st0,
                            st1g,
                            *st,
                            scopes@,
                            node as int,
                            object as int,
                        ));
                    }
                }
            }
        } else {
            if i == 0 {
                is_pack = match ref_to_var(tree, st, path.as_str(), scopes, fnode) {
                    Option::Some(_) => false,
                    Option::None => true,
                };
                proof {
                    assert(is_pack == (vref0 is None));
                }
            }
            if is_pack {
                let prev = current_ns;
                current_ns = None;
                match prev {
                    Option::Some(nsp) => {
                        proof {
                            assert(i > 0);
                        }
                        let pkg0 = crate::store::qualified_name(nsp.as_str(), fname.as_str());
                        let pkg = strip_leading_dot(pkg0);
                        let candidates = store.get_package(pkg.as_str());
                        let shortest = shortest_string(&candidates);
                        let in_call = match tree.nodes[fnode].parent {
                            Option::Some(pf) => tree.nodes[pf].kind == NodeKind::FunctionCall,
                            Option::None => false,
                        };
                        if in_call {
                            let found: Option<FunctionDefinition> = match store.get_function(
                                path.as_str(),
                            ) {
                                Option::Some(fd) => Option::Some(fd.clone()),
                                Option::None => Option::None,
                            };
                            match found {
                                Option::Some(fd) => {
                                    push_plain_ref(
                                        tree,
                                        st,
                                        path.clone(),
                                        fnode,
                                        ReferenceTarget::Function(fd),
                                    );
                                    proof {
                                        lemma_prefix_refl(stpre.refs@);
                                        lemma_prefix_push(stpre.refs@, stpre.refs@, st.refs@.last());
                                        lemma_prefix_refl(stpre.vars@);
                                    }
                                },
                                Option::None => {
                                    push_plain_ref(
                                        tree,
                                        st,
                                        path.clone(),
                                        fnode,
                                        ReferenceTarget::UnknownFunction,
                                    );
                                    proof {
                                        lemma_prefix_refl(stpre.refs@);
                                        lemma_prefix_push(stpre.refs@, stpre.refs@, st.refs@.last());
                                        lemma_prefix_trans(st0.refs@, stpre.refs@, st.refs@);
                                        lemma_prefix_refl(stpre.vars@);
                                        lemma_first_step_grow(
                                            ns,
                                            *store,
                                            st0,
                                            st1g,
                                            stpre,
                                            *st,
                                            scopes@,
                                            node as int,
                                            object as int,
                                        );
                                    }
                                    return cur;
                                },
                            }
                        } else {
                            match shortest {
                                Option::Some(wsname) => {
                                    push_plain_ref(
                                        tree,
                                        st,
                                        path.clone(),
                                        fnode,
                                        ReferenceTarget::Namespace(wsname.clone()),
                                    );
                                    proof {
                                        lemma_prefix_refl(stpre.refs@);
                                        lemma_prefix_push(stpre.refs@, stpre.refs@, st.refs@.last());
                                        lemma_prefix_refl(stpre.vars@);
                                    }
                                    current_ns = Some(wsname);
                                },
                                Option::None => {
                                    push_plain_ref(
                                        tree,
                                        st,
                                        path.clone(),
                                        fnode,
                                        ReferenceTarget::UnknownVariable,
                                    );
                                    proof {
                                        lemma_prefix_refl(stpre.refs@);
                                        lemma_prefix_push(stpre.refs@, stpre.refs@, st.refs@.last());
                                        lemma_prefix_trans(st0.refs@, stpre.refs@, st.refs@);
                                        lemma_prefix_refl(stpre.vars@);
                                        lemma_first_step_grow(
                                            ns,
                                            *store,
                                            st0,
                                            st1g,
                                            stpre,
                                            *st,
                                            scopes@,
                                            node as int,
                                            object as int,
                                        );
                                    }
                                    return cur;
                                },
                            }
                        }
                    },
                    Option::None => {
                        let candidates = store.get_package(fname.as_str());
                        match shortest_string(&candidates) {
                            Option::Some(nsname) => {
                                push_plain_ref(
                                    tree,
                                    st,
                                    path.clone(),
                                    fnode,
                                    ReferenceTarget::Namespace(nsname.clone()),
                                );
                                proof {
                                    lemma_prefix_refl(stpre.refs@);
                                    lemma_prefix_push(stpre.refs@, stpre.refs@, st.refs@.last());
                                    lemma_prefix_refl(stpre.vars@);
                                    if i == 0 {
                                        assert(st.refs@[st0.refs@.len() as int]
                                            == st.refs@.last());
                                        assert(exists|ci: int|
                                            0 <= ci < store.packages@.len()
                                                && crate::ident::spec_starts_with(
                                                (#[trigger] store.packages@[ci])@,
                                                ns[object as int].text@,
                                            ));
                                        assert(field_first_step(
                                            ns,
                                            *store,
                                            st0,
                                            st1g,
                                            *st,
                                            scopes@,
                                            node as int,
                                            object as int,
                                        ));
                                    } else {
                                        lemma_first_step_grow(
                                            ns,
                                            *store,
                                            st0,
                                            st1g,
                                            stpre,
                                            *st,
                                            scopes@,
                                            node as int,
                                            object as int,
                                        );
                                    }
                                }
                                current_ns = Some(nsname);
                            },
                            Option::None => {
                                proof {
                                    if i == 0 {
                                        assert forall|ci: int|
                                            0 <= ci < store.packages@.len() implies !crate::ident::spec_starts_with(
                                            (#[trigger] store.packages@[ci])@,
                                            ns[object as int].text@,
                                        ) by {
                                            if crate::ident::spec_starts_with(
                                                store.packages@[ci]@,
                                                ns[object as int].text@,
                                            ) {
                                                let k = choose|k: int|
                                                    0 <= k < candidates@.len() && (
                                                    #[trigger] candidates@[k])@
                                                        == store.packages@[ci]@;
                                                assert(false);
                                            }
                                        }
                                        assert(field_first_step(
                                            ns,
                                            *store,
                                            st0,
                                            st1g,
                                            *st,
                                            scopes@,
                                            node as int,
                                            object as int,
                                        ));
                                    }
                                    lemma_prefix_refl(st0.refs@);
                                    lemma_prefix_trans(st0.refs@, stpre.refs@, st.refs@);
                                }
                                return cur;
                            },
                        }
                    },
                }
            } else {
                match ref_to_var(tree, st, path.as_str(), scopes, fnode) {
                    Option::Some(vi) => {
                        push_var_ref(tree, st, path.as_str(), fnode, vi);
                        proof {
                            lemma_prefix_refl(stpre.refs@);
                            lemma_prefix_push(stpre.refs@, stpre.refs@, st.refs@.last());
                            lemma_prefix_refl(stpre.vars@);
                            if i == 0 {
                                assert(st.refs@[st0.refs@.len() as int] == st.refs@.last());
                                assert(field_first_step(
                                    ns,
                                    *store,
                                    st0,
                                    st1g,
                                    *st,
                                    scopes@,
                                    node as int,
                                    object as int,
                                ));
                            }
                        }
                    },
                    Option::None => {
                        proof {
                            if i == 0 {
                                assert(false);
                            }
                        }
                        push_plain_ref(
                            tree,
                            st,
                            path.clone(),
                            fnode,
                            ReferenceTarget::UnknownVariable,
                        );
                        proof {
                            lemma_prefix_refl(stpre.refs@);
                            lemma_prefix_push(stpre.refs@, stpre.refs@, st.refs@.last());
                            lemma_prefix_refl(stpre.vars@);
                        }
                    },
                }
            }
        }
        proof {
            assert(stpre.refs@.is_prefix_of(st.refs@));
            assert(stpre.vars@.is_prefix_of(st.vars@));
            lemma_prefix_trans(st0.refs@, stpre.refs@, st.refs@);
            lemma_prefix_trans(st0.vars@, stpre.vars@, st.vars@);
            if i > 0 {
                lemma_first_step_grow(
                    ns,
                    *store,
                    st0,
                    st1g,
                    stpre,
                    *st,
                    scopes@,
                    node as int,
                    object as int,
                );
            }
        }
        i = i + 1;
    }
    proof {
        assert(field_first_step(ns, *store, st0, st1g, *st, scopes@, node as int, object as int));
    }
    cur
}

/// Soundness of a finished workspace: every reference is tied to
/// its node, and every variable-target reference respects the
/// definition order, clearing, assignment-target and soft-scope
/// disciplines; every variable is tied to its defining node.
pub open spec fn workspace_sound(ns: Seq<SyntaxNode>, ws: Workspace) -> bool {
    &&& (forall|i: int|
        0 <= i < ws.references@.len() ==> ((#[trigger] ws.references@[i]).node as int) < ns.len()
            && ws.references@[i].loc == ns[ws.references@[i].node as int].range && var_ref_sound(
            ns,
            ws.variables@,
            ws.references@[i],
        ))
    &&& (forall|i: int|
        0 <= i < ws.variables@.len() ==> ((#[trigger] ws.variables@[i]).node as int) < ns.len()
            && ws.variables@[i].loc == ns[ws.variables@[i].node as int].range)
}

/// Builds the workspace of one parsed file against a store
/// snapshot: classifies the nodes, collects the scopes and their
/// signatures, walks the captures in source order, and merges the
/// nested scopes into the file workspace. Also returns the file's
/// public function for the caller to store.
pub fn extract_symbols(pf: &ParsedFile, store: &Store) -> (r: (
    Workspace,
    Option<FunctionDefinition>,
))
    requires
        pf.tree.wf(),
        store.wf(),
    ensures
        r.0.wf(),
        workspace_sound(pf.tree.nodes@, r.0),
        r.1 matches Some(fd) ==> {
            let c = crate::sigs::first_code_child(pf.tree.nodes@, 1)->0;
            let nc = first_child_with_field(pf.tree.nodes@, c as int, Field::FieldName, 0);
            &&& crate::sigs::first_code_child(pf.tree.nodes@, 1) is Some
            &&& pf.tree.nodes@[c as int].kind == NodeKind::FunctionDefinition
            &&& nc is Some
            &&& fd.loc == pf.tree.nodes@[nc->0 as int].range
            &&& fd.loc == fd.signature.name_range
            &&& fd.name == pf.tree.nodes@[nc->0 as int].text
            &&& fd.path@ == pf.path@
            &&& fd.package@ == pf.package@
        },
        r.1 is None ==> match crate::sigs::first_code_child(pf.tree.nodes@, 1) {
            Some(c) => !(pf.tree.nodes@[c as int].kind == NodeKind::FunctionDefinition
                && first_child_with_field(pf.tree.nodes@, c as int, Field::FieldName, 0) is Some),
            None => true,
        },
{
    let tree = &pf.tree;
    let ghost ns = tree.nodes@;
    let pub_pair = crate::sigs::public_function(tree, pf.path.as_str(), pf.package.as_str());
    let public_fn = pub_pair.0;
    let captures = collect_captures(tree);
    let nlen = tree.nodes.len();
    proof {
        assert(ns.len() == nlen);
        lemma_caps_upto(ns, ns.len() as int);
    }
    let ncaps = captures.len();

    // collect the scopes
    let mut scopes_v: Vec<Scope> = Vec::new();
    let mut c0: usize = 0;
    while c0 < ncaps
        invariant
            ns == tree.nodes@,
            ncaps == captures@.len(),
            c0 <= ncaps,
            forall|k: int|
                0 <= k < captures@.len() ==> ((#[trigger] captures@[k]).node as int) < ns.len(),
            forall|k: int|
                0 <= k < scopes_v@.len() ==> ((#[trigger] scopes_v@[k]).node as int) < ns.len(),
        decreases ncaps - c0,
    {
        let cap = captures[c0];
        if cap.kind == CaptureKind::FnDef {
            scopes_v.push(
                Scope { node: cap.node, is_lambda: tree.nodes[cap.node].kind == NodeKind::Lambda },
            );
        }
        c0 = c0 + 1;
    }

    let mut st = ExtractState {
        vars: Vec::new(),
        var_owner: Vec::new(),
        refs: Vec::new(),
        scopes: scopes_v,
        scope_funs: Vec::new(),
        file_funs: FunMap::new(),
    };
    let ghost the_scopes = st.scopes@;
    let mut cur = crate::range::Point::zero();
    proof {
        assert(state_inv(ns, st, cur));
    }

    // signatures of the named function scopes
    let nsc = st.scopes.len();
    let mut sp: usize = 0;
    while sp < nsc
        invariant
            tree.wf(),
            ns == tree.nodes@,
            nsc == st.scopes@.len(),
            sp <= nsc,
            state_inv(ns, st, cur),
            st.scopes@ == the_scopes,
        decreases nsc - sp,
    {
        let snode = st.scopes[sp].node;
        if !st.scopes[sp].is_lambda && tree.nodes[snode].kind == NodeKind::FunctionDefinition {
            if let Option::Some(signature) = crate::sigs::function_signature(tree, snode) {
                let mut definition = FunctionDefinition {
                    loc: signature.name_range,
                    name: signature.name.clone(),
                    path: pf.path.clone(),
                    signature,
                    package: String::new(),
                };
                if let Option::Some(pfd) = &public_fn {
                    if pfd.loc == definition.loc {
                        definition = pfd.clone();
                    }
                }
                match tree.parent_function(snode) {
                    Option::Some(par) => {
                        // attach the nested function to its parent's scope
                        let mut pos2: usize = 0;
                        let mut found = false;
                        let mut q: usize = 0;
                        while q < nsc
                            invariant
                                nsc == st.scopes@.len(),
                                q <= nsc,
                                found ==> pos2 < nsc,
                            decreases nsc - q,
                        {
                            if st.scopes[q].node == par && !found {
                                pos2 = q;
                                found = true;
                            }
                            q = q + 1;
                        }
                        if found {
                            let nm = definition.name.clone();
                            st.scope_funs.push((pos2, nm, definition));
                            proof {
                                assert(st.scope_funs@.last().0 < st.scopes@.len());
                                assert forall|i: int|
                                    0 <= i < st.scope_funs@.len() implies ((
                                #[trigger] st.scope_funs@[i]).0 as int) < st.scopes@.len() by {}
                            }
                        }
                    },
                    Option::None => {
                        let nm = definition.name.clone();
                        st.file_funs.insert(nm, definition);
                    },
                }
            }
        }
        sp = sp + 1;
    }

    // the capture walk
    let mut c: usize = 0;
    while c < ncaps
        invariant
            tree.wf(),
            ns == tree.nodes@,
            ncaps == captures@.len(),
            c <= ncaps,
            store.wf(),
            state_inv(ns, st, cur),
            st.scopes@ == the_scopes,
            forall|k: int|
                0 <= k < captures@.len() ==> ((#[trigger] captures@[k]).node as int) < ns.len(),
        decreases ncaps - c,
    {
        let cap = captures[c];
        c = c + 1;
        if cap.kind == CaptureKind::FnDef {
            continue ;
        }
        let node = cap.node;
        let nstart = tree.nodes[node].range.start;
        if !crate::range::point_le_exec(cur, nstart) {
            continue ;
        }
        proof {
            lemma_state_inv_mono(ns, st, cur, nstart);
        }
        cur = nstart;
        // the scope stack, innermost first
        let mut sc_nodes: Vec<usize> = Vec::new();
        let mut pcur: usize = node;
        loop
            invariant
                tree.wf(),
                ns == tree.nodes@,
                pcur < ns.len(),
            decreases pcur,
        {
            match tree.parent_function(pcur) {
                Option::Some(par) => {
                    sc_nodes.push(par);
                    pcur = par;
                },
                Option::None => {
                    break ;
                },
            }
        }
        let mut scopes_pos: Vec<usize> = Vec::new();
        let nscn = sc_nodes.len();
        let nsc2 = st.scopes.len();
        let mut ii: usize = 0;
        while ii < nscn
            invariant
                nscn == sc_nodes@.len(),
                nsc2 == st.scopes@.len(),
                ii <= nscn,
                forall|k: int|
                    0 <= k < scopes_pos@.len() ==> ((#[trigger] scopes_pos@[k]) as int)
                        < st.scopes@.len(),
            decreases nscn - ii,
        {
            let id = sc_nodes[ii];
            let mut q2: usize = 0;
            while q2 < nsc2
                invariant
                    nsc2 == st.scopes@.len(),
                    q2 <= nsc2,
                    forall|k: int|
                        0 <= k < scopes_pos@.len() ==> ((#[trigger] scopes_pos@[k]) as int)
                            < st.scopes@.len(),
                decreases nsc2 - q2,
            {
                if st.scopes[q2].node == id {
                    scopes_pos.push(q2);
                    break ;
                }
                q2 = q2 + 1;
            }
            ii = ii + 1;
        }
        if cap.kind == CaptureKind::VarDef {
            let name = tree.nodes[node].text.clone();
            def_var(tree, &mut st, name, &scopes_pos, node);
        } else if cap.kind == CaptureKind::Command {
            cur = command_capture(tree, &mut st, store, &scopes_pos, node);
        } else if cap.kind == CaptureKind::FnCall {
            cur = fncall_capture(tree, &mut st, store, &scopes_pos, node);
        } else if cap.kind == CaptureKind::IdentifierRef {
            identifier_capture(tree, &mut st, &scopes_pos, node);
        } else {
            cur = field_capture(tree, &mut st, store, &scopes_pos, node);
        }
    }

    // merge the scopes into the file workspace
    let ExtractState { vars, var_owner: _, refs, scopes: _, scope_funs, file_funs } = st;
    let mut functions = file_funs;
    let nsf = scope_funs.len();
    let ghost final_vars = vars@;
    let ghost final_refs = refs@;
    let mut fi: usize = 0;
    while fi < nsf
        invariant
            nsf == scope_funs@.len(),
            fi <= nsf,
            functions.wf(),
        decreases nsf - fi,
    {
        let nm = scope_funs[fi].1.clone();
        let def = scope_funs[fi].2.clone();
        functions.insert(nm, def);
        fi = fi + 1;
    }
    let ws = Workspace { functions, packages: Vec::new(), references: refs, variables: vars };
    (ws, public_fn)
}

/// Whether the soft-scope statement `s` lies on the chain of
/// soft-scope ancestors of `cur`.
pub open spec fn soft_chain_has(ns: Seq<SyntaxNode>, cur: int, s: int) -> bool
    decreases cur,
{
    match spec_soft_scope_parent(ns, cur) {
        Option::None => false,
        Option::Some(p) => p == s || ((p as int) < cur && soft_chain_has(ns, p as int, s)),
    }
}

/// No statement on the soft-scope chain of a member separates the
/// two positions.
proof fn lemma_soft_chain_blocked(ns: Seq<SyntaxNode>, nref: int, cur: int, ndef: int, s: int)
    requires
        spec_in_soft_scope(ns, nref, cur, ndef),
        soft_chain_has(ns, cur, s),
    ensures
        !soft_scope_blocks(ns, s, nref, ndef),
    decreases cur,
{
    match spec_soft_scope_parent(ns, cur) {
        Option::None => {},
        Option::Some(p) => {
            if p == s {
            } else {
                lemma_soft_chain_blocked(ns, nref, p as int, ndef, s);
            }
        },
    }
}

/// Reference soundness: in a sound workspace, a reference with a
/// variable target never precedes its definition, and a cleared
/// binding is never referenced past its clearing row.
pub proof fn lemma_reference_soundness(ns: Seq<SyntaxNode>, ws: Workspace, i: int, vi: usize)
    requires
        workspace_sound(ns, ws),
        0 <= i < ws.references@.len(),
        ws.references@[i].target == ReferenceTarget::Variable(vi),
    ensures
        (vi as int) < ws.variables@.len(),
        ws.variables@[vi as int].loc.start.row <= ws.references@[i].loc.start.row,
        ws.variables@[vi as int].cleared == 0 || ws.variables@[vi as int].cleared
            >= ws.references@[i].loc.start.row,
{
    assert(var_ref_sound(ns, ws.variables@, ws.references@[i]));
}

/// Reference soundness, strict form: when the clearing row differs
/// from the reference's row, a cleared binding is only referenced
/// strictly before it was cleared.
pub proof fn lemma_reference_soundness_strict(
    ns: Seq<SyntaxNode>,
    ws: Workspace,
    i: int,
    vi: usize,
)
    requires
        workspace_sound(ns, ws),
        0 <= i < ws.references@.len(),
        ws.references@[i].target == ReferenceTarget::Variable(vi),
        (vi as int) < ws.variables@.len() ==> ws.variables@[vi as int].cleared
            != ws.references@[i].loc.start.row,
    ensures
        (vi as int) < ws.variables@.len(),
        ws.variables@[vi as int].loc.start.row <= ws.references@[i].loc.start.row,
        ws.variables@[vi as int].cleared == 0 || ws.variables@[vi as int].cleared
            > ws.references@[i].loc.start.row,
{
    assert(var_ref_sound(ns, ws.variables@, ws.references@[i]));
}

/// No self-definition: in a sound workspace, a reference that sits
/// under an assignment never targets a variable whose binding lies
/// inside that assignment's left-hand side.
pub proof fn lemma_no_self_definition(
    ns: Seq<SyntaxNode>,
    ws: Workspace,
    i: int,
    vi: usize,
    a: usize,
    l: usize,
)
    requires
        workspace_sound(ns, ws),
        0 <= i < ws.references@.len(),
        ws.references@[i].target == ReferenceTarget::Variable(vi),
        anc_of_kind(ns, ws.references@[i].node as int, NodeKind::Assignment) == Some(a),
        first_child_with_field(ns, a as int, Field::FieldLeft, 0) == Some(l),
        (l as int) < ns.len(),
    ensures
        (vi as int) < ws.variables@.len(),
        !ns[l as int].range.spec_fully_contains(ws.variables@[vi as int].loc),
{
    assert(var_ref_sound(ns, ws.variables@, ws.references@[i]));
    assert(p2_ok(ns, ws.references@[i].node as int, ws.variables@[vi as int]));
}

/// Soft-scope isolation: in a sound workspace, a reference inside
/// one branch of an `if`/`switch`/`try`/`for`/`while` statement
/// never targets a variable defined only inside a sibling branch of
/// that statement.
pub proof fn lemma_soft_scope_isolation(
    ns: Seq<SyntaxNode>,
    ws: Workspace,
    i: int,
    vi: usize,
    s: usize,
    branch: usize,
)
    requires
        workspace_sound(ns, ws),
        0 <= i < ws.references@.len(),
        ws.references@[i].target == ReferenceTarget::Variable(vi),
        (vi as int) < ws.variables@.len(),
        (s as int) < ns.len(),
        soft_chain_has(ns, ws.references@[i].node as int, s as int),
        ns[s as int].range.spec_covers(ns[ws.references@[i].node as int].range.start),
        ns[s as int].range.spec_covers(ns[ws.variables@[vi as int].node as int].range.start),
        is_child(ns, branch as int, s as int),
        crate::tree::is_branch_kind(ns[branch as int].kind),
    ensures
        !(ns[branch as int].range.spec_covers(
            ns[ws.variables@[vi as int].node as int].range.start,
        ) && !ns[branch as int].range.spec_covers(
            ns[ws.references@[i].node as int].range.start,
        )),
{
    assert(var_ref_sound(ns, ws.variables@, ws.references@[i]));
    let rn = ws.references@[i].node as int;
    let dn = ws.variables@[vi as int].node as int;
    lemma_soft_chain_blocked(ns, rn, rn, dn, s as int);
}

} // verus!
