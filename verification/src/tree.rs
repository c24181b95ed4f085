//! A model of a parsed MATLAB syntax tree.
//!
//! Nodes live in an arena in preorder: a node's parent always has a
//! smaller index, and start positions never decrease with the index.
//! Only named grammar nodes are kept; each carries its kind, its
//! field name under its parent, its source range and its text.

use vstd::prelude::*;

use crate::range::point_le;
use crate::range::Point;
use crate::range::Range;

verus! {

/// The named node kinds of the MATLAB grammar that the engine reads.
/// Every other kind is `Other`.
#[derive(Clone, Copy, Debug, PartialEq, Eq, Structural)]
pub enum NodeKind {
    Arguments,
    ArgumentsStatement,
    Assignment,
    Attributes,
    Block,
    CaseClause,
    CatchClause,
    ClassDefinition,
    Command,
    CommandArgument,
    CommandName,
    Comment,
    ElseClause,
    ElseifClause,
    ErrorNode,
    FieldExpression,
    ForStatement,
    FunctionArguments,
    FunctionCall,
    FunctionDefinition,
    FunctionOutput,
    GlobalOperator,
    Identifier,
    IfStatement,
    Lambda,
    LoopIterator,
    MultioutputVariable,
    Number,
    OtherwiseClause,
    PropertyName,
    RangeExpression,
    StringLiteral,
    SwitchStatement,
    TryStatement,
    WhileStatement,
    Other,
}

/// The field name a node carries under its parent, where the engine
/// reads one.
#[derive(Clone, Copy, Debug, PartialEq, Eq, Structural)]
pub enum Field {
    NoField,
    FieldName,
    FieldLeft,
    FieldRight,
    FieldObject,
    FieldMember,
}

/// One named syntax node.
#[derive(Clone, Debug)]
pub struct SyntaxNode {
    pub kind: NodeKind,
    /// Index of the parent node; `None` only for the root.
    pub parent: Option<usize>,
    /// The field this node fills under its parent.
    pub field: Field,
    pub range: Range,
    pub start_byte: usize,
    pub end_byte: usize,
    /// The node's source text.
    pub text: String,
}

/// A whole tree, nodes in preorder.
#[derive(Clone)]
pub struct SyntaxTree {
    pub nodes: Vec<SyntaxNode>,
}

/// Whether `c` is a child of `par` in `ns`.
pub open spec fn is_child(ns: Seq<SyntaxNode>, c: int, par: int) -> bool {
    0 <= c < ns.len() && ns[c].parent == Some(par as usize)
}

/// The nearest ancestor of `i` with kind `k`, climbing parent links.
pub open spec fn anc_of_kind(ns: Seq<SyntaxNode>, i: int, k: NodeKind) -> Option<usize>
    decreases i,
{
    if 0 <= i < ns.len() {
        match ns[i].parent {
            Option::None => None,
            Option::Some(p) => if (p as int) < i {
                if ns[p as int].kind == k {
                    Some(p)
                } else {
                    anc_of_kind(ns, p as int, k)
                }
            } else {
                None
            },
        }
    } else {
        None
    }
}

/// Whether `k` opens a function scope.
pub open spec fn is_scope_kind(k: NodeKind) -> bool {
    k == NodeKind::FunctionDefinition || k == NodeKind::Lambda
}

/// The nearest enclosing function or lambda of `i`.
pub open spec fn spec_parent_function(ns: Seq<SyntaxNode>, i: int) -> Option<usize>
    decreases i,
{
    if 0 <= i < ns.len() {
        match ns[i].parent {
            Option::None => None,
            Option::Some(p) => if (p as int) < i {
                if is_scope_kind(ns[p as int].kind) {
                    Some(p)
                } else {
                    spec_parent_function(ns, p as int)
                }
            } else {
                None
            },
        }
    } else {
        None
    }
}

/// Whether `k` is a branch of a soft-scope statement: a block, or
/// one of the clause kinds that hold a branch.
pub open spec fn is_branch_kind(k: NodeKind) -> bool {
    k == NodeKind::Block || k == NodeKind::ElseClause || k == NodeKind::ElseifClause || k
        == NodeKind::CaseClause || k == NodeKind::OtherwiseClause || k == NodeKind::CatchClause
}

/// Whether `k` introduces a soft scope: a statement with branches
/// that do not fully isolate their variables.
pub open spec fn is_soft_scope_kind(k: NodeKind) -> bool {
    k == NodeKind::IfStatement || k == NodeKind::SwitchStatement || k == NodeKind::TryStatement
        || k == NodeKind::ForStatement || k == NodeKind::WhileStatement
}

/// The nearest enclosing soft-scope statement of `i`.
pub open spec fn spec_soft_scope_parent(ns: Seq<SyntaxNode>, i: int) -> Option<usize>
    decreases i,
{
    if 0 <= i < ns.len() {
        match ns[i].parent {
            Option::None => None,
            Option::Some(p) => if (p as int) < i {
                if is_soft_scope_kind(ns[p as int].kind) {
                    Some(p)
                } else {
                    spec_soft_scope_parent(ns, p as int)
                }
            } else {
                None
            },
        }
    } else {
        None
    }
}

/// The first child of `par` at or after index `from` whose field is
/// `f`.
pub open spec fn first_child_with_field(
    ns: Seq<SyntaxNode>,
    par: int,
    f: Field,
    from: int,
) -> Option<usize>
    decreases ns.len() - from,
{
    if from < 0 || from >= ns.len() {
        None
    } else if is_child(ns, from, par) && ns[from].field == f {
        Some(from as usize)
    } else {
        first_child_with_field(ns, par, f, from + 1)
    }
}

/// The first child of `par` at or after index `from` whose kind is
/// `k`.
pub open spec fn first_child_of_kind(
    ns: Seq<SyntaxNode>,
    par: int,
    k: NodeKind,
    from: int,
) -> Option<usize>
    decreases ns.len() - from,
{
    if from < 0 || from >= ns.len() {
        None
    } else if is_child(ns, from, par) && ns[from].kind == k {
        Some(from as usize)
    } else {
        first_child_of_kind(ns, par, k, from + 1)
    }
}

/// The first child of `par` at or after index `from`.
pub open spec fn first_child_from(ns: Seq<SyntaxNode>, par: int, from: int) -> Option<usize>
    decreases ns.len() - from,
{
    if from < 0 || from >= ns.len() {
        None
    } else if is_child(ns, from, par) {
        Some(from as usize)
    } else {
        first_child_from(ns, par, from + 1)
    }
}

/// The children of `par` among the first `i` nodes, in index order.
pub open spec fn children_upto(ns: Seq<SyntaxNode>, par: int, i: int) -> Seq<usize>
    decreases i,
{
    if i <= 0 {
        Seq::empty()
    } else {
        children_upto(ns, par, i - 1) + if is_child(ns, i - 1, par) {
            seq![(i - 1) as usize]
        } else {
            Seq::empty()
        }
    }
}

/// The children of `par`, in index order.
pub open spec fn spec_children(ns: Seq<SyntaxNode>, par: int) -> Seq<usize> {
    children_upto(ns, par, ns.len() as int)
}

/// A child of kind `k` guarantees the kind-search finds one.
pub proof fn lemma_kind_child_found(ns: Seq<SyntaxNode>, par: int, k: NodeKind, c: int, i: int)
    requires
        0 <= i <= c < ns.len(),
        is_child(ns, c, par),
        ns[c].kind == k,
    ensures
        first_child_of_kind(ns, par, k, i) is Some,
    decreases c - i,
{
    if i < c {
        lemma_kind_child_found(ns, par, k, c, i + 1);
    }
}

/// The highest-indexed node at or below `n` whose range contains `p`.
pub open spec fn spec_node_at_pos(ns: Seq<SyntaxNode>, p: Point, n: int) -> Option<usize>
    decreases n,
{
    if n <= 0 || n > ns.len() {
        None
    } else if ns[n - 1].range.spec_contains(p) {
        Some((n - 1) as usize)
    } else {
        spec_node_at_pos(ns, p, n - 1)
    }
}

impl SyntaxTree {
    /// Well-formedness: parents precede their children, only the root
    /// is parentless, and positions never decrease in preorder.
    pub open spec fn wf(self) -> bool {
        &&& (forall|i: int|
            0 <= i < self.nodes@.len() ==> match #[trigger] self.nodes@[i].parent {
                Option::None => i == 0,
                Option::Some(p) => i > 0 && (p as int) < i,
            })
        &&& (forall|i: int, j: int|
            0 <= i <= j < self.nodes@.len() ==> point_le(
                #[trigger] self.nodes@[i].range.start,
                #[trigger] self.nodes@[j].range.start,
            ))
        &&& (forall|i: int, j: int|
            0 <= i <= j < self.nodes@.len() ==> #[trigger] self.nodes@[i].start_byte
                <= #[trigger] self.nodes@[j].start_byte)
    }

    pub fn len(&self) -> (n: usize)
        ensures
            n == self.nodes@.len(),
    {
        self.nodes.len()
    }

    /// The nearest ancestor of `node` with kind `kind`.
    pub fn parent_of_kind(&self, kind: NodeKind, node: usize) -> (r: Option<usize>)
        requires
            self.wf(),
            node < self.nodes@.len(),
        ensures
            r == anc_of_kind(self.nodes@, node as int, kind),
            r matches Some(p) ==> p < node && self.nodes@[p as int].kind == kind,
    {
        let mut i: usize = node;
        loop
            invariant
                self.wf(),
                i <= node,
                i < self.nodes@.len(),
                anc_of_kind(self.nodes@, node as int, kind) == anc_of_kind(
                    self.nodes@,
                    i as int,
                    kind,
                ),
            decreases i,
        {
            match self.nodes[i].parent {
                Option::None => {
                    return None;
                },
                Option::Some(p) => {
                    if self.nodes[p].kind == kind {
                        return Some(p);
                    }
                    i = p;
                },
            }
        }
    }

    /// The nearest enclosing function or lambda of `node`.
    pub fn parent_function(&self, node: usize) -> (r: Option<usize>)
        requires
            self.wf(),
            node < self.nodes@.len(),
        ensures
            r == spec_parent_function(self.nodes@, node as int),
            r matches Some(p) ==> p < node && is_scope_kind(self.nodes@[p as int].kind),
    {
        let mut i: usize = node;
        loop
            invariant
                self.wf(),
                i <= node,
                i < self.nodes@.len(),
                spec_parent_function(self.nodes@, node as int) == spec_parent_function(
                    self.nodes@,
                    i as int,
                ),
            decreases i,
        {
            match self.nodes[i].parent {
                Option::None => {
                    return None;
                },
                Option::Some(p) => {
                    let k = self.nodes[p].kind;
                    if k == NodeKind::FunctionDefinition || k == NodeKind::Lambda {
                        return Some(p);
                    }
                    i = p;
                },
            }
        }
    }

    /// The nearest enclosing soft-scope statement of `node`.
    pub fn soft_scope_parent(&self, node: usize) -> (r: Option<usize>)
        requires
            self.wf(),
            node < self.nodes@.len(),
        ensures
            r == spec_soft_scope_parent(self.nodes@, node as int),
            r matches Some(p) ==> p < node && is_soft_scope_kind(self.nodes@[p as int].kind),
    {
        let mut i: usize = node;
        loop
            invariant
                self.wf(),
                i <= node,
                i < self.nodes@.len(),
                spec_soft_scope_parent(self.nodes@, node as int) == spec_soft_scope_parent(
                    self.nodes@,
                    i as int,
                ),
            decreases i,
        {
            match self.nodes[i].parent {
                Option::None => {
                    return None;
                },
                Option::Some(p) => {
                    let k = self.nodes[p].kind;
                    if k == NodeKind::IfStatement || k == NodeKind::SwitchStatement || k
                        == NodeKind::TryStatement || k == NodeKind::ForStatement || k
                        == NodeKind::WhileStatement {
                        return Some(p);
                    }
                    i = p;
                },
            }
        }
    }

    /// All children of `par`, in index order.
    pub fn children_of(&self, par: usize) -> (r: Vec<usize>)
        requires
            par < self.nodes@.len(),
        ensures
            r@ == spec_children(self.nodes@, par as int),
            forall|k: int| 0 <= k < r@.len() ==> is_child(self.nodes@, #[trigger] r@[k] as int, par as int),
            forall|c: int| is_child(self.nodes@, c, par as int) ==> r@.contains(c as usize),
            forall|k1: int, k2: int| 0 <= k1 < k2 < r@.len() ==> r@[k1] < r@[k2],
    {
        let mut r: Vec<usize> = Vec::new();
        let n = self.nodes.len();
        let mut i: usize = 0;
        while i < n
            invariant
                n == self.nodes@.len(),
                i <= n,
                r@ =~= children_upto(self.nodes@, par as int, i as int),
                forall|k: int|
                    0 <= k < r@.len() ==> is_child(self.nodes@, #[trigger] r@[k] as int, par as int)
                        && r@[k] < i,
                forall|c: int| 0 <= c < i && is_child(self.nodes@, c, par as int) ==> r@.contains(
                    c as usize,
                ),
                forall|k1: int, k2: int| 0 <= k1 < k2 < r@.len() ==> r@[k1] < r@[k2],
            decreases n - i,
        {
            let ghost r0 = r@;
            if let Option::Some(p) = self.nodes[i].parent {
                if p == par {
                    r.push(i);
                    proof {
                        assert forall|x: usize| r0.contains(x) implies r@.contains(x) by {
                            let k = choose|k: int| 0 <= k < r0.len() && r0[k] == x;
                            assert(r@[k] == x);
                        }
                        assert(r@[r@.len() - 1] == i);
                    }
                }
            }
            i = i + 1;
        }
        r
    }

    /// The first child of `par` with field `f`, if any.
    pub fn child_by_field(&self, par: usize, f: Field) -> (r: Option<usize>)
        requires
            par < self.nodes@.len(),
        ensures
            r == first_child_with_field(self.nodes@, par as int, f, 0),
            r matches Some(c) ==> is_child(self.nodes@, c as int, par as int)
                && self.nodes@[c as int].field == f,
    {
        let n = self.nodes.len();
        let mut i: usize = 0;
        while i < n
            invariant
                n == self.nodes@.len(),
                i <= n,
                first_child_with_field(self.nodes@, par as int, f, 0) == first_child_with_field(
                    self.nodes@,
                    par as int,
                    f,
                    i as int,
                ),
            decreases n - i,
        {
            if let Option::Some(p) = self.nodes[i].parent {
                if p == par && self.nodes[i].field == f {
                    return Some(i);
                }
            }
            i = i + 1;
        }
        None
    }

    /// The first child of `par` with kind `k`, if any.
    pub fn child_of_kind(&self, par: usize, k: NodeKind) -> (r: Option<usize>)
        requires
            par < self.nodes@.len(),
        ensures
            r == first_child_of_kind(self.nodes@, par as int, k, 0),
            r matches Some(c) ==> is_child(self.nodes@, c as int, par as int)
                && self.nodes@[c as int].kind == k,
    {
        let n = self.nodes.len();
        let mut i: usize = 0;
        while i < n
            invariant
                n == self.nodes@.len(),
                i <= n,
                first_child_of_kind(self.nodes@, par as int, k, 0) == first_child_of_kind(
                    self.nodes@,
                    par as int,
                    k,
                    i as int,
                ),
            decreases n - i,
        {
            if let Option::Some(p) = self.nodes[i].parent {
                if p == par && self.nodes[i].kind == k {
                    return Some(i);
                }
            }
            i = i + 1;
        }
        None
    }

    /// The first child of `par`, if any.
    pub fn first_child(&self, par: usize) -> (r: Option<usize>)
        requires
            par < self.nodes@.len(),
        ensures
            r == first_child_from(self.nodes@, par as int, 0),
            r matches Some(c) ==> is_child(self.nodes@, c as int, par as int),
    {
        let n = self.nodes.len();
        let mut i: usize = 0;
        while i < n
            invariant
                n == self.nodes@.len(),
                i <= n,
                first_child_from(self.nodes@, par as int, 0) == first_child_from(
                    self.nodes@,
                    par as int,
                    i as int,
                ),
            decreases n - i,
        {
            if let Option::Some(p) = self.nodes[i].parent {
                if p == par {
                    return Some(i);
                }
            }
            i = i + 1;
        }
        None
    }

    /// Checks the arena shape at run time, so trees of any provenance
    /// can be used safely: decides `wf` exactly.
    pub fn check_wf(&self) -> (r: bool)
        ensures
            r == self.wf(),
    {
        let n = self.nodes.len();
        let mut i: usize = 0;
        while i < n
            invariant
                n == self.nodes@.len(),
                i <= n,
                forall|k: int|
                    0 <= k < i ==> match #[trigger] self.nodes@[k].parent {
                        Option::None => k == 0,
                        Option::Some(p) => k > 0 && (p as int) < k,
                    },
                forall|k1: int, k2: int|
                    0 <= k1 <= k2 < i ==> crate::range::point_le(
                        #[trigger] self.nodes@[k1].range.start,
                        #[trigger] self.nodes@[k2].range.start,
                    ),
                forall|k1: int, k2: int|
                    0 <= k1 <= k2 < i ==> #[trigger] self.nodes@[k1].start_byte
                        <= #[trigger] self.nodes@[k2].start_byte,
            decreases n - i,
        {
            let ok_parent = match self.nodes[i].parent {
                Option::None => i == 0,
                Option::Some(p) => i > 0 && p < i,
            };
            if !ok_parent {
                return false;
            }
            if i > 0 {
                let prev = self.nodes[i - 1].range.start;
                let cur = self.nodes[i].range.start;
                if !crate::range::point_le_exec(prev, cur) {
                    return false;
                }
                if self.nodes[i - 1].start_byte > self.nodes[i].start_byte {
                    return false;
                }
                proof {
                    assert forall|k1: int, k2: int|
                        0 <= k1 <= k2 < i + 1 implies crate::range::point_le(
                        #[trigger] self.nodes@[k1].range.start,
                        #[trigger] self.nodes@[k2].range.start,
                    ) by {
                        if k2 == i {
                            if k1 < i {
                                assert(crate::range::point_le(
                                    self.nodes@[k1].range.start,
                                    self.nodes@[i - 1].range.start,
                                ));
                            }
                        }
                    }
                    assert forall|k1: int, k2: int|
                        0 <= k1 <= k2 < i + 1 implies #[trigger] self.nodes@[k1].start_byte
                        <= #[trigger] self.nodes@[k2].start_byte by {
                        if k2 == i {
                            if k1 < i {
                                assert(self.nodes@[k1].start_byte <= self.nodes@[i
                                    - 1].start_byte);
                            }
                        }
                    }
                }
            }
            i = i + 1;
        }
        true
    }

    /// The highest-indexed node whose range contains `p`: the deepest
    /// and latest node at that position in a preorder arena.
    pub fn node_at_pos(&self, p: Point) -> (r: Option<usize>)
        ensures
            r == spec_node_at_pos(self.nodes@, p, self.nodes@.len() as int),
            r matches Some(i) ==> i < self.nodes@.len() && self.nodes@[i as int].range.spec_contains(
                p,
            ),
    {
        let mut n: usize = self.nodes.len();
        while n > 0
            invariant
                n <= self.nodes@.len(),
                spec_node_at_pos(self.nodes@, p, self.nodes@.len() as int) == spec_node_at_pos(
                    self.nodes@,
                    p,
                    n as int,
                ),
            decreases n,
        {
            if self.nodes[n - 1].range.contains(p) {
                return Some(n - 1);
            }
            n = n - 1;
        }
        None
    }

    /// The nearest ancestor of `node` with kind `kind`, climbing
    /// parent links defensively: a link that does not decrease the
    /// index ends the walk.
    pub fn parent_of_kind_dyn(&self, kind: NodeKind, node: usize) -> (r: Option<usize>)
        requires
            node < self.nodes@.len(),
        ensures
            r matches Some(p) ==> p < node && self.nodes@[p as int].kind == kind,
            self.wf() ==> r == anc_of_kind(self.nodes@, node as int, kind),
    {
        let mut i: usize = node;
        loop
            invariant
                i <= node,
                i < self.nodes@.len(),
                self.wf() ==> anc_of_kind(self.nodes@, node as int, kind) == anc_of_kind(
                    self.nodes@,
                    i as int,
                    kind,
                ),
            decreases i,
        {
            match self.nodes[i].parent {
                Option::None => {
                    return None;
                },
                Option::Some(p) => {
                    if p >= i {
                        return None;
                    }
                    if self.nodes[p].kind == kind {
                        return Some(p);
                    }
                    i = p;
                },
            }
        }
    }

    /// Whether the tree holds a parse error node.
    pub fn has_error(&self) -> (r: bool)
        ensures
            r == exists|i: int|
                0 <= i < self.nodes@.len() && self.nodes@[i].kind == NodeKind::ErrorNode,
    {
        let n = self.nodes.len();
        let mut i: usize = 0;
        while i < n
            invariant
                n == self.nodes@.len(),
                i <= n,
                forall|j: int| 0 <= j < i ==> self.nodes@[j].kind != NodeKind::ErrorNode,
            decreases n - i,
        {
            if self.nodes[i].kind == NodeKind::ErrorNode {
                return true;
            }
            i = i + 1;
        }
        false
    }
}

} // verus!
