//! Diagnostics and folding ranges, both straight reads of the tree
//! and of the extracted references.

use vstd::prelude::*;

use crate::ident::str_contains_char;
use crate::range::Range;
use crate::symbols::lemma_filter_push;
use crate::symbols::Reference;
use crate::symbols::ReferenceTarget;
use crate::tree::NodeKind;
use crate::tree::SyntaxNode;
use crate::tree::SyntaxTree;

verus! {

/// What a diagnostic reports.
#[derive(Clone, Copy, Debug, PartialEq, Eq, Structural)]
pub enum DiagnosticKind {
    /// A syntax error node in the tree.
    SyntaxError,
    /// A reference to a variable with no visible definition.
    UndefinedVariable,
}

/// One diagnostic: a range and what it reports.
#[derive(Clone, Copy, Debug, PartialEq, Eq, Structural)]
pub struct Diagnostic {
    pub range: Range,
    pub kind: DiagnosticKind,
}

/// Whether a node is a parse error.
pub open spec fn is_error_node(n: SyntaxNode) -> bool {
    n.kind == NodeKind::ErrorNode
}

/// Whether a reference warns about an undefined variable: its
/// target is unknown and its name is not dotted.
pub open spec fn is_undefined_warning(r: Reference) -> bool {
    r.target is UnknownVariable && !r.name@.contains('.')
}

/// The diagnostics of a file: one syntax error for every error node
/// of the tree, in node order, followed by one warning for every
/// undotted unresolved variable reference, in reference order.
pub fn diagnostics(tree: &SyntaxTree, references: &Vec<Reference>) -> (r: Vec<Diagnostic>)
    ensures
        r@ == tree.nodes@.filter(|n: SyntaxNode| is_error_node(n)).map_values(
            |n: SyntaxNode| Diagnostic { range: n.range, kind: DiagnosticKind::SyntaxError },
        ) + references@.filter(|rf: Reference| is_undefined_warning(rf)).map_values(
            |rf: Reference| Diagnostic { range: rf.loc, kind: DiagnosticKind::UndefinedVariable },
        ),
{
    let ghost fe = |n: SyntaxNode| is_error_node(n);
    let ghost me = |n: SyntaxNode| Diagnostic { range: n.range, kind: DiagnosticKind::SyntaxError };
    let ghost fw = |rf: Reference| is_undefined_warning(rf);
    let ghost mw = |rf: Reference|
        Diagnostic { range: rf.loc, kind: DiagnosticKind::UndefinedVariable };
    let ghost ns = tree.nodes@;
    let ghost refs = references@;
    let mut r: Vec<Diagnostic> = Vec::new();
    let n = tree.nodes.len();
    let mut i: usize = 0;
    while i < n
        invariant
            fe == (|n: SyntaxNode| is_error_node(n)),
            me == (|n: SyntaxNode|
                Diagnostic { range: n.range, kind: DiagnosticKind::SyntaxError }),
            ns == tree.nodes@,
            n == ns.len(),
            i <= n,
            r@ =~= ns.subrange(0, i as int).filter(fe).map_values(me),
        decreases n - i,
    {
        let ghost pre = ns.subrange(0, i as int);
        proof {
            assert(ns.subrange(0, (i + 1) as int) =~= pre.push(ns[i as int]));
            lemma_filter_push(pre, ns[i as int], fe);
        }
        if tree.nodes[i].kind == NodeKind::ErrorNode {
            r.push(Diagnostic { range: tree.nodes[i].range, kind: DiagnosticKind::SyntaxError });
        }
        i = i + 1;
    }
    proof {
        assert(ns.subrange(0, n as int) =~= ns);
    }
    let ghost base = r@;
    let m = references.len();
    let mut j: usize = 0;
    while j < m
        invariant
            fw == (|rf: Reference| is_undefined_warning(rf)),
            mw == (|rf: Reference|
                Diagnostic { range: rf.loc, kind: DiagnosticKind::UndefinedVariable }),
            refs == references@,
            m == refs.len(),
            j <= m,
            r@ =~= base + refs.subrange(0, j as int).filter(fw).map_values(mw),
        decreases m - j,
    {
        let ghost pre = refs.subrange(0, j as int);
        proof {
            assert(refs.subrange(0, (j + 1) as int) =~= pre.push(refs[j as int]));
            lemma_filter_push(pre, refs[j as int], fw);
        }
        let rf = &references[j];
        let hit = match rf.target {
            ReferenceTarget::UnknownVariable => !str_contains_char(rf.name.as_str(), '.'),
            _ => false,
        };
        if hit {
            r.push(Diagnostic { range: rf.loc, kind: DiagnosticKind::UndefinedVariable });
        }
        j = j + 1;
    }
    proof {
        assert(refs.subrange(0, m as int) =~= refs);
    }
    r
}

/// Whether a node opens a foldable region.
pub open spec fn is_block_node(n: SyntaxNode) -> bool {
    n.kind == NodeKind::Block
}

/// The folding ranges of a file: the start and end rows of every
/// block node, in node order.
pub fn folding_ranges(tree: &SyntaxTree) -> (r: Vec<(usize, usize)>)
    ensures
        r@ == tree.nodes@.filter(|n: SyntaxNode| is_block_node(n)).map_values(
            |n: SyntaxNode| (n.range.start.row, n.range.end.row),
        ),
{
    let ghost fb = |n: SyntaxNode| is_block_node(n);
    let ghost mb = |n: SyntaxNode| (n.range.start.row, n.range.end.row);
    let ghost ns = tree.nodes@;
    let mut r: Vec<(usize, usize)> = Vec::new();
    let n = tree.nodes.len();
    let mut i: usize = 0;
    while i < n
        invariant
            fb == (|n: SyntaxNode| is_block_node(n)),
            mb == (|n: SyntaxNode| (n.range.start.row, n.range.end.row)),
            ns == tree.nodes@,
            n == ns.len(),
            i <= n,
            r@ =~= ns.subrange(0, i as int).filter(fb).map_values(mb),
        decreases n - i,
    {
        let ghost pre = ns.subrange(0, i as int);
        proof {
            assert(ns.subrange(0, (i + 1) as int) =~= pre.push(ns[i as int]));
            lemma_filter_push(pre, ns[i as int], fb);
        }
        if tree.nodes[i].kind == NodeKind::Block {
            r.push((tree.nodes[i].range.start.row, tree.nodes[i].range.end.row));
        }
        i = i + 1;
    }
    proof {
        assert(ns.subrange(0, n as int) =~= ns);
    }
    r
}

} // verus!
