//! Hover: renders a function's signature and documentation, or the
//! defining line of a variable.

use vstd::prelude::*;

use vstd::string::StrSliceExecFns;

use crate::range::Point;
use crate::store::ParsedFile;
use crate::store::Store;
use crate::symbols::FunctionSignature;
use crate::symbols::ReferenceTarget;
use crate::tree::anc_of_kind;
use crate::tree::spec_node_at_pos;
use crate::tree::NodeKind;
use crate::tree::SyntaxNode;
use crate::tree::SyntaxTree;

verus! {

/// The decimal digit character of `d`.
pub open spec fn digit_char(d: int) -> char {
    ((48 + d) as u8) as char
}

/// The decimal rendering of `n`.
pub open spec fn dec_str(n: int) -> Seq<char>
    decreases n,
{
    if n < 10 {
        seq![digit_char(if n >= 0 {
            n % 10
        } else {
            0
        })]
    } else {
        dec_str(n / 10).push(digit_char(n % 10))
    }
}

/// One decimal digit as text.
fn digit_str(d: usize) -> (r: &'static str)
    requires
        d < 10,
    ensures
        r@ =~= seq![digit_char(d as int)],
{
    let r: &'static str = if d == 0 {
        "0"
    } else if d == 1 {
        "1"
    } else if d == 2 {
        "2"
    } else if d == 3 {
        "3"
    } else if d == 4 {
        "4"
    } else if d == 5 {
        "5"
    } else if d == 6 {
        "6"
    } else if d == 7 {
        "7"
    } else if d == 8 {
        "8"
    } else {
        "9"
    };
    proof {
        reveal_strlit("0");
        reveal_strlit("1");
        reveal_strlit("2");
        reveal_strlit("3");
        reveal_strlit("4");
        reveal_strlit("5");
        reveal_strlit("6");
        reveal_strlit("7");
        reveal_strlit("8");
        reveal_strlit("9");
    }
    r
}

/// Renders `n` in decimal.
pub fn usize_to_string(n: usize) -> (r: String)
    ensures
        r@ == dec_str(n as int),
    decreases n,
{
    if n < 10 {
        digit_str(n).to_owned()
    } else {
        let mut s = usize_to_string(n / 10);
        s.append(digit_str(n % 10));
        proof {
            assert(s@ =~= dec_str(n as int));
        }
        s
    }
}

/// The given pieces joined with the separator.
pub open spec fn join_sep(xs: Seq<Seq<char>>, sep: Seq<char>, i: int) -> Seq<char>
    decreases xs.len() - i,
{
    if i < 0 || i >= xs.len() {
        Seq::empty()
    } else if i == xs.len() - 1 {
        xs[i]
    } else {
        xs[i] + sep + join_sep(xs, sep, i + 1)
    }
}

/// The views of a string vector.
pub open spec fn views_of(v: Seq<String>) -> Seq<Seq<char>> {
    v.map_values(|s: String| s@)
}

/// Joins the strings with `", "`.
pub fn join_comma(v: &Vec<String>) -> (r: String)
    ensures
        r@ == join_sep(views_of(v@), ", "@, 0),
{
    join_comma_from(v, 0)
}

fn join_comma_from(v: &Vec<String>, i: usize) -> (r: String)
    requires
        i <= v@.len(),
    ensures
        r@ == join_sep(views_of(v@), ", "@, i as int),
    decreases v@.len() - i,
{
    let n = v.len();
    if i >= n {
        proof {
            assert(join_sep(views_of(v@), ", "@, i as int) =~= Seq::<char>::empty());
        }
        String::new()
    } else if i == n - 1 {
        let r = v[i].clone();
        proof {
            assert(views_of(v@)[i as int] == v@[i as int]@);
        }
        r
    } else {
        let mut r = v[i].clone();
        r.append(", ");
        let rest = join_comma_from(v, i + 1);
        r.append(rest.as_str());
        proof {
            assert(views_of(v@)[i as int] == v@[i as int]@);
            assert(r@ =~= join_sep(views_of(v@), ", "@, i as int));
        }
        r
    }
}

/// The rendered signature line: `function `, the outputs (one name,
/// or a bracketed list, followed by ` = `), the name, and the
/// parenthesised inputs.
pub open spec fn spec_render_signature(sig: FunctionSignature) -> Seq<char> {
    "function "@ + (if sig.argout_names@.len() == 0 {
        Seq::<char>::empty()
    } else if sig.argout_names@.len() == 1 {
        sig.argout_names@[0]@ + " = "@
    } else {
        "["@ + join_sep(views_of(sig.argout_names@), ", "@, 0) + "] = "@
    }) + sig.name@ + "("@ + join_sep(views_of(sig.argin_names@), ", "@, 0) + ")"@
}

/// Renders a signature line.
pub fn render_signature(sig: &FunctionSignature) -> (r: String)
    ensures
        r@ == spec_render_signature(*sig),
{
    let mut r: String = "function ".to_owned();
    if sig.argout_names.len() == 1 {
        r.append(sig.argout_names[0].as_str());
        r.append(" = ");
        proof {
            assert(sig.argout_names@[0] == sig.argout_names[0]);
        }
    } else if sig.argout_names.len() > 1 {
        r.append("[");
        let outs = join_comma(&sig.argout_names);
        r.append(outs.as_str());
        r.append("] = ");
    }
    r.append(sig.name.as_str());
    r.append("(");
    let ins = join_comma(&sig.argin_names);
    r.append(ins.as_str());
    r.append(")");
    proof {
        assert(r@ =~= spec_render_signature(*sig));
    }
    r
}

/// The markdown hover for a function: the signature in a MATLAB
/// code fence, a rule, and the documentation.
pub open spec fn spec_hover_fn_md(sig: FunctionSignature) -> Seq<char> {
    "```matlab\n"@ + spec_render_signature(sig) + "\n```\n---\n"@ + sig.documentation@
}

/// The plain hover for a function: the signature, a blank line, and
/// the documentation.
pub open spec fn spec_hover_fn_plain(sig: FunctionSignature) -> Seq<char> {
    spec_render_signature(sig) + "\n\n"@ + sig.documentation@
}

/// Renders the function hover, markdown and plain.
pub fn hover_function(sig: &FunctionSignature) -> (r: (String, String))
    ensures
        r.0@ == spec_hover_fn_md(*sig),
        r.1@ == spec_hover_fn_plain(*sig),
{
    let fsig = render_signature(sig);
    let mut md: String = "```matlab\n".to_owned();
    md.append(fsig.as_str());
    md.append("\n```\n---\n");
    md.append(sig.documentation.as_str());
    let mut plain: String = fsig;
    plain.append("\n\n");
    plain.append(sig.documentation.as_str());
    proof {
        assert(md@ =~= spec_hover_fn_md(*sig));
        assert(plain@ =~= spec_hover_fn_plain(*sig));
    }
    (md, plain)
}

/// The node whose text a variable hover shows: the assignment
/// enclosing the deepest node at the binding's start, or that
/// node's parent.
pub open spec fn hover_source(ns: Seq<SyntaxNode>, p: Point) -> Option<usize> {
    match spec_node_at_pos(ns, p, ns.len() as int) {
        Option::None => None,
        Option::Some(nd) => match anc_of_kind(ns, nd as int, NodeKind::Assignment) {
            Option::Some(a) => Some(a),
            Option::None => ns[nd as int].parent,
        },
    }
}

/// The markdown wrapper for a hovered code line.
pub open spec fn spec_hover_line_md(row: int, code: Seq<char>) -> Seq<char> {
    "Line "@ + dec_str(row + 1) + ":\n```matlab\n"@ + code + "\n```"@
}

/// The variable hover, rendered: the markdown and plain text shown
/// for the binding whose code line `hover_source` finds; nothing
/// when no node lies at `p`, or when the line's row cannot be
/// displayed one-based.
pub open spec fn spec_hover_variable(ns: Seq<SyntaxNode>, p: Point) -> Option<
    (Seq<char>, Seq<char>),
> {
    match hover_source(ns, p) {
        Option::None => None,
        Option::Some(src) => if (src as int) < ns.len() && ns[src as int].range.start.row
            < usize::MAX {
            Some(
                (
                    spec_hover_line_md(ns[src as int].range.start.row as int, ns[src as int].text@),
                    ns[src as int].text@,
                ),
            )
        } else {
            None
        },
    }
}

/// Renders the variable hover from the code around the binding at
/// `p`, exactly as `spec_hover_variable` describes: the enclosing
/// assignment of the deepest node there, or that node's parent.
pub fn hover_variable(tree: &SyntaxTree, p: Point) -> (r: Option<(String, String)>)
    requires
        tree.wf(),
    ensures
        r is Some <==> spec_hover_variable(tree.nodes@, p) is Some,
        r matches Some(md_plain) ==> spec_hover_variable(tree.nodes@, p) matches Some(s)
            && md_plain.0@ == s.0 && md_plain.1@ == s.1,
{
    let ghost ns = tree.nodes@;
    let nd = match tree.node_at_pos(p) {
        Option::Some(nd) => nd,
        Option::None => {
            return None;
        },
    };
    let src = match tree.parent_of_kind(NodeKind::Assignment, nd) {
        Option::Some(a) => a,
        Option::None => {
            match tree.nodes[nd].parent {
                Option::Some(pp) => pp,
                Option::None => {
                    return None;
                },
            }
        },
    };
    let code = tree.nodes[src].text.clone();
    let row = tree.nodes[src].range.start.row;
    if row == usize::MAX {
        return None;
    }
    let mut md: String = "Line ".to_owned();
    let num = usize_to_string(row + 1);
    md.append(num.as_str());
    md.append(":\n```matlab\n");
    md.append(code.as_str());
    md.append("\n```");
    proof {
        assert(md@ =~= spec_hover_line_md(ns[src as int].range.start.row as int, ns[
            src as int
        ].text@));
    }
    Some((md, code))
}

/// The hover answered for the symbol at `loc` in `file`: the first
/// reference containing the position decides. A function target
/// renders its signature and documentation, a namespace, script or
/// unresolved name a short note, a variable the code around its
/// binding.
pub open spec fn spec_hover(file: ParsedFile, loc: Point) -> Option<(Seq<char>, Seq<char>)> {
    let refs = file.workspace.references@;
    let vars = file.workspace.variables@;
    match crate::references::first_ref_at(refs, loc, 0) {
        Option::Some(j) => match refs[j].target {
            ReferenceTarget::Function(fd) => Some(
                (spec_hover_fn_md(fd.signature), spec_hover_fn_plain(fd.signature)),
            ),
            ReferenceTarget::Namespace(x) => Some(
                ("Namespace: "@ + x@, "Namespace: "@ + x@),
            ),
            ReferenceTarget::Script(sp) => Some(("Script: "@ + sp@, "Script: "@ + sp@)),
            ReferenceTarget::UnknownVariable => Some(
                ("Unknown variable."@, "Unknown variable."@),
            ),
            ReferenceTarget::UnknownFunction => Some(
                ("Unknown function"@, "Unknown function"@),
            ),
            ReferenceTarget::Variable(vj) => if (vj as int) < vars.len() {
                spec_hover_variable(file.tree.nodes@, vars[vj as int].loc.start)
            } else {
                None
            },
        },
        Option::None => None,
    }
}

/// The hover for the symbol at `loc` in the file at `path`, exactly
/// as `spec_hover` describes; nothing when the file is unknown or
/// its tree arena is malformed.
pub fn hover_for_symbol(store: &Store, path: &str, loc: Point) -> (r: Option<(String, String)>)
    requires
        store.wf(),
    ensures
        store.parsed_files.spec_get(path@) is None ==> r is None,
        store.parsed_files.spec_get(path@) matches Some(f) ==> f.tree.wf() ==> ({
            let h = spec_hover(f, loc);
            &&& (r is Some <==> h is Some)
            &&& (r matches Some(mp) ==> h matches Some(s) && mp.0@ == s.0 && mp.1@ == s.1)
        }),
{
    let file = match store.get_parsed_file(path) {
        Option::Some(f) => f,
        Option::None => {
            return None;
        },
    };
    let ghost refs = file.workspace.references@;
    if !tree_wf_check(file) {
        return None;
    }
    let nrefs = file.workspace.references.len();
    let mut i: usize = 0;
    while i < nrefs
        invariant
            i <= nrefs,
            nrefs == refs.len(),
            refs == file.workspace.references@,
            file.tree.wf(),
            store.parsed_files.spec_get(path@) == Some(*file),
            crate::references::first_ref_at(refs, loc, 0) == crate::references::first_ref_at(
                refs,
                loc,
                i as int,
            ),
        decreases nrefs - i,
    {
        let rf = &file.workspace.references[i];
        if rf.loc.contains(loc) {
            proof {
                assert(crate::references::first_ref_at(refs, loc, 0) == Some(i as int));
            }
            match &rf.target {
                ReferenceTarget::Function(fd) => {
                    return Some(hover_function(&fd.signature));
                },
                ReferenceTarget::Namespace(nsname) => {
                    let mut md: String = "Namespace: ".to_owned();
                    md.append(nsname.as_str());
                    let plain = md.clone();
                    return Some((md, plain));
                },
                ReferenceTarget::Script(sp) => {
                    let mut md: String = "Script: ".to_owned();
                    md.append(sp.as_str());
                    let plain = md.clone();
                    return Some((md, plain));
                },
                ReferenceTarget::UnknownVariable => {
                    let md: String = "Unknown variable.".to_owned();
                    let plain = md.clone();
                    return Some((md, plain));
                },
                ReferenceTarget::UnknownFunction => {
                    let md: String = "Unknown function".to_owned();
                    let plain = md.clone();
                    return Some((md, plain));
                },
                ReferenceTarget::Variable(vj) => {
                    let vj = *vj;
                    if vj < file.workspace.variables.len() {
                        let p = file.workspace.variables[vj].loc.start;
                        return hover_variable(&file.tree, p);
                    }
                    return None;
                },
            }
        }
        i = i + 1;
    }
    proof {
        assert(crate::references::first_ref_at(refs, loc, 0) is None);
    }
    None
}

/// Checks the tree arena shape at run time, so stored files of any
/// provenance can be hovered safely.
fn tree_wf_check(file: &ParsedFile) -> (r: bool)
    ensures
        r == file.tree.wf(),
{
    file.tree.check_wf()
}

} // verus!
