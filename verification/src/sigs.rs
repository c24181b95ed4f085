//! Function signature extraction: name, inputs and outputs,
//! variadic flags, optional key-value arguments, and the cleaned
//! documentation comment.

use vstd::prelude::*;

use vstd::string::StrSliceExecFns;

use crate::ident::str_eq;
use crate::symbols::FunctionSignature;
use crate::symbols::FunctionDefinition;
use crate::tree::first_child_of_kind;
use crate::tree::first_child_with_field;
use crate::tree::is_child;
use crate::tree::Field;
use crate::tree::NodeKind;
use crate::tree::SyntaxNode;
use crate::tree::SyntaxTree;
use crate::range::Range;

verus! {

/// ASCII whitespace, as stripped from documentation lines.
pub open spec fn is_doc_ws(c: char) -> bool {
    c == ' ' || c == '\t' || c == '\r'
}

/// `s` without leading whitespace.
pub open spec fn trim_front(s: Seq<char>) -> Seq<char>
    decreases s.len(),
{
    if s.len() > 0 && is_doc_ws(s[0]) {
        trim_front(s.skip(1))
    } else {
        s
    }
}

/// `s` without trailing whitespace.
pub open spec fn trim_back(s: Seq<char>) -> Seq<char>
    decreases s.len(),
{
    if s.len() > 0 && is_doc_ws(s[s.len() - 1]) {
        trim_back(s.take(s.len() - 1))
    } else {
        s
    }
}

/// One documentation line, cleaned: whitespace stripped on both
/// sides, one leading `%` removed.
pub open spec fn clean_line(s: Seq<char>) -> Seq<char> {
    let t = trim_back(trim_front(s));
    if t.len() > 0 && t[0] == '%' {
        t.skip(1)
    } else {
        t
    }
}

/// The position of the first newline at or after `i`.
pub open spec fn first_nl(s: Seq<char>, i: int) -> Option<int>
    decreases s.len() - i,
{
    if i < 0 || i >= s.len() {
        None
    } else if s[i] == '\n' {
        Some(i)
    } else {
        first_nl(s, i + 1)
    }
}

/// A comment block, cleaned line by line and joined with newlines.
pub open spec fn spec_clean_doc(s: Seq<char>) -> Seq<char>
    decreases s.len(),
{
    match first_nl(s, 0) {
        None => clean_line(s),
        Some(k) => {
            if 0 <= k < s.len() {
                clean_line(s.take(k)) + seq!['\n'] + spec_clean_doc(s.skip(k + 1))
            } else {
                clean_line(s)
            }
        },
    }
}

/// Whether the character at `i` is documentation whitespace.
fn ws_at(s: &str, i: usize) -> (r: bool)
    requires
        i < s@.len(),
    ensures
        r == is_doc_ws(s@[i as int]),
{
    let c = s.get_char(i);
    c == ' ' || c == '\t' || c == '\r'
}

/// Whether the character at `i` is a newline.
fn nl_at(s: &str, i: usize) -> (r: bool)
    requires
        i < s@.len(),
    ensures
        r == (s@[i as int] == '\n'),
{
    s.get_char(i) == '\n'
}

/// Trims one line and strips a leading `%`, between the byte-free
/// character bounds `from` and `to`.
fn clean_line_exec(s: &str, from: usize, to: usize) -> (r: String)
    requires
        from <= to <= s@.len(),
    ensures
        r@ == clean_line(s@.subrange(from as int, to as int)),
{
    let ghost line = s@.subrange(from as int, to as int);
    let mut a = from;
    while a < to && ws_at(s, a)
        invariant
            from <= a <= to,
            to <= s@.len(),
            line == s@.subrange(from as int, to as int),
            trim_front(line) == trim_front(s@.subrange(a as int, to as int)),
        decreases to - a,
    {
        proof {
            assert(s@.subrange(a as int, to as int).skip(1) =~= s@.subrange(
                (a + 1) as int,
                to as int,
            ));
        }
        a = a + 1;
    }
    proof {
        assert(trim_front(s@.subrange(a as int, to as int)) == s@.subrange(a as int, to as int));
    }
    let mut b = to;
    while b > a && ws_at(s, b - 1)
        invariant
            a <= b <= to,
            to <= s@.len(),
            trim_front(line) == s@.subrange(a as int, to as int),
            trim_back(s@.subrange(a as int, to as int)) == trim_back(
                s@.subrange(a as int, b as int),
            ),
        decreases b,
    {
        proof {
            assert(s@.subrange(a as int, b as int).take(
                s@.subrange(a as int, b as int).len() - 1,
            ) =~= s@.subrange(a as int, (b - 1) as int));
        }
        b = b - 1;
    }
    proof {
        assert(trim_back(s@.subrange(a as int, b as int)) == s@.subrange(a as int, b as int));
    }
    let mut a2 = a;
    if b > a && s.get_char(a) == '%' {
        a2 = a + 1;
        proof {
            assert(s@.subrange(a as int, b as int).skip(1) =~= s@.subrange(a2 as int, b as int));
        }
    }
    let r = s.substring_char(a2, b).to_owned();
    proof {
        assert(r@ =~= clean_line(line));
    }
    r
}

/// Cleans a whole comment block, from character `from` on.
fn clean_doc_from(s: &str, from: usize) -> (r: String)
    requires
        from <= s@.len(),
    ensures
        r@ == spec_clean_doc(s@.subrange(from as int, s@.len() as int)),
    decreases s@.len() - from,
{
    let ghost rest = s@.subrange(from as int, s@.len() as int);
    let n = s.unicode_len();
    let mut k = from;
    while k < n && !nl_at(s, k)
        invariant
            from <= k <= n,
            n == s@.len(),
            rest == s@.subrange(from as int, s@.len() as int),
            first_nl(rest, 0) == first_nl(rest, (k - from) as int),
        decreases n - k,
    {
        proof {
            assert(rest[(k - from) as int] == s@[k as int]);
        }
        k = k + 1;
    }
    if k == n {
        proof {
            assert(first_nl(rest, (k - from) as int) is None);
        }
        let r = clean_line_exec(s, from, n);
        proof {
            assert(rest =~= s@.subrange(from as int, n as int));
        }
        r
    } else {
        proof {
            assert(rest[(k - from) as int] == s@[k as int]);
            assert(s@[k as int] == '\n');
            assert(first_nl(rest, (k - from) as int) == Some((k - from) as int));
        }
        let mut r = clean_line_exec(s, from, k);
        r.append("\n");
        let tail = clean_doc_from(s, k + 1);
        r.append(tail.as_str());
        proof {
            reveal_strlit("\n");
            assert("\n"@ =~= seq!['\n']);
            assert(rest.take(k - from as int) =~= s@.subrange(from as int, k as int));
            assert(rest.skip(k - from as int + 1) =~= s@.subrange((k + 1) as int, n as int));
            assert(r@ =~= spec_clean_doc(rest));
        }
        r
    }
}

/// Cleans the text of a documentation comment: each line is trimmed
/// of surrounding whitespace and of one leading `%`, and the lines
/// are joined with newlines.
pub fn clean_doc(s: &str) -> (r: String)
    ensures
        r@ == spec_clean_doc(s@),
{
    let r = clean_doc_from(s, 0);
    proof {
        assert(s@.subrange(0, s@.len() as int) =~= s@);
    }
    r
}

/// Extracts the signature of the function defined at `node`: its
/// name and name range, the counted and named inputs and outputs,
/// `varargin`/`varargout` detection, the optional key-value argument
/// names drawn from `arguments` blocks, and the cleaned first
/// comment as documentation. Nothing is extracted when the node has
/// no name child; a property name that is not a key-value pair is
/// passed over.
/// Whether some listed child is an identifier named `name`.
pub open spec fn has_ident_named(ns: Seq<SyntaxNode>, kids: Seq<usize>, name: Seq<char>) -> bool {
    exists|k: int|
        0 <= k < kids.len() && ns[(#[trigger] kids[k]) as int].kind == NodeKind::Identifier && ns[
            kids[k] as int
        ].text@ == name
}

/// The identifier children's names, in order, skipping `skip`.
pub open spec fn ident_names_except(
    ns: Seq<SyntaxNode>,
    kids: Seq<usize>,
    skip: Seq<char>,
) -> Seq<Seq<char>>
    decreases kids.len(),
{
    if kids.len() == 0 {
        Seq::empty()
    } else {
        let pre = ident_names_except(ns, kids.drop_last(), skip);
        if ns[kids.last() as int].kind == NodeKind::Identifier && ns[kids.last() as int].text@
            != skip {
            pre.push(ns[kids.last() as int].text@)
        } else {
            pre
        }
    }
}

/// Whether some listed child's text is `t`.
pub open spec fn has_text(ns: Seq<SyntaxNode>, kids: Seq<usize>, t: Seq<char>) -> bool {
    exists|k: int| 0 <= k < kids.len() && ns[(#[trigger] kids[k]) as int].text@ == t
}

/// The children's texts, in order, skipping `skip`.
pub open spec fn texts_except(
    ns: Seq<SyntaxNode>,
    kids: Seq<usize>,
    skip: Seq<char>,
) -> Seq<Seq<char>>
    decreases kids.len(),
{
    if kids.len() == 0 {
        Seq::empty()
    } else {
        let pre = texts_except(ns, kids.drop_last(), skip);
        if ns[kids.last() as int].text@ != skip {
            pre.push(ns[kids.last() as int].text@)
        } else {
            pre
        }
    }
}

pub fn function_signature(tree: &SyntaxTree, node: usize) -> (r: Option<FunctionSignature>)
    requires
        tree.wf(),
        node < tree.nodes@.len(),
    ensures
        r is Some <==> first_child_with_field(tree.nodes@, node as int, Field::FieldName, 0)
            is Some,
        r matches Some(sig) ==> {
            let nc = first_child_with_field(tree.nodes@, node as int, Field::FieldName, 0)->0;
            &&& sig.name == tree.nodes@[nc as int].text
            &&& sig.name_range == tree.nodes@[nc as int].range
            &&& sig.range.start == tree.nodes@[node as int].range.start
            &&& sig.documentation@ == match first_child_of_kind(
                tree.nodes@,
                node as int,
                NodeKind::Comment,
                0,
            ) {
                Some(c) => spec_clean_doc(tree.nodes@[c as int].text@),
                None => Seq::<char>::empty(),
            }
            &&& match first_child_of_kind(tree.nodes@, node as int, NodeKind::FunctionOutput, 0) {
                Option::None => sig.argout == 0 && !sig.vargout && sig.argout_names@.len() == 0,
                Option::Some(output) => match crate::tree::first_child_from(
                    tree.nodes@,
                    output as int,
                    0,
                ) {
                    Option::None => sig.argout == 0 && !sig.vargout && sig.argout_names@.len()
                        == 0,
                    Option::Some(args) => if tree.nodes@[args as int].kind
                        == NodeKind::Identifier {
                        sig.argout == 1 && !sig.vargout && crate::hover::views_of(
                            sig.argout_names@,
                        ) == seq![tree.nodes@[args as int].text@]
                    } else {
                        let kids = crate::tree::spec_children(tree.nodes@, args as int);
                        &&& sig.vargout == has_ident_named(tree.nodes@, kids, "varargout"@)
                        &&& crate::hover::views_of(sig.argout_names@) == ident_names_except(
                            tree.nodes@,
                            kids,
                            "varargout"@,
                        )
                        &&& sig.argout == kids.len() - (if sig.vargout {
                            1int
                        } else {
                            0int
                        })
                    },
                },
            }
            &&& (first_child_of_kind(tree.nodes@, node as int, NodeKind::ArgumentsStatement, 0)
                is None ==> match first_child_of_kind(
                tree.nodes@,
                node as int,
                NodeKind::FunctionArguments,
                0,
            ) {
                Option::None => sig.argin == 0 && !sig.vargin && sig.argin_names@.len() == 0
                    && sig.vargin_names@.len() == 0,
                Option::Some(inputs) => {
                    let kids = crate::tree::spec_children(tree.nodes@, inputs as int);
                    &&& sig.vargin == has_text(tree.nodes@, kids, "varargin"@)
                    &&& crate::hover::views_of(sig.argin_names@) == texts_except(
                        tree.nodes@,
                        kids,
                        "varargin"@,
                    )
                    &&& sig.argin == texts_except(tree.nodes@, kids, "varargin"@).len()
                    &&& sig.vargin_names@.len() == 0
                },
            })
        },
{
    let ghost ns = tree.nodes@;
    let name_node = match tree.child_by_field(node, Field::FieldName) {
        Option::Some(nc) => nc,
        Option::None => {
            return None;
        },
    };
    let name = tree.nodes[name_node].text.clone();
    let name_range = tree.nodes[name_node].range;
    let mut sig_range: Range = tree.nodes[node].range;
    sig_range.end = name_range.end;

    let mut argout: usize = 0;
    let mut vargout = false;
    let mut argout_names: Vec<String> = Vec::new();
    if let Option::Some(output) = tree.child_of_kind(node, NodeKind::FunctionOutput) {
        if let Option::Some(args) = tree.first_child(output) {
            if tree.nodes[args].kind == NodeKind::Identifier {
                argout = 1;
                argout_names.push(tree.nodes[args].text.clone());
                proof {
                    assert(crate::hover::views_of(argout_names@) =~= seq![ns[args as int].text@]);
                }
            } else {
                let kids = tree.children_of(args);
                let nk = kids.len();
                argout = nk;
                let mut ki: usize = 0;
                while ki < nk
                    invariant
                        ns == tree.nodes@,
                        nk == kids@.len(),
                        ki <= nk,
                        kids@ == crate::tree::spec_children(ns, args as int),
                        forall|k: int|
                            0 <= k < kids@.len() ==> is_child(
                                ns,
                                #[trigger] kids@[k] as int,
                                args as int,
                            ),
                        vargout == has_ident_named(ns, kids@.take(ki as int), "varargout"@),
                        crate::hover::views_of(argout_names@) =~= ident_names_except(
                            ns,
                            kids@.take(ki as int),
                            "varargout"@,
                        ),
                    decreases nk - ki,
                {
                    let ghost pre = kids@.take(ki as int);
                    let ghost an0 = argout_names@;
                    proof {
                        assert(kids@.take((ki + 1) as int) =~= pre.push(kids@[ki as int]));
                        assert(kids@.take((ki + 1) as int).drop_last() =~= pre);
                    }
                    let c = kids[ki];
                    let is_vo = tree.nodes[c].kind == NodeKind::Identifier && str_eq(
                        tree.nodes[c].text.as_str(),
                        "varargout",
                    );
                    proof {
                        let cur = kids@.take((ki + 1) as int);
                        assert(has_ident_named(ns, cur, "varargout"@) == (has_ident_named(
                            ns,
                            pre,
                            "varargout"@,
                        ) || is_vo)) by {
                            if has_ident_named(ns, pre, "varargout"@) {
                                let w = choose|w: int|
                                    0 <= w < pre.len() && ns[(#[trigger] pre[w]) as int].kind
                                        == NodeKind::Identifier && ns[pre[w] as int].text@
                                        == "varargout"@;
                                assert(cur[w] == pre[w]);
                            }
                            if is_vo {
                                assert(cur[ki as int] == kids@[ki as int]);
                            }
                            if has_ident_named(ns, cur, "varargout"@) {
                                let w = choose|w: int|
                                    0 <= w < cur.len() && ns[(#[trigger] cur[w]) as int].kind
                                        == NodeKind::Identifier && ns[cur[w] as int].text@
                                        == "varargout"@;
                                if w < ki {
                                    assert(pre[w] == cur[w]);
                                }
                            }
                        }
                    }
                    if is_vo {
                        vargout = true;
                    } else if tree.nodes[c].kind == NodeKind::Identifier {
                        argout_names.push(tree.nodes[c].text.clone());
                        proof {
                            assert(crate::hover::views_of(argout_names@)
                                =~= crate::hover::views_of(an0).push(ns[c as int].text@));
                        }
                    }
                    ki = ki + 1;
                }
                proof {
                    assert(kids@.take(nk as int) =~= kids@);
                }
                if vargout && argout > 0 {
                    argout = argout - 1;
                }
                proof {
                    if vargout {
                        let w = choose|w: int|
                            0 <= w < kids@.len() && ns[(#[trigger] kids@[w]) as int].kind
                                == NodeKind::Identifier && ns[kids@[w] as int].text@
                                == "varargout"@;
                        assert(kids@.len() >= 1);
                    }
                }
            }
        }
    }

    let mut argin: usize = 0;
    let mut vargin = false;
    let mut argin_names: Vec<String> = Vec::new();
    let mut vargin_names: Vec<String> = Vec::new();
    if let Option::Some(inputs) = tree.child_of_kind(node, NodeKind::FunctionArguments) {
        sig_range.end = tree.nodes[inputs].range.end;
        let kids = tree.children_of(inputs);
        let nk = kids.len();
        let mut ki: usize = 0;
        while ki < nk
            invariant
                ns == tree.nodes@,
                nk == kids@.len(),
                ki <= nk,
                kids@ == crate::tree::spec_children(ns, inputs as int),
                forall|k: int|
                    0 <= k < kids@.len() ==> is_child(ns, #[trigger] kids@[k] as int, inputs as int),
                vargin == has_text(ns, kids@.take(ki as int), "varargin"@),
                crate::hover::views_of(argin_names@) =~= texts_except(
                    ns,
                    kids@.take(ki as int),
                    "varargin"@,
                ),
            decreases nk - ki,
        {
            let ghost pre = kids@.take(ki as int);
            let ghost an0 = argin_names@;
            proof {
                assert(kids@.take((ki + 1) as int) =~= pre.push(kids@[ki as int]));
                assert(kids@.take((ki + 1) as int).drop_last() =~= pre);
            }
            let c = kids[ki];
            let is_va = str_eq(tree.nodes[c].text.as_str(), "varargin");
            proof {
                let cur = kids@.take((ki + 1) as int);
                assert(has_text(ns, cur, "varargin"@) == (has_text(ns, pre, "varargin"@) || is_va))
                    by {
                    if has_text(ns, pre, "varargin"@) {
                        let w = choose|w: int|
                            0 <= w < pre.len() && ns[(#[trigger] pre[w]) as int].text@
                                == "varargin"@;
                        assert(cur[w] == pre[w]);
                    }
                    if is_va {
                        assert(cur[ki as int] == kids@[ki as int]);
                    }
                    if has_text(ns, cur, "varargin"@) {
                        let w = choose|w: int|
                            0 <= w < cur.len() && ns[(#[trigger] cur[w]) as int].text@
                                == "varargin"@;
                        if w < ki {
                            assert(pre[w] == cur[w]);
                        }
                    }
                }
            }
            if is_va {
                // a variadic input: recorded as `vargin`, not a
                // positional name
                vargin = true;
            } else {
                argin_names.push(tree.nodes[c].text.clone());
                proof {
                    assert(crate::hover::views_of(argin_names@) =~= crate::hover::views_of(
                        an0,
                    ).push(ns[c as int].text@));
                }
            }
            ki = ki + 1;
        }
        proof {
            assert(kids@.take(nk as int) =~= kids@);
        }
        argin = argin_names.len();
        let ghost base_vargin = vargin;
        let ghost base_argin_names = argin_names@;
        let ghost base_argin = argin;
        // `arguments` blocks with key-value property names turn
        // positional inputs into optional ones.
        let mut optional_names: Vec<String> = Vec::new();
        let blocks = tree.children_of(node);
        let nb = blocks.len();
        let mut bi: usize = 0;
        while bi < nb
            invariant
                tree.wf(),
                ns == tree.nodes@,
                node < ns.len(),
                nb == blocks@.len(),
                bi <= nb,
                forall|k: int|
                    0 <= k < blocks@.len() ==> is_child(
                        ns,
                        #[trigger] blocks@[k] as int,
                        node as int,
                    ),
                first_child_of_kind(ns, node as int, NodeKind::ArgumentsStatement, 0) is None
                    ==> optional_names@.len() == 0 && vargin_names@.len() == 0 && argin_names@
                    == base_argin_names,
            decreases nb - bi,
        {
            let blk = blocks[bi];
            bi = bi + 1;
            if !(tree.nodes[blk].kind == NodeKind::ArgumentsStatement) {
                continue ;
            }
            proof {
                crate::tree::lemma_kind_child_found(
                    ns,
                    node as int,
                    NodeKind::ArgumentsStatement,
                    blk as int,
                    0,
                );
            }
            // a block whose attributes name `Output` describes the
            // outputs, not the inputs
            let mut is_output = false;
            if let Option::Some(attrs) = tree.child_of_kind(blk, NodeKind::Attributes) {
                let akids = tree.children_of(attrs);
                let nak = akids.len();
                let mut aki: usize = 0;
                while aki < nak
                    invariant
                        ns == tree.nodes@,
                        nak == akids@.len(),
                        aki <= nak,
                        forall|k: int|
                            0 <= k < akids@.len() ==> is_child(
                                ns,
                                #[trigger] akids@[k] as int,
                                attrs as int,
                            ),
                    decreases nak - aki,
                {
                    if str_eq(tree.nodes[akids[aki]].text.as_str(), "Output") {
                        is_output = true;
                    }
                    aki = aki + 1;
                }
            }
            if is_output {
                continue ;
            }
            let props = tree.children_of(blk);
            let np = props.len();
            let mut pi: usize = 0;
            while pi < np
                invariant
                    tree.wf(),
                    ns == tree.nodes@,
                    np == props@.len(),
                    pi <= np,
                    forall|k: int|
                        0 <= k < props@.len() ==> is_child(
                            ns,
                            #[trigger] props@[k] as int,
                            blk as int,
                        ),
                    first_child_of_kind(ns, node as int, NodeKind::ArgumentsStatement, 0)
                        is Some,
                decreases np - pi,
            {
                let prop = props[pi];
                pi = pi + 1;
                let pname = match tree.child_by_field(prop, Field::FieldName) {
                    Option::Some(pn) => pn,
                    Option::None => {
                        continue ;
                    },
                };
                if !(tree.nodes[pname].kind == NodeKind::PropertyName) {
                    continue ;
                }
                let parts = tree.children_of(pname);
                if parts.len() < 2 {
                    // not a key-value property name
                    continue ;
                }
                let base = tree.nodes[parts[0]].text.clone();
                let key = tree.nodes[parts[1]].text.clone();
                // drop the base from the positional inputs
                let mut kept: Vec<String> = Vec::new();
                let nn = argin_names.len();
                let mut ni: usize = 0;
                while ni < nn
                    invariant
                        nn == argin_names@.len(),
                        ni <= nn,
                    decreases nn - ni,
                {
                    if !str_eq(argin_names[ni].as_str(), base.as_str()) {
                        kept.push(argin_names[ni].clone());
                    }
                    ni = ni + 1;
                }
                argin_names = kept;
                // count each optional base once
                let mut seen = false;
                let no = optional_names.len();
                let mut oi: usize = 0;
                while oi < no
                    invariant
                        no == optional_names@.len(),
                        oi <= no,
                    decreases no - oi,
                {
                    if str_eq(optional_names[oi].as_str(), base.as_str()) {
                        seen = true;
                    }
                    oi = oi + 1;
                }
                if !seen {
                    optional_names.push(base);
                }
                vargin_names.push(key);
            }
        }
        let vargin_count = optional_names.len();
        vargin = vargin || vargin_count > 0;
        if vargin_count <= argin {
            argin = argin - vargin_count;
        } else {
            argin = 0;
        }
    }

    let documentation: String = match tree.child_of_kind(node, NodeKind::Comment) {
        Option::Some(c) => clean_doc(tree.nodes[c].text.as_str()),
        Option::None => String::new(),
    };

    Some(
        FunctionSignature {
            name_range,
            name,
            argin,
            argout,
            vargin,
            vargout,
            argout_names,
            argin_names,
            vargin_names,
            documentation,
            range: sig_range,
        },
    )
}

/// The first child of the root that is not a comment.
pub open spec fn first_code_child(ns: Seq<SyntaxNode>, from: int) -> Option<usize>
    decreases ns.len() - from,
{
    if from < 1 || from >= ns.len() {
        None
    } else if ns[from].parent == Some(0usize) && ns[from].kind != NodeKind::Comment {
        Some(from as usize)
    } else {
        first_code_child(ns, from + 1)
    }
}

/// Reads the file's public face from the first non-comment top-level
/// node: a function definition yields its definition record (located
/// at the whole definition, carrying the file's package); a class
/// definition marks the file as no script; anything else leaves it a
/// script.
pub fn public_function(tree: &SyntaxTree, path: &str, package: &str) -> (r: (
    Option<FunctionDefinition>,
    bool,
))
    requires
        tree.wf(),
    ensures
        r.1 == match first_code_child(tree.nodes@, 1) {
            Some(c) => !(tree.nodes@[c as int].kind == NodeKind::ClassDefinition || (
            tree.nodes@[c as int].kind == NodeKind::FunctionDefinition && first_child_with_field(
                tree.nodes@,
                c as int,
                Field::FieldName,
                0,
            ) is Some)),
            None => true,
        },
        r.0 matches Some(fd) ==> {
            let c = first_code_child(tree.nodes@, 1)->0;
            let nc = first_child_with_field(tree.nodes@, c as int, Field::FieldName, 0);
            &&& first_code_child(tree.nodes@, 1) is Some
            &&& tree.nodes@[c as int].kind == NodeKind::FunctionDefinition
            &&& nc is Some
            &&& fd.loc == tree.nodes@[nc->0 as int].range
            &&& fd.loc == fd.signature.name_range
            &&& fd.name == tree.nodes@[nc->0 as int].text
            &&& fd.signature.name == fd.name
            &&& fd.path@ == path@
            &&& fd.package@ == package@
        },
        r.0 is None ==> match first_code_child(tree.nodes@, 1) {
            Some(c) => !(tree.nodes@[c as int].kind == NodeKind::FunctionDefinition
                && first_child_with_field(tree.nodes@, c as int, Field::FieldName, 0) is Some),
            None => true,
        },
{
    let ghost ns = tree.nodes@;
    let n = tree.nodes.len();
    let mut i: usize = 1;
    while i < n
        invariant
            tree.wf(),
            ns == tree.nodes@,
            n == ns.len(),
            1 <= i,
            i <= n || n == 0,
            first_code_child(ns, 1) == first_code_child(ns, i as int),
        decreases n - i,
    {
        let mut hit = false;
        if let Option::Some(p) = tree.nodes[i].parent {
            if p == 0 && !(tree.nodes[i].kind == NodeKind::Comment) {
                hit = true;
            }
        }
        if hit {
            if tree.nodes[i].kind == NodeKind::FunctionDefinition {
                match crate::sigs::function_signature(tree, i) {
                    Option::Some(signature) => {
                        // the definition's location is the name's range
                        let fd = FunctionDefinition {
                            loc: signature.name_range,
                            name: signature.name.clone(),
                            path: path.to_owned(),
                            signature,
                            package: package.to_owned(),
                        };
                        return (Some(fd), false);
                    },
                    Option::None => {
                        return (None, true);
                    },
                }
            } else if tree.nodes[i].kind == NodeKind::ClassDefinition {
                return (None, false);
            } else {
                return (None, true);
            }
        }
        i = i + 1;
    }
    (None, true)
}

} // verus!
