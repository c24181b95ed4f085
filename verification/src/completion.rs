//! Completion: the prefix under the cursor, candidates from
//! variables, functions, namespaces, scripts and references, merged
//! into one list sorted by label without duplicates.

use vstd::prelude::*;

use vstd::string::StrSliceExecFns;

use crate::hover::spec_hover_fn_md;
use crate::hover::usize_to_string;
use crate::ident::spec_starts_with;
use crate::ident::str_contains_char;
use crate::ident::str_starts_with;
use crate::order::lemma_lex_antisym;
use crate::order::lemma_lex_total;
use crate::order::lemma_lex_trans;
use crate::order::lex_le;
use crate::order::str_lex_le;
use crate::range::Point;
use crate::range::Range;
use crate::store::ParsedFile;
use crate::store::Store;
use crate::symbols::ReferenceTarget;
use crate::tree::NodeKind;

verus! {

/// What a completion item stands for.
#[derive(Clone, Copy, Debug, PartialEq, Eq, Structural)]
pub enum CompletionKind {
    Variable,
    Field,
    Function,
    Module,
    File,
}

/// One completion candidate.
pub struct CompletionItem {
    pub label: String,
    pub kind: CompletionKind,
    /// A snippet to insert, for functions.
    pub insert_text: Option<String>,
    pub documentation: String,
}

/// Whether `c` may appear in a completion prefix: an identifier
/// character or a dot.
pub open spec fn is_completion_char(c: char) -> bool {
    crate::ident::is_ident_char(c) || c == '.'
}

/// The longest suffix of `s` made of completion characters.
pub open spec fn trailing_run(s: Seq<char>) -> Seq<char>
    decreases s.len(),
{
    if s.len() == 0 || !is_completion_char(s.last()) {
        Seq::empty()
    } else {
        trailing_run(s.drop_last()).push(s.last())
    }
}

/// The completion prefix at `pos`: the longest trailing run of
/// identifier characters and dots on the line, up to the cursor.
pub fn completion_prefix(contents: &str, pos: Point) -> (r: String)
    ensures
        ({
            let line_start = crate::edit::offset_of(contents@, Point { row: pos.row, column: 0 });
            let cursor = crate::edit::offset_of(contents@, pos);
            line_start <= cursor ==> r@ == trailing_run(contents@.subrange(line_start, cursor))
        }),
{
    let rg = Range { start: Point { row: pos.row, column: 0 }, end: pos };
    let (a, b) = rg.find_bytes(contents);
    if a > b {
        return String::new();
    }
    let ghost line = contents@.subrange(a as int, b as int);
    let mut k: usize = b;
    while k > a && is_completion_at(contents, k - 1)
        invariant
            a <= k <= b,
            b <= contents@.len(),
            line == contents@.subrange(a as int, b as int),
            trailing_run(line) == trailing_run(contents@.subrange(a as int, k as int)).add(
                contents@.subrange(k as int, b as int),
            ),
            forall|j: int| k <= j < b ==> is_completion_char(#[trigger] contents@[j]),
        decreases k,
    {
        proof {
            let cur = contents@.subrange(a as int, k as int);
            assert(cur.drop_last() =~= contents@.subrange(a as int, (k - 1) as int));
            assert(trailing_run(cur) =~= trailing_run(cur.drop_last()).push(contents@[k - 1]));
            assert(trailing_run(contents@.subrange(a as int, (k - 1) as int)).add(
                contents@.subrange((k - 1) as int, b as int),
            ) =~= trailing_run(cur).add(contents@.subrange(k as int, b as int)));
        }
        k = k - 1;
    }
    let r = contents.substring_char(k, b).to_owned();
    proof {
        let cur = contents@.subrange(a as int, k as int);
        assert(trailing_run(cur) =~= Seq::<char>::empty()) by {
            if k == a {
            } else {
                assert(!is_completion_char(contents@[k - 1]));
                assert(cur.last() == contents@[k - 1]);
            }
        }
        assert(r@ =~= trailing_run(line));
    }
    r
}

/// Whether the character before offset `k` is a completion
/// character.
fn is_completion_at(contents: &str, j: usize) -> (r: bool)
    requires
        j < contents@.len(),
    ensures
        r == is_completion_char(contents@[j as int]),
{
    let c = contents.get_char(j);
    let u = c as u32;
    (97 <= u && u <= 122) || (65 <= u && u <= 90) || u == 95 || (48 <= u && u <= 57) || c == '.'
}

/// Inserts an item into a list that is strictly sorted by label; an
/// item whose label is already present is dropped.
fn sorted_insert_item(v: &mut Vec<CompletionItem>, it: CompletionItem)
    requires
        sorted_items(old(v)@),
    ensures
        sorted_items(final(v)@),
        forall|i: int|
            0 <= i < final(v)@.len() ==> (#[trigger] final(v)@[i]) == it || old(v)@.contains(
                final(v)@[i],
            ),
        exists|i: int| 0 <= i < final(v)@.len() && (#[trigger] final(v)@[i]).label@ == it.label@,
        forall|x: CompletionItem| #[trigger] old(v)@.contains(x) ==> exists|i: int|
            0 <= i < final(v)@.len() && (#[trigger] final(v)@[i]).label@ == x.label@,
{
    let ghost v0 = v@;
    let n = v.len();
    let mut k: usize = 0;
    while k < n && str_lex_le(v[k].label.as_str(), it.label.as_str()) && !crate::ident::str_eq(
        v[k].label.as_str(),
        it.label.as_str(),
    )
        invariant
            v@ == v0,
            n == v0.len(),
            k <= n,
            forall|i: int|
                0 <= i < k ==> lex_le((#[trigger] v0[i]).label@, it.label@) && (
                #[trigger] v0[i]).label@ != it.label@,
        decreases n - k,
    {
        k = k + 1;
    }
    if k < n && crate::ident::str_eq(v[k].label.as_str(), it.label.as_str()) {
        proof {
            assert(v@[k as int].label@ == it.label@);
            assert forall|x: CompletionItem| #[trigger] v0.contains(x) implies exists|i: int|
                0 <= i < v@.len() && (#[trigger] v@[i]).label@ == x.label@ by {
                let i0 = choose|i0: int| 0 <= i0 < v0.len() && v0[i0] == x;
                assert(v@[i0].label@ == x.label@);
            }
        }
        return ;
    }
    proof {
        if k < n {
            lemma_lex_total(v0[k as int].label@, it.label@, 0);
            assert(lex_le(it.label@, v0[k as int].label@));
        }
    }
    let ghost itg = it;
    v.insert(k, it);
    proof {
        assert(v@ =~= v0.subrange(0, k as int).push(itg) + v0.subrange(
            k as int,
            v0.len() as int,
        ));
        assert forall|i: int, j: int| 0 <= i < j < v@.len() implies lex_le(
            (#[trigger] v@[i]).label@,
            (#[trigger] v@[j]).label@,
        ) && (#[trigger] v@[i]).label@ != (#[trigger] v@[j]).label@ by {
            if i < k && j < k {
                assert(v@[i] == v0[i] && v@[j] == v0[j]);
            } else if i < k && j == k {
                assert(v@[i] == v0[i] && v@[j] == itg);
            } else if i < k && j > k {
                assert(v@[i] == v0[i] && v@[j] == v0[j - 1]);
                assert(lex_le(v0[i].label@, v0[j - 1].label@) && v0[i].label@ != v0[j
                    - 1].label@) by {
                    if i == j - 1 {
                        assert(false);
                    }
                }
            } else if i == k && j > k {
                assert(v@[i] == itg && v@[j] == v0[j - 1]);
                assert(lex_le(itg.label@, v0[j - 1].label@)) by {
                    if k as int != j - 1 {
                        lemma_lex_trans(itg.label@, v0[k as int].label@, v0[j - 1].label@, 0);
                    }
                }
                assert(itg.label@ != v0[j - 1].label@) by {
                    if itg.label@ == v0[j - 1].label@ {
                        if k as int == j - 1 {
                            assert(false);
                        } else {
                            assert(lex_le(v0[j - 1].label@, v0[k as int].label@)) by {
                                lemma_lex_total(v0[j - 1].label@, itg.label@, 0);
                                lemma_lex_trans(
                                    v0[j - 1].label@,
                                    itg.label@,
                                    v0[k as int].label@,
                                    0,
                                );
                            }
                            lemma_lex_antisym(v0[k as int].label@, v0[j - 1].label@, 0);
                            assert(false);
                        }
                    }
                }
            } else {
                assert(v@[i] == v0[i - 1] && v@[j] == v0[j - 1]);
            }
        }
        assert(v@[k as int].label@ == itg.label@);
        assert forall|x: CompletionItem| #[trigger] v0.contains(x) implies exists|i: int|
            0 <= i < v@.len() && (#[trigger] v@[i]).label@ == x.label@ by {
            let i0 = choose|i0: int| 0 <= i0 < v0.len() && v0[i0] == x;
            if i0 < k {
                assert(v@[i0].label@ == x.label@);
            } else {
                assert(v@[i0 + 1].label@ == x.label@);
            }
        }
        assert forall|i: int| 0 <= i < v@.len() implies (#[trigger] v@[i]).label@ == itg.label@
            || v0.contains(v@[i]) by {
            if i < k {
                assert(v@[i] == v0[i]);
            } else if i > k {
                assert(v@[i] == v0[i - 1]);
            }
        }
    }
}

/// Whether some item of the list carries the label `name`.
pub open spec fn has_label(v: Seq<CompletionItem>, name: Seq<char>) -> bool {
    exists|k: int| 0 <= k < v.len() && (#[trigger] v[k]).label@ == name
}

/// Whether the binding `v` is visible at the cursor: defined above
/// the cursor's row and not cleared above it.
pub open spec fn var_live_at(v: crate::symbols::VariableDefinition, point: Point) -> bool {
    v.loc.start.row < point.row && !(v.cleared > 0 && v.cleared < point.row)
}

/// Whether the reference `rf` offers a live candidate at the cursor:
/// a variable target must not be defined below the cursor's row nor
/// cleared above it.
pub open spec fn ref_live_at(file: ParsedFile, rf: crate::symbols::Reference, point: Point) -> bool {
    match rf.target {
        ReferenceTarget::Variable(vj) => if (vj as int) < file.workspace.variables@.len() {
            let def = file.workspace.variables@[vj as int];
            !(def.loc.start.row > point.row || (def.cleared > 0 && def.cleared < point.row))
        } else {
            true
        },
        _ => true,
    }
}

/// The documentation a binding's item shows: its defining row and
/// the enclosing assignment's source text in a code fence.
pub open spec fn spec_var_doc(file: ParsedFile, v: crate::symbols::VariableDefinition) -> Seq<
    char,
> {
    let code: Seq<char> = if (v.node as int) < file.tree.nodes@.len() {
        match crate::tree::anc_of_kind(file.tree.nodes@, v.node as int, NodeKind::Assignment) {
            Option::Some(a) => file.tree.nodes@[a as int].text@,
            Option::None => Seq::empty(),
        }
    } else {
        Seq::empty()
    };
    "Line "@ + (if v.loc.start.row < usize::MAX {
        crate::hover::dec_str(v.loc.start.row as int)
    } else {
        Seq::empty()
    }) + ":\n```matlab\n"@ + code + "\n```"@
}

/// An item a live binding offers: its name as the label, nothing to
/// insert, and — for a well-formed tree — the enclosing assignment's
/// line as documentation.
pub open spec fn from_variables(
    file: ParsedFile,
    pos: Point,
    pfx: Seq<char>,
    it: CompletionItem,
) -> bool {
    exists|iv: int|
        0 <= iv < file.workspace.variables@.len() && var_live_at(
            #[trigger] file.workspace.variables@[iv],
            pos,
        ) && spec_starts_with(file.workspace.variables@[iv].name@, pfx) && it.label@
            == file.workspace.variables@[iv].name@ && it.insert_text is None && (file.tree.wf()
            ==> it.documentation@ == spec_var_doc(file, file.workspace.variables@[iv]))
}

/// An item a known function offers: its qualified name, a snippet to
/// insert, and the rendered signature as documentation.
pub open spec fn from_functions(
    store: Store,
    file: ParsedFile,
    pfx: Seq<char>,
    it: CompletionItem,
) -> bool {
    ||| (exists|ig: int|
        0 <= ig < store.functions@.len() && spec_starts_with(
            (#[trigger] store.functions@[ig]).0@,
            pfx,
        ) && it.label@ == store.functions@[ig].0@ && it.kind == CompletionKind::Function
            && it.insert_text is Some && it.documentation@ == spec_hover_fn_md(
            store.functions@[ig].1.signature,
        ))
    ||| (exists|jf: int|
        0 <= jf < file.workspace.functions@.len() && spec_starts_with(
            (#[trigger] file.workspace.functions@[jf]).0@,
            pfx,
        ) && it.label@ == file.workspace.functions@[jf].0@ && it.kind == CompletionKind::Function
            && it.insert_text is Some && it.documentation@ == spec_hover_fn_md(
            file.workspace.functions@[jf].1.signature,
        ))
}

/// An item a known package offers.
pub open spec fn from_packages(store: Store, pfx: Seq<char>, it: CompletionItem) -> bool {
    exists|ip: int|
        0 <= ip < store.packages@.len() && spec_starts_with(
            (#[trigger] store.packages@[ip])@,
            pfx,
        ) && it.label@ == store.packages@[ip]@ && it.kind == CompletionKind::Module
            && it.insert_text is None && it.documentation@.len() == 0
}

/// An item a stored script offers.
pub open spec fn from_scripts(store: Store, pfx: Seq<char>, it: CompletionItem) -> bool {
    exists|ie: int|
        0 <= ie < store.parsed_files@.len() && (#[trigger] store.parsed_files@[ie]).1.is_script
            && spec_starts_with(store.parsed_files@[ie].1.name@, pfx) && it.label@
            == store.parsed_files@[ie].1.name@ && it.kind == CompletionKind::File
            && it.insert_text is None && it.documentation@.len() == 0
}

/// An item a live reference offers.
pub open spec fn from_references(
    file: ParsedFile,
    pos: Point,
    pfx: Seq<char>,
    it: CompletionItem,
) -> bool {
    exists|ir: int|
        0 <= ir < file.workspace.references@.len() && ref_live_at(
            file,
            #[trigger] file.workspace.references@[ir],
            pos,
        ) && spec_starts_with(file.workspace.references@[ir].name@, pfx) && it.label@
            == file.workspace.references@[ir].name@ && it.insert_text is None
            && it.documentation@.len() == 0
}

/// Whether the item is one a completion source offers at this
/// cursor: a live binding, a known function (with its snippet and
/// rendered signature), a package, a stored script, or a live
/// reference, each with a label that starts with the prefix.
pub open spec fn item_from_sources(
    store: Store,
    file: ParsedFile,
    pos: Point,
    pfx: Seq<char>,
    it: CompletionItem,
) -> bool {
    ||| from_variables(file, pos, pfx, it)
    ||| from_functions(store, file, pfx, it)
    ||| from_packages(store, pfx, it)
    ||| from_scripts(store, pfx, it)
    ||| from_references(file, pos, pfx, it)
}

/// A list strictly sorted by label.
pub open spec fn sorted_items(v: Seq<CompletionItem>) -> bool {
    forall|i: int, j: int|
        0 <= i < j < v.len() ==> lex_le((#[trigger] v[i]).label@, (#[trigger] v[j]).label@) && (
        #[trigger] v[i]).label@ != (#[trigger] v[j]).label@
}

/// The variable candidates: bindings defined before the cursor's
/// row and not cleared above it, whose names start with the prefix;
/// dotted names complete as fields, and each shows its defining
/// line.
fn variable_completions(file: &ParsedFile, prefix: &str, point: Point) -> (r: Vec<CompletionItem>)
    ensures
        forall|k: int|
            0 <= k < r@.len() ==> spec_starts_with((#[trigger] r@[k]).label@, prefix@),
        forall|iv: int|
            0 <= iv < file.workspace.variables@.len() && var_live_at(
                #[trigger] file.workspace.variables@[iv],
                point,
            ) && spec_starts_with(file.workspace.variables@[iv].name@, prefix@) ==> has_label(
                r@,
                file.workspace.variables@[iv].name@,
            ),
        forall|k: int|
            0 <= k < r@.len() ==> from_variables(*file, point, prefix@, #[trigger] r@[k]),
{
    let mut r: Vec<CompletionItem> = Vec::new();
    let n = file.workspace.variables.len();
    let tn = file.tree.nodes.len();
    let mut i: usize = 0;
    while i < n
        invariant
            n == file.workspace.variables@.len(),
            tn == file.tree.nodes@.len(),
            i <= n,
            forall|k: int|
                0 <= k < r@.len() ==> spec_starts_with((#[trigger] r@[k]).label@, prefix@),
            forall|iv: int|
                0 <= iv < i && var_live_at(#[trigger] file.workspace.variables@[iv], point)
                    && spec_starts_with(file.workspace.variables@[iv].name@, prefix@)
                    ==> has_label(r@, file.workspace.variables@[iv].name@),
            forall|k: int|
                0 <= k < r@.len() ==> from_variables(*file, point, prefix@, #[trigger] r@[k]),
        decreases n - i,
    {
        let ghost r0 = r@;
        let var = &file.workspace.variables[i];
        let fresh = var.loc.start.row < point.row && !(var.cleared > 0 && var.cleared < point.row);
        let pushed = fresh && str_starts_with(var.name.as_str(), prefix);
        if pushed {
            // the defining line, read from the enclosing assignment
            let mut code: String = String::new();
            if var.node < tn {
                match file.tree.parent_of_kind_dyn(NodeKind::Assignment, var.node) {
                    Option::Some(a) => {
                        code = file.tree.nodes[a].text.clone();
                    },
                    Option::None => {},
                }
            }
            let mut doc: String = "Line ".to_owned();
            if var.loc.start.row < usize::MAX {
                let num = usize_to_string(var.loc.start.row);
                doc.append(num.as_str());
            }
            doc.append(":\n```matlab\n");
            doc.append(code.as_str());
            doc.append("\n```");
            let kind = if str_contains_char(var.name.as_str(), '.') {
                CompletionKind::Field
            } else {
                CompletionKind::Variable
            };
            r.push(
                CompletionItem {
                    label: var.name.clone(),
                    kind,
                    insert_text: None,
                    documentation: doc,
                },
            );
        }
        proof {
            if pushed {
                assert(var_live_at(file.workspace.variables@[i as int], point)
                    && spec_starts_with(file.workspace.variables@[i as int].name@, prefix@) && r@[
                    r@.len() - 1
                ].label@ == file.workspace.variables@[i as int].name@ && r@[r@.len()
                    - 1].insert_text is None);
            }
            assert forall|iv: int|
                0 <= iv < i + 1 && var_live_at(#[trigger] file.workspace.variables@[iv], point)
                    && spec_starts_with(file.workspace.variables@[iv].name@, prefix@)
                    implies has_label(r@, file.workspace.variables@[iv].name@) by {
                if iv < i {
                    assert(has_label(r0, file.workspace.variables@[iv].name@));
                    let k = choose|k: int|
                        0 <= k < r0.len() && (#[trigger] r0[k]).label@ == file.workspace.variables@[
                            iv
                        ].name@;
                    assert(r@[k].label@ == file.workspace.variables@[iv].name@);
                } else {
                    assert(r@[r@.len() - 1].label@ == file.workspace.variables@[iv].name@);
                }
            }
            assert forall|k: int| 0 <= k < r@.len() implies from_variables(
                *file,
                point,
                prefix@,
                #[trigger] r@[k],
            ) by {
                if k < r0.len() {
                    assert(r@[k] == r0[k]);
                    assert(from_variables(*file, point, prefix@, r0[k]));
                } else {
                    assert(from_variables(*file, point, prefix@, r@[k]));
                }
            }
        }
        i = i + 1;
    }
    r
}

/// The snippet a function completes to:
/// `name(${1:a1}, ${2:a2}, ...)`.
fn function_snippet(name: &str, argin_names: &Vec<String>) -> (r: String) {
    let mut s: String = name.to_owned();
    s.append("(");
    let n = argin_names.len();
    let mut i: usize = 0;
    while i < n
        invariant
            n == argin_names@.len(),
            i <= n,
        decreases n - i,
    {
        if i > 0 {
            s.append(", ");
        }
        s.append("${");
        if i < usize::MAX {
            let num = usize_to_string(i + 1);
            s.append(num.as_str());
        }
        s.append(":");
        s.append(argin_names[i].as_str());
        s.append("}");
        i = i + 1;
    }
    s.append(")");
    s
}

/// The function candidates: every stored or file-local function
/// whose qualified name starts with the prefix, with a snippet and
/// its rendered signature as documentation.
fn function_completions(store: &Store, file: &ParsedFile, prefix: &str) -> (r: Vec<
    CompletionItem,
>)
    ensures
        forall|k: int|
            0 <= k < r@.len() ==> spec_starts_with((#[trigger] r@[k]).label@, prefix@),
        forall|ig: int|
            0 <= ig < store.functions@.len() && spec_starts_with(
                (#[trigger] store.functions@[ig]).0@,
                prefix@,
            ) ==> has_label(r@, store.functions@[ig].0@),
        forall|jf: int|
            0 <= jf < file.workspace.functions@.len() && spec_starts_with(
                (#[trigger] file.workspace.functions@[jf]).0@,
                prefix@,
            ) ==> has_label(r@, file.workspace.functions@[jf].0@),
        forall|k: int|
            0 <= k < r@.len() ==> from_functions(*store, *file, prefix@, #[trigger] r@[k]),
{
    let mut r: Vec<CompletionItem> = Vec::new();
    let ng = store.functions.len();
    let mut i: usize = 0;
    while i < ng
        invariant
            ng == store.functions@.len(),
            i <= ng,
            forall|k: int|
                0 <= k < r@.len() ==> spec_starts_with((#[trigger] r@[k]).label@, prefix@),
            forall|ig: int|
                0 <= ig < i && spec_starts_with((#[trigger] store.functions@[ig]).0@, prefix@)
                    ==> has_label(r@, store.functions@[ig].0@),
            forall|k: int|
                0 <= k < r@.len() ==> from_functions(*store, *file, prefix@, #[trigger] r@[k]),
        decreases ng - i,
    {
        let ghost r0 = r@;
        let e = store.functions.entry(i);
        if str_starts_with(e.0.as_str(), prefix) {
            let item = function_item(&e.0, &e.1.signature);
            r.push(item);
            proof {
                assert(r@[r@.len() - 1].label@ == store.functions@[i as int].0@ && r@[r@.len()
                    - 1].documentation@ == spec_hover_fn_md(store.functions@[i as int].1.signature));
                assert(from_functions(*store, *file, prefix@, r@[r@.len() - 1]));
            }
        }
        proof {
            assert forall|k: int| 0 <= k < r@.len() implies from_functions(
                *store,
                *file,
                prefix@,
                #[trigger] r@[k],
            ) by {
                if k < r0.len() {
                    assert(r@[k] == r0[k]);
                    assert(from_functions(*store, *file, prefix@, r0[k]));
                }
            }
            assert forall|ig: int|
                0 <= ig < i + 1 && spec_starts_with((#[trigger] store.functions@[ig]).0@, prefix@)
                    implies has_label(r@, store.functions@[ig].0@) by {
                if ig < i {
                    let k = choose|k: int|
                        0 <= k < r0.len() && (#[trigger] r0[k]).label@ == store.functions@[ig].0@;
                    assert(r@[k].label@ == store.functions@[ig].0@);
                } else {
                    assert(r@[r@.len() - 1].label@ == store.functions@[ig].0@);
                }
            }
        }
        i = i + 1;
    }
    let nf = file.workspace.functions.len();
    let mut j: usize = 0;
    while j < nf
        invariant
            nf == file.workspace.functions@.len(),
            j <= nf,
            forall|k: int|
                0 <= k < r@.len() ==> spec_starts_with((#[trigger] r@[k]).label@, prefix@),
            forall|ig: int|
                0 <= ig < store.functions@.len() && spec_starts_with(
                    (#[trigger] store.functions@[ig]).0@,
                    prefix@,
                ) ==> has_label(r@, store.functions@[ig].0@),
            forall|jf: int|
                0 <= jf < j && spec_starts_with(
                    (#[trigger] file.workspace.functions@[jf]).0@,
                    prefix@,
                ) ==> has_label(r@, file.workspace.functions@[jf].0@),
            forall|k: int|
                0 <= k < r@.len() ==> from_functions(*store, *file, prefix@, #[trigger] r@[k]),
        decreases nf - j,
    {
        let ghost r0 = r@;
        let e = file.workspace.functions.entry(j);
        if str_starts_with(e.0.as_str(), prefix) {
            let item = function_item(&e.0, &e.1.signature);
            r.push(item);
            proof {
                assert(r@[r@.len() - 1].label@ == file.workspace.functions@[j as int].0@ && r@[
                    r@.len() - 1
                ].documentation@ == spec_hover_fn_md(
                    file.workspace.functions@[j as int].1.signature,
                ));
                assert(from_functions(*store, *file, prefix@, r@[r@.len() - 1]));
            }
        }
        proof {
            assert forall|k: int| 0 <= k < r@.len() implies from_functions(
                *store,
                *file,
                prefix@,
                #[trigger] r@[k],
            ) by {
                if k < r0.len() {
                    assert(r@[k] == r0[k]);
                    assert(from_functions(*store, *file, prefix@, r0[k]));
                }
            }
            assert forall|ig: int|
                0 <= ig < store.functions@.len() && spec_starts_with(
                    (#[trigger] store.functions@[ig]).0@,
                    prefix@,
                ) implies has_label(r@, store.functions@[ig].0@) by {
                let k = choose|k: int|
                    0 <= k < r0.len() && (#[trigger] r0[k]).label@ == store.functions@[ig].0@;
                assert(r@[k].label@ == store.functions@[ig].0@);
            }
            assert forall|jf: int|
                0 <= jf < j + 1 && spec_starts_with(
                    (#[trigger] file.workspace.functions@[jf]).0@,
                    prefix@,
                ) implies has_label(r@, file.workspace.functions@[jf].0@) by {
                if jf < j {
                    let k = choose|k: int|
                        0 <= k < r0.len() && (#[trigger] r0[k]).label@ == file.workspace.functions@[
                            jf
                        ].0@;
                    assert(r@[k].label@ == file.workspace.functions@[jf].0@);
                } else {
                    assert(r@[r@.len() - 1].label@ == file.workspace.functions@[jf].0@);
                }
            }
        }
        j = j + 1;
    }
    r
}

/// Builds one function completion item.
fn function_item(name: &String, sig: &crate::symbols::FunctionSignature) -> (r: CompletionItem)
    ensures
        r.label@ == name@,
        r.kind == CompletionKind::Function,
        r.insert_text is Some,
        r.documentation@ == spec_hover_fn_md(*sig),
{
    let hv = crate::hover::hover_function(sig);
    let snippet = function_snippet(name.as_str(), &sig.argin_names);
    CompletionItem {
        label: name.clone(),
        kind: CompletionKind::Function,
        insert_text: Some(snippet),
        documentation: hv.0,
    }
}

/// The namespace candidates: every known package starting with the
/// prefix.
fn namespace_completions(store: &Store, prefix: &str) -> (r: Vec<CompletionItem>)
    ensures
        forall|k: int|
            0 <= k < r@.len() ==> spec_starts_with((#[trigger] r@[k]).label@, prefix@),
        forall|ip: int|
            0 <= ip < store.packages@.len() && spec_starts_with(
                (#[trigger] store.packages@[ip])@,
                prefix@,
            ) ==> has_label(r@, store.packages@[ip]@),
        forall|k: int| 0 <= k < r@.len() ==> from_packages(*store, prefix@, #[trigger] r@[k]),
{
    let mut r: Vec<CompletionItem> = Vec::new();
    let n = store.packages.len();
    let mut i: usize = 0;
    while i < n
        invariant
            n == store.packages@.len(),
            i <= n,
            forall|k: int|
                0 <= k < r@.len() ==> spec_starts_with((#[trigger] r@[k]).label@, prefix@),
            forall|ip: int|
                0 <= ip < i && spec_starts_with((#[trigger] store.packages@[ip])@, prefix@)
                    ==> has_label(r@, store.packages@[ip]@),
            forall|k: int| 0 <= k < r@.len() ==> from_packages(*store, prefix@, #[trigger] r@[k]),
        decreases n - i,
    {
        let ghost r0 = r@;
        if str_starts_with(store.packages[i].as_str(), prefix) {
            r.push(
                CompletionItem {
                    label: store.packages[i].clone(),
                    kind: CompletionKind::Module,
                    insert_text: None,
                    documentation: String::new(),
                },
            );
            proof {
                assert(r@[r@.len() - 1].label@ == store.packages@[i as int]@);
                assert(from_packages(*store, prefix@, r@[r@.len() - 1]));
            }
        }
        proof {
            assert forall|k: int| 0 <= k < r@.len() implies from_packages(
                *store,
                prefix@,
                #[trigger] r@[k],
            ) by {
                if k < r0.len() {
                    assert(r@[k] == r0[k]);
                    assert(from_packages(*store, prefix@, r0[k]));
                }
            }
            assert forall|ip: int|
                0 <= ip < i + 1 && spec_starts_with((#[trigger] store.packages@[ip])@, prefix@)
                    implies has_label(r@, store.packages@[ip]@) by {
                if ip < i {
                    let k = choose|k: int|
                        0 <= k < r0.len() && (#[trigger] r0[k]).label@ == store.packages@[ip]@;
                    assert(r@[k].label@ == store.packages@[ip]@);
                } else {
                    assert(r@[r@.len() - 1].label@ == store.packages@[ip]@);
                }
            }
        }
        i = i + 1;
    }
    r
}

/// The script candidates: every stored script whose name starts
/// with the prefix.
fn script_completions(store: &Store, prefix: &str) -> (r: Vec<CompletionItem>)
    ensures
        forall|k: int|
            0 <= k < r@.len() ==> spec_starts_with((#[trigger] r@[k]).label@, prefix@),
        forall|ie: int|
            0 <= ie < store.parsed_files@.len() && (#[trigger] store.parsed_files@[ie]).1.is_script
                && spec_starts_with(store.parsed_files@[ie].1.name@, prefix@) ==> has_label(
                r@,
                store.parsed_files@[ie].1.name@,
            ),
        forall|k: int| 0 <= k < r@.len() ==> from_scripts(*store, prefix@, #[trigger] r@[k]),
{
    let mut r: Vec<CompletionItem> = Vec::new();
    let nf = store.parsed_files.len();
    let mut i: usize = 0;
    while i < nf
        invariant
            nf == store.parsed_files@.len(),
            i <= nf,
            forall|k: int|
                0 <= k < r@.len() ==> spec_starts_with((#[trigger] r@[k]).label@, prefix@),
            forall|ie: int|
                0 <= ie < i && (#[trigger] store.parsed_files@[ie]).1.is_script
                    && spec_starts_with(store.parsed_files@[ie].1.name@, prefix@) ==> has_label(
                    r@,
                    store.parsed_files@[ie].1.name@,
                ),
            forall|k: int| 0 <= k < r@.len() ==> from_scripts(*store, prefix@, #[trigger] r@[k]),
        decreases nf - i,
    {
        let ghost r0 = r@;
        let e = store.parsed_files.entry(i);
        if e.1.is_script && str_starts_with(e.1.name.as_str(), prefix) {
            r.push(
                CompletionItem {
                    label: store.parsed_files.entry(i).1.name.clone(),
                    kind: CompletionKind::File,
                    insert_text: None,
                    documentation: String::new(),
                },
            );
            proof {
                assert(r@[r@.len() - 1].label@ == store.parsed_files@[i as int].1.name@);
                assert(from_scripts(*store, prefix@, r@[r@.len() - 1]));
            }
        }
        proof {
            assert forall|k: int| 0 <= k < r@.len() implies from_scripts(
                *store,
                prefix@,
                #[trigger] r@[k],
            ) by {
                if k < r0.len() {
                    assert(r@[k] == r0[k]);
                    assert(from_scripts(*store, prefix@, r0[k]));
                }
            }
            assert forall|ie: int|
                0 <= ie < i + 1 && (#[trigger] store.parsed_files@[ie]).1.is_script
                    && spec_starts_with(store.parsed_files@[ie].1.name@, prefix@) implies has_label(
                r@,
                store.parsed_files@[ie].1.name@,
            ) by {
                if ie < i {
                    let k = choose|k: int|
                        0 <= k < r0.len() && (#[trigger] r0[k]).label@ == store.parsed_files@[
                            ie
                        ].1.name@;
                    assert(r@[k].label@ == store.parsed_files@[ie].1.name@);
                } else {
                    assert(r@[r@.len() - 1].label@ == store.parsed_files@[ie].1.name@);
                }
            }
        }
        i = i + 1;
    }
    r
}

/// The reference candidates: names already used in the file that
/// start with the prefix, skipping variables defined after the
/// cursor or cleared above it.
fn reference_completions(file: &ParsedFile, prefix: &str, point: Point) -> (r: Vec<
    CompletionItem,
>)
    ensures
        forall|k: int|
            0 <= k < r@.len() ==> spec_starts_with((#[trigger] r@[k]).label@, prefix@),
        forall|ir: int|
            0 <= ir < file.workspace.references@.len() && ref_live_at(
                *file,
                #[trigger] file.workspace.references@[ir],
                point,
            ) && spec_starts_with(file.workspace.references@[ir].name@, prefix@) ==> has_label(
                r@,
                file.workspace.references@[ir].name@,
            ),
        forall|k: int| 0 <= k < r@.len() ==> from_references(*file, point, prefix@, #[trigger] r@[k]),
{
    let mut r: Vec<CompletionItem> = Vec::new();
    let n = file.workspace.references.len();
    let mut i: usize = 0;
    while i < n
        invariant
            n == file.workspace.references@.len(),
            i <= n,
            forall|k: int|
                0 <= k < r@.len() ==> spec_starts_with((#[trigger] r@[k]).label@, prefix@),
            forall|ir: int|
                0 <= ir < i && ref_live_at(*file, #[trigger] file.workspace.references@[ir], point)
                    && spec_starts_with(file.workspace.references@[ir].name@, prefix@)
                    ==> has_label(r@, file.workspace.references@[ir].name@),
            forall|k: int|
                0 <= k < r@.len() ==> from_references(*file, point, prefix@, #[trigger] r@[k]),
        decreases n - i,
    {
        let ghost r0 = r@;
        let rf = &file.workspace.references[i];
        let stale = match rf.target {
            ReferenceTarget::Variable(vj) => {
                if vj < file.workspace.variables.len() {
                    let def = &file.workspace.variables[vj];
                    def.loc.start.row > point.row || (def.cleared > 0 && def.cleared < point.row)
                } else {
                    false
                }
            },
            _ => false,
        };
        if !stale && str_starts_with(rf.name.as_str(), prefix) {
            let kind = if str_contains_char(rf.name.as_str(), '.') {
                CompletionKind::Field
            } else {
                CompletionKind::Variable
            };
            r.push(
                CompletionItem {
                    label: rf.name.clone(),
                    kind,
                    insert_text: None,
                    documentation: String::new(),
                },
            );
        }
        proof {
            assert(stale == !ref_live_at(*file, file.workspace.references@[i as int], point));
            if !stale && spec_starts_with(file.workspace.references@[i as int].name@, prefix@) {
                assert(r@[r@.len() - 1].label@ == file.workspace.references@[i as int].name@);
                assert(from_references(*file, point, prefix@, r@[r@.len() - 1]));
            }
            assert forall|k: int| 0 <= k < r@.len() implies from_references(
                *file,
                point,
                prefix@,
                #[trigger] r@[k],
            ) by {
                if k < r0.len() {
                    assert(r@[k] == r0[k]);
                    assert(from_references(*file, point, prefix@, r0[k]));
                }
            }
            assert forall|ir: int|
                0 <= ir < i + 1 && ref_live_at(*file, #[trigger] file.workspace.references@[ir], point)
                    && spec_starts_with(file.workspace.references@[ir].name@, prefix@)
                    implies has_label(r@, file.workspace.references@[ir].name@) by {
                if ir < i {
                    let k = choose|k: int|
                        0 <= k < r0.len() && (#[trigger] r0[k]).label@ == file.workspace.references@[
                            ir
                        ].name@;
                    assert(r@[k].label@ == file.workspace.references@[ir].name@);
                } else {
                    assert(r@[r@.len() - 1].label@ == file.workspace.references@[ir].name@);
                }
            }
        }
        i = i + 1;
    }
    r
}

/// Completion at a position: candidates from the file's variables,
/// the known functions, namespaces, scripts, and the file's
/// references, merged into a list strictly sorted by label without
/// duplicate labels; the first candidate of a label wins. Every
/// label starts with the prefix under the cursor.
pub fn complete(store: &Store, file: &ParsedFile, pos: Point) -> (r: Vec<CompletionItem>)
    ensures
        sorted_items(r@),
        ({
            let ls = crate::edit::offset_of(file.contents@, Point { row: pos.row, column: 0 });
            let cur = crate::edit::offset_of(file.contents@, pos);
            ls <= cur ==> forall|k: int|
                0 <= k < r@.len() ==> spec_starts_with(
                    (#[trigger] r@[k]).label@,
                    trailing_run(file.contents@.subrange(ls, cur)),
                )
        }),
        ({
            let ls = crate::edit::offset_of(file.contents@, Point { row: pos.row, column: 0 });
            let cur = crate::edit::offset_of(file.contents@, pos);
            ls <= cur ==> ({
                let pfx = trailing_run(file.contents@.subrange(ls, cur));
                &&& (forall|iv: int|
                    0 <= iv < file.workspace.variables@.len() && var_live_at(
                        #[trigger] file.workspace.variables@[iv],
                        pos,
                    ) && spec_starts_with(file.workspace.variables@[iv].name@, pfx) ==> has_label(
                        r@,
                        file.workspace.variables@[iv].name@,
                    ))
                &&& (forall|ig: int|
                    0 <= ig < store.functions@.len() && spec_starts_with(
                        (#[trigger] store.functions@[ig]).0@,
                        pfx,
                    ) ==> has_label(r@, store.functions@[ig].0@))
                &&& (forall|jf: int|
                    0 <= jf < file.workspace.functions@.len() && spec_starts_with(
                        (#[trigger] file.workspace.functions@[jf]).0@,
                        pfx,
                    ) ==> has_label(r@, file.workspace.functions@[jf].0@))
                &&& (forall|ip: int|
                    0 <= ip < store.packages@.len() && spec_starts_with(
                        (#[trigger] store.packages@[ip])@,
                        pfx,
                    ) ==> has_label(r@, store.packages@[ip]@))
                &&& (forall|ie: int|
                    0 <= ie < store.parsed_files@.len() && (
                    #[trigger] store.parsed_files@[ie]).1.is_script && spec_starts_with(
                        store.parsed_files@[ie].1.name@,
                        pfx,
                    ) ==> has_label(r@, store.parsed_files@[ie].1.name@))
                &&& (forall|ir: int|
                    0 <= ir < file.workspace.references@.len() && ref_live_at(
                        *file,
                        #[trigger] file.workspace.references@[ir],
                        pos,
                    ) && spec_starts_with(file.workspace.references@[ir].name@, pfx) ==> has_label(
                        r@,
                        file.workspace.references@[ir].name@,
                    ))
                &&& (forall|k: int|
                    0 <= k < r@.len() ==> item_from_sources(
                        *store,
                        *file,
                        pos,
                        pfx,
                        #[trigger] r@[k],
                    ))
            })
        }),
{
    let prefix = completion_prefix(file.contents.as_str(), pos);
    let mut candidates = variable_completions(file, prefix.as_str(), pos);
    let ghost g1 = candidates@;
    let mut more = function_completions(store, file, prefix.as_str());
    let ghost g2 = more@;
    candidates.append(&mut more);
    let mut more2 = namespace_completions(store, prefix.as_str());
    let ghost g3 = more2@;
    candidates.append(&mut more2);
    let mut more3 = script_completions(store, prefix.as_str());
    let ghost g4 = more3@;
    candidates.append(&mut more3);
    let mut more4 = reference_completions(file, prefix.as_str(), pos);
    let ghost g5 = more4@;
    candidates.append(&mut more4);
    let ghost c_all = candidates@;
    proof {
        assert(c_all =~= g1 + g2 + g3 + g4 + g5);
        assert forall|j: int| 0 <= j < c_all.len() implies item_from_sources(
            *store,
            *file,
            pos,
            prefix@,
            #[trigger] c_all[j],
        ) by {
            if j < g1.len() {
                assert(c_all[j] == g1[j]);
                assert(from_variables(*file, pos, prefix@, g1[j]));
            } else if j < g1.len() + g2.len() {
                assert(c_all[j] == g2[j - g1.len()]);
                assert(from_functions(*store, *file, prefix@, g2[j - g1.len()]));
            } else if j < g1.len() + g2.len() + g3.len() {
                assert(c_all[j] == g3[j - g1.len() - g2.len()]);
                assert(from_packages(*store, prefix@, g3[j - g1.len() - g2.len()]));
            } else if j < g1.len() + g2.len() + g3.len() + g4.len() {
                assert(c_all[j] == g4[j - g1.len() - g2.len() - g3.len()]);
                assert(from_scripts(*store, prefix@, g4[j - g1.len() - g2.len() - g3.len()]));
            } else {
                assert(c_all[j] == g5[j - g1.len() - g2.len() - g3.len() - g4.len()]);
                assert(from_references(
                    *file,
                    pos,
                    prefix@,
                    g5[j - g1.len() - g2.len() - g3.len() - g4.len()],
                ));
            }
        }
    }
    let mut r: Vec<CompletionItem> = Vec::new();
    let n = candidates.len();
    let mut i: usize = 0;
    // move the candidates into the sorted result, one by one
    while i < n
        invariant
            n == c_all.len(),
            candidates@ =~= c_all.skip(i as int),
            i <= n,
            sorted_items(r@),
            forall|k: int|
                0 <= k < candidates@.len() ==> spec_starts_with(
                    (#[trigger] candidates@[k]).label@,
                    prefix@,
                ),
            forall|k: int|
                0 <= k < r@.len() ==> spec_starts_with((#[trigger] r@[k]).label@, prefix@),
            forall|j: int| 0 <= j < i ==> has_label(r@, (#[trigger] c_all[j]).label@),
            forall|j: int|
                0 <= j < c_all.len() ==> item_from_sources(
                    *store,
                    *file,
                    pos,
                    prefix@,
                    #[trigger] c_all[j],
                ),
            forall|k: int|
                0 <= k < r@.len() ==> item_from_sources(*store, *file, pos, prefix@, #[trigger] r@[k]),
        decreases n - i,
    {
        let ghost c0 = candidates@;
        let it = candidates.remove(0);
        proof {
            assert(candidates@ =~= c0.skip(1));
            assert(candidates@ =~= c_all.skip((i + 1) as int));
            assert(spec_starts_with(it.label@, prefix@)) by {
                assert(it == c0[0]);
            }
            assert(it == c_all[i as int]);
        }
        let ghost r0 = r@;
        sorted_insert_item(&mut r, it);
        proof {
            assert forall|k: int| 0 <= k < r@.len() implies spec_starts_with(
                (#[trigger] r@[k]).label@,
                prefix@,
            ) by {
                if r@[k].label@ == it.label@ {
                } else {
                    assert(r0.contains(r@[k]));
                    let j = choose|j: int| 0 <= j < r0.len() && r0[j] == r@[k];
                    assert(spec_starts_with(r0[j].label@, prefix@));
                }
            }
            assert forall|k: int| 0 <= k < r@.len() implies item_from_sources(
                *store,
                *file,
                pos,
                prefix@,
                #[trigger] r@[k],
            ) by {
                if r@[k] == it {
                    assert(item_from_sources(*store, *file, pos, prefix@, c_all[i as int]));
                } else {
                    assert(r0.contains(r@[k]));
                    let j = choose|j: int| 0 <= j < r0.len() && r0[j] == r@[k];
                    assert(item_from_sources(*store, *file, pos, prefix@, r0[j]));
                }
            }
            assert forall|j: int| 0 <= j < i + 1 implies has_label(
                r@,
                (#[trigger] c_all[j]).label@,
            ) by {
                if j < i {
                    assert(has_label(r0, c_all[j].label@));
                    let k = choose|k: int|
                        0 <= k < r0.len() && (#[trigger] r0[k]).label@ == c_all[j].label@;
                    assert(r0.contains(r0[k]));
                    let k2 = choose|k2: int|
                        0 <= k2 < r@.len() && (#[trigger] r@[k2]).label@ == r0[k].label@;
                    assert(r@[k2].label@ == c_all[j].label@);
                } else {
                    let k2 = choose|k2: int|
                        0 <= k2 < r@.len() && (#[trigger] r@[k2]).label@ == it.label@;
                    assert(r@[k2].label@ == c_all[j].label@);
                }
            }
        }
        i = i + 1;
    }
    proof {
        assert forall|j: int| 0 <= j < g1.len() implies has_label(
            r@,
            (#[trigger] g1[j]).label@,
        ) by {
            assert(c_all[j] == g1[j]);
            assert(has_label(r@, c_all[j].label@));
        }
        assert forall|j: int| 0 <= j < g2.len() implies has_label(
            r@,
            (#[trigger] g2[j]).label@,
        ) by {
            assert(c_all[g1.len() + j] == g2[j]);
            assert(has_label(r@, c_all[g1.len() + j].label@));
        }
        assert forall|j: int| 0 <= j < g3.len() implies has_label(
            r@,
            (#[trigger] g3[j]).label@,
        ) by {
            assert(c_all[g1.len() + g2.len() + j] == g3[j]);
            assert(has_label(r@, c_all[g1.len() + g2.len() + j].label@));
        }
        assert forall|j: int| 0 <= j < g4.len() implies has_label(
            r@,
            (#[trigger] g4[j]).label@,
        ) by {
            assert(c_all[g1.len() + g2.len() + g3.len() + j] == g4[j]);
            assert(has_label(r@, c_all[g1.len() + g2.len() + g3.len() + j].label@));
        }
        assert forall|j: int| 0 <= j < g5.len() implies has_label(
            r@,
            (#[trigger] g5[j]).label@,
        ) by {
            assert(c_all[g1.len() + g2.len() + g3.len() + g4.len() + j] == g5[j]);
            assert(has_label(r@, c_all[g1.len() + g2.len() + g3.len() + g4.len() + j].label@));
        }
        assert forall|iv: int|
            0 <= iv < file.workspace.variables@.len() && var_live_at(
                #[trigger] file.workspace.variables@[iv],
                pos,
            ) && spec_starts_with(file.workspace.variables@[iv].name@, prefix@) implies has_label(
            r@,
            file.workspace.variables@[iv].name@,
        ) by {
            let k = choose|k: int|
                0 <= k < g1.len() && (#[trigger] g1[k]).label@ == file.workspace.variables@[
                    iv
                ].name@;
            assert(has_label(r@, g1[k].label@));
        }
        assert forall|ig: int|
            0 <= ig < store.functions@.len() && spec_starts_with(
                (#[trigger] store.functions@[ig]).0@,
                prefix@,
            ) implies has_label(r@, store.functions@[ig].0@) by {
            let k = choose|k: int|
                0 <= k < g2.len() && (#[trigger] g2[k]).label@ == store.functions@[ig].0@;
            assert(has_label(r@, g2[k].label@));
        }
        assert forall|jf: int|
            0 <= jf < file.workspace.functions@.len() && spec_starts_with(
                (#[trigger] file.workspace.functions@[jf]).0@,
                prefix@,
            ) implies has_label(r@, file.workspace.functions@[jf].0@) by {
            let k = choose|k: int|
                0 <= k < g2.len() && (#[trigger] g2[k]).label@ == file.workspace.functions@[jf].0@;
            assert(has_label(r@, g2[k].label@));
        }
        assert forall|ip: int|
            0 <= ip < store.packages@.len() && spec_starts_with(
                (#[trigger] store.packages@[ip])@,
                prefix@,
            ) implies has_label(r@, store.packages@[ip]@) by {
            let k = choose|k: int|
                0 <= k < g3.len() && (#[trigger] g3[k]).label@ == store.packages@[ip]@;
            assert(has_label(r@, g3[k].label@));
        }
        assert forall|ie: int|
            0 <= ie < store.parsed_files@.len() && (
            #[trigger] store.parsed_files@[ie]).1.is_script && spec_starts_with(
                store.parsed_files@[ie].1.name@,
                prefix@,
            ) implies has_label(r@, store.parsed_files@[ie].1.name@) by {
            let k = choose|k: int|
                0 <= k < g4.len() && (#[trigger] g4[k]).label@ == store.parsed_files@[ie].1.name@;
            assert(has_label(r@, g4[k].label@));
        }
        assert forall|ir: int|
            0 <= ir < file.workspace.references@.len() && ref_live_at(
                *file,
                #[trigger] file.workspace.references@[ir],
                pos,
            ) && spec_starts_with(file.workspace.references@[ir].name@, prefix@) implies has_label(
            r@,
            file.workspace.references@[ir].name@,
        ) by {
            let k = choose|k: int|
                0 <= k < g5.len() && (#[trigger] g5[k]).label@ == file.workspace.references@[
                    ir
                ].name@;
            assert(has_label(r@, g5[k].label@));
        }
    }
    r
}

} // verus!
