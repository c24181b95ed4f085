//! Find-references, document highlight and go-to-definition: given a
//! position, find the symbol there and enumerate every reference
//! whose target matches.

use vstd::prelude::*;

use crate::range::Point;
use crate::range::Range;
use crate::store::ParsedFile;
use crate::store::Store;
use crate::symbols::FunctionDefinition;
use crate::symbols::Reference;
use crate::symbols::ReferenceTarget;
use crate::symbols::VariableDefinition;

verus! {

/// How an occurrence relates to the symbol.
#[derive(Clone, Copy, Debug, PartialEq, Eq, Structural)]
pub enum HighlightKind {
    Text,
    Read,
    Write,
}

/// One found occurrence: the file, the range, and its kind.
pub struct SymbolLocation {
    pub path: String,
    pub range: Range,
    pub kind: HighlightKind,
}

/// Whether a reference reads the variable defined at `target_loc`.
pub open spec fn is_var_read(vars: Seq<VariableDefinition>, r: Reference, target_loc: Range) -> bool {
    match r.target {
        ReferenceTarget::Variable(vj) => (vj as int) < vars.len() && vars[vj as int].loc
            == target_loc,
        _ => false,
    }
}

/// Every read of the variable defined at `target_loc` in one file,
/// in reference order, as `Read` occurrences; with the declaration
/// appended as a `Write` when asked.
pub fn find_references_to_variable(
    file: &ParsedFile,
    target_loc: Range,
    inc_dec: bool,
) -> (r: Vec<SymbolLocation>)
    ensures
        r@.len() == file.workspace.references@.filter(
            |rf: Reference| is_var_read(file.workspace.variables@, rf, target_loc),
        ).len() + if inc_dec {
            1int
        } else {
            0int
        },
        forall|k: int|
            0 <= k < r@.len() ==> (#[trigger] r@[k]).path@ == file.path@,
        forall|k: int|
            0 <= k < file.workspace.references@.filter(
                |rf: Reference| is_var_read(file.workspace.variables@, rf, target_loc),
            ).len() ==> (#[trigger] r@[k]).range == file.workspace.references@.filter(
                |rf: Reference| is_var_read(file.workspace.variables@, rf, target_loc),
            )[k].loc && r@[k].kind == HighlightKind::Read,
        inc_dec ==> r@.last().range == target_loc && r@.last().kind == HighlightKind::Write,
{
    let ghost f = |rf: Reference| is_var_read(file.workspace.variables@, rf, target_loc);
    let ghost refs = file.workspace.references@;
    let mut r: Vec<SymbolLocation> = Vec::new();
    let n = file.workspace.references.len();
    let mut i: usize = 0;
    while i < n
        invariant
            f == (|rf: Reference| is_var_read(file.workspace.variables@, rf, target_loc)),
            refs == file.workspace.references@,
            n == refs.len(),
            i <= n,
            r@.len() == refs.subrange(0, i as int).filter(f).len(),
            forall|k: int| 0 <= k < r@.len() ==> (#[trigger] r@[k]).path@ == file.path@,
            forall|k: int|
                0 <= k < r@.len() ==> (#[trigger] r@[k]).range == refs.subrange(
                    0,
                    i as int,
                ).filter(f)[k].loc && r@[k].kind == HighlightKind::Read,
        decreases n - i,
    {
        let ghost pre = refs.subrange(0, i as int);
        proof {
            assert(refs.subrange(0, (i + 1) as int) =~= pre.push(refs[i as int]));
            crate::symbols::lemma_filter_push(pre, refs[i as int], f);
        }
        let rf = &file.workspace.references[i];
        let hit = match rf.target {
            ReferenceTarget::Variable(vj) => {
                if vj < file.workspace.variables.len() {
                    file.workspace.variables[vj].loc == target_loc
                } else {
                    false
                }
            },
            _ => false,
        };
        if hit {
            r.push(
                SymbolLocation {
                    path: file.path.clone(),
                    range: rf.loc,
                    kind: HighlightKind::Read,
                },
            );
        }
        i = i + 1;
    }
    proof {
        assert(refs.subrange(0, n as int) =~= refs);
    }
    if inc_dec {
        r.push(SymbolLocation { path: file.path.clone(), range: target_loc, kind: HighlightKind::Write });
    }
    r
}

/// Whether a reference names the namespace `ns_name`.
pub open spec fn is_ns_ref(r: Reference, ns_name: Seq<char>) -> bool {
    match r.target {
        ReferenceTarget::Namespace(x) => x@ == ns_name,
        _ => false,
    }
}

/// Every reference to the namespace `ns_name` in one file.
pub fn find_references_to_namespace(file: &ParsedFile, ns_name: &str) -> (r: Vec<SymbolLocation>)
    ensures
        r@.len() == file.workspace.references@.filter(
            |rf: Reference| is_ns_ref(rf, ns_name@),
        ).len(),
        forall|k: int|
            0 <= k < r@.len() ==> (#[trigger] r@[k]).path@ == file.path@ && r@[k].kind
                == HighlightKind::Text && r@[k].range == file.workspace.references@.filter(
                |rf: Reference| is_ns_ref(rf, ns_name@),
            )[k].loc,
{
    let ghost f = |rf: Reference| is_ns_ref(rf, ns_name@);
    let ghost refs = file.workspace.references@;
    let mut r: Vec<SymbolLocation> = Vec::new();
    let n = file.workspace.references.len();
    let mut i: usize = 0;
    while i < n
        invariant
            f == (|rf: Reference| is_ns_ref(rf, ns_name@)),
            refs == file.workspace.references@,
            n == refs.len(),
            i <= n,
            r@.len() == refs.subrange(0, i as int).filter(f).len(),
            forall|k: int|
                0 <= k < r@.len() ==> (#[trigger] r@[k]).path@ == file.path@ && r@[k].kind
                    == HighlightKind::Text && r@[k].range == refs.subrange(0, i as int).filter(
                    f,
                )[k].loc,
        decreases n - i,
    {
        let ghost pre = refs.subrange(0, i as int);
        proof {
            assert(refs.subrange(0, (i + 1) as int) =~= pre.push(refs[i as int]));
            crate::symbols::lemma_filter_push(pre, refs[i as int], f);
        }
        let rf = &file.workspace.references[i];
        let hit = match &rf.target {
            ReferenceTarget::Namespace(x) => crate::ident::str_eq(x.as_str(), ns_name),
            _ => false,
        };
        if hit {
            r.push(
                SymbolLocation {
                    path: file.path.clone(),
                    range: rf.loc,
                    kind: HighlightKind::Text,
                },
            );
        }
        i = i + 1;
    }
    proof {
        assert(refs.subrange(0, n as int) =~= refs);
    }
    r
}

/// Whether a reference targets a function defined in `fpath`.
pub open spec fn is_fn_ref(r: Reference, fpath: Seq<char>) -> bool {
    match r.target {
        ReferenceTarget::Function(fd) => fd.path@ == fpath,
        _ => false,
    }
}

/// Whether a reference runs the script at `spath`.
pub open spec fn is_script_ref(r: Reference, spath: Seq<char>) -> bool {
    match r.target {
        ReferenceTarget::Script(x) => x@ == spath,
        _ => false,
    }
}

/// The occurrences in one file's references, from `j` on, of
/// references to the function defined in `fpath`.
pub open spec fn fn_locs_file(
    entry: (String, ParsedFile),
    fpath: Seq<char>,
    j: int,
) -> Seq<SymbolLocation>
    decreases entry.1.workspace.references@.len() - j,
{
    if j < 0 || j >= entry.1.workspace.references@.len() {
        Seq::empty()
    } else {
        (if is_fn_ref(entry.1.workspace.references@[j], fpath) {
            seq![
                SymbolLocation {
                    path: entry.0,
                    range: entry.1.workspace.references@[j].loc,
                    kind: HighlightKind::Text,
                },
            ]
        } else {
            Seq::empty()
        }) + fn_locs_file(entry, fpath, j + 1)
    }
}

/// The function occurrences across the stored files, from `fi` on.
pub open spec fn fn_locs_all(
    files: Seq<(String, ParsedFile)>,
    fpath: Seq<char>,
    fi: int,
) -> Seq<SymbolLocation>
    decreases files.len() - fi,
{
    if fi < 0 || fi >= files.len() {
        Seq::empty()
    } else {
        fn_locs_file(files[fi], fpath, 0) + fn_locs_all(files, fpath, fi + 1)
    }
}

/// The occurrences in one file's references, from `j` on, of
/// references to the script at `spath`.
pub open spec fn script_locs_file(
    entry: (String, ParsedFile),
    spath: Seq<char>,
    j: int,
) -> Seq<SymbolLocation>
    decreases entry.1.workspace.references@.len() - j,
{
    if j < 0 || j >= entry.1.workspace.references@.len() {
        Seq::empty()
    } else {
        (if is_script_ref(entry.1.workspace.references@[j], spath) {
            seq![
                SymbolLocation {
                    path: entry.0,
                    range: entry.1.workspace.references@[j].loc,
                    kind: HighlightKind::Text,
                },
            ]
        } else {
            Seq::empty()
        }) + script_locs_file(entry, spath, j + 1)
    }
}

/// The script occurrences across the stored files, from `fi` on.
pub open spec fn script_locs_all(
    files: Seq<(String, ParsedFile)>,
    spath: Seq<char>,
    fi: int,
) -> Seq<SymbolLocation>
    decreases files.len() - fi,
{
    if fi < 0 || fi >= files.len() {
        Seq::empty()
    } else {
        script_locs_file(files[fi], spath, 0) + script_locs_all(files, spath, fi + 1)
    }
}

/// Every reference, across all stored files, to the function whose
/// file is `fpath`; with the function's name range appended when
/// asked.
pub fn find_references_to_function(
    store: &Store,
    fpath: &str,
    name_range: Range,
    inc_dec: bool,
) -> (r: Vec<SymbolLocation>)
    ensures
        !inc_dec ==> r@ == fn_locs_all(store.parsed_files@, fpath@, 0),
        inc_dec ==> r@.len() >= 1 && r@.take(r@.len() - 1) == fn_locs_all(
            store.parsed_files@,
            fpath@,
            0,
        ) && r@.last().range == name_range && r@.last().path@ == fpath@ && r@.last().kind
            == HighlightKind::Text,
{
    let ghost files = store.parsed_files@;
    let mut r: Vec<SymbolLocation> = Vec::new();
    let nf = store.parsed_files.len();
    let mut fi: usize = 0;
    while fi < nf
        invariant
            files == store.parsed_files@,
            nf == files.len(),
            fi <= nf,
            fn_locs_all(files, fpath@, 0) =~= r@ + fn_locs_all(files, fpath@, fi as int),
        decreases nf - fi,
    {
        let nrefs = store.parsed_files.entry(fi).1.workspace.references.len();
        let mut j: usize = 0;
        while j < nrefs
            invariant
                files == store.parsed_files@,
                nf == files.len(),
                fi < nf,
                nrefs == files[fi as int].1.workspace.references@.len(),
                j <= nrefs,
                fn_locs_all(files, fpath@, 0) =~= r@ + fn_locs_file(
                    files[fi as int],
                    fpath@,
                    j as int,
                ) + fn_locs_all(files, fpath@, (fi + 1) as int),
            decreases nrefs - j,
        {
            let entry2 = store.parsed_files.entry(fi);
            let rf = &entry2.1.workspace.references[j];
            let hit = match &rf.target {
                ReferenceTarget::Function(fd) => crate::ident::str_eq(fd.path.as_str(), fpath),
                _ => false,
            };
            if hit {
                let loc = rf.loc;
                let path = store.parsed_files.entry(fi).0.clone();
                r.push(SymbolLocation { path, range: loc, kind: HighlightKind::Text });
                proof {
                    assert(r@.last() == SymbolLocation {
                        path: files[fi as int].0,
                        range: files[fi as int].1.workspace.references@[j as int].loc,
                        kind: HighlightKind::Text,
                    });
                    assert(fn_locs_all(files, fpath@, 0) =~= r@ + fn_locs_file(
                        files[fi as int],
                        fpath@,
                        (j + 1) as int,
                    ) + fn_locs_all(files, fpath@, (fi + 1) as int));
                }
            } else {
                proof {
                    assert(fn_locs_all(files, fpath@, 0) =~= r@ + fn_locs_file(
                        files[fi as int],
                        fpath@,
                        (j + 1) as int,
                    ) + fn_locs_all(files, fpath@, (fi + 1) as int));
                }
            }
            j = j + 1;
        }
        fi = fi + 1;
    }
    proof {
        assert(r@ =~= fn_locs_all(files, fpath@, 0));
    }
    if inc_dec {
        let ghost base = r@;
        r.push(
            SymbolLocation { path: fpath.to_owned(), range: name_range, kind: HighlightKind::Text },
        );
        proof {
            assert(r@.take(r@.len() - 1) =~= base);
        }
    }
    r
}

/// Every reference, across all stored files, to the script at
/// `spath`.
pub fn find_references_to_script(store: &Store, spath: &str) -> (r: Vec<SymbolLocation>)
    ensures
        r@ == script_locs_all(store.parsed_files@, spath@, 0),
{
    let ghost files = store.parsed_files@;
    let mut r: Vec<SymbolLocation> = Vec::new();
    let nf = store.parsed_files.len();
    let mut fi: usize = 0;
    while fi < nf
        invariant
            files == store.parsed_files@,
            nf == files.len(),
            fi <= nf,
            script_locs_all(files, spath@, 0) =~= r@ + script_locs_all(files, spath@, fi as int),
        decreases nf - fi,
    {
        let nrefs = store.parsed_files.entry(fi).1.workspace.references.len();
        let mut j: usize = 0;
        while j < nrefs
            invariant
                files == store.parsed_files@,
                nf == files.len(),
                fi < nf,
                nrefs == files[fi as int].1.workspace.references@.len(),
                j <= nrefs,
                script_locs_all(files, spath@, 0) =~= r@ + script_locs_file(
                    files[fi as int],
                    spath@,
                    j as int,
                ) + script_locs_all(files, spath@, (fi + 1) as int),
            decreases nrefs - j,
        {
            let entry2 = store.parsed_files.entry(fi);
            let rf = &entry2.1.workspace.references[j];
            let hit = match &rf.target {
                ReferenceTarget::Script(x) => crate::ident::str_eq(x.as_str(), spath),
                _ => false,
            };
            if hit {
                let loc = rf.loc;
                let path = store.parsed_files.entry(fi).0.clone();
                r.push(SymbolLocation { path, range: loc, kind: HighlightKind::Text });
                proof {
                    assert(r@.last() == SymbolLocation {
                        path: files[fi as int].0,
                        range: files[fi as int].1.workspace.references@[j as int].loc,
                        kind: HighlightKind::Text,
                    });
                    assert(script_locs_all(files, spath@, 0) =~= r@ + script_locs_file(
                        files[fi as int],
                        spath@,
                        (j + 1) as int,
                    ) + script_locs_all(files, spath@, (fi + 1) as int));
                }
            } else {
                proof {
                    assert(script_locs_all(files, spath@, 0) =~= r@ + script_locs_file(
                        files[fi as int],
                        spath@,
                        (j + 1) as int,
                    ) + script_locs_all(files, spath@, (fi + 1) as int));
                }
            }
            j = j + 1;
        }
        fi = fi + 1;
    }
    proof {
        assert(r@ =~= script_locs_all(files, spath@, 0));
    }
    r
}

/// Two occurrence lists agree in every observable field.
pub open spec fn locs_match(a: Seq<SymbolLocation>, b: Seq<SymbolLocation>) -> bool {
    a.len() == b.len() && forall|k: int|
        0 <= k < a.len() ==> (#[trigger] a[k]).path@ == b[k].path@ && a[k].range == b[k].range
            && a[k].kind == b[k].kind
}

/// The variable-read occurrences of the binding at `target_loc`, in
/// reference order.
pub open spec fn var_locs(file: ParsedFile, target_loc: Range) -> Seq<SymbolLocation> {
    file.workspace.references@.filter(
        |rf: Reference| is_var_read(file.workspace.variables@, rf, target_loc),
    ).map_values(
        |rf: Reference|
            SymbolLocation { path: file.path, range: rf.loc, kind: HighlightKind::Read },
    )
}

/// The occurrences of the namespace `ns_name` in one file, in
/// reference order.
pub open spec fn ns_locs(file: ParsedFile, ns_name: Seq<char>) -> Seq<SymbolLocation> {
    file.workspace.references@.filter(|rf: Reference| is_ns_ref(rf, ns_name)).map_values(
        |rf: Reference|
            SymbolLocation { path: file.path, range: rf.loc, kind: HighlightKind::Text },
    )
}

/// The answer for a variable target: its reads, with the binding
/// appended as a write when asked.
pub open spec fn var_found(file: ParsedFile, tl: Range, inc_dec: bool) -> Seq<SymbolLocation> {
    var_locs(file, tl) + if inc_dec {
        seq![SymbolLocation { path: file.path, range: tl, kind: HighlightKind::Write }]
    } else {
        Seq::empty()
    }
}

/// The answer for a function target: its references across the
/// store, with the declaration's name range appended when asked.
pub open spec fn fn_found(store: Store, fd: FunctionDefinition, inc_dec: bool) -> Seq<
    SymbolLocation,
> {
    fn_locs_all(store.parsed_files@, fd.path@, 0) + if inc_dec {
        seq![
            SymbolLocation {
                path: fd.path,
                range: fd.signature.name_range,
                kind: HighlightKind::Text,
            },
        ]
    } else {
        Seq::empty()
    }
}

/// The occurrences among `found` that lie in the file at `p`, in
/// order.
pub open spec fn path_ranges(found: Seq<SymbolLocation>, p: Seq<char>) -> Seq<SymbolLocation>
    decreases found.len(),
{
    if found.len() == 0 {
        Seq::empty()
    } else {
        path_ranges(found.drop_last(), p) + if found.last().path@ == p {
            seq![found.last()]
        } else {
            Seq::empty()
        }
    }
}

/// Appending one occurrence extends its own file's selection only.
pub proof fn lemma_path_ranges_push(s: Seq<SymbolLocation>, x: SymbolLocation, p: Seq<char>)
    ensures
        path_ranges(s.push(x), p) == if x.path@ == p {
            path_ranges(s, p).push(x)
        } else {
            path_ranges(s, p)
        },
{
    assert(s.push(x).drop_last() =~= s);
    assert(s.push(x).last() == x);
    if x.path@ == p {
        assert(path_ranges(s.push(x), p) =~= path_ranges(s, p).push(x));
    } else {
        assert(path_ranges(s.push(x), p) =~= path_ranges(s, p));
    }
}

/// A list none of whose occurrences lie in the file at `p` selects
/// nothing there.
pub proof fn lemma_path_ranges_none(s: Seq<SymbolLocation>, p: Seq<char>)
    requires
        forall|k: int| 0 <= k < s.len() ==> (#[trigger] s[k]).path@ != p,
    ensures
        path_ranges(s, p) == Seq::<SymbolLocation>::empty(),
    decreases s.len(),
{
    if s.len() > 0 {
        let s0 = s.drop_last();
        lemma_path_ranges_none(s0, p);
        assert(s.last().path@ != p);
        assert(path_ranges(s, p) =~= Seq::<SymbolLocation>::empty());
    }
}

/// Matching occurrence lists select the same per-file occurrences.
pub proof fn lemma_locs_match_path_ranges(
    a: Seq<SymbolLocation>,
    b: Seq<SymbolLocation>,
    p: Seq<char>,
)
    requires
        locs_match(a, b),
    ensures
        path_ranges(a, p).len() == path_ranges(b, p).len(),
        forall|k: int|
            0 <= k < path_ranges(a, p).len() ==> (#[trigger] path_ranges(a, p)[k]).range
                == path_ranges(b, p)[k].range,
    decreases a.len(),
{
    if a.len() > 0 {
        let a0 = a.drop_last();
        let b0 = b.drop_last();
        assert(locs_match(a0, b0)) by {
            assert forall|k: int| 0 <= k < a0.len() implies (#[trigger] a0[k]).path@ == b0[k].path@
                && a0[k].range == b0[k].range && a0[k].kind == b0[k].kind by {
                assert(a0[k] == a[k] && b0[k] == b[k]);
            }
        }
        lemma_locs_match_path_ranges(a0, b0, p);
        assert(a.last().path@ == b.last().path@ && a.last().range == b.last().range) by {
            assert(a[a.len() - 1].path@ == b[a.len() - 1].path@ && a[a.len() - 1].range == b[a.len()
                - 1].range);
        }
    }
}

/// The first reference from `i` on whose range contains `loc`.
pub open spec fn first_ref_at(refs: Seq<Reference>, loc: Point, i: int) -> Option<int>
    decreases refs.len() - i,
{
    if i < 0 || i >= refs.len() {
        None
    } else if refs[i].loc.spec_contains(loc) {
        Some(i)
    } else {
        first_ref_at(refs, loc, i + 1)
    }
}

/// The first variable definition from `i` on whose range contains
/// `loc`.
pub open spec fn first_var_at(vars: Seq<VariableDefinition>, loc: Point, i: int) -> Option<int>
    decreases vars.len() - i,
{
    if i < 0 || i >= vars.len() {
        None
    } else if vars[i].loc.spec_contains(loc) {
        Some(i)
    } else {
        first_var_at(vars, loc, i + 1)
    }
}

/// The first file function from `i` on whose range contains `loc`.
pub open spec fn first_fun_at(
    funs: Seq<(String, FunctionDefinition)>,
    loc: Point,
    i: int,
) -> Option<int>
    decreases funs.len() - i,
{
    if i < 0 || i >= funs.len() {
        None
    } else if funs[i].1.loc.spec_contains(loc) {
        Some(i)
    } else {
        first_fun_at(funs, loc, i + 1)
    }
}

/// What a find-references query answers: the first reference whose
/// range contains the position decides the target; failing that, the
/// first variable definition there, then the first function of the
/// file.
pub open spec fn spec_found(
    store: Store,
    file: ParsedFile,
    loc: Point,
    inc_dec: bool,
) -> Seq<SymbolLocation> {
    let refs = file.workspace.references@;
    let vars = file.workspace.variables@;
    let funs = file.workspace.functions@;
    match first_ref_at(refs, loc, 0) {
        Option::Some(j) => match refs[j].target {
            ReferenceTarget::Function(fd) => fn_found(store, fd, inc_dec),
            ReferenceTarget::Script(sp) => script_locs_all(store.parsed_files@, sp@, 0),
            ReferenceTarget::Variable(vj) => if (vj as int) < vars.len() {
                var_found(file, vars[vj as int].loc, inc_dec)
            } else {
                Seq::empty()
            },
            ReferenceTarget::Namespace(x) => ns_locs(file, x@),
            ReferenceTarget::UnknownVariable => Seq::empty(),
            ReferenceTarget::UnknownFunction => Seq::empty(),
        },
        Option::None => match first_var_at(vars, loc, 0) {
            Option::Some(v) => var_found(file, vars[v].loc, inc_dec),
            Option::None => match first_fun_at(funs, loc, 0) {
                Option::Some(f) => fn_found(store, funs[f].1, inc_dec),
                Option::None => Seq::empty(),
            },
        },
    }
}

/// The variable helper's answer matches `var_found`.
proof fn lemma_var_helper_found(
    file: ParsedFile,
    target_loc: Range,
    inc_dec: bool,
    r: Seq<SymbolLocation>,
)
    requires
        r.len() == file.workspace.references@.filter(
            |rf: Reference| is_var_read(file.workspace.variables@, rf, target_loc),
        ).len() + if inc_dec {
            1int
        } else {
            0int
        },
        forall|k: int| 0 <= k < r.len() ==> (#[trigger] r[k]).path@ == file.path@,
        forall|k: int|
            0 <= k < file.workspace.references@.filter(
                |rf: Reference| is_var_read(file.workspace.variables@, rf, target_loc),
            ).len() ==> (#[trigger] r[k]).range == file.workspace.references@.filter(
                |rf: Reference| is_var_read(file.workspace.variables@, rf, target_loc),
            )[k].loc && r[k].kind == HighlightKind::Read,
        inc_dec ==> r.last().range == target_loc && r.last().kind == HighlightKind::Write,
    ensures
        locs_match(r, var_found(file, target_loc, inc_dec)),
{
    let flt = file.workspace.references@.filter(
        |rf: Reference| is_var_read(file.workspace.variables@, rf, target_loc),
    );
    let b = var_found(file, target_loc, inc_dec);
    assert(var_locs(file, target_loc).len() == flt.len());
    assert forall|k: int| 0 <= k < r.len() implies (#[trigger] r[k]).path@ == b[k].path@ && r[k].range
        == b[k].range && r[k].kind == b[k].kind by {
        if k < flt.len() {
            assert(b[k] == var_locs(file, target_loc)[k]);
            assert(var_locs(file, target_loc)[k] == SymbolLocation {
                path: file.path,
                range: flt[k].loc,
                kind: HighlightKind::Read,
            });
        } else {
            assert(k == r.len() - 1 && inc_dec);
            assert(r[k] == r.last());
        }
    }
}

/// Finds the symbol at `loc` in the file at `path` and lists every
/// occurrence of it, exactly as `spec_found` describes: the first
/// reference under the position decides the kind of search; failing
/// that, a variable definition or a function of the file under the
/// position does. Nothing is returned when the file is not stored.
pub fn find_references_to_symbol(
    store: &Store,
    path: &str,
    loc: crate::range::Point,
    inc_dec: bool,
) -> (r: Option<Vec<SymbolLocation>>)
    requires
        store.wf(),
    ensures
        r is None <==> store.parsed_files.spec_get(path@) is None,
        r matches Some(v) ==> locs_match(
            v@,
            spec_found(*store, store.parsed_files.spec_get(path@)->0, loc, inc_dec),
        ),
{
    let file = match store.get_parsed_file(path) {
        Option::Some(f) => f,
        Option::None => {
            return None;
        },
    };
    let ghost refs = file.workspace.references@;
    let ghost vars = file.workspace.variables@;
    let ghost funs = file.workspace.functions@;
    let nrefs = file.workspace.references.len();
    let mut i: usize = 0;
    while i < nrefs
        invariant
            store.wf(),
            i <= nrefs,
            nrefs == refs.len(),
            refs == file.workspace.references@,
            vars == file.workspace.variables@,
            store.parsed_files.spec_get(path@) == Some(*file),
            first_ref_at(refs, loc, 0) == first_ref_at(refs, loc, i as int),
        decreases nrefs - i,
    {
        let rf = &file.workspace.references[i];
        if rf.loc.contains(loc) {
            proof {
                assert(first_ref_at(refs, loc, 0) == Some(i as int));
            }
            match &rf.target {
                ReferenceTarget::Function(fd) => {
                    let fpath = fd.path.clone();
                    let nr = fd.signature.name_range;
                    let out = find_references_to_function(store, fpath.as_str(), nr, inc_dec);
                    proof {
                        lemma_fn_helper_found(
                            *store,
                            refs[i as int].target->Function_0,
                            inc_dec,
                            out@,
                        );
                    }
                    return Some(out);
                },
                ReferenceTarget::Script(sp) => {
                    let spath = sp.clone();
                    let out = find_references_to_script(store, spath.as_str());
                    return Some(out);
                },
                ReferenceTarget::Variable(vj) => {
                    let vj = *vj;
                    if vj < file.workspace.variables.len() {
                        let tl = file.workspace.variables[vj].loc;
                        let out = find_references_to_variable(file, tl, inc_dec);
                        proof {
                            lemma_var_helper_found(*file, tl, inc_dec, out@);
                        }
                        return Some(out);
                    }
                    return Some(Vec::new());
                },
                ReferenceTarget::Namespace(nsname) => {
                    let nsname = nsname.clone();
                    let out = find_references_to_namespace(file, nsname.as_str());
                    proof {
                        let nsn = refs[i as int].target->Namespace_0;
                        let flt = file.workspace.references@.filter(
                            |rf2: Reference| is_ns_ref(rf2, nsn@),
                        );
                        assert(ns_locs(*file, nsn@).len() == flt.len());
                        assert forall|k: int| 0 <= k < out@.len() implies (#[trigger] out@[k]).path@
                            == ns_locs(*file, nsn@)[k].path@ && out@[k].range == ns_locs(
                            *file,
                            nsn@,
                        )[k].range && out@[k].kind == ns_locs(*file, nsn@)[k].kind by {
                            assert(ns_locs(*file, nsn@)[k] == SymbolLocation {
                                path: file.path,
                                range: flt[k].loc,
                                kind: HighlightKind::Text,
                            });
                        }
                    }
                    return Some(out);
                },
                ReferenceTarget::UnknownVariable => {
                    return Some(Vec::new());
                },
                ReferenceTarget::UnknownFunction => {
                    return Some(Vec::new());
                },
            }
        }
        i = i + 1;
    }
    proof {
        assert(first_ref_at(refs, loc, 0) is None);
    }
    let nvars = file.workspace.variables.len();
    let mut v: usize = 0;
    while v < nvars
        invariant
            store.wf(),
            v <= nvars,
            nvars == vars.len(),
            refs == file.workspace.references@,
            vars == file.workspace.variables@,
            store.parsed_files.spec_get(path@) == Some(*file),
            first_ref_at(refs, loc, 0) is None,
            first_var_at(vars, loc, 0) == first_var_at(vars, loc, v as int),
        decreases nvars - v,
    {
        if file.workspace.variables[v].loc.contains(loc) {
            proof {
                assert(first_var_at(vars, loc, 0) == Some(v as int));
            }
            let tl = file.workspace.variables[v].loc;
            let out = find_references_to_variable(file, tl, inc_dec);
            proof {
                lemma_var_helper_found(*file, tl, inc_dec, out@);
            }
            return Some(out);
        }
        v = v + 1;
    }
    proof {
        assert(first_var_at(vars, loc, 0) is None);
    }
    let nfuns = file.workspace.functions.len();
    let mut fj: usize = 0;
    while fj < nfuns
        invariant
            store.wf(),
            fj <= nfuns,
            nfuns == funs.len(),
            refs == file.workspace.references@,
            vars == file.workspace.variables@,
            funs == file.workspace.functions@,
            store.parsed_files.spec_get(path@) == Some(*file),
            first_ref_at(refs, loc, 0) is None,
            first_var_at(vars, loc, 0) is None,
            first_fun_at(funs, loc, 0) == first_fun_at(funs, loc, fj as int),
        decreases nfuns - fj,
    {
        let e = file.workspace.functions.entry(fj);
        if e.1.loc.contains(loc) {
            proof {
                assert(first_fun_at(funs, loc, 0) == Some(fj as int));
            }
            let fpath = e.1.path.clone();
            let nr = e.1.signature.name_range;
            let out = find_references_to_function(store, fpath.as_str(), nr, inc_dec);
            proof {
                lemma_fn_helper_found(*store, funs[fj as int].1, inc_dec, out@);
            }
            return Some(out);
        }
        fj = fj + 1;
    }
    proof {
        assert(first_fun_at(funs, loc, 0) is None);
    }
    Some(Vec::new())
}

/// The function helper's answer matches `fn_found`.
proof fn lemma_fn_helper_found(
    store: Store,
    fd: FunctionDefinition,
    inc_dec: bool,
    r: Seq<SymbolLocation>,
)
    requires
        !inc_dec ==> r == fn_locs_all(store.parsed_files@, fd.path@, 0),
        inc_dec ==> r.len() >= 1 && r.take(r.len() - 1) == fn_locs_all(
            store.parsed_files@,
            fd.path@,
            0,
        ) && r.last().range == fd.signature.name_range && r.last().path@ == fd.path@
            && r.last().kind == HighlightKind::Text,
    ensures
        locs_match(r, fn_found(store, fd, inc_dec)),
{
    let all = fn_locs_all(store.parsed_files@, fd.path@, 0);
    let b = fn_found(store, fd, inc_dec);
    if inc_dec {
        assert(b.len() == all.len() + 1);
        assert forall|k: int| 0 <= k < r.len() implies (#[trigger] r[k]).path@ == b[k].path@
            && r[k].range == b[k].range && r[k].kind == b[k].kind by {
            if k < r.len() - 1 {
                assert(r[k] == r.take(r.len() - 1)[k]);
                assert(b[k] == all[k]);
            } else {
                assert(r[k] == r.last());
            }
        }
    } else {
        assert(b =~= all);
    }
}

/// Where the symbol under `loc` in `file` is defined: the target of
/// the first reference containing the position. A function points at
/// its definition in its own file, a variable at its binding, a
/// script at its file's start; namespaces and unresolved names have
/// no definition.
pub open spec fn spec_goto(file: ParsedFile, loc: Point) -> Option<SymbolLocation> {
    let refs = file.workspace.references@;
    let vars = file.workspace.variables@;
    match first_ref_at(refs, loc, 0) {
        Option::Some(j) => match refs[j].target {
            ReferenceTarget::Function(fd) => Some(
                SymbolLocation { path: fd.path, range: fd.loc, kind: HighlightKind::Text },
            ),
            ReferenceTarget::Variable(vj) => if (vj as int) < vars.len() {
                Some(
                    SymbolLocation {
                        path: file.path,
                        range: vars[vj as int].loc,
                        kind: HighlightKind::Text,
                    },
                )
            } else {
                None
            },
            ReferenceTarget::Script(sp) => Some(
                SymbolLocation { path: sp, range: Range::spec_zero(), kind: HighlightKind::Text },
            ),
            _ => None,
        },
        Option::None => None,
    }
}

/// Where the symbol under `loc` is defined, exactly as `spec_goto`
/// describes; nothing when the file is not stored.
pub fn goto_definition(store: &Store, path: &str, loc: crate::range::Point) -> (r: Option<
    SymbolLocation,
>)
    requires
        store.wf(),
    ensures
        store.parsed_files.spec_get(path@) is None ==> r is None,
        store.parsed_files.spec_get(path@) matches Some(f) ==> ({
            let g = spec_goto(f, loc);
            &&& (r is Some <==> g is Some)
            &&& (r matches Some(s) ==> s.path@ == g->0.path@ && s.range == g->0.range && s.kind
                == g->0.kind)
        }),
{
    let file = match store.get_parsed_file(path) {
        Option::Some(f) => f,
        Option::None => {
            return None;
        },
    };
    let ghost refs = file.workspace.references@;
    let nrefs = file.workspace.references.len();
    let mut i: usize = 0;
    while i < nrefs
        invariant
            i <= nrefs,
            nrefs == refs.len(),
            refs == file.workspace.references@,
            store.parsed_files.spec_get(path@) == Some(*file),
            first_ref_at(refs, loc, 0) == first_ref_at(refs, loc, i as int),
        decreases nrefs - i,
    {
        let rf = &file.workspace.references[i];
        if rf.loc.contains(loc) {
            proof {
                assert(first_ref_at(refs, loc, 0) == Some(i as int));
            }
            match &rf.target {
                ReferenceTarget::Function(fd) => {
                    return Some(
                        SymbolLocation {
                            path: fd.path.clone(),
                            range: fd.loc,
                            kind: HighlightKind::Text,
                        },
                    );
                },
                ReferenceTarget::Variable(vj) => {
                    let vj = *vj;
                    if vj < file.workspace.variables.len() {
                        return Some(
                            SymbolLocation {
                                path: file.path.clone(),
                                range: file.workspace.variables[vj].loc,
                                kind: HighlightKind::Text,
                            },
                        );
                    }
                    return None;
                },
                ReferenceTarget::Script(sp) => {
                    return Some(
                        SymbolLocation {
                            path: sp.clone(),
                            range: Range::zero(),
                            kind: HighlightKind::Text,
                        },
                    );
                },
                ReferenceTarget::Namespace(_) => {
                    return None;
                },
                ReferenceTarget::UnknownVariable => {
                    return None;
                },
                ReferenceTarget::UnknownFunction => {
                    return None;
                },
            }
        }
        i = i + 1;
    }
    proof {
        assert(first_ref_at(refs, loc, 0) is None);
    }
    None
}

} // verus!
