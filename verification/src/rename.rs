//! Rename: validates the new name and turns the found occurrences
//! into per-file batches of text edits.

use vstd::prelude::*;

use crate::ident::is_valid_ident;
use crate::ident::is_valid_identifier;
use crate::ident::str_eq;
use crate::range::Point;
use crate::range::Range;
use crate::references::find_references_to_symbol;
use crate::references::path_ranges;
use crate::references::SymbolLocation;
use crate::store::Store;

verus! {

/// Why a rename was refused.
#[derive(Clone, Copy, Debug, PartialEq, Eq, Structural)]
pub enum RenameError {
    /// The new name is not a legal identifier.
    InvalidName,
    /// The file is not in the store.
    UnknownFile,
}

/// One text edit: replace the range with the new text.
pub struct TextEdit {
    pub range: Range,
    pub new_text: String,
}

/// The edits for one file.
pub struct FileEdits {
    pub path: String,
    pub edits: Vec<TextEdit>,
}

/// The edits of one group rewrite exactly the found occurrences in
/// its file, in order: one edit per occurrence, at its range.
pub open spec fn edits_follow(g: FileEdits, found: Seq<SymbolLocation>) -> bool {
    &&& g.edits@.len() == path_ranges(found, g.path@).len()
    &&& forall|e: int|
        0 <= e < g.edits@.len() ==> (#[trigger] g.edits@[e]).range == path_ranges(
            found,
            g.path@,
        )[e].range
}

/// Whether some group's edits address the file at `p`.
pub open spec fn has_path_group(groups: Seq<FileEdits>, p: Seq<char>) -> bool {
    exists|g: int| 0 <= g < groups.len() && (#[trigger] groups[g]).path@ == p
}

/// Every found occurrence's file has a group of edits.
pub open spec fn covers_paths(groups: Seq<FileEdits>, found: Seq<SymbolLocation>) -> bool {
    forall|k: int| 0 <= k < found.len() ==> has_path_group(groups, (#[trigger] found[k]).path@)
}

/// Renames the symbol at `loc` in the file at `path`: refused when
/// the new name is not a legal identifier, or when the file is
/// unknown; otherwise every occurrence of the symbol, declaration
/// included, becomes an edit writing the new name, batched per file
/// in first-seen order. Each group holds one edit per found
/// occurrence in its file, at that occurrence's range, and every
/// found occurrence has a group.
pub fn rename_symbol(store: &Store, path: &str, loc: Point, new_name: &str) -> (r: Result<
    Vec<FileEdits>,
    RenameError,
>)
    requires
        store.wf(),
    ensures
        r == Err::<Vec<FileEdits>, RenameError>(RenameError::InvalidName) <==> !is_valid_ident(
            new_name@,
        ),
        r == Err::<Vec<FileEdits>, RenameError>(RenameError::UnknownFile) <==> (is_valid_ident(
            new_name@,
        ) && store.parsed_files.spec_get(path@) is None),
        r matches Ok(groups) ==> forall|g: int, e: int|
            0 <= g < groups@.len() && 0 <= e < (#[trigger] groups@[g]).edits@.len() ==> (
            #[trigger] groups@[g].edits@[e]).new_text@ == new_name@,
        r matches Ok(groups) ==> (forall|g: int|
            0 <= g < groups@.len() ==> (#[trigger] groups@[g]).edits@.len() >= 1),
        r matches Ok(groups) ==> (forall|g1: int, g2: int|
            0 <= g1 < g2 < groups@.len() ==> (#[trigger] groups@[g1]).path@ != (
            #[trigger] groups@[g2]).path@),
        r matches Ok(groups) ==> ({
            let sf = crate::references::spec_found(
                *store,
                store.parsed_files.spec_get(path@)->0,
                loc,
                true,
            );
            &&& (forall|g: int| 0 <= g < groups@.len() ==> edits_follow(#[trigger] groups@[g], sf))
            &&& covers_paths(groups@, sf)
        }),
{
    if !is_valid_identifier(new_name) {
        return Err(RenameError::InvalidName);
    }
    let found = match find_references_to_symbol(store, path, loc, true) {
        Option::Some(v) => v,
        Option::None => {
            return Err(RenameError::UnknownFile);
        },
    };
    let ghost sf = crate::references::spec_found(
        *store,
        store.parsed_files.spec_get(path@)->0,
        loc,
        true,
    );
    let mut groups: Vec<FileEdits> = Vec::new();
    let n = found.len();
    let mut i: usize = 0;
    while i < n
        invariant
            n == found@.len(),
            i <= n,
            crate::references::locs_match(found@, sf),
            forall|g: int, e: int|
                0 <= g < groups@.len() && 0 <= e < (#[trigger] groups@[g]).edits@.len() ==> (
                #[trigger] groups@[g].edits@[e]).new_text@ == new_name@,
            forall|g: int| 0 <= g < groups@.len() ==> (#[trigger] groups@[g]).edits@.len() >= 1,
            forall|g1: int, g2: int|
                0 <= g1 < g2 < groups@.len() ==> (#[trigger] groups@[g1]).path@ != (
                #[trigger] groups@[g2]).path@,
            forall|g: int|
                0 <= g < groups@.len() ==> edits_follow(
                    #[trigger] groups@[g],
                    found@.take(i as int),
                ),
            forall|k: int|
                0 <= k < i ==> has_path_group(groups@, (#[trigger] found@[k]).path@),
        decreases n - i,
    {
        let ghost fi = found@[i as int];
        let lp: String = found[i].path.clone();
        let edit = TextEdit { range: found[i].range, new_text: new_name.to_owned() };
        let ng = groups.len();
        let mut gidx: Option<usize> = None;
        let mut g: usize = 0;
        while g < ng
            invariant
                ng == groups@.len(),
                g <= ng,
                n == found@.len(),
                i < n,
                gidx matches Some(gi) ==> gi < ng && groups@[gi as int].path@ == found@[
                    i as int
                ].path@,
                lp == found@[i as int].path,
                gidx is None ==> forall|g2: int|
                    0 <= g2 < g ==> (#[trigger] groups@[g2]).path@ != found@[i as int].path@,
            decreases ng - g,
        {
            let is_hit = match gidx {
                Option::Some(_) => false,
                Option::None => str_eq(groups[g].path.as_str(), lp.as_str()),
            };
            if is_hit {
                gidx = Some(g);
            }
            g = g + 1;
        }
        match gidx {
            Option::Some(gi) => {
                let ghost groups0 = groups@;
                let mut fe = groups.remove(gi);
                let ghost fe0 = fe;
                fe.edits.push(edit);
                groups.insert(gi, fe);
                proof {
                    assert(groups@ =~= groups0.update(gi as int, groups@[gi as int]));
                    assert(groups@[gi as int].path == groups0[gi as int].path);
                    assert forall|g1: int, g2: int|
                        0 <= g1 < g2 < groups@.len() implies (
                    #[trigger] groups@[g1]).path@ != (#[trigger] groups@[g2]).path@ by {
                        if g1 != gi {
                            assert(groups@[g1] == groups0[g1]);
                        }
                        if g2 != gi {
                            assert(groups@[g2] == groups0[g2]);
                        }
                    }
                    assert forall|g2: int|
                        0 <= g2 < groups@.len() implies (#[trigger] groups@[g2]).edits@.len()
                        >= 1 by {
                        if g2 != gi {
                            assert(groups@[g2] == groups0[g2]);
                        }
                    }
                    assert forall|g2: int, e: int|
                        0 <= g2 < groups@.len() && 0 <= e < (
                    #[trigger] groups@[g2]).edits@.len() implies (
                    #[trigger] groups@[g2].edits@[e]).new_text@ == new_name@ by {
                        if g2 == gi {
                            assert(groups@[g2].edits@ =~= fe0.edits@.push(edit));
                            if e < fe0.edits@.len() {
                                assert(groups@[g2].edits@[e] == fe0.edits@[e]);
                                assert(fe0 == groups0[gi as int]);
                            } else {
                                assert(groups@[g2].edits@[e] == edit);
                            }
                        } else {
                            assert(groups@[g2] == groups0[g2]);
                        }
                    }
                    assert(found@.take((i + 1) as int) =~= found@.take(i as int).push(fi));
                    assert forall|g2: int| 0 <= g2 < groups@.len() implies edits_follow(
                        #[trigger] groups@[g2],
                        found@.take((i + 1) as int),
                    ) by {
                        let p = groups@[g2].path@;
                        crate::references::lemma_path_ranges_push(found@.take(i as int), fi, p);
                        if g2 == gi {
                            assert(fi.path@ == p);
                            assert(path_ranges(found@.take((i + 1) as int), p) =~= path_ranges(
                                found@.take(i as int),
                                p,
                            ).push(fi));
                            assert(groups@[g2].edits@ =~= fe0.edits@.push(edit));
                            assert(fe0 == groups0[gi as int]);
                            assert(edits_follow(groups0[g2], found@.take(i as int)));
                            assert forall|e: int| 0 <= e < groups@[g2].edits@.len() implies (
                            #[trigger] groups@[g2].edits@[e]).range == path_ranges(
                                found@.take((i + 1) as int),
                                p,
                            )[e].range by {
                                if e < fe0.edits@.len() {
                                    assert(groups@[g2].edits@[e] == fe0.edits@[e]);
                                    assert(groups0[g2].path@ == p);
                                } else {
                                    assert(groups@[g2].edits@[e] == edit);
                                }
                            }
                        } else {
                            assert(groups@[g2] == groups0[g2]);
                            assert(groups@[gi as int].path@ == fi.path@);
                            assert(fi.path@ != p);
                            assert(path_ranges(found@.take((i + 1) as int), p) =~= path_ranges(
                                found@.take(i as int),
                                p,
                            ));
                            assert(edits_follow(groups0[g2], found@.take(i as int)));
                            assert(groups0[g2].path@ == p);
                        }
                    }
                    assert forall|k: int| 0 <= k < i + 1 implies has_path_group(
                        groups@,
                        (#[trigger] found@[k]).path@,
                    ) by {
                        if k < i {
                            assert(has_path_group(groups0, found@[k].path@));
                            let gw = choose|gw: int|
                                0 <= gw < groups0.len() && (#[trigger] groups0[gw]).path@
                                    == found@[k].path@;
                            assert(groups@[gw].path@ == groups0[gw].path@) by {
                                if gw != gi {
                                    assert(groups@[gw] == groups0[gw]);
                                }
                            }
                            assert(0 <= gw < groups@.len() && groups@[gw].path@ == found@[
                                k
                            ].path@);
                        } else {
                            assert(0 <= gi < groups@.len() && groups@[gi as int].path@ == found@[
                                k
                            ].path@);
                        }
                    }
                }
            },
            Option::None => {
                let mut edits: Vec<TextEdit> = Vec::new();
                edits.push(edit);
                let ghost groups0 = groups@;
                groups.push(FileEdits { path: lp.clone(), edits });
                proof {
                    assert forall|g1: int, g2: int|
                        0 <= g1 < g2 < groups@.len() implies (
                    #[trigger] groups@[g1]).path@ != (#[trigger] groups@[g2]).path@ by {
                        if g2 < groups0.len() {
                            assert(groups@[g1] == groups0[g1] && groups@[g2] == groups0[g2]);
                        } else {
                            assert(groups@[g1] == groups0[g1]);
                            assert(groups@[g2].path@ == found@[i as int].path@);
                        }
                    }
                    assert forall|g2: int, e: int|
                        0 <= g2 < groups@.len() && 0 <= e < (
                    #[trigger] groups@[g2]).edits@.len() implies (
                    #[trigger] groups@[g2].edits@[e]).new_text@ == new_name@ by {}
                    assert(found@.take((i + 1) as int) =~= found@.take(i as int).push(fi));
                    assert(groups@[groups0.len() as int].path@ == fi.path@);
                    assert forall|g2: int| 0 <= g2 < groups@.len() implies edits_follow(
                        #[trigger] groups@[g2],
                        found@.take((i + 1) as int),
                    ) by {
                        let p = groups@[g2].path@;
                        crate::references::lemma_path_ranges_push(found@.take(i as int), fi, p);
                        if g2 < groups0.len() {
                            assert(groups@[g2] == groups0[g2]);
                            assert(fi.path@ != p);
                            assert(path_ranges(found@.take((i + 1) as int), p) =~= path_ranges(
                                found@.take(i as int),
                                p,
                            ));
                            assert(edits_follow(groups0[g2], found@.take(i as int)));
                            assert(groups0[g2].path@ == p);
                        } else {
                            assert(fi.path@ == p);
                            assert forall|k: int|
                                0 <= k < found@.take(i as int).len() implies (
                            #[trigger] found@.take(i as int)[k]).path@ != p by {
                                assert(found@.take(i as int)[k] == found@[k]);
                                if found@[k].path@ == p {
                                    assert(has_path_group(groups0, found@[k].path@));
                                    let gw = choose|gw: int|
                                        0 <= gw < groups0.len() && (
                                        #[trigger] groups0[gw]).path@ == found@[k].path@;
                                    assert(groups0[gw].path@ != fi.path@);
                                    assert(false);
                                }
                            }
                            crate::references::lemma_path_ranges_none(found@.take(i as int), p);
                            assert(path_ranges(found@.take((i + 1) as int), p) =~= Seq::<
                                SymbolLocation,
                            >::empty().push(fi));
                            assert(groups@[g2].edits@.len() == 1);
                            assert(groups@[g2].edits@[0] == edit);
                        }
                    }
                    assert forall|k: int| 0 <= k < i + 1 implies has_path_group(
                        groups@,
                        (#[trigger] found@[k]).path@,
                    ) by {
                        if k < i {
                            assert(has_path_group(groups0, found@[k].path@));
                            let gw = choose|gw: int|
                                0 <= gw < groups0.len() && (#[trigger] groups0[gw]).path@
                                    == found@[k].path@;
                            assert(groups@[gw] == groups0[gw]);
                            assert(0 <= gw < groups@.len() && groups@[gw].path@ == found@[
                                k
                            ].path@);
                        } else {
                            assert(0 <= groups0.len() < groups@.len() && groups@[
                                groups0.len() as int
                            ].path@ == found@[k].path@);
                        }
                    }
                }
            },
        }
        i = i + 1;
    }
    proof {
        assert(found@.take(n as int) =~= found@);
        assert forall|g: int| 0 <= g < groups@.len() implies edits_follow(
            #[trigger] groups@[g],
            sf,
        ) by {
            crate::references::lemma_locs_match_path_ranges(found@, sf, groups@[g].path@);
            assert(edits_follow(groups@[g], found@));
        }
        assert forall|k: int| 0 <= k < sf.len() implies has_path_group(
            groups@,
            (#[trigger] sf[k]).path@,
        ) by {
            assert(found@[k].path@ == sf[k].path@);
            assert(has_path_group(groups@, found@[k].path@));
        }
        assert(covers_paths(groups@, sf));
    }
    Ok(groups)
}

} // verus!
