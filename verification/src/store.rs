//! The in-memory store of parsed files, functions and packages.
//!
//! The store is owned by the dispatcher actor; every mutation goes
//! through the operations here. `set_parsed_file` enforces the
//! freshness rule: a background write never clobbers an open file,
//! nor does an older parse replace a newer one.

use vstd::prelude::*;

use crate::ident::spec_starts_with;
use crate::ident::str_eq;
use crate::ident::str_starts_with;
use crate::symbols::lemma_filter_push;
use crate::symbols::FunMap;
use crate::symbols::FunctionDefinition;
use crate::symbols::KeyMap;
use crate::symbols::Workspace;
use crate::tree::SyntaxTree;

verus! {

/// Which actor sent a message.
#[derive(Clone, Copy, Debug, PartialEq, Eq, Structural)]
pub enum SenderThread {
    Main,
    Dispatcher,
    Handler,
    BackgroundWorker,
}

/// A store operation.
#[derive(Clone, Copy, Debug, PartialEq, Eq, Structural)]
pub enum DBOperation {
    Get,
    Put,
    Delete,
    Fetch,
}

/// What a store operation acts on.
#[derive(Clone, Copy, Debug, PartialEq, Eq, Structural)]
pub enum DBTarget {
    FunctionDefinition,
    Package,
    ParsedFile,
    RequestID,
    Script,
}

/// One parsed file and everything extracted from it.
#[derive(Clone)]
pub struct ParsedFile {
    /// The file contents; empty when the file is neither open nor
    /// being analyzed.
    pub contents: String,
    /// File name without the `.m` extension.
    pub name: String,
    /// Absolute path of the file.
    pub path: String,
    /// Whether the file is open in the editor.
    pub open: bool,
    /// The file's syntax tree.
    pub tree: SyntaxTree,
    /// When this value was produced, as a monotonic tick count.
    pub timestamp: u64,
    /// The dotted package the file is in, empty when none.
    pub package: String,
    /// Whether the file is a script rather than a function or class.
    pub is_script: bool,
    /// The extracted symbols.
    pub workspace: Workspace,
}

impl ParsedFile {
    /// Clears the contents of a file that is not open, to bound the
    /// memory spent on scanned-but-unopened files.
    pub fn dump_contents(&mut self)
        ensures
            final(self).contents@ == if old(self).open {
                old(self).contents@
            } else {
                Seq::<char>::empty()
            },
            final(self).name == old(self).name,
            final(self).path == old(self).path,
            final(self).open == old(self).open,
            final(self).tree == old(self).tree,
            final(self).timestamp == old(self).timestamp,
            final(self).package == old(self).package,
            final(self).is_script == old(self).is_script,
            final(self).workspace == old(self).workspace,
    {
        if !self.open {
            self.contents = String::new();
        }
    }
}

/// The qualified name of a function: `package.name`, or `name` alone
/// when the package is empty.
pub open spec fn spec_qualified(package: Seq<char>, name: Seq<char>) -> Seq<char> {
    if package.len() == 0 {
        name
    } else {
        package + seq!['.'] + name
    }
}

/// Builds the qualified name of a function.
pub fn qualified_name(package: &str, name: &str) -> (r: String)
    ensures
        r@ == spec_qualified(package@, name@),
{
    if package.unicode_len() == 0 {
        name.to_owned()
    } else {
        let mut s: String = package.to_owned();
        s.append(".");
        s.append(name);
        proof {
            reveal_strlit(".");
            assert(s@ =~= package@ + seq!['.'] + name@);
        }
        s
    }
}

/// The first entry from `i` on that is a script named `name`.
pub open spec fn spec_first_script(
    files: Seq<(String, ParsedFile)>,
    name: Seq<char>,
    i: int,
) -> Option<ParsedFile>
    decreases files.len() - i,
{
    if i < 0 || i >= files.len() {
        None
    } else if files[i].1.is_script && files[i].1.name@ == name {
        Some(files[i].1)
    } else {
        spec_first_script(files, name, i + 1)
    }
}

/// Whether a `Set ParsedFile` for `file` passes the freshness check
/// against `s`: it is dropped when the stored entry is open and the
/// writer is the background worker, or when the stored entry is
/// newer.
pub open spec fn spec_set_accepted(s: Store, file: ParsedFile, from_handler: bool) -> bool {
    match s.parsed_files.spec_get(file.path@) {
        Some(p) => !((p.open && !from_handler) || p.timestamp > file.timestamp),
        None => true,
    }
}

/// The process-wide index: parsed files by path, functions by
/// qualified name, known packages, and the server-request counter.
#[derive(Clone)]
pub struct Store {
    pub parsed_files: KeyMap<ParsedFile>,
    pub functions: FunMap,
    pub packages: Vec<String>,
    pub request_id: i32,
}

impl Store {
    pub open spec fn wf(self) -> bool {
        self.parsed_files.wf() && self.functions.wf()
    }

    pub fn new() -> (r: Store)
        ensures
            r.wf(),
            r.parsed_files@ =~= Seq::<(String, ParsedFile)>::empty(),
            r.functions@ =~= Seq::<(String, FunctionDefinition)>::empty(),
            r.packages@ =~= Seq::<String>::empty(),
            r.request_id == 0,
    {
        Store {
            parsed_files: KeyMap::new(),
            functions: FunMap::new(),
            packages: Vec::new(),
            request_id: 0,
        }
    }

    /// Checks the store's well-formedness at run time: both key maps
    /// hold pairwise-distinct keys. A shell can test this before it
    /// calls the operations that require a well-formed store.
    pub fn check_wf(&self) -> (r: bool)
        ensures
            r == self.wf(),
    {
        self.parsed_files.check_wf() && self.functions.check_wf()
    }

    /// `Get ParsedFile by path`: the current entry, or nothing.
    pub fn get_parsed_file(&self, path: &str) -> (r: Option<&ParsedFile>)
        requires
            self.wf(),
        ensures
            match r {
                Some(f) => self.parsed_files.spec_get(path@) == Some(*f),
                None => self.parsed_files.spec_get(path@) is None,
            },
    {
        self.parsed_files.get(path)
    }

    /// `Set ParsedFile`, with the freshness check: the write is
    /// dropped when the stored entry is open and the writer is the
    /// background worker, or when the stored entry is newer. Returns
    /// whether the write took place.
    pub fn set_parsed_file(&mut self, file: ParsedFile, from_handler: bool) -> (stored: bool)
        requires
            old(self).wf(),
        ensures
            final(self).wf(),
            stored == spec_set_accepted(*old(self), file, from_handler),
            stored ==> final(self).parsed_files.spec_get(file.path@) == Some(file),
            stored ==> forall|p2: Seq<char>|
                p2 != file.path@ ==> final(self).parsed_files.spec_get(p2) == old(
                    self,
                ).parsed_files.spec_get(p2),
            !stored ==> *final(self) == *old(self),
            final(self).functions == old(self).functions,
            final(self).packages == old(self).packages,
            final(self).request_id == old(self).request_id,
    {
        match self.parsed_files.get(file.path.as_str()) {
            Some(stored_file) => {
                if (stored_file.open && !from_handler) || stored_file.timestamp > file.timestamp {
                    return false;
                }
            },
            None => {},
        }
        let path = file.path.clone();
        self.parsed_files.insert(path, file);
        true
    }

    /// `Delete ParsedFile by path`.
    pub fn delete_parsed_file(&mut self, path: &str)
        requires
            old(self).wf(),
        ensures
            final(self).wf(),
            final(self).parsed_files@ == old(self).parsed_files@.filter(
                |e: (String, ParsedFile)| e.0@ != path@,
            ),
            final(self).functions == old(self).functions,
            final(self).packages == old(self).packages,
            final(self).request_id == old(self).request_id,
    {
        self.parsed_files.remove_key(path);
    }

    /// `Set Function`: stores `f` under its qualified name.
    pub fn set_function(&mut self, f: FunctionDefinition)
        requires
            old(self).wf(),
        ensures
            final(self).wf(),
            final(self).functions.spec_get(spec_qualified(f.package@, f.name@)) == Some(f),
            forall|n2: Seq<char>|
                n2 != spec_qualified(f.package@, f.name@) ==> final(self).functions.spec_get(n2)
                    == old(self).functions.spec_get(n2),
            final(self).parsed_files == old(self).parsed_files,
            final(self).packages == old(self).packages,
            final(self).request_id == old(self).request_id,
    {
        let key = qualified_name(f.package.as_str(), f.name.as_str());
        self.functions.insert(key, f);
    }

    /// `Get Function by qualified name`.
    pub fn get_function(&self, name: &str) -> (r: Option<&FunctionDefinition>)
        requires
            self.wf(),
        ensures
            match r {
                Some(f) => self.functions.spec_get(name@) == Some(*f),
                None => self.functions.spec_get(name@) is None,
            },
    {
        self.functions.get(name)
    }

    /// `Delete FunctionDefinition by path`: removes every function
    /// whose source file is `path`.
    pub fn delete_file_function(&mut self, path: &str)
        requires
            old(self).wf(),
        ensures
            final(self).wf(),
            final(self).functions@ == old(self).functions@.filter(
                |e: (String, FunctionDefinition)| e.1.path@ != path@,
            ),
            final(self).parsed_files == old(self).parsed_files,
            final(self).packages == old(self).packages,
            final(self).request_id == old(self).request_id,
    {
        self.functions.remove_by_path(path);
    }

    /// `Get Package by prefix`: every known dotted package name that
    /// starts with `prefix`; the empty prefix lists all.
    pub fn get_package(&self, prefix: &str) -> (r: Vec<String>)
        ensures
            r@ == self.packages@.filter(|p: String| spec_starts_with(p@, prefix@)),
            forall|ci: int|
                0 <= ci < self.packages@.len() && spec_starts_with(
                    (#[trigger] self.packages@[ci])@,
                    prefix@,
                ) ==> exists|k: int| 0 <= k < r@.len() && (#[trigger] r@[k])@ == self.packages@[ci]@,
            forall|k: int|
                0 <= k < r@.len() ==> spec_starts_with((#[trigger] r@[k])@, prefix@) && exists|
                    ci: int,
                |
                    0 <= ci < self.packages@.len() && (#[trigger] self.packages@[ci])@ == r@[k]@,
    {
        let ghost f = |p: String| spec_starts_with(p@, prefix@);
        let mut r: Vec<String> = Vec::new();
        let n = self.packages.len();
        let mut i: usize = 0;
        while i < n
            invariant
                f == (|p: String| spec_starts_with(p@, prefix@)),
                n == self.packages@.len(),
                i <= n,
                r@ =~= self.packages@.subrange(0, i as int).filter(f),
                forall|ci: int|
                    0 <= ci < i && spec_starts_with((#[trigger] self.packages@[ci])@, prefix@)
                        ==> exists|k: int|
                        0 <= k < r@.len() && (#[trigger] r@[k])@ == self.packages@[ci]@,
                forall|k: int|
                    0 <= k < r@.len() ==> spec_starts_with((#[trigger] r@[k])@, prefix@) && exists|
                        ci: int,
                    |
                        0 <= ci < self.packages@.len() && (#[trigger] self.packages@[ci])@ == r@[
                            k
                        ]@,
            decreases n - i,
        {
            let ghost pre = self.packages@.subrange(0, i as int);
            let ghost r0 = r@;
            proof {
                assert(self.packages@.subrange(0, (i + 1) as int) =~= pre.push(
                    self.packages@[i as int],
                ));
                lemma_filter_push(pre, self.packages@[i as int], f);
            }
            if str_starts_with(self.packages[i].as_str(), prefix) {
                r.push(self.packages[i].clone());
                proof {
                    assert(r@[r@.len() - 1]@ == self.packages@[i as int]@);
                }
            }
            proof {
                assert forall|ci: int|
                    0 <= ci < i + 1 && spec_starts_with(
                        (#[trigger] self.packages@[ci])@,
                        prefix@,
                    ) implies exists|k: int|
                    0 <= k < r@.len() && (#[trigger] r@[k])@ == self.packages@[ci]@ by {
                    if ci < i {
                        let k = choose|k: int|
                            0 <= k < r0.len() && (#[trigger] r0[k])@ == self.packages@[ci]@;
                        assert(r@[k]@ == self.packages@[ci]@);
                    } else {
                        assert(r@[r@.len() - 1]@ == self.packages@[ci]@);
                    }
                }
            }
            i = i + 1;
        }
        proof {
            assert(self.packages@.subrange(0, n as int) =~= self.packages@);
        }
        r
    }

    /// `Set Package`: records the given package names.
    pub fn set_packages(&mut self, pkgs: Vec<String>)
        requires
            old(self).wf(),
        ensures
            final(self).wf(),
            final(self).packages@ == old(self).packages@ + pkgs@,
            final(self).parsed_files == old(self).parsed_files,
            final(self).functions == old(self).functions,
            final(self).request_id == old(self).request_id,
    {
        let n = pkgs.len();
        let mut i: usize = 0;
        while i < n
            invariant
                old(self).wf(),
                n == pkgs@.len(),
                i <= n,
                self.packages@ =~= old(self).packages@ + pkgs@.subrange(0, i as int),
                self.parsed_files == old(self).parsed_files,
                self.functions == old(self).functions,
                self.request_id == old(self).request_id,
            decreases n - i,
        {
            self.packages.push(pkgs[i].clone());
            proof {
                assert(self.packages@ =~= old(self).packages@ + pkgs@.subrange(0, (i + 1) as int));
            }
            i = i + 1;
        }
        proof {
            assert(pkgs@.subrange(0, n as int) =~= pkgs@);
        }
    }

    /// `Get Script by name`: the first parsed file, in insertion
    /// order, that is a script with that basename.
    pub fn get_script(&self, name: &str) -> (r: Option<&ParsedFile>)
        requires
            self.wf(),
        ensures
            match r {
                Some(f) => spec_first_script(self.parsed_files@, name@, 0) == Some(*f),
                None => spec_first_script(self.parsed_files@, name@, 0) is None,
            },
    {
        let n = self.parsed_files.len();
        let mut i: usize = 0;
        while i < n
            invariant
                self.wf(),
                n == self.parsed_files@.len(),
                i <= n,
                spec_first_script(self.parsed_files@, name@, 0) == spec_first_script(
                    self.parsed_files@,
                    name@,
                    i as int,
                ),
            decreases n - i,
        {
            let entry = self.parsed_files.entry(i);
            if entry.1.is_script && str_eq(entry.1.name.as_str(), name) {
                return Some(&self.parsed_files.entry(i).1);
            }
            i = i + 1;
        }
        None
    }

    /// `Get RequestID`: returns the next server-initiated request id
    /// and advances the counter, which saturates at the machine
    /// limit.
    pub fn next_request_id(&mut self) -> (r: i32)
        requires
            old(self).wf(),
        ensures
            final(self).wf(),
            r == old(self).request_id,
            old(self).request_id < i32::MAX ==> final(self).request_id == old(self).request_id
                + 1,
            old(self).request_id == i32::MAX ==> final(self).request_id == old(self).request_id,
            final(self).parsed_files == old(self).parsed_files,
            final(self).functions == old(self).functions,
            final(self).packages == old(self).packages,
    {
        let r = self.request_id;
        if r < i32::MAX {
            self.request_id = r + 1;
        }
        r
    }
}

/// Store freshness: once a fresh parse of an open file is stored, a
/// background `Set` for the same path cannot replace it, whatever its
/// timestamp; a `Get` still returns the open file's content.
pub proof fn lemma_store_freshness(s: Store, bg: ParsedFile, stored: ParsedFile)
    requires
        s.parsed_files.spec_get(bg.path@) == Some(stored),
        stored.open,
    ensures
        !spec_set_accepted(s, bg, false),
{
}

} // verus!
