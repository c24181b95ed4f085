//! The symbol model: function signatures and definitions, variable
//! definitions, references and per-file workspaces.

use vstd::prelude::*;

use crate::ident::str_eq;
use crate::range::Range;

verus! {

/// Copies a vector of strings, element for element.
pub fn clone_strings(v: &Vec<String>) -> (r: Vec<String>)
    ensures
        r@ == v@,
{
    let mut r: Vec<String> = Vec::new();
    let n = v.len();
    let mut i: usize = 0;
    while i < n
        invariant
            n == v@.len(),
            i <= n,
            r@ =~= v@.subrange(0, i as int),
        decreases n - i,
    {
        r.push(v[i].clone());
        i = i + 1;
    }
    proof {
        assert(r@ =~= v@);
    }
    r
}

/// A function's signature: name, argument counts and names, variadic
/// flags, documentation, and the ranges of the name and of the whole
/// signature.
pub struct FunctionSignature {
    /// Range of the function's name.
    pub name_range: Range,
    pub name: String,
    /// Number of required input arguments.
    pub argin: usize,
    /// Number of required output arguments.
    pub argout: usize,
    /// Whether variable input arguments are accepted.
    pub vargin: bool,
    /// Whether variable output arguments are accepted.
    pub vargout: bool,
    pub argout_names: Vec<String>,
    pub argin_names: Vec<String>,
    /// Names of the optional (key-value) input arguments.
    pub vargin_names: Vec<String>,
    pub documentation: String,
    /// Range of the entire signature.
    pub range: Range,
}

/// Equality of two signatures, comparing name vectors by contents.
pub open spec fn sig_eq(a: FunctionSignature, b: FunctionSignature) -> bool {
    a.name_range == b.name_range && a.name == b.name && a.argin == b.argin && a.argout == b.argout
        && a.vargin == b.vargin && a.vargout == b.vargout && a.argout_names@ == b.argout_names@
        && a.argin_names@ == b.argin_names@ && a.vargin_names@ == b.vargin_names@
        && a.documentation == b.documentation && a.range == b.range
}

impl Clone for FunctionSignature {
    fn clone(&self) -> (r: Self)
        ensures
            sig_eq(r, *self),
    {
        FunctionSignature {
            name_range: self.name_range,
            name: self.name.clone(),
            argin: self.argin,
            argout: self.argout,
            vargin: self.vargin,
            vargout: self.vargout,
            argout_names: clone_strings(&self.argout_names),
            argin_names: clone_strings(&self.argin_names),
            vargin_names: clone_strings(&self.vargin_names),
            documentation: self.documentation.clone(),
            range: self.range,
        }
    }
}

/// A function definition, identified by the path of its file and the
/// range of its name.
pub struct FunctionDefinition {
    /// Range of the function's name in its file.
    pub loc: Range,
    /// Name without the package.
    pub name: String,
    /// Path of the file this function is in.
    pub path: String,
    pub signature: FunctionSignature,
    /// The dotted package, empty when none.
    pub package: String,
}

/// Equality of two function definitions, comparing signatures with
/// `sig_eq`.
pub open spec fn fd_eq(a: FunctionDefinition, b: FunctionDefinition) -> bool {
    a.loc == b.loc && a.name == b.name && a.path == b.path && sig_eq(a.signature, b.signature)
        && a.package == b.package
}

impl Clone for FunctionDefinition {
    fn clone(&self) -> (r: Self)
        ensures
            fd_eq(r, *self),
    {
        FunctionDefinition {
            loc: self.loc,
            name: self.name.clone(),
            path: self.path.clone(),
            signature: self.signature.clone(),
            package: self.package.clone(),
        }
    }
}

/// A variable binding introduced by the extractor.
pub struct VariableDefinition {
    /// Range of the defining identifier.
    pub loc: Range,
    pub name: String,
    /// Row on which a `clear` invalidated this binding; 0 means live.
    pub cleared: usize,
    /// Whether the binding is a function parameter or output.
    pub is_parameter: bool,
    pub is_global: bool,
    /// Index of the defining syntax node in the file's tree.
    pub node: usize,
}

impl Clone for VariableDefinition {
    fn clone(&self) -> (r: Self)
        ensures
            r == *self,
    {
        VariableDefinition {
            loc: self.loc,
            name: self.name.clone(),
            cleared: self.cleared,
            is_parameter: self.is_parameter,
            is_global: self.is_global,
            node: self.node,
        }
    }
}

/// What an identifier resolved to.
pub enum ReferenceTarget {
    UnknownVariable,
    UnknownFunction,
    /// A dotted package name.
    Namespace(String),
    /// The path of a script file.
    Script(String),
    Function(FunctionDefinition),
    /// Index of a variable in the workspace's `variables`.
    Variable(usize),
}

/// Equality of two targets, comparing function definitions with
/// `fd_eq`.
pub open spec fn target_eq(a: ReferenceTarget, b: ReferenceTarget) -> bool {
    match (a, b) {
        (ReferenceTarget::UnknownVariable, ReferenceTarget::UnknownVariable) => true,
        (ReferenceTarget::UnknownFunction, ReferenceTarget::UnknownFunction) => true,
        (ReferenceTarget::Namespace(x), ReferenceTarget::Namespace(y)) => x == y,
        (ReferenceTarget::Script(x), ReferenceTarget::Script(y)) => x == y,
        (ReferenceTarget::Function(x), ReferenceTarget::Function(y)) => fd_eq(x, y),
        (ReferenceTarget::Variable(x), ReferenceTarget::Variable(y)) => x == y,
        _ => false,
    }
}

impl Clone for ReferenceTarget {
    fn clone(&self) -> (r: Self)
        ensures
            target_eq(r, *self),
    {
        match self {
            ReferenceTarget::UnknownVariable => ReferenceTarget::UnknownVariable,
            ReferenceTarget::UnknownFunction => ReferenceTarget::UnknownFunction,
            ReferenceTarget::Namespace(s) => ReferenceTarget::Namespace(s.clone()),
            ReferenceTarget::Script(s) => ReferenceTarget::Script(s.clone()),
            ReferenceTarget::Function(f) => ReferenceTarget::Function(f.clone()),
            ReferenceTarget::Variable(i) => ReferenceTarget::Variable(*i),
        }
    }
}

/// One resolved (or unresolved) occurrence of a name.
pub struct Reference {
    /// Range of the occurrence.
    pub loc: Range,
    /// The name, possibly dotted.
    pub name: String,
    pub target: ReferenceTarget,
    /// Index of the syntax node the occurrence was read from.
    pub node: usize,
}

/// Equality of two references, comparing targets with `target_eq`.
pub open spec fn ref_eq(a: Reference, b: Reference) -> bool {
    a.loc == b.loc && a.name == b.name && target_eq(a.target, b.target) && a.node == b.node
}

impl Clone for Reference {
    fn clone(&self) -> (r: Self)
        ensures
            ref_eq(r, *self),
    {
        Reference {
            loc: self.loc,
            name: self.name.clone(),
            target: self.target.clone(),
            node: self.node,
        }
    }
}

/// Filtering after a push keeps the prefix's filtering and appends
/// the new element exactly when it satisfies the predicate.
pub(crate) proof fn lemma_filter_push<T>(s: Seq<T>, x: T, f: spec_fn(T) -> bool)
    ensures
        s.push(x).filter(f) == if f(x) {
            s.filter(f).push(x)
        } else {
            s.filter(f)
        },
{
    reveal_with_fuel(Seq::filter, 2);
    assert(s.push(x).drop_last() =~= s);
    assert(s.push(x).last() == x);
}

/// Filtering an entry list with pairwise-distinct keys leaves the
/// keys pairwise distinct, and every kept key was present.
pub(crate) proof fn lemma_filter_keeps_keys_distinct<V>(
    s: Seq<(String, V)>,
    f: spec_fn((String, V)) -> bool,
)
    requires
        forall|i: int, j: int|
            0 <= i < j < s.len() ==> (#[trigger] s[i]).0@ != (#[trigger] s[j]).0@,
    ensures
        forall|i: int, j: int|
            0 <= i < j < s.filter(f).len() ==> (#[trigger] s.filter(f)[i]).0@ != (
            #[trigger] s.filter(f)[j]).0@,
        forall|i: int|
            0 <= i < s.filter(f).len() ==> exists|j: int|
                0 <= j < s.len() && (#[trigger] s.filter(f)[i]).0@ == (#[trigger] s[j]).0@,
    decreases s.len(),
{
    reveal_with_fuel(Seq::filter, 2);
    if s.len() == 0 {
    } else {
        let pre = s.drop_last();
        let last = s.last();
        lemma_filter_keeps_keys_distinct(pre, f);
        let subp = pre.filter(f);
        let sub = s.filter(f);
        if f(last) {
            assert(sub =~= subp.push(last));
            assert forall|i: int, j: int| 0 <= i < j < sub.len() implies (
            #[trigger] sub[i]).0@ != (#[trigger] sub[j]).0@ by {
                if j < sub.len() - 1 {
                    assert(sub[i] == subp[i] && sub[j] == subp[j]);
                } else {
                    assert(sub[i] == subp[i]);
                    let j2 = choose|j2: int|
                        0 <= j2 < pre.len() && (#[trigger] subp[i]).0@ == (#[trigger] pre[j2]).0@;
                    assert(s[j2].0@ != s[s.len() - 1].0@);
                }
            }
            assert forall|i: int| 0 <= i < sub.len() implies exists|j: int|
                0 <= j < s.len() && (#[trigger] sub[i]).0@ == (#[trigger] s[j]).0@ by {
                if i < sub.len() - 1 {
                    let j2 = choose|j2: int|
                        0 <= j2 < pre.len() && (#[trigger] subp[i]).0@ == (#[trigger] pre[j2]).0@;
                    assert(sub[i].0@ == s[j2].0@);
                } else {
                    assert(sub[i].0@ == s[s.len() - 1].0@);
                }
            }
        } else {
            assert(sub =~= subp);
            assert forall|i: int| 0 <= i < sub.len() implies exists|j: int|
                0 <= j < s.len() && (#[trigger] sub[i]).0@ == (#[trigger] s[j]).0@ by {
                let j2 = choose|j2: int|
                    0 <= j2 < pre.len() && (#[trigger] subp[i]).0@ == (#[trigger] pre[j2]).0@;
                assert(sub[i].0@ == s[j2].0@);
            }
        }
    }
}

/// A map from string keys to values, with unique keys, kept in
/// insertion order.
#[derive(Clone)]
pub struct KeyMap<V> {
    entries: Vec<(String, V)>,
}

impl<V> KeyMap<V> {
    /// The entries, in insertion order.
    pub closed spec fn view(self) -> Seq<(String, V)> {
        self.entries@
    }

    /// Keys are pairwise distinct.
    pub closed spec fn wf(self) -> bool {
        forall|i: int, j: int|
            0 <= i < j < self.entries@.len() ==> (#[trigger] self.entries@[i]).0@ != (
            #[trigger] self.entries@[j]).0@
    }

    /// The value stored under `name`, if any.
    pub open spec fn spec_get(self, name: Seq<char>) -> Option<V> {
        if exists|i: int| 0 <= i < self@.len() && (#[trigger] self@[i]).0@ == name {
            Some(self@[choose|i: int| 0 <= i < self@.len() && (#[trigger] self@[i]).0@ == name].1)
        } else {
            None
        }
    }

    /// Checks key distinctness at run time, so a map of any
    /// provenance can be used safely.
    pub fn check_wf(&self) -> (r: bool)
        ensures
            r == self.wf(),
    {
        let n = self.entries.len();
        let mut i: usize = 0;
        while i < n
            invariant
                n == self.entries@.len(),
                i <= n,
                forall|a: int, b: int|
                    0 <= a < b < n && a < i ==> (#[trigger] self.entries@[a]).0@ != (
                    #[trigger] self.entries@[b]).0@,
            decreases n - i,
        {
            let mut j: usize = i + 1;
            while j < n
                invariant
                    n == self.entries@.len(),
                    i < n,
                    i < j <= n,
                    forall|b: int|
                        i < b < j ==> (#[trigger] self.entries@[b]).0@ != self.entries@[
                            i as int
                        ].0@,
                decreases n - j,
            {
                if str_eq(self.entries[i].0.as_str(), self.entries[j].0.as_str()) {
                    return false;
                }
                j = j + 1;
            }
            i = i + 1;
        }
        true
    }

    pub fn new() -> (r: KeyMap<V>)
        ensures
            r@ =~= Seq::<(String, V)>::empty(),
            r.wf(),
    {
        KeyMap { entries: Vec::new() }
    }

    pub fn len(&self) -> (n: usize)
        ensures
            n == self@.len(),
    {
        self.entries.len()
    }

    /// The entry at position `i`, in insertion order.
    pub fn entry(&self, i: usize) -> (r: &(String, V))
        requires
            i < self@.len(),
        ensures
            *r == self@[i as int],
    {
        &self.entries[i]
    }

    pub fn get(&self, name: &str) -> (r: Option<&V>)
        requires
            self.wf(),
        ensures
            match r {
                Some(v) => self.spec_get(name@) == Some(*v),
                None => self.spec_get(name@) is None,
            },
    {
        let n = self.entries.len();
        let mut i: usize = 0;
        while i < n
            invariant
                self.wf(),
                n == self@.len(),
                i <= n,
                forall|j: int| 0 <= j < i ==> (#[trigger] self@[j]).0@ != name@,
            decreases n - i,
        {
            if str_eq(self.entries[i].0.as_str(), name) {
                return Some(&self.entries[i].1);
            }
            i = i + 1;
        }
        None
    }

    /// Inserts `v` under `name`, replacing any previous entry.
    pub fn insert(&mut self, name: String, v: V)
        requires
            old(self).wf(),
        ensures
            final(self).wf(),
            final(self).spec_get(name@) == Some(v),
            forall|n2: Seq<char>|
                n2 != name@ ==> final(self).spec_get(n2) == old(self).spec_get(n2),
            final(self)@.len() <= old(self)@.len() + 1,
    {
        let n = self.entries.len();
        let mut i: usize = 0;
        while i < n
            invariant
                old(self) == self,
                self.wf(),
                n == self@.len(),
                i <= n,
                forall|j: int| 0 <= j < i ==> (#[trigger] self@[j]).0@ != name@,
            decreases n - i,
        {
            if str_eq(self.entries[i].0.as_str(), name.as_str()) {
                let ghost ns = name@;
                self.entries.set(i, (name, v));
                proof {
                    assert(self@[i as int].0@ == ns);
                    assert forall|n2: Seq<char>| n2 != ns implies self.spec_get(n2) == old(
                        self,
                    ).spec_get(n2) by {
                        if exists|j: int| 0 <= j < old(self)@.len() && (#[trigger] old(
                            self,
                        )@[j]).0@ == n2 {
                            let j = choose|j: int|
                                0 <= j < old(self)@.len() && (#[trigger] old(self)@[j]).0@ == n2;
                            assert(self@[j].0@ == n2);
                        }
                    }
                    assert(self.spec_get(ns) == Some(v)) by {
                        let j = choose|j: int| 0 <= j < self@.len() && (#[trigger] self@[j]).0@ == ns;
                        assert(j == i);
                    }
                }
                return ;
            }
            i = i + 1;
        }
        let ghost ns = name@;
        self.entries.push((name, v));
        proof {
            assert(self@[self@.len() - 1].0@ == ns);
            assert(self.spec_get(ns) == Some(v)) by {
                let j = choose|j: int| 0 <= j < self@.len() && (#[trigger] self@[j]).0@ == ns;
                assert(j == self@.len() - 1);
            }
            assert forall|n2: Seq<char>| n2 != ns implies self.spec_get(n2) == old(self).spec_get(
                n2,
            ) by {
                if exists|j: int| 0 <= j < old(self)@.len() && (#[trigger] old(self)@[j]).0@ == n2 {
                    let j = choose|j: int|
                        0 <= j < old(self)@.len() && (#[trigger] old(self)@[j]).0@ == n2;
                    assert(self@[j].0@ == n2);
                } else {
                    if exists|j: int| 0 <= j < self@.len() && (#[trigger] self@[j]).0@ == n2 {
                        let j = choose|j: int|
                            0 <= j < self@.len() && (#[trigger] self@[j]).0@ == n2;
                        assert(j == self@.len() - 1);
                        assert(false);
                    }
                }
            }
        }
    }

    /// Removes the entry stored under `key`, if any.
    pub fn remove_key(&mut self, key: &str)
        requires
            old(self).wf(),
        ensures
            final(self).wf(),
            final(self)@ == old(self)@.filter(|e: (String, V)| e.0@ != key@),
    {
        let ghost f = |e: (String, V)| e.0@ != key@;
        let ghost orig = self@;
        let mut i: usize = 0;
        let ghost mut k: int = 0;
        while i < self.entries.len()
            invariant
                f == (|e: (String, V)| e.0@ != key@),
                0 <= k <= orig.len(),
                i == orig.subrange(0, k).filter(f).len(),
                self@ =~= orig.subrange(0, k).filter(f) + orig.subrange(k, orig.len() as int),
                self@.len() == i + orig.len() - k,
                forall|i2: int, j2: int|
                    0 <= i2 < j2 < orig.len() ==> (#[trigger] orig[i2]).0@ != (
                    #[trigger] orig[j2]).0@,
            decreases self@.len() - i,
        {
            let ghost pre = orig.subrange(0, k);
            proof {
                assert(orig.subrange(0, k + 1) =~= pre.push(orig[k]));
                lemma_filter_push(pre, orig[k], f);
                assert(self@[i as int] == orig[k]);
            }
            let keep = !str_eq(self.entries[i].0.as_str(), key);
            proof {
                assert(keep == f(orig[k]));
            }
            if keep {
                i = i + 1;
                proof {
                    k = k + 1;
                    assert(orig.subrange(0, k).filter(f) =~= pre.filter(f).push(orig[k - 1]));
                    assert(self@ =~= orig.subrange(0, k).filter(f) + orig.subrange(
                        k,
                        orig.len() as int,
                    ));
                }
            } else {
                let _ = self.entries.remove(i);
                proof {
                    k = k + 1;
                    assert(orig.subrange(0, k).filter(f) =~= pre.filter(f));
                    assert(self@ =~= orig.subrange(0, k).filter(f) + orig.subrange(
                        k,
                        orig.len() as int,
                    ));
                }
            }
        }
        proof {
            assert(orig.subrange(0, k) =~= orig);
            assert(orig.subrange(k, orig.len() as int) =~= Seq::<(String, V)>::empty());
            assert(self@ =~= orig.filter(f));
            lemma_filter_keeps_keys_distinct(orig, f);
        }
    }
}

impl KeyMap<FunctionDefinition> {
    /// Removes every entry whose definition lies in the file `path`.
    pub fn remove_by_path(&mut self, path: &str)
        requires
            old(self).wf(),
        ensures
            final(self).wf(),
            final(self)@ == old(self)@.filter(
                |e: (String, FunctionDefinition)| e.1.path@ != path@,
            ),
    {
        let ghost f = |e: (String, FunctionDefinition)| e.1.path@ != path@;
        let ghost orig = self@;
        let mut i: usize = 0;
        let ghost mut k: int = 0;
        while i < self.entries.len()
            invariant
                f == (|e: (String, FunctionDefinition)| e.1.path@ != path@),
                0 <= k <= orig.len(),
                i == orig.subrange(0, k).filter(f).len(),
                self@ =~= orig.subrange(0, k).filter(f) + orig.subrange(k, orig.len() as int),
                self@.len() == i + orig.len() - k,
                forall|i2: int, j2: int|
                    0 <= i2 < j2 < orig.len() ==> (#[trigger] orig[i2]).0@ != (
                    #[trigger] orig[j2]).0@,
            decreases self@.len() - i,
        {
            let ghost pre = orig.subrange(0, k);
            proof {
                assert(orig.subrange(0, k + 1) =~= pre.push(orig[k]));
                lemma_filter_push(pre, orig[k], f);
                assert(self@[i as int] == orig[k]);
            }
            let keep = !str_eq(self.entries[i].1.path.as_str(), path);
            proof {
                assert(keep == f(orig[k]));
            }
            if keep {
                i = i + 1;
                proof {
                    k = k + 1;
                    assert(orig.subrange(0, k).filter(f) =~= pre.filter(f).push(orig[k - 1]));
                    assert(self@ =~= orig.subrange(0, k).filter(f) + orig.subrange(
                        k,
                        orig.len() as int,
                    ));
                }
            } else {
                let _ = self.entries.remove(i);
                proof {
                    k = k + 1;
                    assert(orig.subrange(0, k).filter(f) =~= pre.filter(f));
                    assert(self@ =~= orig.subrange(0, k).filter(f) + orig.subrange(
                        k,
                        orig.len() as int,
                    ));
                }
            }
        }
        proof {
            assert(orig.subrange(0, k) =~= orig);
            assert(orig.subrange(k, orig.len() as int) =~= Seq::<(
                String,
                FunctionDefinition,
            )>::empty());
            assert(self@ =~= orig.filter(f));
            lemma_filter_keeps_keys_distinct(orig, f);
        }
    }
}

/// A map from function names to definitions.
pub type FunMap = KeyMap<FunctionDefinition>;

/// The symbols of one file (or of one nested function scope while
/// extraction runs): functions, variables, references and packages.
#[derive(Clone)]
pub struct Workspace {
    pub functions: FunMap,
    pub packages: Vec<String>,
    pub references: Vec<Reference>,
    pub variables: Vec<VariableDefinition>,
}

impl Workspace {
    pub open spec fn wf(self) -> bool {
        self.functions.wf()
    }

    pub fn new() -> (r: Workspace)
        ensures
            r.functions@ =~= Seq::<(String, FunctionDefinition)>::empty(),
            r.packages@ =~= Seq::<String>::empty(),
            r.references@ =~= Seq::<Reference>::empty(),
            r.variables@ =~= Seq::<VariableDefinition>::empty(),
            r.wf(),
    {
        Workspace {
            functions: FunMap::new(),
            packages: Vec::new(),
            references: Vec::new(),
            variables: Vec::new(),
        }
    }
}

} // verus!
