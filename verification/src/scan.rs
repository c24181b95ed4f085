//! Path and package naming rules for the workspace scanner, and the
//! session's scan planning.

use vstd::prelude::*;

use vstd::string::StrSliceExecFns;

verus! {

/// The index of the last `.` strictly below `i`, if any.
pub open spec fn last_dot_before(s: Seq<char>, i: int) -> Option<int>
    decreases i,
{
    if i <= 0 || i > s.len() {
        None
    } else if s[i - 1] == '.' {
        Some(i - 1)
    } else {
        last_dot_before(s, i - 1)
    }
}

/// Splits a qualified name at its last dot: `a.b.c` becomes
/// `("a.b", "c")`; a name without a dot keeps an empty package.
pub fn pkg_basename(s: &str) -> (r: (String, String))
    ensures
        match last_dot_before(s@, s@.len() as int) {
            Some(k) => r.0@ == s@.subrange(0, k) && r.1@ == s@.subrange(k + 1, s@.len() as int),
            None => r.0@ =~= Seq::<char>::empty() && r.1@ == s@,
        },
{
    let n = s.unicode_len();
    let mut i: usize = n;
    while i > 0
        invariant
            i <= n,
            n == s@.len(),
            last_dot_before(s@, n as int) == last_dot_before(s@, i as int),
        decreases i,
    {
        if s.get_char(i - 1) == '.' {
            let pkg = s.substring_char(0, i - 1).to_owned();
            let base = s.substring_char(i, n).to_owned();
            return (pkg, base);
        }
        i = i - 1;
    }
    (String::new(), s.to_owned())
}

/// The command-line arguments of the server: an optional
/// colon-separated list of library folders to prescan.
pub struct Arguments {
    pub path: Option<String>,
}

/// The position of the first `:` at or after `i`.
pub open spec fn first_colon(s: Seq<char>, i: int) -> Option<int>
    decreases s.len() - i,
{
    if i < 0 || i >= s.len() {
        None
    } else if s[i] == ':' {
        Some(i)
    } else {
        first_colon(s, i + 1)
    }
}

/// `s` split at every `:`.
pub open spec fn spec_split_colon(s: Seq<char>) -> Seq<Seq<char>>
    decreases s.len(),
{
    match first_colon(s, 0) {
        None => seq![s],
        Some(k) => {
            if 0 <= k < s.len() {
                seq![s.take(k)] + spec_split_colon(s.skip(k + 1))
            } else {
                seq![s]
            }
        },
    }
}

fn split_colon_from(s: &str, from: usize) -> (r: Vec<String>)
    requires
        from <= s@.len(),
    ensures
        r@.map_values(|x: String| x@) == spec_split_colon(
            s@.subrange(from as int, s@.len() as int),
        ),
    decreases s@.len() - from,
{
    let ghost rest = s@.subrange(from as int, s@.len() as int);
    let n = s.unicode_len();
    let mut k = from;
    while k < n && !colon_at(s, k)
        invariant
            from <= k <= n,
            n == s@.len(),
            rest == s@.subrange(from as int, s@.len() as int),
            first_colon(rest, 0) == first_colon(rest, (k - from) as int),
        decreases n - k,
    {
        proof {
            assert(rest[(k - from) as int] == s@[k as int]);
        }
        k = k + 1;
    }
    if k == n {
        proof {
            assert(first_colon(rest, (k - from) as int) is None);
        }
        let piece = s.substring_char(from, n).to_owned();
        let mut r: Vec<String> = Vec::new();
        r.push(piece);
        proof {
            assert(r@.map_values(|x: String| x@) =~= spec_split_colon(rest));
        }
        r
    } else {
        proof {
            assert(rest[(k - from) as int] == s@[k as int]);
            assert(s@[k as int] == ':');
            assert(first_colon(rest, (k - from) as int) == Some((k - from) as int));
        }
        let piece = s.substring_char(from, k).to_owned();
        let tail = split_colon_from(s, k + 1);
        let mut r: Vec<String> = Vec::new();
        r.push(piece);
        let nt = tail.len();
        let mut i: usize = 0;
        while i < nt
            invariant
                nt == tail@.len(),
                i <= nt,
                n == s@.len(),
                from <= k <= n,
                r@.len() == i + 1,
                r@[0]@ == s@.subrange(from as int, k as int),
                forall|j: int| 1 <= j < i + 1 ==> (#[trigger] r@[j])@ == tail@[j - 1]@,
            decreases nt - i,
        {
            r.push(tail[i].clone());
            i = i + 1;
        }
        proof {
            assert(rest.take((k - from) as int) =~= s@.subrange(from as int, k as int));
            assert(rest.skip((k - from) as int + 1) =~= s@.subrange((k + 1) as int, n as int));
            let lhs = r@.map_values(|x: String| x@);
            let rhs = spec_split_colon(rest);
            assert(rhs == seq![rest.take((k - from) as int)] + spec_split_colon(
                rest.skip((k - from) as int + 1),
            ));
            assert forall|j: int| 0 <= j < lhs.len() implies lhs[j] == rhs[j] by {
                if j == 0 {
                    assert(lhs[0] == r@[0]@);
                } else {
                    assert(lhs[j] == r@[j]@);
                    assert(r@[j]@ == tail@[j - 1]@);
                    assert(rhs[j] == spec_split_colon(rest.skip((k - from) as int + 1))[j - 1]);
                    assert(tail@.map_values(|x: String| x@)[j - 1] == tail@[j - 1]@);
                }
            }
            assert(lhs =~= rhs);
        }
        r
    }
}

/// Whether the character at `i` is a colon.
fn colon_at(s: &str, i: usize) -> (r: bool)
    requires
        i < s@.len(),
    ensures
        r == (s@[i as int] == ':'),
{
    s.get_char(i) == ':'
}

/// Splits a colon-separated path list.
pub fn split_colon(s: &str) -> (r: Vec<String>)
    ensures
        r@.map_values(|x: String| x@) == spec_split_colon(s@),
{
    let r = split_colon_from(s, 0);
    proof {
        assert(s@.subrange(0, s@.len() as int) =~= s@);
    }
    r
}

/// The library folders named by the arguments: the colon-separated
/// entries of the path, or one empty entry when no path was given.
pub fn lib_paths(args: &Arguments) -> (r: Vec<String>)
    ensures
        args.path matches Some(p) ==> r@.map_values(|x: String| x@) == spec_split_colon(p@),
        args.path is None ==> r@.len() == 1 && r@[0]@ == Seq::<char>::empty(),
{
    match &args.path {
        Option::Some(p) => split_colon(p.as_str()),
        Option::None => {
            let mut r: Vec<String> = Vec::new();
            r.push(String::new());
            r
        },
    }
}

/// Whether a directory entry name is a MATLAB source file.
pub fn is_matlab_file(name: &str) -> (r: bool)
    ensures
        r == (name@.len() >= 2 && name@[name@.len() - 2] == '.' && name@[name@.len() - 1] == 'm'),
{
    let n = name.unicode_len();
    n >= 2 && name.get_char(n - 2) == '.' && name.get_char(n - 1) == 'm'
}

/// The package a `+dir` entry opens under `parent`: the name with
/// its `+` stripped, qualified by the parent package; any other
/// entry opens none.
pub fn dir_entry_package(name: &str, parent: &str) -> (r: Option<String>)
    ensures
        name@.len() > 0 && name@[0] == '+' ==> (r matches Some(p) && p@
            == crate::store::spec_qualified(parent@, name@.subrange(1, name@.len() as int))),
        !(name@.len() > 0 && name@[0] == '+') ==> r is None,
{
    let n = name.unicode_len();
    if n > 0 && name.get_char(0) == '+' {
        let bare = name.substring_char(1, n);
        Some(crate::store::qualified_name(parent, bare))
    } else {
        None
    }
}

/// The class name an `@` directory entry introduces: the entry's
/// name with the marker stripped, qualified by the parent package.
/// The `.m` files inside such a folder are the class's methods and
/// are scanned outside any package.
pub fn dir_entry_class(name: &str, parent: &str) -> (r: Option<String>)
    ensures
        name@.len() > 0 && name@[0] == '@' ==> (r matches Some(p) && p@
            == crate::store::spec_qualified(parent@, name@.subrange(1, name@.len() as int))),
        !(name@.len() > 0 && name@[0] == '@') ==> r is None,
{
    let n = name.unicode_len();
    if n > 0 && name.get_char(0) == '@' {
        let bare = name.substring_char(1, n);
        Some(crate::store::qualified_name(parent, bare))
    } else {
        None
    }
}

/// The path's final segment: everything after the last slash, or
/// the whole path when it has none.
pub open spec fn last_segment(s: Seq<char>) -> Seq<char>
    decreases s.len(),
{
    if s.len() == 0 {
        s
    } else if s.last() == '/' {
        Seq::empty()
    } else {
        last_segment(s.drop_last()).push(s.last())
    }
}

/// The name with a trailing `.m` stripped, if present.
pub open spec fn strip_m_suffix(s: Seq<char>) -> Seq<char> {
    if s.len() >= 2 && s[s.len() - 2] == '.' && s[s.len() - 1] == 'm' {
        s.take(s.len() - 2)
    } else {
        s
    }
}

/// A file's base name: the path's final segment with a trailing
/// `.m` stripped.
pub fn file_basename(path: &str) -> (r: String)
    ensures
        r@ == strip_m_suffix(last_segment(path@)),
{
    let n = path.unicode_len();
    proof {
        assert(path@.subrange(0, n as int) =~= path@);
        assert(path@.subrange(n as int, n as int) =~= Seq::<char>::empty());
        assert(last_segment(path@).add(Seq::<char>::empty()) =~= last_segment(path@));
    }
    let mut k: usize = n;
    while k > 0 && !is_slash_at(path, k - 1)
        invariant
            k <= n,
            n == path@.len(),
            last_segment(path@) == last_segment(path@.subrange(0, k as int)).add(
                path@.subrange(k as int, n as int),
            ),
        decreases k,
    {
        proof {
            let cur = path@.subrange(0, k as int);
            assert(cur.drop_last() =~= path@.subrange(0, (k - 1) as int));
            assert(last_segment(cur) =~= last_segment(cur.drop_last()).push(path@[k - 1]));
            assert(last_segment(path@.subrange(0, (k - 1) as int)).add(
                path@.subrange((k - 1) as int, n as int),
            ) =~= last_segment(cur).add(path@.subrange(k as int, n as int)));
        }
        k = k - 1;
    }
    proof {
        let cur = path@.subrange(0, k as int);
        assert(last_segment(cur) =~= Seq::<char>::empty()) by {
            if k > 0 {
                assert(cur.last() == path@[k - 1]);
            }
        }
        assert(last_segment(path@) =~= path@.subrange(k as int, n as int));
    }
    let seg_len = n - k;
    if seg_len >= 2 && is_char_at(path, n - 2, '.') && is_char_at(path, n - 1, 'm') {
        let r = path.substring_char(k, n - 2).to_owned();
        proof {
            assert(r@ =~= strip_m_suffix(last_segment(path@)));
        }
        r
    } else {
        let r = path.substring_char(k, n).to_owned();
        proof {
            assert(r@ =~= strip_m_suffix(last_segment(path@)));
        }
        r
    }
}

/// Whether the character at `j` is a slash.
fn is_slash_at(s: &str, j: usize) -> (r: bool)
    requires
        j < s@.len(),
    ensures
        r == (s@[j as int] == '/'),
{
    s.get_char(j) == '/'
}

/// Whether the character at `j` is `c`.
fn is_char_at(s: &str, j: usize, c: char) -> (r: bool)
    requires
        j < s@.len(),
    ensures
        r == (s@[j as int] == c),
{
    s.get_char(j) == c
}

/// The contents with a final newline added when absent.
pub fn ensure_trailing_newline(s: String) -> (r: String)
    ensures
        r@ == if s@.len() > 0 && s@.last() == '\n' {
            s@
        } else {
            s@.push('\n')
        },
{
    let ghost s0 = s@;
    let n = s.as_str().unicode_len();
    if n > 0 && is_char_at(s.as_str(), n - 1, '\n') {
        s
    } else {
        let mut r = s;
        r.append("\n");
        proof {
            reveal_strlit("\n");
            assert(r@ =~= s0.push('\n'));
        }
        r
    }
}

/// The file path a `file://` URI names: the prefix stripped; any
/// other text is kept whole.
pub fn uri_to_path(uri: &str) -> (r: String)
    ensures
        r@ == if crate::ident::spec_starts_with(uri@, "file://"@) {
            uri@.skip("file://"@.len() as int)
        } else {
            uri@
        },
{
    proof {
        reveal_strlit("file://");
    }
    if crate::ident::str_starts_with(uri, "file://") {
        let n = uri.unicode_len();
        let r = uri.substring_char(7, n).to_owned();
        proof {
            assert(r@ =~= uri@.skip("file://"@.len() as int));
        }
        r
    } else {
        uri.to_owned()
    }
}

/// Whether `x` names one of the given root folders.
pub open spec fn names_a_root(lib: Seq<String>, ws: Seq<String>, x: String) -> bool {
    exists|j: int| 0 <= j < (lib + ws).len() && x@ == (#[trigger] (lib + ws)[j])@
}

/// The session's scan roots: library folders from the arguments and
/// the workspace folders from the editor.
pub struct SessionState {
    pub lib_path: Vec<String>,
    pub ws_path: Vec<String>,
}

impl SessionState {
    /// The folders a full scan walks: the library and workspace
    /// roots together, sorted with duplicates dropped.
    pub fn full_scan_path(&self) -> (r: Vec<String>)
        ensures
            crate::order::strictly_sorted(r@),
            forall|x: String|
                #[trigger] (self.lib_path@ + self.ws_path@).contains(x) ==> exists|i: int|
                    0 <= i < r@.len() && (#[trigger] r@[i])@ == x@,
            forall|i: int|
                0 <= i < r@.len() ==> names_a_root(self.lib_path@, self.ws_path@, #[trigger] r@[i]),
    {
        let mut all: Vec<String> = Vec::new();
        let nl = self.lib_path.len();
        let mut i: usize = 0;
        while i < nl
            invariant
                nl == self.lib_path@.len(),
                i <= nl,
                all@.len() == i,
                forall|j: int| 0 <= j < i ==> (#[trigger] all@[j]) == self.lib_path@[j],
            decreases nl - i,
        {
            all.push(self.lib_path[i].clone());
            i = i + 1;
        }
        let nw = self.ws_path.len();
        let mut j: usize = 0;
        while j < nw
            invariant
                nl == self.lib_path@.len(),
                nw == self.ws_path@.len(),
                j <= nw,
                all@.len() == nl + j,
                forall|k: int| 0 <= k < nl ==> (#[trigger] all@[k]) == self.lib_path@[k],
                forall|k: int|
                    nl <= k < nl + j ==> (#[trigger] all@[k]) == self.ws_path@[k - nl],
            decreases nw - j,
        {
            all.push(self.ws_path[j].clone());
            j = j + 1;
        }
        proof {
            assert(all@ =~= self.lib_path@ + self.ws_path@);
        }
        let ghost allg = all@;
        let r = crate::order::sort_dedup_strings(all);
        proof {
            assert forall|i: int| 0 <= i < r@.len() implies names_a_root(
                self.lib_path@,
                self.ws_path@,
                #[trigger] r@[i],
            ) by {
                assert(allg.contains(r@[i]));
                let j = choose|j: int| 0 <= j < allg.len() && allg[j] == r@[i];
                assert((self.lib_path@ + self.ws_path@)[j]@ == r@[i]@);
            }
        }
        r
    }
}

} // verus!
