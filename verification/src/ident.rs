//! Identifier validity, ASCII case folding, and the anchored `*`
//! wildcard patterns accepted by `clear`/`clearvars`.
//!
//! Wildcard patterns honour `*` alone; every other character matches
//! itself literally.

use vstd::prelude::*;
use vstd::string::StrSliceExecFns;

verus! {

/// Equality of two string slices, by their character sequences.
pub fn str_eq(a: &str, b: &str) -> (r: bool)
    ensures
        r == (a@ == b@),
{
    let sa: String = a.to_owned();
    let sb: String = b.to_owned();
    sa == sb
}

/// Whether `a` starts with the prefix `b`.
pub open spec fn spec_starts_with(a: Seq<char>, b: Seq<char>) -> bool {
    a.len() >= b.len() && a.subrange(0, b.len() as int) == b
}

/// Decides `spec_starts_with` on two string slices.
pub fn str_starts_with(a: &str, b: &str) -> (r: bool)
    ensures
        r == spec_starts_with(a@, b@),
{
    let na = a.unicode_len();
    let nb = b.unicode_len();
    if na < nb {
        return false;
    }
    let mut i: usize = 0;
    while i < nb
        invariant
            0 <= i <= nb,
            na == a@.len(),
            nb == b@.len(),
            nb <= na,
            forall|j: int| 0 <= j < i ==> a@[j] == b@[j],
        decreases nb - i,
    {
        if a.get_char(i) != b.get_char(i) {
            assert(a@.subrange(0, nb as int)[i as int] != b@[i as int]);
            return false;
        }
        i = i + 1;
    }
    proof {
        assert(a@.subrange(0, nb as int) =~= b@);
    }
    true
}

/// Whether the character `c` occurs in `s`.
pub fn str_contains_char(s: &str, c: char) -> (r: bool)
    ensures
        r == s@.contains(c),
{
    let n = s.unicode_len();
    let mut i: usize = 0;
    while i < n
        invariant
            0 <= i <= n,
            n == s@.len(),
            forall|j: int| 0 <= j < i ==> s@[j] != c,
        decreases n - i,
    {
        if s.get_char(i) == c {
            assert(s@[i as int] == c);
            return true;
        }
        i = i + 1;
    }
    proof {
        assert forall|j: int| 0 <= j < s@.len() implies s@[j] != c by {}
    }
    false
}

/// Whether `c` may start a MATLAB identifier: a letter or `_`.
pub open spec fn is_ident_start(c: char) -> bool {
    (97 <= c as u32 <= 122) || (65 <= c as u32 <= 90) || c as u32 == 95
}

/// Whether `c` may continue a MATLAB identifier: a letter, digit or `_`.
pub open spec fn is_ident_char(c: char) -> bool {
    is_ident_start(c) || (48 <= c as u32 <= 57)
}

/// A valid identifier: non-empty, a letter or `_` first, letters,
/// digits and `_` afterwards.
pub open spec fn is_valid_ident(s: Seq<char>) -> bool {
    s.len() > 0 && is_ident_start(s[0]) && (forall|i: int|
        1 <= i < s.len() ==> is_ident_char(#[trigger] s[i]))
}

/// Decides `is_valid_ident` on a string slice.
pub fn is_valid_identifier(s: &str) -> (r: bool)
    ensures
        r == is_valid_ident(s@),
{
    let n = s.unicode_len();
    if n == 0 {
        return false;
    }
    let c0 = s.get_char(0);
    let u0 = c0 as u32;
    if !((97 <= u0 && u0 <= 122) || (65 <= u0 && u0 <= 90) || u0 == 95) {
        return false;
    }
    let mut i: usize = 1;
    while i < n
        invariant
            1 <= i <= n,
            n == s@.len(),
            is_ident_start(s@[0]),
            forall|j: int| 1 <= j < i ==> is_ident_char(#[trigger] s@[j]),
        decreases n - i,
    {
        let c = s.get_char(i);
        let u = c as u32;
        if !((97 <= u && u <= 122) || (65 <= u && u <= 90) || u == 95 || (48 <= u && u <= 57)) {
            return false;
        }
        i = i + 1;
    }
    true
}

/// ASCII lower-casing of a single character code.
pub open spec fn lower_code(u: u32) -> u32 {
    if 65 <= u <= 90 {
        (u + 32) as u32
    } else {
        u
    }
}

/// Equality of two character sequences under ASCII case folding.
pub open spec fn eq_ignore_ascii_case(a: Seq<char>, b: Seq<char>) -> bool {
    a.len() == b.len() && (forall|i: int|
        0 <= i < a.len() ==> lower_code(#[trigger] a[i] as u32) == lower_code(b[i] as u32))
}

/// Decides `eq_ignore_ascii_case` on two string slices.
pub fn str_eq_ignore_case(a: &str, b: &str) -> (r: bool)
    ensures
        r == eq_ignore_ascii_case(a@, b@),
{
    let na = a.unicode_len();
    let nb = b.unicode_len();
    if na != nb {
        return false;
    }
    let mut i: usize = 0;
    while i < na
        invariant
            0 <= i <= na,
            na == a@.len(),
            na == b@.len(),
            forall|j: int|
                0 <= j < i ==> lower_code(#[trigger] a@[j] as u32) == lower_code(b@[j] as u32),
        decreases na - i,
    {
        let ca = a.get_char(i) as u32;
        let cb = b.get_char(i) as u32;
        let la = if 65 <= ca && ca <= 90 {
            ca + 32
        } else {
            ca
        };
        let lb = if 65 <= cb && cb <= 90 {
            cb + 32
        } else {
            cb
        };
        if la != lb {
            return false;
        }
        i = i + 1;
    }
    true
}

/// Anchored wildcard match: `*` matches any (possibly empty) run of
/// characters, every other pattern character matches itself.
pub open spec fn glob_match(p: Seq<char>, s: Seq<char>) -> bool
    decreases p.len() + s.len(),
{
    if p.len() == 0 {
        s.len() == 0
    } else if p[0] == '*' {
        glob_match(p.skip(1), s) || (s.len() > 0 && glob_match(p, s.skip(1)))
    } else {
        s.len() > 0 && p[0] == s[0] && glob_match(p.skip(1), s.skip(1))
    }
}

fn glob_match_from(p: &str, s: &str, pi: usize, si: usize) -> (r: bool)
    requires
        pi <= p@.len(),
        si <= s@.len(),
    ensures
        r == glob_match(p@.skip(pi as int), s@.skip(si as int)),
    decreases p@.len() - pi + s@.len() - si,
{
    let np = p.unicode_len();
    let ns = s.unicode_len();
    if pi == np {
        return si == ns;
    }
    let pc = p.get_char(pi);
    assert(p@.skip(pi as int)[0] == p@[pi as int]);
    if pc == '*' {
        assert(p@.skip(pi as int).skip(1) =~= p@.skip(pi as int + 1));
        if glob_match_from(p, s, pi + 1, si) {
            return true;
        }
        if si < ns {
            assert(s@.skip(si as int).skip(1) =~= s@.skip(si as int + 1));
            return glob_match_from(p, s, pi, si + 1);
        }
        return false;
    }
    if si == ns {
        return false;
    }
    let sc = s.get_char(si);
    assert(s@.skip(si as int)[0] == s@[si as int]);
    if pc != sc {
        return false;
    }
    assert(p@.skip(pi as int).skip(1) =~= p@.skip(pi as int + 1));
    assert(s@.skip(si as int).skip(1) =~= s@.skip(si as int + 1));
    glob_match_from(p, s, pi + 1, si + 1)
}

/// Decides `glob_match` on a whole pattern and subject.
pub fn glob_matches(p: &str, s: &str) -> (r: bool)
    ensures
        r == glob_match(p@, s@),
{
    let r = glob_match_from(p, s, 0, 0);
    proof {
        assert(p@.skip(0) =~= p@);
        assert(s@.skip(0) =~= s@);
    }
    r
}

} // verus!
