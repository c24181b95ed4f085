//! Lexicographic order on strings (by character code), with sorted,
//! duplicate-free insertion.

use vstd::prelude::*;

use vstd::string::StrSliceExecFns;

verus! {

/// Lexicographic order on character sequences, from position `i`.
pub open spec fn lex_le_from(a: Seq<char>, b: Seq<char>, i: int) -> bool
    decreases a.len() - i,
{
    if i < 0 || i >= a.len() {
        true
    } else if i >= b.len() {
        false
    } else if (a[i] as u32) < (b[i] as u32) {
        true
    } else if (a[i] as u32) > (b[i] as u32) {
        false
    } else {
        lex_le_from(a, b, i + 1)
    }
}

/// `a` is at or before `b` in lexicographic order.
pub open spec fn lex_le(a: Seq<char>, b: Seq<char>) -> bool {
    lex_le_from(a, b, 0)
}

/// The order is total.
pub proof fn lemma_lex_total(a: Seq<char>, b: Seq<char>, i: int)
    ensures
        lex_le_from(a, b, i) || lex_le_from(b, a, i),
    decreases a.len() - i,
{
    if i < 0 || i >= a.len() || i >= b.len() {
    } else if (a[i] as u32) != (b[i] as u32) {
    } else {
        lemma_lex_total(a, b, i + 1);
    }
}

/// The order is antisymmetric.
pub proof fn lemma_lex_antisym(a: Seq<char>, b: Seq<char>, i: int)
    requires
        0 <= i <= a.len(),
        0 <= i <= b.len(),
        a.subrange(0, i) == b.subrange(0, i),
        lex_le_from(a, b, i),
        lex_le_from(b, a, i),
    ensures
        a == b,
    decreases a.len() - i,
{
    if i >= a.len() {
        if i >= b.len() {
            assert(a.subrange(0, i) =~= a);
            assert(b.subrange(0, i) =~= b);
        } else {
            assert(!lex_le_from(b, a, i));
        }
    } else if i >= b.len() {
        assert(!lex_le_from(a, b, i));
    } else if (a[i] as u32) == (b[i] as u32) {
        assert(a[i] == b[i]) by {
            vstd::utf8::char_u32_cast(a[i], a[i] as u32);
            vstd::utf8::char_u32_cast(b[i], b[i] as u32);
        }
        assert(a.subrange(0, i + 1) =~= b.subrange(0, i + 1));
        lemma_lex_antisym(a, b, i + 1);
    }
}

/// The order is transitive.
pub proof fn lemma_lex_trans(a: Seq<char>, b: Seq<char>, c: Seq<char>, i: int)
    requires
        lex_le_from(a, b, i),
        lex_le_from(b, c, i),
    ensures
        lex_le_from(a, c, i),
    decreases a.len() - i,
{
    if i < 0 || i >= a.len() {
    } else if i >= b.len() {
    } else if i >= c.len() {
    } else if (a[i] as u32) < (b[i] as u32) {
        if (b[i] as u32) <= (c[i] as u32) {
        }
    } else if (a[i] as u32) == (b[i] as u32) {
        if (b[i] as u32) < (c[i] as u32) {
        } else if (b[i] as u32) == (c[i] as u32) {
            lemma_lex_trans(a, b, c, i + 1);
        }
    }
}

/// Decides `lex_le` on string slices.
pub fn str_lex_le(a: &str, b: &str) -> (r: bool)
    ensures
        r == lex_le(a@, b@),
{
    let na = a.unicode_len();
    let nb = b.unicode_len();
    let mut i: usize = 0;
    loop
        invariant
            na == a@.len(),
            nb == b@.len(),
            i <= na,
            lex_le(a@, b@) == lex_le_from(a@, b@, i as int),
        decreases na - i,
    {
        if i >= na {
            return true;
        }
        if i >= nb {
            return false;
        }
        let ca = a.get_char(i) as u32;
        let cb = b.get_char(i) as u32;
        if ca < cb {
            return true;
        }
        if ca > cb {
            return false;
        }
        i = i + 1;
    }
}

/// A string vector in strictly increasing order.
pub open spec fn strictly_sorted(v: Seq<String>) -> bool {
    forall|i: int, j: int|
        0 <= i < j < v.len() ==> lex_le((#[trigger] v[i])@, (#[trigger] v[j])@) && (
        #[trigger] v[i])@ != (#[trigger] v[j])@
}

/// Inserts `s` into the strictly sorted `v`, keeping it strictly
/// sorted; a string already present is dropped.
pub fn sorted_insert(v: &mut Vec<String>, s: String)
    requires
        strictly_sorted(old(v)@),
    ensures
        strictly_sorted(final(v)@),
        final(v)@.contains(s) || exists|i: int|
            0 <= i < final(v)@.len() && (#[trigger] final(v)@[i])@ == s@,
        forall|x: String| #[trigger] old(v)@.contains(x) ==> exists|i: int|
            0 <= i < final(v)@.len() && (#[trigger] final(v)@[i])@ == x@,
        forall|i: int|
            0 <= i < final(v)@.len() ==> (#[trigger] final(v)@[i]) == s || old(v)@.contains(
                final(v)@[i],
            ),
{
    let ghost v0 = v@;
    let n = v.len();
    let mut k: usize = 0;
    while k < n && str_lex_le(v[k].as_str(), s.as_str()) && !crate::ident::str_eq(
        v[k].as_str(),
        s.as_str(),
    )
        invariant
            v@ == v0,
            n == v0.len(),
            k <= n,
            forall|i: int|
                0 <= i < k ==> lex_le((#[trigger] v0[i])@, s@) && (#[trigger] v0[i])@ != s@,
        decreases n - k,
    {
        k = k + 1;
    }
    if k < n && crate::ident::str_eq(v[k].as_str(), s.as_str()) {
        // already present
        proof {
            assert(v@[k as int]@ == s@);
        }
        return ;
    }
    proof {
        if k < n {
            assert(!(lex_le(v0[k as int]@, s@) && v0[k as int]@ != s@));
            lemma_lex_total(v0[k as int]@, s@, 0);
            assert(lex_le(s@, v0[k as int]@));
        }
    }
    v.insert(k, s);
    proof {
        assert(v@ =~= v0.subrange(0, k as int).push(s) + v0.subrange(k as int, v0.len() as int));
        assert forall|i: int, j: int| 0 <= i < j < v@.len() implies lex_le(
            (#[trigger] v@[i])@,
            (#[trigger] v@[j])@,
        ) && (#[trigger] v@[i])@ != (#[trigger] v@[j])@ by {
            let vi = v@[i];
            let vj = v@[j];
            if i < k && j < k {
                assert(vi == v0[i] && vj == v0[j]);
            } else if i < k && j == k {
                assert(vi == v0[i] && vj == s);
            } else if i < k && j > k {
                assert(vi == v0[i] && vj == v0[j - 1]);
                assert(lex_le(vi@, vj@) && vi@ != vj@) by {
                    assert(lex_le(v0[i]@, v0[j - 1]@) && v0[i]@ != v0[j - 1]@);
                }
            } else if i == k && j > k {
                assert(vi == s && vj == v0[j - 1]);
                assert(lex_le(s@, v0[k as int]@));
                assert(lex_le(v0[k as int]@, v0[j - 1]@) || k as int == j - 1);
                assert(lex_le(s@, v0[j - 1]@)) by {
                    if k as int != j - 1 {
                        lemma_lex_trans(s@, v0[k as int]@, v0[j - 1]@, 0);
                    }
                }
                assert(s@ != v0[j - 1]@) by {
                    if s@ == v0[j - 1]@ {
                        if k as int == j - 1 {
                            assert(v0[k as int]@ == s@);
                            assert(false);
                        } else {
                            assert(lex_le(v0[k as int]@, v0[j - 1]@) && v0[k as int]@ != v0[j
                                - 1]@);
                            assert(lex_le(v0[j - 1]@, v0[k as int]@)) by {
                                assert(lex_le(v0[j - 1]@, s@) || lex_le(s@, v0[j - 1]@)) by {
                                    lemma_lex_total(v0[j - 1]@, s@, 0);
                                }
                                assert(lex_le(s@, v0[k as int]@));
                                lemma_lex_trans(v0[j - 1]@, s@, v0[k as int]@, 0);
                            }
                            lemma_lex_antisym(
                                v0[k as int]@,
                                v0[j - 1]@,
                                0,
                            );
                            assert(false);
                        }
                    }
                }
            } else {
                assert(vi == v0[i - 1] && vj == v0[j - 1]);
            }
        }
        assert(v@[k as int] == s);
        assert forall|x: String| #[trigger] v0.contains(x) implies exists|i: int|
            0 <= i < v@.len() && (#[trigger] v@[i])@ == x@ by {
            let i0 = choose|i0: int| 0 <= i0 < v0.len() && v0[i0] == x;
            if i0 < k {
                assert(v@[i0]@ == x@);
            } else {
                assert(v@[i0 + 1]@ == x@);
            }
        }
        assert forall|i: int| 0 <= i < v@.len() implies (#[trigger] v@[i]) == s || v0.contains(
            v@[i],
        ) by {
            if i < k {
                assert(v@[i] == v0[i]);
            } else if i > k {
                assert(v@[i] == v0[i - 1]);
            }
        }
    }
}

/// Sorts the strings and drops duplicates: the result is strictly
/// increasing and holds exactly the distinct inputs.
pub fn sort_dedup_strings(v: Vec<String>) -> (r: Vec<String>)
    ensures
        strictly_sorted(r@),
        forall|x: String| #[trigger] v@.contains(x) ==> exists|i: int|
            0 <= i < r@.len() && (#[trigger] r@[i])@ == x@,
        forall|i: int| 0 <= i < r@.len() ==> v@.contains(#[trigger] r@[i]),
{
    let mut r: Vec<String> = Vec::new();
    let n = v.len();
    let mut i: usize = 0;
    while i < n
        invariant
            n == v@.len(),
            i <= n,
            strictly_sorted(r@),
            forall|x: String| #[trigger] v@.subrange(0, i as int).contains(x) ==> exists|j: int|
                0 <= j < r@.len() && (#[trigger] r@[j])@ == x@,
            forall|j: int| 0 <= j < r@.len() ==> v@.contains(#[trigger] r@[j]),
        decreases n - i,
    {
        let ghost r0 = r@;
        let s = v[i].clone();
        proof {
            assert(v@[i as int] == s);
        }
        sorted_insert(&mut r, s);
        proof {
            assert forall|x: String| #[trigger] v@.subrange(0, (i + 1) as int).contains(x) implies exists|
                j: int,
            | 0 <= j < r@.len() && (#[trigger] r@[j])@ == x@ by {
                let j0 = choose|j0: int|
                    0 <= j0 < (i + 1) && #[trigger] v@.subrange(0, (i + 1) as int)[j0] == x;
                if j0 < i {
                    assert(v@.subrange(0, i as int).contains(x)) by {
                        assert(v@.subrange(0, i as int)[j0] == x);
                    }
                    let j1 = choose|j1: int| 0 <= j1 < r0.len() && (#[trigger] r0[j1])@ == x@;
                    assert(r0.contains(r0[j1]));
                    let j2 = choose|j2: int| 0 <= j2 < r@.len() && (#[trigger] r@[j2])@ == r0[j1]@;
                    assert(r@[j2]@ == x@);
                } else {
                    assert(x == v@[i as int]);
                }
            }
            assert forall|j: int| 0 <= j < r@.len() implies v@.contains(#[trigger] r@[j]) by {
                if r@[j] == v@[i as int] {
                    assert(v@.contains(v@[i as int]));
                } else {
                    assert(r0.contains(r@[j]));
                }
            }
        }
        i = i + 1;
    }
    proof {
        assert(v@.subrange(0, n as int) =~= v@);
    }
    r
}

} // verus!
