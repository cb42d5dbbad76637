//! Placeholder substitution: the index template holds one literal token,
//! and rendering replaces its first occurrence with the listing fragment.

use vstd::prelude::*;

verus! {

/// The literal token in the index template that the listing fragment replaces.
pub open spec fn placeholder() -> Seq<char> {
    "{{maps}}"@
}

/// The pattern `p` occurs in `t` starting at position `i`.
pub open spec fn match_at(t: Seq<char>, p: Seq<char>, i: int) -> bool {
    &&& 0 <= i
    &&& i + p.len() <= t.len()
    &&& t.subrange(i, i + p.len() as int) == p
}

/// The pattern `p` occurs somewhere in `t`.
pub open spec fn has_match(t: Seq<char>, p: Seq<char>) -> bool {
    exists|i: int| match_at(t, p, i)
}

/// `t` with the occurrence of `p` at position `i` replaced by `f`.
pub open spec fn spliced(t: Seq<char>, p: Seq<char>, f: Seq<char>, i: int) -> Seq<char> {
    t.subrange(0, i) + f + t.subrange(i + p.len() as int, t.len() as int)
}

/// The first position at or after `k` where `p` occurs in `t`, or -1 if
/// there is none. An empty pattern is treated as occurring nowhere.
pub open spec fn first_match_from(t: Seq<char>, p: Seq<char>, k: int) -> int
    decreases t.len() - k,
{
    if p.len() == 0 || k + p.len() > t.len() {
        -1
    } else if match_at(t, p, k) {
        k
    } else {
        first_match_from(t, p, k + 1)
    }
}

/// What rendering yields: the first occurrence of `p` in `t` replaced by
/// `f`; a template in which `p` does not occur is unchanged.
pub open spec fn render_spec(t: Seq<char>, p: Seq<char>, f: Seq<char>) -> Seq<char> {
    let i = first_match_from(t, p, 0);
    if i < 0 {
        t
    } else {
        spliced(t, p, f, i)
    }
}

/// What `first_match_from` returns: -1 means `p` occurs nowhere at or after
/// `k`; a nonnegative result is the first occurrence at or after `k`.
pub proof fn lemma_first_match_from_props(t: Seq<char>, p: Seq<char>, k: int)
    requires
        0 <= k,
        p.len() >= 1,
    ensures
        first_match_from(t, p, k) == -1 || first_match_from(t, p, k) >= k,
        first_match_from(t, p, k) == -1 ==> forall|j: int| k <= j ==> !match_at(t, p, j),
        first_match_from(t, p, k) >= 0 ==> match_at(t, p, first_match_from(t, p, k)),
        first_match_from(t, p, k) >= 0 ==> forall|j: int|
            k <= j < first_match_from(t, p, k) ==> !match_at(t, p, j),
    decreases t.len() - k,
{
    if k + p.len() > t.len() {
        assert forall|j: int| k <= j implies !match_at(t, p, j) by {
            assert(j + p.len() > t.len());
        }
    } else if match_at(t, p, k) {
    } else {
        lemma_first_match_from_props(t, p, k + 1);
        let r = first_match_from(t, p, k);
        assert(r == first_match_from(t, p, k + 1));
        if r == -1 {
            assert forall|j: int| k <= j implies !match_at(t, p, j) by {
                if j > k {
                    assert(!match_at(t, p, j));
                }
            }
        } else {
            assert forall|j: int| k <= j < r implies !match_at(t, p, j) by {
                if j > k {
                    assert(!match_at(t, p, j));
                }
            }
        }
    }
}

/// Whether `p` occurs in `t` at position `i`, by comparing characters.
pub(crate) fn is_match_at_exec(t: &str, p: &str, i: usize, n: usize, m: usize) -> (r: bool)
    requires
        n == t@.len(),
        m == p@.len(),
        i + m <= n,
    ensures
        r == match_at(t@, p@, i as int),
{
    let mut j: usize = 0;
    while j < m
        invariant
            n == t@.len(),
            m == p@.len(),
            i + m <= n,
            j <= m,
            forall|q: int| 0 <= q < j ==> t@[i + q] == p@[q],
        decreases m - j,
    {
        if t.get_char(i + j) != p.get_char(j) {
            proof {
                if match_at(t@, p@, i as int) {
                    assert(t@.subrange(i as int, i + m)[j as int] == t@[i + j]);
                }
            }
            return false;
        }
        j += 1;
    }
    proof {
        assert(t@.subrange(i as int, i + m) =~= p@);
    }
    true
}

/// Replace the first occurrence of `pattern` in `template` with `fragment`;
/// a template in which the pattern does not occur comes back unchanged.
pub fn replace_first(template: &str, pattern: &str, fragment: &str) -> (r: String)
    requires
        pattern@.len() >= 1,
    ensures
        r@ == render_spec(template@, pattern@, fragment@),
{
    let n = template.unicode_len();
    let m = pattern.unicode_len();
    if m > n {
        proof {
            lemma_first_match_from_props(template@, pattern@, 0);
            let fm = first_match_from(template@, pattern@, 0);
            if fm >= 0 {
                assert(match_at(template@, pattern@, fm));
            }
        }
        return template.to_owned();
    }
    let mut i: usize = 0;
    while i <= n - m
        invariant
            n == template@.len(),
            m == pattern@.len(),
            1 <= m <= n,
            i <= n - m + 1,
            forall|j: int| 0 <= j < i ==> !match_at(template@, pattern@, j),
        decreases n + 1 - m - i,
    {
        if is_match_at_exec(template, pattern, i, n, m) {
            let head = template.substring_char(0, i);
            let tail = template.substring_char(i + m, n);
            let mut out = head.to_owned();
            out.append(fragment);
            out.append(tail);
            proof {
                lemma_first_match_from_props(template@, pattern@, 0);
                let fm = first_match_from(template@, pattern@, 0);
                if fm == -1 {
                    assert(!match_at(template@, pattern@, i as int));
                } else if fm < i {
                    assert(match_at(template@, pattern@, fm));
                    assert(!match_at(template@, pattern@, fm));
                } else if fm > i {
                    assert(!match_at(template@, pattern@, i as int));
                }
                assert(fm == i);
                assert(out@ =~= spliced(template@, pattern@, fragment@, i as int));
            }
            return out;
        }
        i += 1;
    }
    proof {
        lemma_first_match_from_props(template@, pattern@, 0);
        let fm = first_match_from(template@, pattern@, 0);
        if fm >= 0 {
            assert(match_at(template@, pattern@, fm));
            assert(fm + m <= n);
        }
        assert(fm == -1);
    }
    template.to_owned()
}

/// Render the index document: substitute the first occurrence of the
/// `{{maps}}` placeholder in the template with the listing fragment.
pub fn render_index(template: &str, fragment: &str) -> (r: String)
    ensures
        r@ == render_spec(template@, placeholder(), fragment@),
{
    proof {
        reveal_strlit("{{maps}}");
    }
    replace_first(template, "{{maps}}", fragment)
}

/// Law: a template that holds the pattern exactly once renders to the
/// template with that one occurrence replaced by the fragment — the text
/// before and after the occurrence is carried over unaltered.
pub proof fn lemma_render_unique_occurrence(t: Seq<char>, p: Seq<char>, f: Seq<char>, i: int)
    requires
        p.len() >= 1,
        match_at(t, p, i),
        forall|j: int| match_at(t, p, j) ==> j == i,
    ensures
        render_spec(t, p, f) == spliced(t, p, f, i),
        render_spec(t, p, f).len() == t.len() - p.len() + f.len(),
        render_spec(t, p, f).subrange(0, i) == t.subrange(0, i),
        render_spec(t, p, f).subrange(i, i + f.len() as int) == f,
        render_spec(t, p, f).subrange(i + f.len() as int, render_spec(t, p, f).len() as int)
            == t.subrange(i + p.len() as int, t.len() as int),
{
    lemma_first_match_from_props(t, p, 0);
    let fm = first_match_from(t, p, 0);
    if fm == -1 {
        assert(!match_at(t, p, i));
    } else {
        assert(match_at(t, p, fm));
    }
    assert(fm == i);
    let r = spliced(t, p, f, i);
    assert(r.subrange(0, i) =~= t.subrange(0, i));
    assert(r.subrange(i, i + f.len() as int) =~= f);
    assert(r.subrange(i + f.len() as int, r.len() as int)
        =~= t.subrange(i + p.len() as int, t.len() as int));
}

/// Law: a template in which the pattern does not occur renders unchanged,
/// whatever the fragment — the empty one included.
pub proof fn lemma_render_absent(t: Seq<char>, p: Seq<char>, f: Seq<char>)
    requires
        p.len() >= 1,
        !has_match(t, p),
    ensures
        render_spec(t, p, f) == t,
{
    lemma_first_match_from_props(t, p, 0);
    let fm = first_match_from(t, p, 0);
    if fm >= 0 {
        assert(match_at(t, p, fm));
    }
}

} // verus!
