//! Stable extraction order: the subjects of one extraction pass are sorted
//! by IRI and deduplicated before processing, so the pipeline's output does
//! not depend on the store's enumeration order.

use vstd::prelude::*;
use vstd::string::*;

use crate::text::{lemma_lex_antisym, lemma_lex_total, lemma_lex_trans, lex_le, str_lex_le};

verus! {

/// The views of a sequence of strings.
pub open spec fn views_of(v: Seq<String>) -> Seq<Seq<char>> {
    v.map_values(|s: String| s@)
}

/// Strictly ascending in the lexicographic order: sorted, no duplicates.
pub open spec fn sorted_strict(v: Seq<Seq<char>>) -> bool {
    forall|i: int, j: int|
        0 <= i < j < v.len() ==> lex_le(#[trigger] v[i], #[trigger] v[j]) && v[i] != v[j]
}

/// Extending a prefix of a sequence by one element extends its element set.
pub(crate) proof fn lemma_take_set_step<A>(s: Seq<A>, i: int)
    requires
        0 <= i < s.len(),
    ensures
        s.take(i + 1).to_set() =~= s.take(i).to_set().insert(s[i]),
{
    assert forall|e: A| s.take(i + 1).to_set().contains(e) implies s.take(i).to_set().insert(
        s[i],
    ).contains(e) by {
        let k = choose|k: int| 0 <= k < s.take(i + 1).len() && #[trigger] s.take(i + 1)[k] == e;
        if k < i {
            assert(s.take(i)[k] == e);
            assert(s.take(i).contains(e));
        } else {
            assert(e == s[i]);
        }
    }
    assert forall|e: A| s.take(i).to_set().insert(s[i]).contains(e) implies s.take(
        i + 1,
    ).to_set().contains(e) by {
        if e == s[i] {
            assert(s.take(i + 1)[i] == e);
            assert(s.take(i + 1).contains(e));
        } else {
            let k = choose|k: int| 0 <= k < s.take(i).len() && #[trigger] s.take(i)[k] == e;
            assert(s.take(i + 1)[k] == e);
            assert(s.take(i + 1).contains(e));
        }
    }
}

/// Finds where `x` stands, or belongs, in a strictly sorted vector: the
/// index of `x` where it is present, else its insertion slot.
fn find_slot(v: &Vec<String>, x: &String) -> (r: (usize, bool))
    requires
        sorted_strict(views_of(v@)),
    ensures
        r.0 <= v@.len(),
        r.1 ==> r.0 < v@.len() && views_of(v@)[r.0 as int] == x@,
        !r.1 ==> forall|i: int|
            0 <= i < r.0 ==> lex_le(#[trigger] views_of(v@)[i], x@) && views_of(v@)[i] != x@,
        !r.1 && r.0 < v@.len() ==> lex_le(x@, views_of(v@)[r.0 as int]) && x@ != views_of(
            v@,
        )[r.0 as int],
{
    let ghost w = views_of(v@);
    let mut p: usize = 0;
    while p < v.len()
        invariant
            w == views_of(v@),
            sorted_strict(w),
            p <= v.len(),
            forall|i: int| 0 <= i < p ==> lex_le(#[trigger] w[i], x@) && w[i] != x@,
        decreases v.len() - p,
    {
        let le_vx = str_lex_le(v[p].as_str(), x.as_str());
        let le_xv = str_lex_le(x.as_str(), v[p].as_str());
        assert(w[p as int] == v@[p as int]@);
        if le_vx && le_xv {
            proof {
                lemma_lex_antisym(v@[p as int]@, x@);
            }
            return (p, true);
        }
        if !le_vx {
            proof {
                lemma_lex_total(v@[p as int]@, x@);
            }
            return (p, false);
        }
        proof {
            if v@[p as int]@ == x@ {
                lemma_lex_total(x@, x@);
                assert(le_xv);
                assert(false);
            }
        }
        p = p + 1;
    }
    (p, false)
}

/// Pushing one element extends a sequence's element set by it.
pub(crate) proof fn lemma_push_set<A>(s: Seq<A>, x: A)
    ensures
        s.push(x).to_set() =~= s.to_set().insert(x),
{
    assert forall|e: A| s.push(x).to_set().contains(e) implies s.to_set().insert(x).contains(
        e,
    ) by {
        let k = choose|k: int| 0 <= k < s.push(x).len() && #[trigger] s.push(x)[k] == e;
        if k < s.len() {
            assert(s[k] == e);
            assert(s.contains(e));
        } else {
            assert(e == x);
        }
    }
    assert forall|e: A| s.to_set().insert(x).contains(e) implies s.push(x).to_set().contains(
        e,
    ) by {
        if e == x {
            assert(s.push(x)[s.len() as int] == e);
            assert(s.push(x).contains(e));
        } else {
            let k = choose|k: int| 0 <= k < s.len() && #[trigger] s[k] == e;
            assert(s.push(x)[k] == e);
            assert(s.push(x).contains(e));
        }
    }
}

/// Inserts `x` into a strictly sorted vector, keeping it strictly sorted; a
/// string already present is not added again.
fn insert_unique_sorted(v: &mut Vec<String>, x: String)
    requires
        sorted_strict(views_of(old(v)@)),
    ensures
        sorted_strict(views_of(final(v)@)),
        views_of(final(v)@).to_set() =~= views_of(old(v)@).to_set().insert(x@),
{
    let ghost w = views_of(old(v)@);
    let (p, present) = find_slot(v, &x);
    if present {
        proof {
            assert(w.contains(x@));
            assert(views_of(v@).to_set() =~= views_of(v@).to_set().insert(x@));
        }
        return ;
    }
    // Here every view before `p` is strictly below `x`, and, if `p` is not
    // the end, `x` is strictly below the view at `p`.
    assert(forall|i: int| 0 <= i < p ==> lex_le(#[trigger] w[i], x@) && w[i] != x@);
    assert(p < v.len() ==> lex_le(x@, w[p as int]) && x@ != w[p as int]);
    let ghost px = p as int;
    v.insert(p, x);
    let ghost u = views_of(v@);
    proof {
        assert(u.len() == w.len() + 1);
        assert(forall|k: int| 0 <= k < px ==> u[k] == w[k]);
        assert(u[px] == x@);
        assert(forall|k: int| px < k < u.len() ==> u[k] == w[k - 1]);
        assert forall|i: int, j: int| 0 <= i < j < u.len() implies lex_le(#[trigger] u[i], #[trigger] u[j])
            && u[i] != u[j] by {
            if j < px {
            } else if j == px {
                assert(u[i] == w[i]);
            } else if i == px {
                if j - 1 > px {
                    lemma_lex_trans(x@, w[px], w[j - 1]);
                    if x@ == w[j - 1] {
                        lemma_lex_antisym(w[px], w[j - 1]);
                        assert(false);
                    }
                }
            } else if i < px {
                if j - 1 == i {
                    lemma_lex_trans(w[i], x@, w[j - 1]);
                } else {
                }
                if px < v@.len() - 1 {
                }
                assert(u[j] == w[j - 1]);
                if i == j - 1 {
                    lemma_lex_trans(w[i], x@, w[j - 1]);
                    assert(false);
                }
            } else {
            }
        }
        assert forall|e: Seq<char>| u.to_set().contains(e) implies w.to_set().insert(x@).contains(
            e,
        ) by {
            let k = choose|k: int| 0 <= k < u.len() && #[trigger] u[k] == e;
            if k < px {
                assert(w[k] == e);
                assert(w.contains(e));
            } else if k == px {
            } else {
                assert(w[k - 1] == e);
                assert(w.contains(e));
            }
        }
        assert forall|e: Seq<char>| w.to_set().insert(x@).contains(e) implies u.to_set().contains(
            e,
        ) by {
            if e == x@ {
                assert(u[px] == e);
                assert(u.contains(e));
            } else {
                let k = choose|k: int| 0 <= k < w.len() && #[trigger] w[k] == e;
                if k < px {
                    assert(u[k] == e);
                } else {
                    assert(u[k + 1] == e);
                }
                assert(u.contains(e));
            }
        }
    }
}

/// Sorts a batch of strings ascending by the lexicographic order and drops
/// duplicates; the result carries exactly the element set of the input.
pub fn sort_unique(items: Vec<String>) -> (r: Vec<String>)
    ensures
        sorted_strict(views_of(r@)),
        views_of(r@).to_set() =~= views_of(items@).to_set(),
{
    let ghost w = views_of(items@);
    let mut out: Vec<String> = Vec::new();
    let mut i: usize = 0;
    proof {
        assert(views_of(out@).to_set() =~= w.take(0).to_set());
    }
    while i < items.len()
        invariant
            w == views_of(items@),
            i <= items.len(),
            sorted_strict(views_of(out@)),
            views_of(out@).to_set() =~= w.take(i as int).to_set(),
        decreases items.len() - i,
    {
        let x = items[i].clone();
        assert(x@ == w[i as int]);
        insert_unique_sorted(&mut out, x);
        proof {
            lemma_take_set_step(w, i as int);
        }
        i = i + 1;
    }
    proof {
        assert(w.take(items@.len() as int) =~= w);
    }
    out
}

/// The stable order is unique: two strictly sorted sequences carrying the
/// same element set are the same sequence. This is what makes the pipeline's
/// output independent of the store's enumeration order.
pub proof fn lemma_sorted_unique(a: Seq<Seq<char>>, b: Seq<Seq<char>>)
    requires
        sorted_strict(a),
        sorted_strict(b),
        a.to_set() =~= b.to_set(),
    ensures
        a == b,
    decreases a.len(),
{
    if a.len() == 0 {
        if b.len() > 0 {
            assert(b.contains(b[0]));
            assert(b.to_set().contains(b[0]));
            assert(a.to_set().contains(b[0]));
            assert(false);
        }
        assert(a =~= b);
    } else {
        assert(a.contains(a[0]));
        assert(a.to_set().contains(a[0]));
        assert(b.to_set().contains(a[0]));
        let j = choose|j: int| 0 <= j < b.len() && #[trigger] b[j] == a[0];
        assert(b.contains(b[0]));
        assert(b.to_set().contains(b[0]));
        assert(a.to_set().contains(b[0]));
        let i = choose|i: int| 0 <= i < a.len() && #[trigger] a[i] == b[0];
        // The heads are equal: each is bounded by the other.
        if j > 0 {
            assert(lex_le(b[0], b[j]));
        } else {
            lemma_lex_total(b[0], b[0]);
        }
        if i > 0 {
            assert(lex_le(a[0], a[i]));
        } else {
            lemma_lex_total(a[0], a[0]);
        }
        lemma_lex_antisym(a[0], b[0]);
        // The tails carry the same set: the head is in neither tail.
        assert forall|e: Seq<char>| a.skip(1).to_set().contains(e) implies b.skip(
            1,
        ).to_set().contains(e) by {
            lemma_head_not_in_tail(a, b, e);
        }
        assert forall|e: Seq<char>| b.skip(1).to_set().contains(e) implies a.skip(
            1,
        ).to_set().contains(e) by {
            lemma_head_not_in_tail(b, a, e);
        }
        assert(sorted_strict(a.skip(1))) by {
            assert(forall|i: int, j: int|
                0 <= i < j < a.skip(1).len() ==> #[trigger] a.skip(1)[i] == a[i + 1]
                    && #[trigger] a.skip(1)[j] == a[j + 1]);
        }
        assert(sorted_strict(b.skip(1))) by {
            assert(forall|i: int, j: int|
                0 <= i < j < b.skip(1).len() ==> #[trigger] b.skip(1)[i] == b[i + 1]
                    && #[trigger] b.skip(1)[j] == b[j + 1]);
        }
        lemma_sorted_unique(a.skip(1), b.skip(1));
        assert forall|k: int| 0 <= k < a.len() implies a[k] == b[k] by {
            if k > 0 {
                assert(a.skip(1)[k - 1] == b.skip(1)[k - 1]);
                assert(a.skip(1)[k - 1] == a[k]);
                assert(b.skip(1)[k - 1] == b[k]);
            }
        }
        assert(a =~= b);
    }
}

/// A member of one tail is a member of the other, when the whole sequences
/// are strictly sorted with equal sets and equal heads.
proof fn lemma_head_not_in_tail(a: Seq<Seq<char>>, b: Seq<Seq<char>>, e: Seq<char>)
    requires
        sorted_strict(a),
        sorted_strict(b),
        a.to_set() =~= b.to_set(),
        a.len() > 0,
        b.len() > 0,
        a[0] == b[0],
        a.skip(1).to_set().contains(e),
    ensures
        b.skip(1).to_set().contains(e),
{
    let k = choose|k: int| 0 <= k < a.skip(1).len() && #[trigger] a.skip(1)[k] == e;
    assert(a.skip(1)[k] == a[k + 1]);
    assert(a[k + 1] == e);
    assert(e != a[0]);
    assert(a.contains(e));
    assert(a.to_set().contains(e));
    assert(b.to_set().contains(e));
    let m = choose|m: int| 0 <= m < b.len() && #[trigger] b[m] == e;
    assert(m != 0);
    assert(b.skip(1)[m - 1] == e);
    assert(b.skip(1).contains(e));
}

} // verus!
