//! The label resolver: picks the English-tagged literal out of the set of
//! label values attached to one subject.
//!
//! The store hands the values over in no guaranteed order, so the scan order
//! is stabilized: a value that is not a literal makes resolution fail
//! (wherever it stands), and among English-tagged literals the
//! lexicographically least text wins. The outcome therefore depends only on
//! the set of values, never on the order in which the store enumerates them.

use vstd::prelude::*;
use vstd::string::*;

use crate::model::LabelTerm;
use crate::text::{lemma_lex_antisym, lemma_lex_total, lemma_lex_trans, lex_le, str_lex_le};

verus! {

/// Some value of the sequence is not a literal.
pub open spec fn has_non_literal(ls: Seq<LabelTerm>) -> bool {
    exists|i: int| 0 <= i < ls.len() && !(#[trigger] ls[i]).is_literal()
}

/// Some value of the sequence is an English-tagged literal.
pub open spec fn has_en(ls: Seq<LabelTerm>) -> bool {
    exists|i: int| 0 <= i < ls.len() && (#[trigger] ls[i]).is_en()
}

/// `t` is the least text among the English-tagged literals of the sequence.
pub open spec fn is_min_en(ls: Seq<LabelTerm>, t: Seq<char>) -> bool {
    &&& (exists|i: int| 0 <= i < ls.len() && (#[trigger] ls[i]).is_en() && ls[i].text_view() == t)
    &&& (forall|j: int| 0 <= j < ls.len() && (#[trigger] ls[j]).is_en() ==> lex_le(t, ls[j].text_view()))
}

/// The view of an optional label.
pub open spec fn opt_view(r: Option<String>) -> Option<Seq<char>> {
    match r {
        Some(t) => Some(t@),
        None => None,
    }
}

/// Everything label resolution promises: no result where a non-literal value
/// stands in the set or no English-tagged literal does, and otherwise exactly
/// the least English-tagged literal's text, verbatim.
pub open spec fn resolution_post(ls: Seq<LabelTerm>, r: Option<Seq<char>>) -> bool {
    &&& (has_non_literal(ls) ==> r is None)
    &&& (!has_en(ls) ==> r is None)
    &&& (!has_non_literal(ls) && has_en(ls) ==> r is Some)
    &&& (r matches Some(t) ==> !has_non_literal(ls) && is_min_en(ls, t))
}

/// Decides whether a language tag is the English one.
fn is_en_tag(l: &str) -> (r: bool)
    ensures
        r == (l@ == "en"@),
{
    proof {
        reveal_strlit("en");
    }
    let n = l.unicode_len();
    if n != 2 {
        return false;
    }
    let r = l.get_char(0) == 'e' && l.get_char(1) == 'n';
    proof {
        if r {
            assert(l@ =~= "en"@);
        }
    }
    r
}

/// Resolves the English label of one subject from its label values.
pub fn resolve_english_label(labels: &Vec<LabelTerm>) -> (r: Option<String>)
    ensures
        resolution_post(labels@, opt_view(r)),
{
    let mut best: Option<String> = None;
    let mut j: usize = 0;
    while j < labels.len()
        invariant
            j <= labels.len(),
            forall|m: int| 0 <= m < j ==> (#[trigger] labels@[m]).is_literal(),
            match best {
                Some(b) => {
                    &&& (exists|m: int|
                        0 <= m < j && (#[trigger] labels@[m]).is_en() && labels@[m].text_view()
                            == b@)
                    &&& (forall|m: int|
                        0 <= m < j && (#[trigger] labels@[m]).is_en() ==> lex_le(
                            b@,
                            labels@[m].text_view(),
                        ))
                },
                None => forall|m: int| 0 <= m < j ==> !(#[trigger] labels@[m]).is_en(),
            },
        decreases labels.len() - j,
    {
        match &labels[j] {
            LabelTerm::Literal { text, lang } => {
                let en = match lang {
                    Some(l) => is_en_tag(l.as_str()),
                    None => false,
                };
                assert(en == labels@[j as int].is_en());
                if en {
                    assert(labels@[j as int].text_view() == text@);
                    best = match best {
                        None => {
                            proof {
                                lemma_lex_total(text@, text@);
                            }
                            Some(text.clone())
                        },
                        Some(b) => {
                            if str_lex_le(text.as_str(), b.as_str()) {
                                proof {
                                    assert forall|m: int|
                                        0 <= m < j + 1 && (#[trigger] labels@[m]).is_en() implies lex_le(
                                        text@,
                                        labels@[m].text_view(),
                                    ) by {
                                        if m < j {
                                            lemma_lex_trans(text@, b@, labels@[m].text_view());
                                        } else {
                                            assert(lex_le(text@, text@)) by {
                                                lemma_lex_total(text@, text@);
                                            }
                                        }
                                    }
                                }
                                Some(text.clone())
                            } else {
                                proof {
                                    lemma_lex_total(text@, b@);
                                }
                                Some(b)
                            }
                        },
                    };
                } else {
                    assert(!labels@[j as int].is_en());
                }
            },
            LabelTerm::NonLiteral => {
                assert(!labels@[j as int].is_literal());
                return None;
            },
        }
        j = j + 1;
    }
    proof {
        if best is Some {
            assert(lex_le(best->0@, best->0@)) by {
                lemma_lex_total(best->0@, best->0@);
            }
        }
    }
    best
}

/// Where every label value is a literal and an English-tagged one stands
/// among them, resolution returns some English-tagged literal's text,
/// verbatim.
pub proof fn lemma_english_label_found(ls: Seq<LabelTerm>, r: Option<Seq<char>>)
    requires
        resolution_post(ls, r),
        !has_non_literal(ls),
        has_en(ls),
    ensures
        r is Some,
        exists|i: int|
            0 <= i < ls.len() && (#[trigger] ls[i]).is_en() && ls[i].text_view() == r->0,
{
}

/// Without any English-tagged literal among the label values, resolution
/// returns nothing.
pub proof fn lemma_no_english_label(ls: Seq<LabelTerm>, r: Option<Seq<char>>)
    requires
        resolution_post(ls, r),
        !has_en(ls),
    ensures
        r is None,
{
}

/// Label resolution is a function of the set of label-value shapes alone:
/// two enumerations of the same values, in any orders, resolve alike.
pub proof fn lemma_resolution_set_determined(
    a: Seq<LabelTerm>,
    b: Seq<LabelTerm>,
    ra: Option<Seq<char>>,
    rb: Option<Seq<char>>,
)
    requires
        a.map_values(|l: LabelTerm| l.key()).to_set() =~= b.map_values(
            |l: LabelTerm| l.key(),
        ).to_set(),
        resolution_post(a, ra),
        resolution_post(b, rb),
    ensures
        ra == rb,
{
    lemma_predicates_transfer(a, b);
    lemma_predicates_transfer(b, a);
    if ra is Some && rb is Some {
        let ta = ra->0;
        let tb = rb->0;
        lemma_min_en_le(a, b, ta);
        lemma_min_en_le(b, a, tb);
        lemma_lex_antisym(ta, tb);
    }
}

/// Carries `has_non_literal` and `has_en` across equal key sets.
proof fn lemma_predicates_transfer(a: Seq<LabelTerm>, b: Seq<LabelTerm>)
    requires
        a.map_values(|l: LabelTerm| l.key()).to_set() =~= b.map_values(
            |l: LabelTerm| l.key(),
        ).to_set(),
    ensures
        has_non_literal(a) ==> has_non_literal(b),
        has_en(a) ==> has_en(b),
{
    let ka = a.map_values(|l: LabelTerm| l.key());
    let kb = b.map_values(|l: LabelTerm| l.key());
    if has_non_literal(a) {
        let i = choose|i: int| 0 <= i < a.len() && !(#[trigger] a[i]).is_literal();
        assert(ka[i] == a[i].key());
        assert(kb.to_set().contains(ka[i]));
        let j = choose|j: int| 0 <= j < kb.len() && kb[j] == ka[i];
        assert(b[j].key() == a[i].key());
        assert(!b[j].is_literal());
        assert(has_non_literal(b));
    }
    if has_en(a) {
        let i = choose|i: int| 0 <= i < a.len() && (#[trigger] a[i]).is_en();
        assert(ka[i] == a[i].key());
        assert(kb.to_set().contains(ka[i]));
        let j = choose|j: int| 0 <= j < kb.len() && kb[j] == ka[i];
        assert(b[j].key() == a[i].key());
        assert(b[j].is_en());
        assert(has_en(b));
    }
}

/// A least English text of `a` is no later than any English text of `b`,
/// when the two sequences carry the same key set.
proof fn lemma_min_en_le(a: Seq<LabelTerm>, b: Seq<LabelTerm>, ta: Seq<char>)
    requires
        a.map_values(|l: LabelTerm| l.key()).to_set() =~= b.map_values(
            |l: LabelTerm| l.key(),
        ).to_set(),
        is_min_en(a, ta),
    ensures
        exists|j: int| 0 <= j < b.len() && (#[trigger] b[j]).is_en() && lex_le(
            ta,
            b[j].text_view(),
        ) && b[j].text_view() == ta,
        forall|tb: Seq<char>| is_min_en(b, tb) ==> lex_le(tb, ta),
{
    let ka = a.map_values(|l: LabelTerm| l.key());
    let kb = b.map_values(|l: LabelTerm| l.key());
    let i = choose|i: int| 0 <= i < a.len() && (#[trigger] a[i]).is_en() && a[i].text_view() == ta;
    assert(ka[i] == a[i].key());
    assert(kb.to_set().contains(ka[i]));
    let j = choose|j: int| 0 <= j < kb.len() && kb[j] == ka[i];
    assert(b[j].key() == a[i].key());
    assert(b[j].is_en() && b[j].text_view() == ta);
    assert(lex_le(ta, ta)) by {
        lemma_lex_total(ta, ta);
    }
    assert forall|tb: Seq<char>| is_min_en(b, tb) implies lex_le(tb, ta) by {
        assert(b[j].is_en());
    }
}

} // verus!
