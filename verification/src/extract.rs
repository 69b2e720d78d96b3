//! The term extractor: queries the store for the subjects of one type,
//! sorts the named ones by IRI (blank nodes are skipped), and builds one
//! ontology term per subject from its qualified name and resolved English
//! label.

use vstd::prelude::*;

use crate::labels::{opt_view, resolution_post, resolve_english_label};
use crate::model::{OntologyTerm, PipelineError, TermV};
use crate::sort::{lemma_push_set, lemma_take_set_step, sort_unique, sorted_strict, views_of};
use crate::store::{
    distinct_namespaces, graph_labels, graph_subjects, iri_parses, label_keys_of,
    lemma_qualified_shape_nonempty, objects_for_subject_predicate, opt_views_of, pm_entries,
    pm_plain, qualified_shape, qualify_iri, subjects_with_predicate_object,
};
use crate::triggers::terms_view;
use crate::model::LabelTerm;

verus! {

/// The view of the `rdf:type` predicate IRI.
pub open spec fn rdf_type_view() -> Seq<char> {
    "http://www.w3.org/1999/02/22-rdf-syntax-ns#type"@
}

/// The `rdf:type` predicate IRI.
pub fn rdf_type_iri() -> (r: &'static str)
    ensures
        r@ == rdf_type_view(),
{
    "http://www.w3.org/1999/02/22-rdf-syntax-ns#type"
}

/// The view of the `rdfs:label` predicate IRI.
pub open spec fn rdfs_label_view() -> Seq<char> {
    "http://www.w3.org/2000/01/rdf-schema#label"@
}

/// The `rdfs:label` predicate IRI.
pub fn rdfs_label_iri() -> (r: &'static str)
    ensures
        r@ == rdfs_label_view(),
{
    "http://www.w3.org/2000/01/rdf-schema#label"
}

/// The view of the `owl:Class` IRI.
pub open spec fn owl_class_view() -> Seq<char> {
    "http://www.w3.org/2002/07/owl#Class"@
}

/// The `owl:Class` IRI.
pub fn owl_class_iri() -> (r: &'static str)
    ensures
        r@ == owl_class_view(),
{
    "http://www.w3.org/2002/07/owl#Class"
}

/// The view of the `owl:ObjectProperty` IRI.
pub open spec fn owl_object_property_view() -> Seq<char> {
    "http://www.w3.org/2002/07/owl#ObjectProperty"@
}

/// The `owl:ObjectProperty` IRI.
pub fn owl_object_property_iri() -> (r: &'static str)
    ensures
        r@ == owl_object_property_view(),
{
    "http://www.w3.org/2002/07/owl#ObjectProperty"
}

/// The IRIs of the named subjects in a type-query result; what a blank node
/// contributed is dropped. No term ever comes from a blank node.
pub open spec fn named_iris(s: Set<Option<Seq<char>>>) -> Set<Seq<char>> {
    Set::new(|iri: Seq<char>| s.contains(Some(iri)))
}

/// What extraction promises of the term built for one subject IRI: the
/// qualified name is the prefix table's longest-match qualification of the
/// IRI (or the IRI in angle brackets), and the label is resolved from the
/// subject's label values in the store.
pub open spec fn term_ok(
    g: srdf::SRDFGraph,
    pmt: Map<Seq<char>, Seq<char>>,
    iri: Seq<char>,
    t: TermV,
) -> bool {
    &&& qualified_shape(pmt, iri, t.qualified_name)
    &&& (exists|ls: Seq<LabelTerm>|
        #[trigger] label_keys_of(ls) == graph_labels(g, iri, rdfs_label_view())
            && resolution_post(ls, t.english_label))
}

/// When one extraction pass succeeds: the two query IRIs parse, and so does
/// every named subject IRI and, where any subject exists, the label
/// predicate.
pub open spec fn extraction_ok_cond(g: srdf::SRDFGraph, type_obj: Seq<char>) -> bool {
    let named = named_iris(graph_subjects(g, rdf_type_view(), type_obj));
    &&& iri_parses(rdf_type_view())
    &&& iri_parses(type_obj)
    &&& ((exists|iri: Seq<char>| named.contains(iri)) ==> iri_parses(rdfs_label_view()))
    &&& (forall|iri: Seq<char>| named.contains(iri) ==> iri_parses(iri))
}

/// The witness behind a successful extraction: the sorted, duplicate-free
/// sequence of the named subject IRIs, and one good term per IRI, in order.
pub open spec fn extraction_witness(
    g: srdf::SRDFGraph,
    pmt: Map<Seq<char>, Seq<char>>,
    type_obj: Seq<char>,
    ts: Seq<TermV>,
    iris: Seq<Seq<char>>,
) -> bool {
    &&& sorted_strict(iris)
    &&& iris.to_set() == named_iris(graph_subjects(g, rdf_type_view(), type_obj))
    &&& ts.len() == iris.len()
    &&& (forall|k: int| 0 <= k < ts.len() ==> term_ok(g, pmt, iris[k], #[trigger] ts[k]))
}

/// What a successful extraction returns.
pub open spec fn extraction_ok_post(
    g: srdf::SRDFGraph,
    pmt: Map<Seq<char>, Seq<char>>,
    type_obj: Seq<char>,
    ts: Seq<TermV>,
) -> bool {
    exists|iris: Seq<Seq<char>>| #[trigger] extraction_witness(g, pmt, type_obj, ts, iris)
}

/// The term's qualified name is the qualification of some named subject.
pub open spec fn from_named_subject(
    g: srdf::SRDFGraph,
    pmt: Map<Seq<char>, Seq<char>>,
    type_obj: Seq<char>,
    t: TermV,
) -> bool {
    exists|iri: Seq<char>|
        #[trigger] graph_subjects(g, rdf_type_view(), type_obj).contains(Some(iri))
            && qualified_shape(pmt, iri, t.qualified_name)
}

/// Extraction never returns a record for a blank-node subject: every term of
/// a successful pass is the qualification of some named subject's IRI.
pub proof fn lemma_no_blank_subjects(
    g: srdf::SRDFGraph,
    pmt: Map<Seq<char>, Seq<char>>,
    type_obj: Seq<char>,
    ts: Seq<TermV>,
)
    requires
        extraction_ok_post(g, pmt, type_obj, ts),
    ensures
        forall|k: int| 0 <= k < ts.len() ==> from_named_subject(g, pmt, type_obj, #[trigger] ts[k]),
{
    let iris = choose|iris: Seq<Seq<char>>|
        #[trigger] extraction_witness(g, pmt, type_obj, ts, iris);
    assert forall|k: int| 0 <= k < ts.len() implies from_named_subject(
        g,
        pmt,
        type_obj,
        #[trigger] ts[k],
    ) by {
        assert(iris.contains(iris[k]));
        assert(iris.to_set().contains(iris[k]));
        assert(named_iris(graph_subjects(g, rdf_type_view(), type_obj)).contains(iris[k]));
        assert(graph_subjects(g, rdf_type_view(), type_obj).contains(Some(iris[k])));
        assert(term_ok(g, pmt, iris[k], ts[k]));
        assert(qualified_shape(pmt, iris[k], ts[k].qualified_name));
    }
}

/// Every extracted term's qualified name is non-empty: a prefixed short form
/// or the full IRI in angle brackets.
pub proof fn lemma_qualified_names_nonempty(
    g: srdf::SRDFGraph,
    pmt: Map<Seq<char>, Seq<char>>,
    type_obj: Seq<char>,
    ts: Seq<TermV>,
)
    requires
        extraction_ok_post(g, pmt, type_obj, ts),
    ensures
        forall|k: int| 0 <= k < ts.len() ==> (#[trigger] ts[k]).qualified_name.len() > 0,
{
    let iris = choose|iris: Seq<Seq<char>>|
        #[trigger] extraction_witness(g, pmt, type_obj, ts, iris);
    assert forall|k: int| 0 <= k < ts.len() implies (#[trigger] ts[k]).qualified_name.len()
        > 0 by {
        assert(term_ok(g, pmt, iris[k], ts[k]));
        lemma_qualified_shape_nonempty(pmt, iris[k], ts[k].qualified_name);
    }
}

/// One extraction pass: the subjects carrying `rdf:type = type_obj`, their
/// blank nodes skipped, sorted by IRI and deduplicated, each named subject
/// made a term of its qualified name and resolved English label.
pub fn extract_terms(g: &srdf::SRDFGraph, pm: &prefixmap::PrefixMap, type_obj: &str) -> (r: Result<
    Vec<OntologyTerm>,
    PipelineError,
>)
    requires
        pm_plain(*pm),
        distinct_namespaces(pm_entries(*pm)),
    ensures
        r is Ok <==> extraction_ok_cond(*g, type_obj@),
        r matches Ok(ts) ==> extraction_ok_post(*g, pm_entries(*pm), type_obj@, terms_view(ts@)),
        r matches Err(e) ==> e == PipelineError::MalformedIri,
{
    let subs = match subjects_with_predicate_object(g, rdf_type_iri(), type_obj) {
        Ok(v) => v,
        Err(e) => {
            return Err(e);
        },
    };
    let ghost ss = opt_views_of(subs@);
    let ghost subject_set = graph_subjects(*g, rdf_type_view(), type_obj@);
    let mut named: Vec<String> = Vec::new();
    let mut i: usize = 0;
    proof {
        assert(views_of(named@).to_set() =~= named_iris(ss.take(0).to_set()));
    }
    while i < subs.len()
        invariant
            ss == opt_views_of(subs@),
            i <= subs@.len(),
            views_of(named@).to_set() =~= named_iris(ss.take(i as int).to_set()),
        decreases subs@.len() - i,
    {
        proof {
            assert(ss[i as int] == opt_view(subs@[i as int]));
            lemma_take_set_step(ss, i as int);
        }
        let ghost pre_named = views_of(named@);
        let ghost pre_set = ss.take(i as int).to_set();
        match &subs[i] {
            Some(iri) => {
                named.push(iri.clone());
                proof {
                    assert(views_of(named@) =~= pre_named.push(iri@));
                    lemma_push_set(pre_named, iri@);
                    assert(named_iris(pre_set.insert(Some(iri@))) =~= named_iris(
                        pre_set,
                    ).insert(iri@));
                }
            },
            None => {
                proof {
                    assert(named_iris(pre_set.insert(None)) =~= named_iris(pre_set));
                }
            },
        }
        i = i + 1;
    }
    proof {
        assert(ss.take(subs@.len() as int) =~= ss);
        assert(views_of(named@).to_set() =~= named_iris(subject_set));
    }
    let sorted = sort_unique(named);
    let ghost iris = views_of(sorted@);
    proof {
        assert(iris.to_set() =~= named_iris(subject_set));
    }
    let label_pred = rdfs_label_iri();
    let mut out: Vec<OntologyTerm> = Vec::new();
    let mut k: usize = 0;
    while k < sorted.len()
        invariant
            iris == views_of(sorted@),
            sorted_strict(iris),
            iris.to_set() == named_iris(graph_subjects(*g, rdf_type_view(), type_obj@)),
            iri_parses(rdf_type_view()),
            iri_parses(type_obj@),
            label_pred@ == rdfs_label_view(),
            pm_plain(*pm),
            distinct_namespaces(pm_entries(*pm)),
            k <= sorted@.len(),
            terms_view(out@).len() == k as int,
            forall|m: int|
                0 <= m < k ==> term_ok(
                    *g,
                    pm_entries(*pm),
                    iris[m],
                    #[trigger] terms_view(out@)[m],
                ),
            forall|m: int| 0 <= m < k ==> iri_parses(#[trigger] iris[m]),
            k > 0 ==> iri_parses(rdfs_label_view()),
        decreases sorted@.len() - k,
    {
        let subject = &sorted[k];
        proof {
            assert(iris[k as int] == sorted@[k as int]@);
            assert(iris.contains(iris[k as int]));
            assert(iris.to_set().contains(subject@));
        }
        let labels = match objects_for_subject_predicate(g, subject.as_str(), label_pred) {
            Ok(v) => v,
            Err(e) => {
                proof {
                    assert(!(iri_parses(subject@) && iri_parses(rdfs_label_view())));
                    assert(!extraction_ok_cond(*g, type_obj@)) by {
                        let named = named_iris(
                            graph_subjects(*g, rdf_type_view(), type_obj@),
                        );
                        assert(named.contains(subject@));
                    }
                }
                return Err(e);
            },
        };
        let english = resolve_english_label(&labels);
        let qn = match qualify_iri(pm, subject.as_str()) {
            Ok(q) => q,
            Err(e) => {
                proof {
                    assert(!iri_parses(subject@));
                    assert(!extraction_ok_cond(*g, type_obj@)) by {
                        let named = named_iris(
                            graph_subjects(*g, rdf_type_view(), type_obj@),
                        );
                        assert(named.contains(subject@));
                    }
                }
                return Err(e);
            },
        };
        let term = OntologyTerm { qualified_name: qn, english_label: english };
        proof {
            assert(term@.english_label == opt_view(english));
            assert(term_ok(*g, pm_entries(*pm), iris[k as int], term@)) by {
                assert(label_keys_of(labels@) == graph_labels(
                    *g,
                    subject@,
                    rdfs_label_view(),
                ));
                assert(resolution_post(labels@, term@.english_label));
            }
        }
        let ghost pre_terms = terms_view(out@);
        out.push(term);
        proof {
            assert(terms_view(out@) =~= pre_terms.push(term@));
        }
        k = k + 1;
    }
    proof {
        assert(extraction_ok_cond(*g, type_obj@)) by {
            let named = named_iris(graph_subjects(*g, rdf_type_view(), type_obj@));
            assert forall|iri: Seq<char>| named.contains(iri) implies iri_parses(iri) by {
                assert(iris.to_set().contains(iri));
                let m = choose|m: int| 0 <= m < iris.len() && #[trigger] iris[m] == iri;
                assert(iri_parses(iris[m]));
            }
            if exists|iri: Seq<char>| named.contains(iri) {
                let iri = choose|iri: Seq<char>| named.contains(iri);
                assert(iris.to_set().contains(iri));
                let m = choose|m: int| 0 <= m < iris.len() && #[trigger] iris[m] == iri;
                assert(iris.len() > 0);
            }
        }
        assert(extraction_witness(
            *g,
            pm_entries(*pm),
            type_obj@,
            terms_view(out@),
            iris,
        ));
    }
    Ok(out)
}

} // verus!
