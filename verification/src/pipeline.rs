//! The pipeline driver: one extraction pass per subject kind, classes before
//! object properties, each batch synthesized under one strategy, the results
//! concatenated in batch order. Any failure aborts the whole run.

use vstd::prelude::*;

use crate::extract::{
    extract_terms, extraction_ok_cond, extraction_ok_post, extraction_witness, owl_class_iri,
    owl_class_view, owl_object_property_iri, owl_object_property_view, rdfs_label_view, term_ok,
};
use crate::labels::lemma_resolution_set_determined;
use crate::model::{
    LabelTerm, MatchRecord, PipelineError, RecordV, SubjectKind, SynthesisStrategy, TermV,
};
use crate::sort::lemma_sorted_unique;
use crate::store::{
    all_namespaces_parse, build_prefix_map, distinct_namespaces, graph_labels, label_keys_of,
    lemma_qualified_shape_unique, pm_entries, table_map, table_view,
};
use crate::triggers::{records_view, synth_all, synthesize, terms_view};

verus! {

/// The view of a pipeline result.
pub open spec fn result_view(r: Result<Vec<MatchRecord>, PipelineError>) -> Result<
    Seq<RecordV>,
    PipelineError,
> {
    match r {
        Ok(v) => Ok(records_view(v@)),
        Err(e) => Err(e),
    }
}

/// When the whole pipeline succeeds: the prefix table builds, both
/// extraction passes succeed, and both batches synthesize.
pub open spec fn pipeline_ok_cond(
    g: srdf::SRDFGraph,
    pmt: Map<Seq<char>, Seq<char>>,
    strategy: SynthesisStrategy,
) -> bool {
    &&& all_namespaces_parse(pmt)
    &&& extraction_ok_cond(g, owl_class_view())
    &&& extraction_ok_cond(g, owl_object_property_view())
    &&& (exists|cls: Seq<TermV>|
        #[trigger] extraction_ok_post(g, pmt, owl_class_view(), cls) && synth_all(
            cls,
            SubjectKind::Class,
            strategy,
        ) is Ok)
    &&& (exists|props: Seq<TermV>|
        #[trigger] extraction_ok_post(g, pmt, owl_object_property_view(), props) && synth_all(
            props,
            SubjectKind::ObjectProperty,
            strategy,
        ) is Ok)
}

/// Which failure the pipeline reports: the first stage that cannot succeed
/// names the error, in pipeline order — prefix table, class extraction,
/// class synthesis, property extraction, property synthesis.
pub open spec fn pipeline_err_post(
    g: srdf::SRDFGraph,
    pmt: Map<Seq<char>, Seq<char>>,
    strategy: SynthesisStrategy,
    e: PipelineError,
) -> bool {
    if !all_namespaces_parse(pmt) {
        e == PipelineError::PrefixTableError
    } else if !extraction_ok_cond(g, owl_class_view()) {
        e == PipelineError::MalformedIri
    } else if exists|cls: Seq<TermV>|
        #[trigger] extraction_ok_post(g, pmt, owl_class_view(), cls) && synth_all(
        cls,
        SubjectKind::Class,
        strategy,
    ) is Err {
        exists|cls: Seq<TermV>|
            #[trigger] extraction_ok_post(g, pmt, owl_class_view(), cls) && synth_all(
                cls,
                SubjectKind::Class,
                strategy,
            ) == Err::<Seq<RecordV>, PipelineError>(e)
    } else if !extraction_ok_cond(g, owl_object_property_view()) {
        e == PipelineError::MalformedIri
    } else {
        exists|props: Seq<TermV>|
            #[trigger] extraction_ok_post(g, pmt, owl_object_property_view(), props) && synth_all(
                props,
                SubjectKind::ObjectProperty,
                strategy,
            ) == Err::<Seq<RecordV>, PipelineError>(e)
    }
}

/// Everything the pipeline promises: it succeeds exactly under
/// `pipeline_ok_cond`, and a success carries the class records followed by
/// the object-property records, both synthesized from the extracted terms.
pub open spec fn pipeline_post(
    g: srdf::SRDFGraph,
    pmt: Map<Seq<char>, Seq<char>>,
    strategy: SynthesisStrategy,
    r: Result<Seq<RecordV>, PipelineError>,
) -> bool {
    &&& (r is Ok <==> pipeline_ok_cond(g, pmt, strategy))
    &&& (r matches Ok(recs) ==> exists|cls: Seq<TermV>, props: Seq<TermV>|
        {
            &&& #[trigger] extraction_ok_post(g, pmt, owl_class_view(), cls)
            &&& #[trigger] extraction_ok_post(g, pmt, owl_object_property_view(), props)
            &&& synth_all(cls, SubjectKind::Class, strategy) matches Ok(a) && synth_all(
                props,
                SubjectKind::ObjectProperty,
                strategy,
            ) matches Ok(b) && recs == a + b
        })
    &&& (r matches Err(e) ==> pipeline_err_post(g, pmt, strategy, e))
}

/// Runs the pipeline over one in-memory graph and prefix table.
pub fn run_pipeline(
    g: &srdf::SRDFGraph,
    table: &Vec<(String, String)>,
    strategy: SynthesisStrategy,
) -> (r: Result<Vec<MatchRecord>, PipelineError>)
    requires
        distinct_namespaces(table_map(table_view(table@))),
    ensures
        pipeline_post(*g, table_map(table_view(table@)), strategy, result_view(r)),
{
    let ghost pmt = table_map(table_view(table@));
    let pm = match build_prefix_map(table) {
        Ok(pm) => pm,
        Err(e) => {
            return Err(e);
        },
    };
    let classes = match extract_terms(g, &pm, owl_class_iri()) {
        Ok(t) => t,
        Err(e) => {
            return Err(e);
        },
    };
    let mut recs = match synthesize(&classes, SubjectKind::Class, strategy) {
        Ok(v) => v,
        Err(e) => {
            proof {
                lemma_no_other_batch(
                    *g,
                    pmt,
                    owl_class_view(),
                    SubjectKind::Class,
                    strategy,
                    terms_view(classes@),
                );
                assert(extraction_ok_post(*g, pmt, owl_class_view(), terms_view(classes@))
                    && synth_all(terms_view(classes@), SubjectKind::Class, strategy) is Err);
                assert(extraction_ok_post(*g, pmt, owl_class_view(), terms_view(classes@))
                    && synth_all(terms_view(classes@), SubjectKind::Class, strategy) == Err::<
                    Seq<RecordV>,
                    PipelineError,
                >(e));
            }
            return Err(e);
        },
    };
    let props = match extract_terms(g, &pm, owl_object_property_iri()) {
        Ok(t) => t,
        Err(e) => {
            proof {
                lemma_no_failing_batch(
                    *g,
                    pmt,
                    owl_class_view(),
                    SubjectKind::Class,
                    strategy,
                    terms_view(classes@),
                );
            }
            return Err(e);
        },
    };
    let mut prop_recs = match synthesize(&props, SubjectKind::ObjectProperty, strategy) {
        Ok(v) => v,
        Err(e) => {
            proof {
                lemma_no_failing_batch(
                    *g,
                    pmt,
                    owl_class_view(),
                    SubjectKind::Class,
                    strategy,
                    terms_view(classes@),
                );
                lemma_no_other_batch(
                    *g,
                    pmt,
                    owl_object_property_view(),
                    SubjectKind::ObjectProperty,
                    strategy,
                    terms_view(props@),
                );
                assert(extraction_ok_post(*g, pmt, owl_object_property_view(), terms_view(props@))
                    && synth_all(terms_view(props@), SubjectKind::ObjectProperty, strategy) == Err::<
                    Seq<RecordV>,
                    PipelineError,
                >(e));
            }
            return Err(e);
        },
    };
    let ghost class_recs = records_view(recs@);
    let ghost property_recs = records_view(prop_recs@);
    recs.append(&mut prop_recs);
    proof {
        assert(records_view(recs@) =~= class_recs + property_recs);
        assert(pipeline_ok_cond(*g, pmt, strategy));
    }
    Ok(recs)
}

/// Any two term batches a successful extraction can return are the same:
/// the sorted subject order is unique, qualification is a function of the
/// table, and label resolution is a function of the label sets.
pub proof fn lemma_extraction_deterministic(
    g: srdf::SRDFGraph,
    pmt: Map<Seq<char>, Seq<char>>,
    type_obj: Seq<char>,
    t1: Seq<TermV>,
    t2: Seq<TermV>,
)
    requires
        distinct_namespaces(pmt),
        extraction_ok_post(g, pmt, type_obj, t1),
        extraction_ok_post(g, pmt, type_obj, t2),
    ensures
        t1 == t2,
{
    let iris1 = choose|iris: Seq<Seq<char>>|
        #[trigger] extraction_witness(g, pmt, type_obj, t1, iris);
    let iris2 = choose|iris: Seq<Seq<char>>|
        #[trigger] extraction_witness(g, pmt, type_obj, t2, iris);
    assert(iris1.to_set() =~= iris2.to_set());
    lemma_sorted_unique(iris1, iris2);
    assert forall|k: int| 0 <= k < t1.len() implies t1[k] == t2[k] by {
        assert(term_ok(g, pmt, iris1[k], t1[k]));
        assert(term_ok(g, pmt, iris2[k], t2[k]));
        let ls1 = choose|ls: Seq<LabelTerm>|
            #[trigger] label_keys_of(ls) == graph_labels(g, iris1[k], rdfs_label_view())
                && crate::labels::resolution_post(ls, t1[k].english_label);
        let ls2 = choose|ls: Seq<LabelTerm>|
            #[trigger] label_keys_of(ls) == graph_labels(g, iris2[k], rdfs_label_view())
                && crate::labels::resolution_post(ls, t2[k].english_label);
        lemma_resolution_set_determined(ls1, ls2, t1[k].english_label, t2[k].english_label);
        lemma_qualified_shape_unique(pmt, iris1[k], t1[k].qualified_name, t2[k].qualified_name);
        assert(t1[k] =~= t2[k]);
    }
    assert(t1 =~= t2);
}

/// A batch that fails to synthesize rules out any successfully synthesizing
/// batch for the same extraction pass.
proof fn lemma_no_other_batch(
    g: srdf::SRDFGraph,
    pmt: Map<Seq<char>, Seq<char>>,
    type_obj: Seq<char>,
    kind: SubjectKind,
    strategy: SynthesisStrategy,
    failed: Seq<TermV>,
)
    requires
        distinct_namespaces(pmt),
        extraction_ok_post(g, pmt, type_obj, failed),
        synth_all(failed, kind, strategy) is Err,
    ensures
        !(exists|ts: Seq<TermV>|
            #[trigger] extraction_ok_post(g, pmt, type_obj, ts) && synth_all(
                ts,
                kind,
                strategy,
            ) is Ok),
{
    if exists|ts: Seq<TermV>|
        #[trigger] extraction_ok_post(g, pmt, type_obj, ts) && synth_all(
            ts,
            kind,
            strategy,
        ) is Ok {
        let ts = choose|ts: Seq<TermV>|
            #[trigger] extraction_ok_post(g, pmt, type_obj, ts) && synth_all(
                ts,
                kind,
                strategy,
            ) is Ok;
        lemma_extraction_deterministic(g, pmt, type_obj, failed, ts);
    }
}

/// A batch that synthesizes rules out any failing batch for the same
/// extraction pass.
proof fn lemma_no_failing_batch(
    g: srdf::SRDFGraph,
    pmt: Map<Seq<char>, Seq<char>>,
    type_obj: Seq<char>,
    kind: SubjectKind,
    strategy: SynthesisStrategy,
    good: Seq<TermV>,
)
    requires
        distinct_namespaces(pmt),
        extraction_ok_post(g, pmt, type_obj, good),
        synth_all(good, kind, strategy) is Ok,
    ensures
        !(exists|ts: Seq<TermV>|
            #[trigger] extraction_ok_post(g, pmt, type_obj, ts) && synth_all(
                ts,
                kind,
                strategy,
            ) is Err),
{
    if exists|ts: Seq<TermV>|
        #[trigger] extraction_ok_post(g, pmt, type_obj, ts) && synth_all(
            ts,
            kind,
            strategy,
        ) is Err {
        let ts = choose|ts: Seq<TermV>|
            #[trigger] extraction_ok_post(g, pmt, type_obj, ts) && synth_all(
                ts,
                kind,
                strategy,
            ) is Err;
        lemma_extraction_deterministic(g, pmt, type_obj, good, ts);
    }
}

/// Determinism of the whole pipeline: two runs over the same graph, prefix
/// table and strategy have the same outcome — the same records on success,
/// the same error on failure. With subjects sorted by IRI, the output is a
/// function of the store's contents, never of its enumeration order.
pub proof fn lemma_pipeline_deterministic(
    g: srdf::SRDFGraph,
    pmt: Map<Seq<char>, Seq<char>>,
    strategy: SynthesisStrategy,
    r1: Result<Seq<RecordV>, PipelineError>,
    r2: Result<Seq<RecordV>, PipelineError>,
)
    requires
        distinct_namespaces(pmt),
        pipeline_post(g, pmt, strategy, r1),
        pipeline_post(g, pmt, strategy, r2),
    ensures
        r1 is Ok <==> r2 is Ok,
        r1 == r2,
{
    if r1 is Err && r2 is Err {
        let e1 = r1->Err_0;
        let e2 = r2->Err_0;
        if all_namespaces_parse(pmt) && extraction_ok_cond(g, owl_class_view()) {
            if exists|cls: Seq<TermV>|
                #[trigger] extraction_ok_post(g, pmt, owl_class_view(), cls) && synth_all(
                cls,
                SubjectKind::Class,
                strategy,
            ) is Err {
                let cls1 = choose|cls: Seq<TermV>|
                    #[trigger] extraction_ok_post(g, pmt, owl_class_view(), cls) && synth_all(
                        cls,
                        SubjectKind::Class,
                        strategy,
                    ) == Err::<Seq<RecordV>, PipelineError>(e1);
                let cls2 = choose|cls: Seq<TermV>|
                    #[trigger] extraction_ok_post(g, pmt, owl_class_view(), cls) && synth_all(
                        cls,
                        SubjectKind::Class,
                        strategy,
                    ) == Err::<Seq<RecordV>, PipelineError>(e2);
                lemma_extraction_deterministic(g, pmt, owl_class_view(), cls1, cls2);
            } else if extraction_ok_cond(g, owl_object_property_view()) {
                let props1 = choose|props: Seq<TermV>|
                    #[trigger] extraction_ok_post(g, pmt, owl_object_property_view(), props)
                        && synth_all(props, SubjectKind::ObjectProperty, strategy) == Err::<
                        Seq<RecordV>,
                        PipelineError,
                    >(e1);
                let props2 = choose|props: Seq<TermV>|
                    #[trigger] extraction_ok_post(g, pmt, owl_object_property_view(), props)
                        && synth_all(props, SubjectKind::ObjectProperty, strategy) == Err::<
                        Seq<RecordV>,
                        PipelineError,
                    >(e2);
                lemma_extraction_deterministic(g, pmt, owl_object_property_view(), props1, props2);
            }
        }
    }
    if r1 is Ok && r2 is Ok {
        let (cls1, props1) = choose|cls: Seq<TermV>, props: Seq<TermV>|
            {
                &&& #[trigger] extraction_ok_post(g, pmt, owl_class_view(), cls)
                &&& #[trigger] extraction_ok_post(g, pmt, owl_object_property_view(), props)
                &&& synth_all(cls, SubjectKind::Class, strategy) matches Ok(a) && synth_all(
                    props,
                    SubjectKind::ObjectProperty,
                    strategy,
                ) matches Ok(b) && r1->Ok_0 == a + b
            };
        let (cls2, props2) = choose|cls: Seq<TermV>, props: Seq<TermV>|
            {
                &&& #[trigger] extraction_ok_post(g, pmt, owl_class_view(), cls)
                &&& #[trigger] extraction_ok_post(g, pmt, owl_object_property_view(), props)
                &&& synth_all(cls, SubjectKind::Class, strategy) matches Ok(a) && synth_all(
                    props,
                    SubjectKind::ObjectProperty,
                    strategy,
                ) matches Ok(b) && r2->Ok_0 == a + b
            };
        lemma_extraction_deterministic(g, pmt, owl_class_view(), cls1, cls2);
        lemma_extraction_deterministic(g, pmt, owl_object_property_view(), props1, props2);
    }
}

} // verus!
