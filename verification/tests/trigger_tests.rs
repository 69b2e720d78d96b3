use ontology_triggers::model::{OntologyTerm, PipelineError, SubjectKind, SynthesisStrategy};
use ontology_triggers::text::{hyphenate, u32_to_dec};
use ontology_triggers::triggers::{
    get_bfo_short_name, get_bfo_short_number, get_shortname, synthesize,
};

fn term(qualified_name: &str, english_label: Option<&str>) -> OntologyTerm {
    OntologyTerm {
        qualified_name: qualified_name.to_string(),
        english_label: english_label.map(|l| l.to_string()),
    }
}

#[test]
fn hyphenate_replaces_spaces() {
    assert_eq!(hyphenate("object aggregate"), "object-aggregate");
    assert_eq!(hyphenate("one two three"), "one-two-three");
    assert_eq!(hyphenate(""), "");
    assert_eq!(hyphenate("nospace"), "nospace");
}

#[test]
fn shortname_takes_first_letters() {
    assert_eq!(get_bfo_short_name("object aggregate"), "oa");
    assert_eq!(get_bfo_short_name("object"), "o");
    assert_eq!(get_bfo_short_name(""), "");
    assert_eq!(get_bfo_short_name("a  b"), "ab");
    assert_eq!(get_shortname("generically dependent continuant".to_string()), "gdc");
}

#[test]
fn short_number_reads_the_numeric_suffix() {
    assert_eq!(get_bfo_short_number("bfo:BFO_0000030"), Ok(30));
    assert_eq!(get_bfo_short_number("BFO_0000030"), Ok(30));
    assert_eq!(get_bfo_short_number("obo:X_0"), Ok(0));
    assert_eq!(get_bfo_short_number("obo:X_2147483647"), Ok(2147483647));
}

#[test]
fn short_number_rejects_malformed_names() {
    assert_eq!(get_bfo_short_number("BFO"), Err(PipelineError::MalformedLocalName));
    assert_eq!(get_bfo_short_number("bfo:BFO"), Err(PipelineError::MalformedLocalName));
    assert_eq!(get_bfo_short_number("_0000030"), Err(PipelineError::MalformedLocalName));
    assert_eq!(get_bfo_short_number("BFO_"), Err(PipelineError::MalformedLocalName));
    assert_eq!(get_bfo_short_number("BFO_12x3"), Err(PipelineError::MalformedLocalName));
    assert_eq!(get_bfo_short_number("B2O_123"), Err(PipelineError::MalformedLocalName));
    assert_eq!(get_bfo_short_number("BFO_1_2"), Err(PipelineError::MalformedLocalName));
    assert_eq!(get_bfo_short_number("BFO_2147483648"), Err(PipelineError::MalformedLocalName));
    assert_eq!(get_bfo_short_number("BFO_99999999999999999999"), Err(PipelineError::MalformedLocalName));
}

#[test]
fn decimal_rendering_strips_leading_zeros() {
    assert_eq!(u32_to_dec(0), "0");
    assert_eq!(u32_to_dec(30), "30");
    assert_eq!(u32_to_dec(2147483647), "2147483647");
}

#[test]
fn direct_strategy_prefers_the_label() {
    let terms = vec![term("bfo:BFO_0000030", Some("object aggregate"))];
    let recs = synthesize(&terms, SubjectKind::Class, SynthesisStrategy::Direct {
        prefer_label: true,
    })
        .unwrap();
    assert_eq!(recs.len(), 1);
    assert_eq!(recs[0].trigger, ":object-aggregate");
    assert_eq!(recs[0].replacement, "object aggregate (bfo:BFO_0000030)");
    assert_eq!(recs[0].annotation_label, "object aggregate (Class)");
}

#[test]
fn direct_strategy_falls_back_to_the_qualified_name() {
    let terms = vec![term("bfo:BFO_0000030", Some("object aggregate"))];
    let recs = synthesize(&terms, SubjectKind::Class, SynthesisStrategy::Direct {
        prefer_label: false,
    })
        .unwrap();
    assert_eq!(recs.len(), 1);
    assert_eq!(recs[0].trigger, ":bfo:BFO_0000030");
    assert_eq!(recs[0].replacement, "bfo:BFO_0000030");
    assert_eq!(recs[0].annotation_label, "bfo:BFO_0000030 (Class)");

    let unlabeled = vec![term("bfo:BFO_0000030", None)];
    let recs = synthesize(&unlabeled, SubjectKind::Class, SynthesisStrategy::Direct {
        prefer_label: true,
    })
        .unwrap();
    assert_eq!(recs[0].trigger, ":bfo:BFO_0000030");
    assert_eq!(recs[0].replacement, "bfo:BFO_0000030");
}

#[test]
fn numeric_strategy_emits_four_records() {
    let terms = vec![term("bfo:BFO_0000030", Some("object aggregate"))];
    let recs = synthesize(&terms, SubjectKind::Class, SynthesisStrategy::Numeric).unwrap();
    assert_eq!(recs.len(), 4);
    assert_eq!(recs[0].trigger, ":bfo-30");
    assert_eq!(recs[1].trigger, ":bfo-30");
    assert_eq!(recs[2].trigger, ":bfo-oa");
    assert_eq!(recs[3].trigger, ":bfo-oa");
    assert_eq!(recs[0].replacement, "bfo:BFO_0000030");
    assert_eq!(recs[1].replacement, "bfo:object-aggregate");
    assert_eq!(recs[2].replacement, "bfo:BFO_0000030");
    assert_eq!(recs[3].replacement, "bfo:object-aggregate");
    let annotation = "bfo:object-aggregate (Class; bfo:BFO_0000030)";
    for rec in &recs {
        assert_eq!(rec.annotation_label, annotation);
    }
}

#[test]
fn numeric_strategy_annotates_object_properties() {
    let terms = vec![term("bfo:BFO_0000057", Some("has participant"))];
    let recs = synthesize(&terms, SubjectKind::ObjectProperty, SynthesisStrategy::Numeric)
        .unwrap();
    assert_eq!(recs.len(), 4);
    assert_eq!(recs[0].trigger, ":bfo-57");
    assert_eq!(recs[2].trigger, ":bfo-hp");
    assert_eq!(recs[0].annotation_label, "bfo:has-participant (Object Property; bfo:BFO_0000057)");
}

#[test]
fn numeric_strategy_aborts_on_a_malformed_local_name() {
    let terms = vec![
        term("bfo:BFO_0000030", Some("object aggregate")),
        term("bfo:BFO", Some("bad one")),
    ];
    let r = synthesize(&terms, SubjectKind::Class, SynthesisStrategy::Numeric);
    assert_eq!(r.unwrap_err(), PipelineError::MalformedLocalName);
}

#[test]
fn numeric_strategy_aborts_on_a_missing_label() {
    let terms = vec![term("bfo:BFO_0000030", None)];
    let r = synthesize(&terms, SubjectKind::Class, SynthesisStrategy::Numeric);
    assert_eq!(r.unwrap_err(), PipelineError::MissingLabel);
}
