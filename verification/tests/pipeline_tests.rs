use ontology_triggers::model::{MatchRecord, SynthesisStrategy};
use ontology_triggers::pipeline::run_pipeline;
use srdf::{RDFFormat, ReaderMode, SRDFGraph};

const ONTOLOGY: &str = r#"<?xml version="1.0"?>
<rdf:RDF xmlns:rdf="http://www.w3.org/1999/02/22-rdf-syntax-ns#"
         xmlns:rdfs="http://www.w3.org/2000/01/rdf-schema#"
         xmlns:owl="http://www.w3.org/2002/07/owl#">
  <owl:Class rdf:about="http://purl.obolibrary.org/obo/BFO_0000030">
    <rdfs:label xml:lang="en">object aggregate</rdfs:label>
    <rdfs:label xml:lang="fr">agr&#233;gat d'objets</rdfs:label>
  </owl:Class>
  <owl:Class rdf:about="http://purl.obolibrary.org/obo/BFO_0000002">
    <rdfs:label xml:lang="en">continuant</rdfs:label>
  </owl:Class>
  <owl:Class>
    <rdfs:label xml:lang="en">anonymous thing</rdfs:label>
  </owl:Class>
  <owl:ObjectProperty rdf:about="http://purl.obolibrary.org/obo/BFO_0000057">
    <rdfs:label xml:lang="en">has participant</rdfs:label>
  </owl:ObjectProperty>
</rdf:RDF>
"#;

fn load_graph() -> SRDFGraph {
    let mut reader = ONTOLOGY.as_bytes();
    SRDFGraph::from_reader(&mut reader, "test", &RDFFormat::RDFXML, None, &ReaderMode::Lax)
        .unwrap()
}

fn prefix_table() -> Vec<(String, String)> {
    vec![
        ("iof-core".to_string(), "https://spec.industrialontologies.org/ontology/core/Core/".to_string()),
        ("owl".to_string(), "http://www.w3.org/2002/07/owl#".to_string()),
        ("bfo".to_string(), "http://purl.obolibrary.org/obo/".to_string()),
    ]
}

fn flat(recs: &[MatchRecord]) -> Vec<(String, String, String)> {
    recs.iter()
        .map(|r| (r.trigger.clone(), r.replacement.clone(), r.annotation_label.clone()))
        .collect()
}

#[test]
fn direct_pipeline_extracts_classes_then_properties() {
    let graph = load_graph();
    let recs = run_pipeline(&graph, &prefix_table(), SynthesisStrategy::Direct {
        prefer_label: true,
    })
        .unwrap();
    assert_eq!(
        flat(&recs),
        vec![
            (
                ":continuant".to_string(),
                "continuant (bfo:BFO_0000002)".to_string(),
                "continuant (Class)".to_string(),
            ),
            (
                ":object-aggregate".to_string(),
                "object aggregate (bfo:BFO_0000030)".to_string(),
                "object aggregate (Class)".to_string(),
            ),
            (
                ":has-participant".to_string(),
                "has participant (bfo:BFO_0000057)".to_string(),
                "has participant (Object Property)".to_string(),
            ),
        ],
    );
}

#[test]
fn no_record_comes_from_a_blank_node() {
    let graph = load_graph();
    let recs = run_pipeline(&graph, &prefix_table(), SynthesisStrategy::Direct {
        prefer_label: true,
    })
        .unwrap();
    for rec in &recs {
        assert!(!rec.trigger.contains("anonymous"));
        assert!(!rec.replacement.contains("anonymous"));
        assert!(!rec.annotation_label.contains("anonymous"));
    }
    assert_eq!(recs.len(), 3);
}

#[test]
fn numeric_pipeline_emits_four_records_per_term() {
    let graph = load_graph();
    let recs = run_pipeline(&graph, &prefix_table(), SynthesisStrategy::Numeric).unwrap();
    assert_eq!(recs.len(), 12);
    assert_eq!(recs[0].trigger, ":bfo-2");
    assert_eq!(recs[0].replacement, "bfo:BFO_0000002");
    assert_eq!(recs[1].replacement, "bfo:continuant");
    assert_eq!(recs[2].trigger, ":bfo-c");
    assert_eq!(recs[4].trigger, ":bfo-30");
    assert_eq!(recs[6].trigger, ":bfo-oa");
    assert_eq!(recs[6].annotation_label, "bfo:object-aggregate (Class; bfo:BFO_0000030)");
    assert_eq!(recs[8].trigger, ":bfo-57");
    assert_eq!(recs[10].trigger, ":bfo-hp");
    assert_eq!(recs[8].annotation_label, "bfo:has-participant (Object Property; bfo:BFO_0000057)");
}

#[test]
fn two_runs_give_identical_output() {
    let graph = load_graph();
    let table = prefix_table();
    let first = run_pipeline(&graph, &table, SynthesisStrategy::Direct { prefer_label: true })
        .unwrap();
    let graph_again = load_graph();
    let second = run_pipeline(&graph_again, &table, SynthesisStrategy::Direct {
        prefer_label: true,
    })
        .unwrap();
    assert_eq!(flat(&first), flat(&second));

    let numeric_first = run_pipeline(&graph, &table, SynthesisStrategy::Numeric).unwrap();
    let numeric_second = run_pipeline(&graph_again, &table, SynthesisStrategy::Numeric).unwrap();
    assert_eq!(flat(&numeric_first), flat(&numeric_second));
}

#[test]
fn an_unqualified_subject_keeps_its_full_iri() {
    let graph = load_graph();
    let table = vec![("owl".to_string(), "http://www.w3.org/2002/07/owl#".to_string())];
    let recs = run_pipeline(&graph, &table, SynthesisStrategy::Direct { prefer_label: false })
        .unwrap();
    assert_eq!(recs[0].trigger, ":<http://purl.obolibrary.org/obo/BFO_0000002>");
    assert_eq!(recs[0].replacement, "<http://purl.obolibrary.org/obo/BFO_0000002>");
}

#[test]
fn a_bad_namespace_fails_the_prefix_table() {
    let table = vec![("bfo".to_string(), "not an iri".to_string())];
    let r = ontology_triggers::store::build_prefix_map(&table);
    assert_eq!(r.unwrap_err(), ontology_triggers::model::PipelineError::PrefixTableError);
}

#[test]
fn a_bad_type_iri_fails_extraction() {
    let graph = load_graph();
    let pm = ontology_triggers::store::build_prefix_map(&prefix_table()).unwrap();
    let r = ontology_triggers::extract::extract_terms(&graph, &pm, "not an iri");
    assert_eq!(r.unwrap_err(), ontology_triggers::model::PipelineError::MalformedIri);
}
