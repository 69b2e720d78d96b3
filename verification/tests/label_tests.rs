use ontology_triggers::model::LabelTerm;
use ontology_triggers::labels::resolve_english_label;
use ontology_triggers::sort::sort_unique;

fn literal(text: &str, lang: Option<&str>) -> LabelTerm {
    LabelTerm::Literal { text: text.to_string(), lang: lang.map(|l| l.to_string()) }
}

#[test]
fn an_english_literal_resolves_verbatim() {
    let labels = vec![literal("objet agrégat", Some("fr")), literal("object aggregate", Some("en"))];
    assert_eq!(resolve_english_label(&labels), Some("object aggregate".to_string()));
}

#[test]
fn several_english_literals_resolve_to_the_least_text() {
    let a = vec![literal("zeta", Some("en")), literal("alpha", Some("en"))];
    let b = vec![literal("alpha", Some("en")), literal("zeta", Some("en"))];
    assert_eq!(resolve_english_label(&a), Some("alpha".to_string()));
    assert_eq!(resolve_english_label(&b), Some("alpha".to_string()));
}

#[test]
fn no_english_literal_resolves_to_nothing() {
    let labels = vec![literal("objet", Some("fr")), literal("untagged", None)];
    assert_eq!(resolve_english_label(&labels), None);
    assert_eq!(resolve_english_label(&Vec::new()), None);
}

#[test]
fn a_non_literal_value_makes_resolution_fail() {
    let labels = vec![literal("object aggregate", Some("en")), LabelTerm::NonLiteral];
    assert_eq!(resolve_english_label(&labels), None);
    let labels = vec![LabelTerm::NonLiteral, literal("object aggregate", Some("en"))];
    assert_eq!(resolve_english_label(&labels), None);
}

#[test]
fn sorting_orders_and_deduplicates() {
    let items = vec!["b".to_string(), "a".to_string(), "b".to_string(), "c".to_string()];
    assert_eq!(sort_unique(items), vec!["a".to_string(), "b".to_string(), "c".to_string()]);
    assert_eq!(sort_unique(Vec::new()), Vec::<String>::new());
}
