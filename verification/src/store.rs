//! The trusted boundary to the RDF triple store and the prefix table: type
//! declarations, names for what the outside calls return, and one wrapper
//! per call the extractor makes.
//!
//! Everything here states only what the relied-on crates' sources show; the
//! extractor is verified against these contracts.

use vstd::prelude::*;

use crate::model::{LabelTerm, PipelineError};

verus! {

#[verifier::external_type_specification]
#[verifier::external_body]
pub struct ExSRDFGraph(srdf::SRDFGraph);

#[verifier::external_type_specification]
#[verifier::external_body]
pub struct ExPrefixMap(prefixmap::PrefixMap);

#[verifier::external_type_specification]
#[verifier::external_body]
pub struct ExIriS(iri_s::IriS);

/// Whether oxrdf's IRI parser (`NamedNode::new`, also behind `IriS`) accepts
/// `s`; the parse depends on the characters alone.
pub uninterp spec fn iri_parses(s: Seq<char>) -> bool;

/// What the graph holds for one type query: the subjects of its triples with
/// the given predicate and object, as `Some(iri)` for a named subject and
/// `None` for a subject of any other kind.
pub uninterp spec fn graph_subjects(g: srdf::SRDFGraph, pred: Seq<char>, obj: Seq<char>) -> Set<
    Option<Seq<char>>,
>;

/// What the graph holds for one label query: the shapes (literal?, text,
/// language tag) of the objects of its triples with the given named subject
/// and predicate.
pub uninterp spec fn graph_labels(g: srdf::SRDFGraph, subject: Seq<char>, pred: Seq<char>) -> Set<
    (bool, Seq<char>, Option<Seq<char>>),
>;

/// The alias-to-namespace table a prefix map holds.
pub uninterp spec fn pm_entries(pm: prefixmap::PrefixMap) -> Map<Seq<char>, Seq<char>>;

/// Whether the prefix map carries only its default formatting: no qualify
/// colors and no hyperlinks, so `qualify` returns the plain short form. A
/// map with other formatting wraps its results in terminal escapes, which
/// none of these contracts describe.
pub uninterp spec fn pm_plain(pm: prefixmap::PrefixMap) -> bool;

/// Some namespace of the table is a prefix of the IRI.
pub open spec fn some_match(m: Map<Seq<char>, Seq<char>>, iri: Seq<char>) -> bool {
    exists|a: Seq<char>| #[trigger] m.contains_key(a) && m[a].is_prefix_of(iri)
}

/// The shape of a qualified name: where some namespace of the table is a
/// prefix of the IRI, an alias with a longest such namespace, a colon, and
/// the rest of the IRI; otherwise the whole IRI in angle brackets.
pub open spec fn qualified_shape(m: Map<Seq<char>, Seq<char>>, iri: Seq<char>, q: Seq<char>) -> bool {
    if some_match(m, iri) {
        exists|a: Seq<char>|
            {
                &&& #[trigger] m.contains_key(a)
                &&& m[a].is_prefix_of(iri)
                &&& (forall|b: Seq<char>|
                    #[trigger] m.contains_key(b) && m[b].is_prefix_of(iri) ==> m[b].len()
                        <= m[a].len())
                &&& q == a + ":"@ + iri.skip(m[a].len() as int)
            }
    } else {
        q == "<"@ + iri + ">"@
    }
}

/// Under pairwise distinct namespaces, one string has the qualified shape:
/// the longest matching namespace is unique, and so is its alias.
pub proof fn lemma_qualified_shape_unique(
    m: Map<Seq<char>, Seq<char>>,
    iri: Seq<char>,
    q1: Seq<char>,
    q2: Seq<char>,
)
    requires
        distinct_namespaces(m),
        qualified_shape(m, iri, q1),
        qualified_shape(m, iri, q2),
    ensures
        q1 == q2,
{
    if some_match(m, iri) {
        let a1 = choose|a: Seq<char>|
            {
                &&& #[trigger] m.contains_key(a)
                &&& m[a].is_prefix_of(iri)
                &&& (forall|b: Seq<char>|
                    #[trigger] m.contains_key(b) && m[b].is_prefix_of(iri) ==> m[b].len()
                        <= m[a].len())
                &&& q1 == a + ":"@ + iri.skip(m[a].len() as int)
            };
        let a2 = choose|a: Seq<char>|
            {
                &&& #[trigger] m.contains_key(a)
                &&& m[a].is_prefix_of(iri)
                &&& (forall|b: Seq<char>|
                    #[trigger] m.contains_key(b) && m[b].is_prefix_of(iri) ==> m[b].len()
                        <= m[a].len())
                &&& q2 == a + ":"@ + iri.skip(m[a].len() as int)
            };
        assert(m[a1].len() <= m[a2].len());
        assert(m[a2].len() <= m[a1].len());
        assert(m[a1] =~= m[a2]);
        assert(a1 == a2);
    }
}

/// A qualified name is never empty: a prefixed short form holds at least the
/// colon, and the fallback holds the angle brackets.
pub proof fn lemma_qualified_shape_nonempty(m: Map<Seq<char>, Seq<char>>, iri: Seq<char>, q: Seq<char>)
    requires
        qualified_shape(m, iri, q),
    ensures
        q.len() > 0,
{
    if some_match(m, iri) {
        reveal_strlit(":");
    } else {
        reveal_strlit("<");
        reveal_strlit(">");
    }
}

/// The shapes of a sequence of label values.
pub open spec fn label_keys_of(v: Seq<LabelTerm>) -> Set<(bool, Seq<char>, Option<Seq<char>>)> {
    v.map_values(|l: LabelTerm| l.key()).to_set()
}

/// The views of a sequence of optional subject IRIs.
pub open spec fn opt_views_of(v: Seq<Option<String>>) -> Seq<Option<Seq<char>>> {
    v.map_values(|o: Option<String>| crate::labels::opt_view(o))
}

/// Every namespace of the table parses as an IRI.
pub open spec fn all_namespaces_parse(m: Map<Seq<char>, Seq<char>>) -> bool {
    forall|a: Seq<char>| #[trigger] m.contains_key(a) ==> iri_parses(m[a])
}

/// The view of a prefix table given as alias/namespace pairs.
pub open spec fn table_view(t: Seq<(String, String)>) -> Seq<(Seq<char>, Seq<char>)> {
    t.map_values(|p: (String, String)| (p.0@, p.1@))
}

/// The map a pair table denotes: a repeated alias keeps its last namespace.
pub open spec fn table_map(t: Seq<(Seq<char>, Seq<char>)>) -> Map<Seq<char>, Seq<char>>
    decreases t.len(),
{
    if t.len() == 0 {
        Map::empty()
    } else {
        table_map(t.drop_last()).insert(t.last().0, t.last().1)
    }
}

/// No two aliases carry the same namespace; under this the longest-match
/// qualification has one answer.
pub open spec fn distinct_namespaces(m: Map<Seq<char>, Seq<char>>) -> bool {
    forall|a: Seq<char>, b: Seq<char>|
        m.contains_key(a) && m.contains_key(b) && m[a] == m[b] ==> a == b
}

/// Relies on srdf's `triples_matching` on an in-memory `SRDFGraph`, which
/// filters the graph's triple set and cannot fail, and on oxrdf's
/// `NamedNode::new` to build the two IRIs. The subjects come back as plain
/// values; their order is not specified.
#[verifier::external_body]
pub(crate) fn subjects_with_predicate_object(g: &srdf::SRDFGraph, pred: &str, obj: &str) -> (r: Result<Vec<Option<String>>, PipelineError>)
    ensures
        r is Ok <==> (iri_parses(pred@) && iri_parses(obj@)),
        r matches Err(e) ==> e == PipelineError::MalformedIri,
        r matches Ok(v) ==> opt_views_of(v@).to_set() == graph_subjects(*g, pred@, obj@),
{
    let p = oxrdf::NamedNode::new(pred).map_err(|_| PipelineError::MalformedIri)?;
    let o = oxrdf::NamedNode::new(obj).map_err(|_| PipelineError::MalformedIri)?;
    let triples = srdf::NeighsRDF::triples_matching(g, srdf::matcher::Any, p, oxrdf::Term::NamedNode(o))
        .map_err(|_| PipelineError::StoreQueryError)?;
    Ok(triples.map(|t| match t.subject {
        oxrdf::NamedOrBlankNode::NamedNode(n) => Some(n.into_string()),
        _ => None,
    }).collect())
}

/// Relies on srdf's `triples_matching` on an in-memory `SRDFGraph`, which
/// filters the graph's triple set and cannot fail, and on oxrdf's `Literal`
/// accessors: each object comes back as its shape, a literal with its text
/// and language tag or a non-literal; their order is not specified.
#[verifier::external_body]
pub(crate) fn objects_for_subject_predicate(g: &srdf::SRDFGraph, subject: &str, pred: &str) -> (r: Result<Vec<LabelTerm>, PipelineError>)
    ensures
        r is Ok <==> (iri_parses(subject@) && iri_parses(pred@)),
        r matches Err(e) ==> e == PipelineError::MalformedIri,
        r matches Ok(v) ==> label_keys_of(v@) == graph_labels(*g, subject@, pred@),
{
    let s = oxrdf::NamedNode::new(subject).map_err(|_| PipelineError::MalformedIri)?;
    let p = oxrdf::NamedNode::new(pred).map_err(|_| PipelineError::MalformedIri)?;
    let triples = srdf::NeighsRDF::triples_matching(g, oxrdf::NamedOrBlankNode::NamedNode(s), p, srdf::matcher::Any)
        .map_err(|_| PipelineError::StoreQueryError)?;
    Ok(triples.map(|t| match t.object {
        oxrdf::Term::Literal(l) => LabelTerm::Literal {
            lang: l.language().map(|x| x.to_string()),
            text: l.value().to_string(),
        },
        _ => LabelTerm::NonLiteral,
    }).collect())
}

/// Relies on prefixmap's `from_hashmap`: the map holds exactly the given
/// entries (a repeated alias keeps the last) with the default formatting —
/// no colors, no hyperlinks — and building fails exactly when some kept
/// namespace is not an IRI by oxrdf's parser, which `IriS` uses.
#[verifier::external_body]
pub fn build_prefix_map(table: &Vec<(String, String)>) -> (r: Result<prefixmap::PrefixMap, PipelineError>)
    ensures
        r is Ok <==> all_namespaces_parse(table_map(table_view(table@))),
        r matches Err(e) ==> e == PipelineError::PrefixTableError,
        r matches Ok(pm) ==> pm_entries(pm) == table_map(table_view(table@)),
        r matches Ok(pm) ==> pm_plain(pm),
{
    let hm: std::collections::HashMap<&str, &str> = table.iter().map(
        |p| (p.0.as_str(), p.1.as_str()),
    ).collect();
    match prefixmap::PrefixMap::from_hashmap(hm) {
        Ok(pm) => Ok(pm),
        Err(_) => Err(PipelineError::PrefixTableError),
    }
}

/// Relies on prefixmap's `qualify` and `IriS::new`: on a plainly formatted
/// map the result is an alias with a longest matching namespace, a colon and
/// the rest of the IRI, or the IRI in angle brackets when nothing matches;
/// fails exactly when the IRI does not parse.
#[verifier::external_body]
pub(crate) fn qualify_iri(pm: &prefixmap::PrefixMap, iri: &str) -> (r: Result<String, PipelineError>)
    requires
        pm_plain(*pm),
        distinct_namespaces(pm_entries(*pm)),
    ensures
        r is Ok <==> iri_parses(iri@),
        r matches Err(e) ==> e == PipelineError::MalformedIri,
        r matches Ok(q) ==> qualified_shape(pm_entries(*pm), iri@, q@),
{
    match iri_s::IriS::new(iri) {
        Ok(i) => Ok(pm.qualify(&i)),
        Err(_) => Err(PipelineError::MalformedIri),
    }
}

} // verus!
