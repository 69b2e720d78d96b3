//! The data model of the pipeline: label values read from the store, the
//! intermediate ontology term, the synthesized match record, and the error
//! taxonomy.

use vstd::prelude::*;

verus! {

/// A value attached to a subject by the label predicate: a literal with its
/// lexical text and optional language tag, or a value of any other kind.
#[derive(Debug, Clone)]
pub enum LabelTerm {
    Literal { text: String, lang: Option<String> },
    NonLiteral,
}

impl LabelTerm {
    /// The plain shape of the value: literal?, text, language tag.
    pub open spec fn key(self) -> (bool, Seq<char>, Option<Seq<char>>) {
        match self {
            LabelTerm::Literal { text, lang } => (
                true,
                text@,
                match lang {
                    Some(l) => Some(l@),
                    None => None,
                },
            ),
            LabelTerm::NonLiteral => (false, Seq::empty(), None),
        }
    }

    /// Whether the value is a literal at all.
    pub open spec fn is_literal(self) -> bool {
        self is Literal
    }

    /// Whether the value is a literal tagged as English.
    pub open spec fn is_en(self) -> bool {
        match self {
            LabelTerm::Literal { text: _, lang: Some(l) } => l@ == "en"@,
            _ => false,
        }
    }

    /// The lexical text of a literal; empty for other values.
    pub open spec fn text_view(self) -> Seq<char> {
        match self {
            LabelTerm::Literal { text, lang: _ } => text@,
            LabelTerm::NonLiteral => Seq::empty(),
        }
    }
}

/// The ghost shape of an ontology term.
#[verifier::ext_equal]
pub struct TermV {
    pub qualified_name: Seq<char>,
    pub english_label: Option<Seq<char>>,
}

/// One term extracted from the store: its qualified name and, where one was
/// resolved, its English label.
#[derive(Debug, Clone)]
pub struct OntologyTerm {
    pub qualified_name: String,
    pub english_label: Option<String>,
}

impl View for OntologyTerm {
    type V = TermV;

    open spec fn view(&self) -> TermV {
        TermV {
            qualified_name: self.qualified_name@,
            english_label: match self.english_label {
                Some(l) => Some(l@),
                None => None,
            },
        }
    }
}

/// Which kind of subject a batch of terms was extracted for.
#[derive(Debug, Clone, Copy, PartialEq, Eq, Structural)]
pub enum SubjectKind {
    Class,
    ObjectProperty,
}

/// The ghost shape of a match record.
#[verifier::ext_equal]
pub struct RecordV {
    pub trigger: Seq<char>,
    pub replacement: Seq<char>,
    pub annotation_label: Seq<char>,
}

/// One output unit for the text-expansion tool: the trigger key, the text it
/// expands to, and a human-readable annotation.
#[derive(Debug, Clone)]
pub struct MatchRecord {
    pub trigger: String,
    pub replacement: String,
    pub annotation_label: String,
}

impl View for MatchRecord {
    type V = RecordV;

    open spec fn view(&self) -> RecordV {
        RecordV {
            trigger: self.trigger@,
            replacement: self.replacement@,
            annotation_label: self.annotation_label@,
        }
    }
}

/// How triggers are synthesized from a term.
#[derive(Debug, Clone, Copy, PartialEq, Eq, Structural)]
pub enum SynthesisStrategy {
    /// Four records per term, keyed by the numeric suffix and the label's
    /// shortname; requires a label and a `LETTERS_DIGITS` local name.
    Numeric,
    /// One record per term, keyed by the hyphenated label where one exists
    /// and label preference is on, else by the qualified name.
    Direct { prefer_label: bool },
}

/// Why the pipeline failed; every failure aborts the whole run.
#[derive(Debug, Clone, Copy, PartialEq, Eq, Structural)]
pub enum PipelineError {
    /// A well-known IRI failed to construct.
    MalformedIri,
    /// The prefix table could not be built.
    PrefixTableError,
    /// A store lookup failed.
    StoreQueryError,
    /// A term lacked the English label that the numeric strategy requires.
    MissingLabel,
    /// A qualified name did not have the `LETTERS_DIGITS` local shape.
    MalformedLocalName,
}

} // verus!
