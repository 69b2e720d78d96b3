//! The trigger synthesizer: turns extracted ontology terms into match
//! records, under either the numeric (BFO-style) strategy or the direct
//! label-or-qualified-name strategy.

use vstd::prelude::*;
use vstd::string::*;

use crate::model::{MatchRecord, OntologyTerm, PipelineError, RecordV, SubjectKind, SynthesisStrategy, TermV};
use crate::text::{
    all_digits, all_letters, dec_rep, dec_val, digit_val, hyph, hyphenate, is_ascii_digit,
    is_ascii_letter, shortname, shortname_of, u32_to_dec,
};
use crate::text::lemma_dec_val_take_le;

verus! {

/// What follows the first occurrence of `c` in `s`, if `c` occurs at all.
pub open spec fn after_first(s: Seq<char>, c: char) -> Option<Seq<char>>
    decreases s.len(),
{
    if s.len() == 0 {
        None
    } else if s[0] == c {
        Some(s.skip(1))
    } else {
        after_first(s.skip(1), c)
    }
}

/// The local part of a qualified name: what follows the first colon, or the
/// whole name when it has no colon.
pub open spec fn local_of(s: Seq<char>) -> Seq<char> {
    match after_first(s, ':') {
        Some(t) => t,
        None => s,
    }
}

/// Whether a local name has the `LETTERS_DIGITS` shape: one underscore with
/// at least one ASCII letter before it and at least one decimal digit after.
pub open spec fn bfo_local_ok(local: Seq<char>) -> bool {
    match after_first(local, '_') {
        Some(digits) => {
            let letters = local.take(local.len() - digits.len() - 1);
            letters.len() > 0 && all_letters(letters) && digits.len() > 0 && all_digits(digits)
        },
        None => false,
    }
}

/// The number carried by a `LETTERS_DIGITS` local name.
pub open spec fn bfo_number(local: Seq<char>) -> nat {
    match after_first(local, '_') {
        Some(digits) => dec_val(digits),
        None => 0,
    }
}

/// Finds the first occurrence of `c` in `s`.
fn find_first(s: &str, c: char) -> (r: Option<usize>)
    ensures
        match r {
            Some(j) => j < s@.len() && s@[j as int] == c && after_first(s@, c) == Some(
                s@.skip(j + 1),
            ),
            None => after_first(s@, c) is None,
        },
{
    let n = s.unicode_len();
    let mut i: usize = 0;
    proof {
        assert(s@.skip(0) =~= s@);
    }
    while i < n
        invariant
            n == s@.len(),
            i <= n,
            after_first(s@, c) == after_first(s@.skip(i as int), c),
        decreases n - i,
    {
        let ci = s.get_char(i);
        proof {
            assert(s@.skip(i as int)[0] == s@[i as int]);
            assert(s@.skip(i as int).skip(1) =~= s@.skip(i + 1));
        }
        if ci == c {
            return Some(i);
        }
        i = i + 1;
    }
    proof {
        assert(s@.skip(n as int).len() == 0);
    }
    None
}

/// Decides whether a character is an ASCII letter.
fn is_letter_char(c: char) -> (r: bool)
    ensures
        r == is_ascii_letter(c),
{
    let v = c as u32;
    (97 <= v && v <= 122) || (65 <= v && v <= 90)
}

/// Reads the numeric suffix of the local part of `name`, which must have the
/// `LETTERS_DIGITS` shape and a value that fits in the result type.
pub fn get_bfo_short_number(name: &str) -> (r: Result<i32, PipelineError>)
    ensures
        ({
            let local = local_of(name@);
            &&& (r is Ok <==> bfo_local_ok(local) && bfo_number(local) <= i32::MAX as nat)
            &&& (r matches Ok(v) ==> v >= 0 && v as nat == bfo_number(local))
            &&& (r is Err ==> r == Err::<i32, PipelineError>(PipelineError::MalformedLocalName))
        }),
{
    let n = name.unicode_len();
    let start: usize = match find_first(name, ':') {
        Some(j) => j + 1,
        None => 0,
    };
    let local = name.substring_char(start, n);
    proof {
        assert(name@.subrange(start as int, n as int) =~= name@.skip(start as int));
        assert(name@.skip(0) =~= name@);
        assert(local@ == local_of(name@));
    }
    let k = match find_first(local, '_') {
        Some(k) => k,
        None => {
            return Err(PipelineError::MalformedLocalName);
        },
    };
    let ghost digits_g = local@.skip(k + 1);
    proof {
        assert(local@.take(local@.len() - digits_g.len() - 1) =~= local@.take(k as int));
    }
    if k == 0 {
        assert(local@.take(0).len() == 0);
        return Err(PipelineError::MalformedLocalName);
    }
    let ln = local.unicode_len();
    // The letters before the underscore.
    let mut i: usize = 0;
    while i < k
        invariant
            ln == local@.len(),
            k < ln,
            i <= k,
            local@ == local_of(name@),
            after_first(local@, '_') == Some(local@.skip(k + 1)),
            forall|j: int| 0 <= j < i ==> is_ascii_letter(#[trigger] local@[j]),
        decreases k - i,
    {
        let c = local.get_char(i);
        if !is_letter_char(c) {
            proof {
                assert(local@.take(local@.len() - local@.skip(k + 1).len() - 1) =~= local@.take(
                    k as int,
                ));
                assert(local@.take(k as int)[i as int] == local@[i as int]);
                assert(!all_letters(local@.take(k as int)));
            }
            return Err(PipelineError::MalformedLocalName);
        }
        i = i + 1;
    }
    assert(all_letters(local@.take(k as int)));
    if k + 1 >= ln {
        assert(digits_g.len() == 0);
        return Err(PipelineError::MalformedLocalName);
    }
    // The digits after the underscore, read as a decimal value.
    let mut acc: u32 = 0;
    let mut j: usize = k + 1;
    proof {
        assert(digits_g.take(0).len() == 0);
    }
    while j < ln
        invariant
            ln == local@.len(),
            k + 1 < ln,
            k + 1 <= j <= ln,
            local@ == local_of(name@),
            after_first(local@, '_') == Some(digits_g),
            digits_g == local@.skip(k + 1),
            forall|m: int| 0 <= m < j - k - 1 ==> is_ascii_digit(#[trigger] digits_g[m]),
            acc as nat == dec_val(digits_g.take(j - k - 1)),
            acc <= 0x7fffffff,
        decreases ln - j,
    {
        let c = local.get_char(j);
        let v = c as u32;
        proof {
            assert(digits_g[j - k - 1] == local@[j as int]);
        }
        if !(48 <= v && v <= 57) {
            assert(!is_ascii_digit(digits_g[j - k - 1]));
            assert(!all_digits(digits_g));
            return Err(PipelineError::MalformedLocalName);
        }
        let d: u32 = v - 48;
        assert(d as nat == digit_val(local@[j as int]));
        let ghost taken = digits_g.take(j - k - 1);
        proof {
            assert(digits_g.take(j - k) =~= taken.push(digits_g[j - k - 1]));
            assert(digits_g.take(j - k).drop_last() =~= taken);
            assert(digits_g.take(j - k).last() == digits_g[j - k - 1]);
            assert(dec_val(digits_g.take(j - k)) == dec_val(taken) * 10 + digit_val(
                digits_g[j - k - 1],
            ));
        }
        if acc > (0x7fffffffu32 - d) / 10 {
            proof {
                assert(acc * 10 + d > 0x7fffffff) by (nonlinear_arith)
                    requires
                        acc > (0x7fffffffu32 - d) / 10,
                        d < 10,
                ;
                lemma_dec_val_take_le(digits_g, j - k);
            }
            return Err(PipelineError::MalformedLocalName);
        }
        proof {
            assert(acc * 10 + d <= 0x7fffffff) by (nonlinear_arith)
                requires
                    acc <= (0x7fffffffu32 - d) / 10,
                    d < 10,
            ;
        }
        acc = acc * 10 + d;
        j = j + 1;
    }
    proof {
        assert(digits_g.take(ln - k - 1) =~= digits_g);
        assert(all_digits(digits_g));
    }
    Ok(acc as i32)
}

/// The views of a sequence of match records.
pub open spec fn records_view(rs: Seq<MatchRecord>) -> Seq<RecordV> {
    rs.map_values(|m: MatchRecord| m@)
}

/// The views of a sequence of ontology terms.
pub open spec fn terms_view(ts: Seq<OntologyTerm>) -> Seq<TermV> {
    ts.map_values(|t: OntologyTerm| t@)
}

/// The human-readable name of a subject kind.
pub open spec fn kind_name_view(kind: SubjectKind) -> Seq<char> {
    match kind {
        SubjectKind::Class => "Class"@,
        SubjectKind::ObjectProperty => "Object Property"@,
    }
}

/// The label of a term whose label is present.
pub open spec fn label_of(t: TermV) -> Seq<char> {
    match t.english_label {
        Some(l) => l,
        None => Seq::empty(),
    }
}

/// The shared annotation of the numeric strategy's records for one term.
pub open spec fn numeric_annotation(t: TermV, kind: SubjectKind) -> Seq<char> {
    "bfo:"@ + hyph(label_of(t)) + " ("@ + kind_name_view(kind) + "; "@ + t.qualified_name + ")"@
}

/// The four records of the numeric strategy for one term: the numeric and
/// shortname triggers, each expanding to the qualified name and to the
/// vocabulary-prefixed hyphenated label.
pub open spec fn numeric_records(t: TermV, kind: SubjectKind) -> Seq<RecordV> {
    let ann = numeric_annotation(t, kind);
    let numtrig = ":bfo-"@ + dec_rep(bfo_number(local_of(t.qualified_name)));
    let shorttrig = ":bfo-"@ + shortname(label_of(t));
    let hyphrep = "bfo:"@ + hyph(label_of(t));
    seq![
        RecordV { trigger: numtrig, replacement: t.qualified_name, annotation_label: ann },
        RecordV { trigger: numtrig, replacement: hyphrep, annotation_label: ann },
        RecordV { trigger: shorttrig, replacement: t.qualified_name, annotation_label: ann },
        RecordV { trigger: shorttrig, replacement: hyphrep, annotation_label: ann },
    ]
}

/// The one record of the direct strategy for a term: keyed by the hyphenated
/// label where one exists and preference is on, else by the qualified name.
pub open spec fn direct_record(t: TermV, kind: SubjectKind, prefer_label: bool) -> RecordV {
    if prefer_label && t.english_label is Some {
        RecordV {
            trigger: ":"@ + hyph(label_of(t)),
            replacement: label_of(t) + " ("@ + t.qualified_name + ")"@,
            annotation_label: label_of(t) + " ("@ + kind_name_view(kind) + ")"@,
        }
    } else {
        RecordV {
            trigger: ":"@ + t.qualified_name,
            replacement: t.qualified_name,
            annotation_label: t.qualified_name + " ("@ + kind_name_view(kind) + ")"@,
        }
    }
}

/// What synthesis yields for one term under a strategy.
pub open spec fn synth_one(t: TermV, kind: SubjectKind, strategy: SynthesisStrategy) -> Result<
    Seq<RecordV>,
    PipelineError,
> {
    match strategy {
        SynthesisStrategy::Numeric => {
            if t.english_label is None {
                Err(PipelineError::MissingLabel)
            } else if !(bfo_local_ok(local_of(t.qualified_name)) && bfo_number(
                local_of(t.qualified_name),
            ) <= i32::MAX as nat) {
                Err(PipelineError::MalformedLocalName)
            } else {
                Ok(numeric_records(t, kind))
            }
        },
        SynthesisStrategy::Direct { prefer_label } => Ok(
            seq![direct_record(t, kind, prefer_label)],
        ),
    }
}

/// What synthesis yields for a batch of terms: the records of each term in
/// order, or the first term's error.
pub open spec fn synth_all(ts: Seq<TermV>, kind: SubjectKind, strategy: SynthesisStrategy) -> Result<
    Seq<RecordV>,
    PipelineError,
>
    decreases ts.len(),
{
    if ts.len() == 0 {
        Ok(Seq::empty())
    } else {
        match synth_one(ts[0], kind, strategy) {
            Ok(head) => match synth_all(ts.skip(1), kind, strategy) {
                Ok(rest) => Ok(head + rest),
                Err(e) => Err(e),
            },
            Err(e) => Err(e),
        }
    }
}

/// The human-readable name of a subject kind.
pub fn kind_name(kind: SubjectKind) -> (r: &'static str)
    ensures
        r@ == kind_name_view(kind),
{
    match kind {
        SubjectKind::Class => "Class",
        SubjectKind::ObjectProperty => "Object Property",
    }
}

/// Synthesizes the numeric strategy's four records for one term.
fn synthesize_numeric_term(term: &OntologyTerm, kind: SubjectKind) -> (r: Result<
    Vec<MatchRecord>,
    PipelineError,
>)
    ensures
        synth_one(term@, kind, SynthesisStrategy::Numeric) == (match r {
            Ok(recs) => Ok::<Seq<RecordV>, PipelineError>(records_view(recs@)),
            Err(e) => Err::<Seq<RecordV>, PipelineError>(e),
        }),
{
    let label = match &term.english_label {
        Some(l) => l,
        None => {
            return Err(PipelineError::MissingLabel);
        },
    };
    let num = match get_bfo_short_number(term.qualified_name.as_str()) {
        Ok(v) => v,
        Err(e) => {
            return Err(e);
        },
    };
    let hyphlabel = hyphenate(label.as_str());
    let shortn = shortname_of(label.as_str());
    let numstr = u32_to_dec(num as u32);

    let mut ann = String::from_str("bfo:");
    ann.append(hyphlabel.as_str());
    ann.append(" (");
    ann.append(kind_name(kind));
    ann.append("; ");
    ann.append(term.qualified_name.as_str());
    ann.append(")");
    assert(ann@ == numeric_annotation(term@, kind));

    let mut numtrig = String::from_str(":bfo-");
    numtrig.append(numstr.as_str());
    let mut shorttrig = String::from_str(":bfo-");
    shorttrig.append(shortn.as_str());
    let mut hyphrep = String::from_str("bfo:");
    hyphrep.append(hyphlabel.as_str());

    let mut recs: Vec<MatchRecord> = Vec::new();
    recs.push(
        MatchRecord {
            trigger: numtrig.clone(),
            replacement: term.qualified_name.clone(),
            annotation_label: ann.clone(),
        },
    );
    recs.push(
        MatchRecord {
            trigger: numtrig,
            replacement: hyphrep.clone(),
            annotation_label: ann.clone(),
        },
    );
    recs.push(
        MatchRecord {
            trigger: shorttrig.clone(),
            replacement: term.qualified_name.clone(),
            annotation_label: ann.clone(),
        },
    );
    recs.push(
        MatchRecord { trigger: shorttrig, replacement: hyphrep, annotation_label: ann },
    );
    proof {
        assert(records_view(recs@) =~~= numeric_records(term@, kind));
    }
    Ok(recs)
}

/// Synthesizes the direct strategy's one record for one term.
fn synthesize_direct_term(term: &OntologyTerm, kind: SubjectKind, prefer_label: bool) -> (rec:
    MatchRecord)
    ensures
        rec@ == direct_record(term@, kind, prefer_label),
{
    let use_label: bool = prefer_label && term.english_label.is_some();
    if use_label {
        let label = match &term.english_label {
            Some(l) => l,
            None => {
                unreached()
            },
        };
        let mut trigger = String::from_str(":");
        trigger.append(hyphenate(label.as_str()).as_str());
        let mut replacement = label.clone();
        replacement.append(" (");
        replacement.append(term.qualified_name.as_str());
        replacement.append(")");
        let mut annotation = label.clone();
        annotation.append(" (");
        annotation.append(kind_name(kind));
        annotation.append(")");
        let rec = MatchRecord { trigger, replacement, annotation_label: annotation };
        proof {
            assert(rec@ =~~= direct_record(term@, kind, prefer_label));
        }
        rec
    } else {
        let mut trigger = String::from_str(":");
        trigger.append(term.qualified_name.as_str());
        let mut annotation = term.qualified_name.clone();
        annotation.append(" (");
        annotation.append(kind_name(kind));
        annotation.append(")");
        let rec = MatchRecord {
            trigger,
            replacement: term.qualified_name.clone(),
            annotation_label: annotation,
        };
        proof {
            assert(rec@ =~~= direct_record(term@, kind, prefer_label));
        }
        rec
    }
}

/// Synthesizes match records for a whole batch of terms under one strategy:
/// the records of each term in extraction order, or the first failure.
pub fn synthesize(terms: &Vec<OntologyTerm>, kind: SubjectKind, strategy: SynthesisStrategy) -> (r:
    Result<Vec<MatchRecord>, PipelineError>)
    ensures
        synth_all(terms_view(terms@), kind, strategy) == (match r {
            Ok(recs) => Ok::<Seq<RecordV>, PipelineError>(records_view(recs@)),
            Err(e) => Err::<Seq<RecordV>, PipelineError>(e),
        }),
{
    let ghost all = terms_view(terms@);
    let mut out: Vec<MatchRecord> = Vec::new();
    let mut i: usize = 0;
    proof {
        assert(all.skip(0) =~= all);
        assert(records_view(out@) =~= Seq::<RecordV>::empty());
    }
    while i < terms.len()
        invariant
            all == terms_view(terms@),
            i <= terms.len(),
            synth_all(all, kind, strategy) == (match synth_all(
                all.skip(i as int),
                kind,
                strategy,
            ) {
                Ok(rest) => Ok::<Seq<RecordV>, PipelineError>(records_view(out@) + rest),
                Err(e) => Err::<Seq<RecordV>, PipelineError>(e),
            }),
        decreases terms.len() - i,
    {
        let term = &terms[i];
        proof {
            assert(all.skip(i as int)[0] == all[i as int]);
            assert(all[i as int] == term@);
            assert(all.skip(i as int).skip(1) =~= all.skip(i + 1));
        }
        let head: Vec<MatchRecord> = match strategy {
            SynthesisStrategy::Numeric => {
                match synthesize_numeric_term(term, kind) {
                    Ok(recs) => recs,
                    Err(e) => {
                        return Err(e);
                    },
                }
            },
            SynthesisStrategy::Direct { prefer_label } => {
                let rec = synthesize_direct_term(term, kind, prefer_label);
                let mut v: Vec<MatchRecord> = Vec::new();
                v.push(rec);
                proof {
                    assert(records_view(v@) =~= seq![rec@]);
                }
                v
            },
        };
        let ghost pre = out@;
        let ghost headv = head@;
        let mut rest = head;
        out.append(&mut rest);
        proof {
            assert(out@ =~= pre + headv);
            assert(records_view(pre + headv) =~= records_view(pre) + records_view(headv));
            assert(synth_one(all.skip(i as int)[0], kind, strategy) == Ok::<
                Seq<RecordV>,
                PipelineError,
            >(records_view(headv)));
            let sub = synth_all(all.skip(i + 1), kind, strategy);
            match sub {
                Ok(tail) => {
                    assert(synth_all(all.skip(i as int), kind, strategy) == Ok::<
                        Seq<RecordV>,
                        PipelineError,
                    >(records_view(headv) + tail));
                    assert(records_view(pre) + (records_view(headv) + tail) =~= (records_view(pre)
                        + records_view(headv)) + tail);
                },
                Err(e) => {
                    assert(synth_all(all.skip(i as int), kind, strategy) == Err::<
                        Seq<RecordV>,
                        PipelineError,
                    >(e));
                },
            }
        }
        i = i + 1;
    }
    proof {
        assert(all.skip(terms@.len() as int).len() == 0);
        assert(records_view(out@) + Seq::<RecordV>::empty() =~= records_view(out@));
    }
    Ok(out)
}

/// The shortname of a label: the first letter of each space-separated word.
pub fn get_bfo_short_name(label: &str) -> (r: String)
    ensures
        r@ == shortname(label@),
{
    shortname_of(label)
}

/// The shortname of a name: the first letter of each space-separated word.
pub fn get_shortname(name: String) -> (r: String)
    ensures
        r@ == shortname(name@),
{
    shortname_of(name.as_str())
}

} // verus!
