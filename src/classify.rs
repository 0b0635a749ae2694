use vstd::prelude::*;
use vstd::string::*;
use crate::counts::{add_count, Counts};
use crate::escape::{unescape, unescaped, EscapeError};
use crate::parser::{parse, statement_of, ParseError};
use crate::statement::{
    Extra, ExtraModel, Object, ObjectModel, Statement, StatementModel, Subject, SubjectModel,
};
use crate::tables::Tables;
use crate::text::{starts_with, strip_prefix};

verus! {

/// Start of the IRIs that name entities; what follows it is the entity's identifier.
pub const ENTITY_IRI_PREFIX: &'static str = "http://www.wikidata.org/entity/Q";

/// Start of the predicates that are direct properties.
pub const DIRECT_PROPERTY_IRI_PREFIX: &'static str = "http://www.wikidata.org/prop/direct/";

/// Start of the subjects that describe entity data pages, which are dropped.
pub const IGNORED_SUBJECT_PREFIX: &'static str = "https://www.wikidata.org/wiki/Special:EntityData";

/// Datatype of geometry literals.
pub const GEO_SHAPE_DATATYPE: &'static str = "http://www.opengis.net/ont/geosparql#wktLiteral";

/// A subject IRI whose statements are dropped.
pub open spec fn is_ignored_subject(iri: Seq<char>) -> bool {
    starts_with(iri, IGNORED_SUBJECT_PREFIX@)
}

/// The entity identifier of a subject: what follows the entity prefix of an IRI.
pub open spec fn entity_of(subject: SubjectModel) -> Option<Seq<char>> {
    match subject {
        SubjectModel::Iri(iri) => if starts_with(iri, ENTITY_IRI_PREFIX@) {
            Some(iri.skip(ENTITY_IRI_PREFIX@.len() as int))
        } else {
            None
        },
        SubjectModel::Blank(_) => None,
    }
}

/// The property of a direct-property predicate: what follows the direct prefix.
pub open spec fn direct_property_of(predicate: Seq<char>) -> Option<Seq<char>> {
    if starts_with(predicate, DIRECT_PROPERTY_IRI_PREFIX@) {
        Some(predicate.skip(DIRECT_PROPERTY_IRI_PREFIX@.len() as int))
    } else {
        None
    }
}

/// Whether a statement is kept in the output.
pub open spec fn acceptable(tables: &Tables, st: StatementModel) -> bool {
    &&& !tables.excluded@.contains(st.predicate)
    &&& !tables.excluded_identifiers@.contains(st.predicate)
    &&& match st.subject {
        SubjectModel::Blank(_) => false,
        SubjectModel::Iri(iri) => !is_ignored_subject(iri),
    }
    &&& match st.object {
        ObjectModel::Blank(_) => false,
        ObjectModel::Literal(_, ExtraModel::Lang(lang)) => tables.languages@.contains(lang),
        ObjectModel::Literal(value, ExtraModel::Type(t)) => !(t == GEO_SHAPE_DATATYPE@
            && starts_with(value, "<"@)),
        _ => true,
    }
}

/// The literal text, escapes not yet read, of the label that a statement gives.
pub open spec fn label_source(tables: &Tables, st: StatementModel) -> Option<Seq<char>> {
    if tables.labels@.contains(st.predicate) {
        match st.object {
            ObjectModel::Literal(value, ExtraModel::Lang(lang)) => if tables.languages@.contains(
                lang,
            ) {
                Some(value)
            } else {
                None
            },
            _ => None,
        }
    } else {
        None
    }
}

/// One line of the labels output.
pub open spec fn label_line(id: Seq<char>, label: Seq<char>) -> Seq<char> {
    id + " "@ + label + "\n"@
}

/// What a statement adds to the labels output of the entity `id`, or the position
/// of the escape in its label that cannot be read.
pub open spec fn label_output(tables: &Tables, id: Seq<char>, st: StatementModel) -> Result<
    Seq<char>,
    int,
> {
    match label_source(tables, st) {
        None => Ok(seq![]),
        Some(v) => match unescaped(v) {
            Ok(t) => Ok(label_line(id, t)),
            Err(e) => Err(e),
        },
    }
}

/// The counts after a statement about the entity `id`: one more where its
/// predicate is a direct property.
pub open spec fn count_after(counts: Map<Seq<char>, u64>, id: Seq<char>, st: StatementModel) -> Map<
    Seq<char>,
    u64,
> {
    if direct_property_of(st.predicate) is Some {
        add_count(counts, id, 1)
    } else {
        counts
    }
}

/// A counter that is absent or well formed.
pub open spec fn counter_wf(c: Option<Counts>) -> bool {
    match c {
        Some(c) => c.wf(),
        None => true,
    }
}

/// A line that could not be handled.
#[derive(Debug)]
pub enum LineError {
    Parse(ParseError),
    Escape(EscapeError),
}

/// `s` holds exactly `expected`.
fn is_text(s: &str, expected: &str) -> (r: bool)
    ensures
        r == (s@ == expected@),
{
    match strip_prefix(s, expected) {
        Some(rest) => {
            assert(rest@.len() == s@.len() - expected@.len());
            proof {
                if rest@.len() == 0 {
                    assert(s@ =~= s@.subrange(0, expected@.len() as int));
                }
            }
            rest.is_empty()
        },
        None => {
            proof {
                if s@ == expected@ {
                    assert(s@.subrange(0, expected@.len() as int) =~= s@);
                }
            }
            false
        },
    }
}

/// Whether a subject IRI describes an entity data page.
pub fn ignored_subject(iri: &str) -> (r: bool)
    ensures
        r == is_ignored_subject(iri@),
{
    strip_prefix(iri, IGNORED_SUBJECT_PREFIX).is_some()
}

/// The entity identifier of a subject, if it names an entity.
pub fn entity<'a>(subject: Subject<'a>) -> (r: Option<&'a str>)
    ensures
        match r {
            Some(id) => entity_of(subject@) == Some(id@),
            None => entity_of(subject@) is None,
        },
{
    match subject {
        Subject::IRI(iri) => strip_prefix(iri, ENTITY_IRI_PREFIX),
        Subject::Blank(_) => None,
    }
}

/// The property of a direct-property predicate.
pub fn direct_property(predicate: &str) -> (r: Option<&str>)
    ensures
        match r {
            Some(p) => direct_property_of(predicate@) == Some(p@),
            None => direct_property_of(predicate@) is None,
        },
{
    strip_prefix(predicate, DIRECT_PROPERTY_IRI_PREFIX)
}

/// Whether a statement is kept in the output.
pub fn is_acceptable(tables: &Tables, statement: Statement) -> (r: bool)
    ensures
        r == acceptable(tables, statement@),
{
    if tables.excluded.contains(statement.predicate) || tables.excluded_identifiers.contains(
        statement.predicate,
    ) {
        return false;
    }
    match statement.subject {
        Subject::Blank(_) => {
            return false;
        },
        Subject::IRI(iri) => {
            if ignored_subject(iri) {
                return false;
            }
        },
    }
    match statement.object {
        Object::Blank(_) => false,
        Object::Literal(_, Extra::Lang(lang)) => tables.languages.contains(lang),
        Object::Literal(value, Extra::Type(t)) => !(is_text(t, GEO_SHAPE_DATATYPE) && strip_prefix(
            value,
            "<",
        ).is_some()),
        _ => true,
    }
}

/// The label that a statement gives, its escapes read.
pub fn label(tables: &Tables, statement: Statement) -> (r: Result<Option<String>, EscapeError>)
    ensures
        match label_source(tables, statement@) {
            None => r matches Ok(None),
            Some(v) => match r {
                Ok(Some(t)) => unescaped(v) == Ok::<Seq<char>, int>(t@),
                Ok(None) => false,
                Err(e) => unescaped(v) == Err::<Seq<char>, int>(e.index as int) && e.input@ == v,
            },
        },
{
    if !tables.labels.contains(statement.predicate) {
        return Ok(None);
    }
    if let Object::Literal(value, Extra::Lang(lang)) = statement.object {
        if !tables.languages.contains(lang) {
            return Ok(None);
        }
        return match unescape(value) {
            Ok(t) => Ok(Some(t)),
            Err(e) => Err(e),
        };
    }
    Ok(None)
}

/// Appends `line` to the output when the statement it holds is kept.
pub fn maybe_write_line(tables: &Tables, lines_writer: &mut String, line: &str, statement: Statement)
    ensures
        final(lines_writer)@ == old(lines_writer)@ + (if acceptable(tables, statement@) {
            line@
        } else {
            Seq::<char>::empty()
        }),
{
    if !is_acceptable(tables, statement) {
        assert(old(lines_writer)@ + Seq::<char>::empty() =~= old(lines_writer)@);
        return;
    }
    lines_writer.append(line);
}

/// Appends the label line that a statement about the entity `id` gives, where labels
/// are written.
pub fn maybe_write_label(
    tables: &Tables,
    labels_writer: &mut Option<String>,
    id: &str,
    statement: Statement,
) -> (r: Result<(), EscapeError>)
    ensures
        match *old(labels_writer) {
            None => r is Ok && *final(labels_writer) == *old(labels_writer),
            Some(w) => match label_output(tables, id@, statement@) {
                Ok(out) => r is Ok && match *final(labels_writer) {
                    Some(f) => f@ == w@ + out,
                    None => false,
                },
                Err(e) => match r {
                    Ok(_) => false,
                    Err(err) => err.index == e && err.input@ == label_source(
                        tables,
                        statement@,
                    )->0 && *final(labels_writer) == *old(labels_writer),
                },
            },
        },
{
    match labels_writer {
        None => Ok(()),
        Some(w) => match label(tables, statement) {
            Ok(Some(l)) => {
                let ghost start = w@;
                w.append(id);
                w.append(" ");
                w.append(l.as_str());
                w.append("\n");
                assert(w@ =~= start + label_line(id@, l@));
                Ok(())
            },
            Ok(None) => {
                assert(w@ + Seq::<char>::empty() =~= w@);
                Ok(())
            },
            Err(e) => Err(e),
        },
    }
}

/// Counts a statement about the entity `id`, where statements are counted.
pub fn maybe_count_statement(
    tables: &Tables,
    statement_counter: &mut Option<Counts>,
    id: &str,
    statement: Statement,
)
    requires
        counter_wf(*old(statement_counter)),
    ensures
        counter_wf(*final(statement_counter)),
        match *old(statement_counter) {
            None => *final(statement_counter) is None,
            Some(c) => match *final(statement_counter) {
                Some(f) => f@ == count_after(c@, id@, statement@),
                None => false,
            },
        },
{
    if let Some(counter) = statement_counter {
        if direct_property(statement.predicate).is_some() {
            counter.increment(id);
        }
    }
}

/// Handles one input line: writes it where its statement is kept, counts it and
/// writes its label where it is about an entity. A line that does not parse, or a
/// label whose escapes cannot be read, is an error.
pub fn handle(
    tables: &Tables,
    lines_writer: &mut String,
    labels_writer: &mut Option<String>,
    statement_counter: &mut Option<Counts>,
    number: u64,
    line: String,
) -> (r: Result<(), LineError>)
    requires
        counter_wf(*old(statement_counter)),
    ensures
        counter_wf(*final(statement_counter)),
        match statement_of(line@) {
            None => {
                &&& match r {
                    Err(LineError::Parse(e)) => e.line == number && e.text@ == line@,
                    _ => false,
                }
                &&& *final(lines_writer) == *old(lines_writer)
                &&& *final(labels_writer) == *old(labels_writer)
                &&& *final(statement_counter) == *old(statement_counter)
            },
            Some(st) => {
                &&& final(lines_writer)@ == old(lines_writer)@ + (if acceptable(tables, st) {
                    line@
                } else {
                    Seq::<char>::empty()
                })
                &&& match entity_of(st.subject) {
                    None => r is Ok && *final(labels_writer) == *old(labels_writer)
                        && *final(statement_counter) == *old(statement_counter),
                    Some(id) => {
                        &&& match *old(statement_counter) {
                            None => *final(statement_counter) is None,
                            Some(c) => match *final(statement_counter) {
                                Some(f) => f@ == count_after(c@, id, st),
                                None => false,
                            },
                        }
                        &&& match *old(labels_writer) {
                            None => r is Ok && *final(labels_writer) == *old(labels_writer),
                            Some(w) => match label_output(tables, id, st) {
                                Ok(out) => r is Ok && match *final(labels_writer) {
                                    Some(f) => f@ == w@ + out,
                                    None => false,
                                },
                                Err(e) => match r {
                                    Err(LineError::Escape(err)) => err.index == e,
                                    _ => false,
                                },
                            },
                        }
                    },
                }
            },
        },
{
    let statement = match parse(number, line.as_str()) {
        Ok(st) => st,
        Err(e) => {
            return Err(LineError::Parse(e));
        },
    };
    maybe_write_line(tables, lines_writer, line.as_str(), statement);
    let id = match entity(statement.subject) {
        Some(id) => id,
        None => {
            return Ok(());
        },
    };
    maybe_count_statement(tables, statement_counter, id, statement);
    match maybe_write_label(tables, labels_writer, id, statement) {
        Ok(()) => Ok(()),
        Err(e) => Err(LineError::Escape(e)),
    }
}

/// The decision taken on each statement of a sequence.
pub open spec fn decisions(tables: &Tables, sts: Seq<StatementModel>) -> Seq<bool> {
    sts.map_values(|st: StatementModel| acceptable(tables, st))
}

/// Whether a statement is kept depends on that statement and the tables alone:
/// evaluating the statements in another order (`reordered[i]` is `sts[order[i]]`)
/// gives each the same decision.
pub proof fn lemma_decisions_order_free(
    tables: &Tables,
    sts: Seq<StatementModel>,
    order: Seq<int>,
    reordered: Seq<StatementModel>,
)
    requires
        order.len() == sts.len(),
        reordered.len() == sts.len(),
        forall|i: int| 0 <= i < order.len() ==> 0 <= #[trigger] order[i] < sts.len(),
        forall|i: int, j: int| 0 <= i < j < order.len() ==> order[i] != order[j],
        forall|i: int| 0 <= i < order.len() ==> #[trigger] reordered[i] == sts[order[i]],
    ensures
        forall|i: int|
            0 <= i < order.len() ==> #[trigger] decisions(tables, reordered)[i] == decisions(
                tables,
                sts,
            )[order[i]],
{
    assert forall|i: int| 0 <= i < order.len() implies #[trigger] decisions(tables, reordered)[i]
        == decisions(tables, sts)[order[i]] by {
        assert(reordered[i] == sts[order[i]]);
    }
}

} // verus!
