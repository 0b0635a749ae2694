use vstd::prelude::*;

verus! {

/// What follows a literal's closing quote: nothing, a datatype IRI or a language tag.
#[derive(Debug, PartialEq, Eq, Copy, Clone)]
pub enum Extra<'a> {
    Plain,
    Type(&'a str),
    Lang(&'a str),
}

/// The subject of a statement: an IRI or a blank-node label.
#[derive(Debug, PartialEq, Eq, Copy, Clone)]
pub enum Subject<'a> {
    IRI(&'a str),
    Blank(&'a str),
}

/// The object of a statement: an IRI, a blank-node label or a literal.
#[derive(Debug, PartialEq, Eq, Copy, Clone)]
pub enum Object<'a> {
    IRI(&'a str),
    Blank(&'a str),
    Literal(&'a str, Extra<'a>),
}

/// One parsed statement; every text field borrows from the line it was read from.
#[derive(Debug, PartialEq, Eq, Copy, Clone)]
pub struct Statement<'a> {
    pub subject: Subject<'a>,
    pub predicate: &'a str,
    pub object: Object<'a>,
}

/// Mathematical value of an [`Extra`].
pub enum ExtraModel {
    Plain,
    Type(Seq<char>),
    Lang(Seq<char>),
}

/// Mathematical value of a [`Subject`].
pub enum SubjectModel {
    Iri(Seq<char>),
    Blank(Seq<char>),
}

/// Mathematical value of an [`Object`].
pub enum ObjectModel {
    Iri(Seq<char>),
    Blank(Seq<char>),
    Literal(Seq<char>, ExtraModel),
}

/// Mathematical value of a [`Statement`].
pub struct StatementModel {
    pub subject: SubjectModel,
    pub predicate: Seq<char>,
    pub object: ObjectModel,
}

impl<'a> View for Extra<'a> {
    type V = ExtraModel;

    open spec fn view(&self) -> ExtraModel {
        match *self {
            Extra::Plain => ExtraModel::Plain,
            Extra::Type(t) => ExtraModel::Type(t@),
            Extra::Lang(l) => ExtraModel::Lang(l@),
        }
    }
}

impl<'a> View for Subject<'a> {
    type V = SubjectModel;

    open spec fn view(&self) -> SubjectModel {
        match *self {
            Subject::IRI(iri) => SubjectModel::Iri(iri@),
            Subject::Blank(b) => SubjectModel::Blank(b@),
        }
    }
}

impl<'a> View for Object<'a> {
    type V = ObjectModel;

    open spec fn view(&self) -> ObjectModel {
        match *self {
            Object::IRI(iri) => ObjectModel::Iri(iri@),
            Object::Blank(b) => ObjectModel::Blank(b@),
            Object::Literal(v, e) => ObjectModel::Literal(v@, e@),
        }
    }
}

impl<'a> View for Statement<'a> {
    type V = StatementModel;

    open spec fn view(&self) -> StatementModel {
        StatementModel { subject: self.subject@, predicate: self.predicate@, object: self.object@ }
    }
}

} // verus!
