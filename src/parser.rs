use vstd::prelude::*;
use vstd::string::*;
use crate::text::char_vec;
use crate::statement::{
    Extra, ExtraModel, Object, ObjectModel, Statement, StatementModel, Subject, SubjectModel,
};

verus! {

/// A line that does not hold a statement: its number and its text.
#[derive(Debug)]
pub struct ParseError {
    pub line: u64,
    pub text: String,
}

// ---------------------------------------------------------------------------
// The grammar, stated over the characters of a line.
// Positions are character indices; a token either ends at a position or is absent.
// ---------------------------------------------------------------------------
/// Unicode white space (the `White_Space` property).
pub open spec fn is_space(c: char) -> bool {
    let u = c as u32;
    ||| 0x9 <= u <= 0xD
    ||| u == 0x20
    ||| u == 0x85
    ||| u == 0xA0
    ||| u == 0x1680
    ||| 0x2000 <= u <= 0x200A
    ||| u == 0x2028
    ||| u == 0x2029
    ||| u == 0x202F
    ||| u == 0x205F
    ||| u == 0x3000
}

/// An ASCII letter.
pub open spec fn is_letter(c: char) -> bool {
    ('a' <= c && c <= 'z') || ('A' <= c && c <= 'Z')
}

/// An ASCII letter or digit.
pub open spec fn is_alnum(c: char) -> bool {
    is_letter(c) || ('0' <= c && c <= '9')
}

/// The first position at or after `i` that is not white space.
pub open spec fn skip_space(s: Seq<char>, i: int) -> int
    decreases s.len() - i,
{
    if 0 <= i < s.len() && is_space(s[i]) {
        skip_space(s, i + 1)
    } else {
        i
    }
}

/// The end of the run of non-space characters that starts at `i`.
pub open spec fn label_end(s: Seq<char>, i: int) -> int
    decreases s.len() - i,
{
    if 0 <= i < s.len() && !is_space(s[i]) {
        label_end(s, i + 1)
    } else {
        i
    }
}

/// The first position at or after `i` that holds `c`, or the length if there is none.
pub open spec fn find_char(s: Seq<char>, i: int, c: char) -> int
    decreases s.len() - i,
{
    if 0 <= i < s.len() && s[i] != c {
        find_char(s, i + 1, c)
    } else {
        i
    }
}

/// `find_char` stays between its start and the end of the text.
pub proof fn lemma_find_char_bounds(s: Seq<char>, i: int, c: char)
    requires
        0 <= i <= s.len(),
    ensures
        i <= find_char(s, i, c) <= s.len(),
    decreases s.len() - i,
{
    if i < s.len() && s[i] != c {
        lemma_find_char_bounds(s, i + 1, c);
    }
}

/// The end of the run of ASCII letters that starts at `i`.
pub open spec fn letters_end(s: Seq<char>, i: int) -> int
    decreases s.len() - i,
{
    if 0 <= i < s.len() && is_letter(s[i]) {
        letters_end(s, i + 1)
    } else {
        i
    }
}

/// Inside a language subtag: the end of the longest run of `[a-zA-Z0-9]` and `-[a-zA-Z0-9]`.
pub open spec fn subtag_run(s: Seq<char>, j: int) -> int
    decreases s.len() - j,
{
    if 0 <= j < s.len() && is_alnum(s[j]) {
        subtag_run(s, j + 1)
    } else if 0 <= j && j + 1 < s.len() && s[j] == '-' && is_alnum(s[j + 1]) {
        subtag_run(s, j + 2)
    } else {
        j
    }
}

/// After the primary subtag of a language tag, which ends at `j`: the end of the whole tag.
pub open spec fn lang_end(s: Seq<char>, j: int) -> int {
    if 0 <= j && j + 1 < s.len() && s[j] == '-' && is_alnum(s[j + 1]) {
        subtag_run(s, j + 2)
    } else {
        j
    }
}

/// An IRI `<...>` (no `>` inside) that opens at `i`: its text and the position after it.
pub open spec fn iri_at(s: Seq<char>, i: int) -> Option<(Seq<char>, int)> {
    let j = find_char(s, i + 1, '>');
    if 0 <= i < s.len() && s[i] == '<' && j < s.len() {
        Some((s.subrange(i + 1, j), j + 1))
    } else {
        None
    }
}

/// A blank node `_:label` that starts at `i`, its label as long as possible.
pub open spec fn blank_at(s: Seq<char>, i: int) -> Option<(Seq<char>, int)> {
    let e = label_end(s, i + 2);
    if 0 <= i && i + 1 < s.len() && s[i] == '_' && s[i + 1] == ':' && e > i + 2 {
        Some((s.subrange(i + 2, e), e))
    } else {
        None
    }
}

/// What follows a literal's closing quote, which ends at `p`.
pub open spec fn extra_at(s: Seq<char>, p: int) -> ExtraModel {
    if 0 <= p && p + 1 < s.len() && s[p] == '@' && is_letter(s[p + 1]) {
        ExtraModel::Lang(s.subrange(p + 1, lang_end(s, letters_end(s, p + 1))))
    } else if 0 <= p && p + 1 < s.len() && s[p] == '^' && s[p + 1] == '^' {
        match iri_at(s, p + 2) {
            Some((t, _)) => ExtraModel::Type(t),
            None => ExtraModel::Plain,
        }
    } else {
        ExtraModel::Plain
    }
}

/// A literal `"..."` (no `"` inside) that opens at `i`, with what follows it.
pub open spec fn literal_at(s: Seq<char>, i: int) -> Option<ObjectModel> {
    let j = find_char(s, i + 1, '"');
    if 0 <= i < s.len() && s[i] == '"' && j < s.len() {
        Some(ObjectModel::Literal(s.subrange(i + 1, j), extra_at(s, j + 1)))
    } else {
        None
    }
}

/// The object that starts at `i`.
pub open spec fn object_at(s: Seq<char>, i: int) -> Option<ObjectModel> {
    match iri_at(s, i) {
        Some((iri, _)) => Some(ObjectModel::Iri(iri)),
        None => match blank_at(s, i) {
            Some((b, _)) => Some(ObjectModel::Blank(b)),
            None => literal_at(s, i),
        },
    }
}

/// Predicate and object after the subject, which ends at `k`.
pub open spec fn rest_at(s: Seq<char>, k: int) -> Option<(Seq<char>, ObjectModel)> {
    match iri_at(s, skip_space(s, k)) {
        Some((p, q)) => match object_at(s, skip_space(s, q)) {
            Some(o) => Some((p, o)),
            None => None,
        },
        None => None,
    }
}

/// The end of a blank subject label that starts at `lo`: the greatest `k` with
/// `lo < k <= hi` after which the rest of the statement follows.
pub open spec fn blank_split(s: Seq<char>, lo: int, hi: int) -> Option<int>
    decreases hi - lo,
{
    if hi <= lo {
        None
    } else if rest_at(s, hi) is Some {
        Some(hi)
    } else {
        blank_split(s, lo, hi - 1)
    }
}

/// The statement that a line holds, read from its start; what follows the object is ignored.
pub open spec fn statement_of(s: Seq<char>) -> Option<StatementModel> {
    let i = skip_space(s, 0);
    match iri_at(s, i) {
        Some((subject, k)) => match rest_at(s, k) {
            Some((p, o)) => Some(
                StatementModel { subject: SubjectModel::Iri(subject), predicate: p, object: o },
            ),
            None => None,
        },
        None => if 0 <= i && i + 1 < s.len() && s[i] == '_' && s[i + 1] == ':' {
            match blank_split(s, i + 2, label_end(s, i + 2)) {
                Some(k) => match rest_at(s, k) {
                    Some((p, o)) => Some(
                        StatementModel {
                            subject: SubjectModel::Blank(s.subrange(i + 2, k)),
                            predicate: p,
                            object: o,
                        },
                    ),
                    None => None,
                },
                None => None,
            }
        } else {
            None
        },
    }
}

// ---------------------------------------------------------------------------
// Executable scanning.
// ---------------------------------------------------------------------------
fn is_space_char(c: char) -> (r: bool)
    ensures
        r == is_space(c),
{
    let u = c as u32;
    (0x9 <= u && u <= 0xD) || u == 0x20 || u == 0x85 || u == 0xA0 || u == 0x1680 || (0x2000 <= u
        && u <= 0x200A) || u == 0x2028 || u == 0x2029 || u == 0x202F || u == 0x205F || u == 0x3000
}

fn is_letter_char(c: char) -> (r: bool)
    ensures
        r == is_letter(c),
{
    ('a' <= c && c <= 'z') || ('A' <= c && c <= 'Z')
}

fn is_alnum_char(c: char) -> (r: bool)
    ensures
        r == is_alnum(c),
{
    is_letter_char(c) || ('0' <= c && c <= '9')
}

fn skip_space_from(s: &Vec<char>, i: usize) -> (r: usize)
    requires
        i <= s.len(),
    ensures
        r == skip_space(s@, i as int),
        i <= r <= s.len(),
{
    let mut j = i;
    while j < s.len() && is_space_char(s[j])
        invariant
            i <= j <= s.len(),
            skip_space(s@, j as int) == skip_space(s@, i as int),
        decreases s.len() - j,
    {
        j = j + 1;
    }
    j
}

fn label_end_from(s: &Vec<char>, i: usize) -> (r: usize)
    requires
        i <= s.len(),
    ensures
        r == label_end(s@, i as int),
        i <= r <= s.len(),
{
    let mut j = i;
    while j < s.len() && !is_space_char(s[j])
        invariant
            i <= j <= s.len(),
            label_end(s@, j as int) == label_end(s@, i as int),
        decreases s.len() - j,
    {
        j = j + 1;
    }
    j
}

pub(crate) fn find_char_from(s: &Vec<char>, i: usize, c: char) -> (r: usize)
    requires
        i <= s.len(),
    ensures
        r == find_char(s@, i as int, c),
        i <= r <= s.len(),
{
    let mut j = i;
    while j < s.len() && s[j] != c
        invariant
            i <= j <= s.len(),
            find_char(s@, j as int, c) == find_char(s@, i as int, c),
        decreases s.len() - j,
    {
        j = j + 1;
    }
    j
}

fn letters_end_from(s: &Vec<char>, i: usize) -> (r: usize)
    requires
        i <= s.len(),
    ensures
        r == letters_end(s@, i as int),
        i <= r <= s.len(),
{
    let mut j = i;
    while j < s.len() && is_letter_char(s[j])
        invariant
            i <= j <= s.len(),
            letters_end(s@, j as int) == letters_end(s@, i as int),
        decreases s.len() - j,
    {
        j = j + 1;
    }
    j
}

fn lang_end_from(s: &Vec<char>, i: usize) -> (r: usize)
    requires
        i <= s.len(),
    ensures
        r == lang_end(s@, i as int),
        i <= r <= s.len(),
{
    if !(i < s.len() && i + 1 < s.len() && s[i] == '-' && is_alnum_char(s[i + 1])) {
        return i;
    }
    let mut j = i + 2;
    while (j < s.len() && is_alnum_char(s[j])) || (j < s.len() && j + 1 < s.len() && s[j] == '-'
        && is_alnum_char(s[j + 1]))
        invariant
            i + 2 <= j <= s.len(),
            subtag_run(s@, j as int) == lang_end(s@, i as int),
        decreases s.len() - j,
    {
        if j < s.len() && is_alnum_char(s[j]) {
            j = j + 1;
        } else {
            j = j + 2;
        }
    }
    j
}

/// The IRI that opens at `i`, and the position after it.
fn iri_from<'a>(input: &'a str, s: &Vec<char>, i: usize) -> (r: Option<(&'a str, usize)>)
    requires
        s@ == input@,
        i <= s.len(),
    ensures
        match r {
            Some((t, n)) => iri_at(s@, i as int) == Some((t@, n as int)) && n <= s.len(),
            None => iri_at(s@, i as int) is None,
        },
{
    if i < s.len() && s[i] == '<' {
        let j = find_char_from(s, i + 1, '>');
        if j < s.len() {
            return Some((input.substring_char(i + 1, j), j + 1));
        }
    }
    None
}

/// The blank node that starts at `i`, and the position after it.
fn blank_from<'a>(input: &'a str, s: &Vec<char>, i: usize) -> (r: Option<(&'a str, usize)>)
    requires
        s@ == input@,
        i <= s.len(),
    ensures
        match r {
            Some((t, n)) => blank_at(s@, i as int) == Some((t@, n as int)) && n <= s.len(),
            None => blank_at(s@, i as int) is None,
        },
{
    if i < s.len() && i + 1 < s.len() && s[i] == '_' && s[i + 1] == ':' {
        let e = label_end_from(s, i + 2);
        if e > i + 2 {
            return Some((input.substring_char(i + 2, e), e));
        }
    }
    None
}

fn extra_from<'a>(input: &'a str, s: &Vec<char>, p: usize) -> (r: Extra<'a>)
    requires
        s@ == input@,
        p <= s.len(),
    ensures
        r@ == extra_at(s@, p as int),
{
    if p < s.len() && p + 1 < s.len() && s[p] == '@' && is_letter_char(s[p + 1]) {
        let e = lang_end_from(s, letters_end_from(s, p + 1));
        Extra::Lang(input.substring_char(p + 1, e))
    } else if p < s.len() && p + 1 < s.len() && s[p] == '^' && s[p + 1] == '^' {
        match iri_from(input, s, p + 2) {
            Some((t, _)) => Extra::Type(t),
            None => Extra::Plain,
        }
    } else {
        Extra::Plain
    }
}

fn object_from<'a>(input: &'a str, s: &Vec<char>, i: usize) -> (r: Option<Object<'a>>)
    requires
        s@ == input@,
        i <= s.len(),
    ensures
        match r {
            Some(o) => object_at(s@, i as int) == Some(o@),
            None => object_at(s@, i as int) is None,
        },
{
    if let Some((iri, _)) = iri_from(input, s, i) {
        return Some(Object::IRI(iri));
    }
    if let Some((b, _)) = blank_from(input, s, i) {
        return Some(Object::Blank(b));
    }
    if i < s.len() && s[i] == '"' {
        let j = find_char_from(s, i + 1, '"');
        if j < s.len() {
            let extra = extra_from(input, s, j + 1);
            return Some(Object::Literal(input.substring_char(i + 1, j), extra));
        }
    }
    None
}

fn rest_from<'a>(input: &'a str, s: &Vec<char>, k: usize) -> (r: Option<(&'a str, Object<'a>)>)
    requires
        s@ == input@,
        k <= s.len(),
    ensures
        match r {
            Some((p, o)) => rest_at(s@, k as int) == Some((p@, o@)),
            None => rest_at(s@, k as int) is None,
        },
{
    match iri_from(input, s, skip_space_from(s, k)) {
        Some((p, q)) => match object_from(input, s, skip_space_from(s, q)) {
            Some(o) => Some((p, o)),
            None => None,
        },
        None => None,
    }
}

/// Parses one line into a statement. `line` is the line's number, kept in the error.
pub fn parse<'a>(line: u64, input: &'a str) -> (r: Result<Statement<'a>, ParseError>)
    ensures
        match r {
            Ok(st) => statement_of(input@) == Some(st@),
            Err(e) => statement_of(input@) is None && e.line == line && e.text@ == input@,
        },
{
    let s = char_vec(input);
    let i = skip_space_from(&s, 0);
    if let Some((subject, k)) = iri_from(input, &s, i) {
        if let Some((predicate, object)) = rest_from(input, &s, k) {
            return Ok(Statement { subject: Subject::IRI(subject), predicate, object });
        }
    } else if i < s.len() && i + 1 < s.len() && s[i] == '_' && s[i + 1] == ':' {
        let lo = i + 2;
        let hi = label_end_from(&s, lo);
        let mut k = hi;
        while k > lo
            invariant
                s@ == input@,
                i == skip_space(s@, 0),
                iri_at(s@, i as int) is None,
                i + 1 < s.len() && s@[i as int] == '_' && s@[i + 1] == ':',
                lo == i + 2,
                hi == label_end(s@, lo as int),
                lo <= k <= hi <= s.len(),
                blank_split(s@, lo as int, k as int) == blank_split(s@, lo as int, hi as int),
            decreases k,
        {
            if let Some((predicate, object)) = rest_from(input, &s, k) {
                assert(blank_split(s@, lo as int, k as int) == Some(k as int));
                let subject = Subject::Blank(input.substring_char(lo, k));
                return Ok(Statement { subject, predicate, object });
            }
            k = k - 1;
        }
    }
    Err(ParseError { line, text: input.to_owned() })
}

} // verus!
