use vstd::prelude::*;
use vstd::hash_set::StringHashSet;
use vstd::string::*;
use crate::parser::{find_char, find_char_from, lemma_find_char_bounds};
use crate::text::{char_vec, push_char};

verus! {

broadcast use vstd::seq_lib::group_seq_properties;

/// Start of the direct-property IRI of a numeric property id.
pub const IDENTIFIER_DIRECT_PREFIX: &'static str = "http://www.wikidata.org/prop/direct/P";

/// Start of the normalized direct-property IRI of a numeric property id.
pub const IDENTIFIER_NORMALIZED_PREFIX: &'static str =
    "http://www.wikidata.org/prop/direct-normalized/P";

/// The line from `i` up to the newline at `j` (or up to the end), without its line ending.
pub open spec fn line_text(s: Seq<char>, i: int, j: int) -> Seq<char> {
    if i < j < s.len() && s[j - 1] == '\r' {
        s.subrange(i, j - 1)
    } else {
        s.subrange(i, j)
    }
}

/// The lines of `s` from position `i` on: split at each newline, a carriage return
/// before the newline dropped, and no empty line after a final newline.
pub open spec fn lines_from(s: Seq<char>, i: int) -> Seq<Seq<char>>
    decreases s.len() + 1 - i via lines_from_decreases
{
    if 0 <= i < s.len() {
        let j = find_char(s, i, '\n');
        seq![line_text(s, i, j)] + lines_from(s, j + 1)
    } else {
        seq![]
    }
}

#[via_fn]
proof fn lines_from_decreases(s: Seq<char>, i: int) {
    if 0 <= i < s.len() {
        lemma_find_char_bounds(s, i, '\n');
    }
}

/// The lines of a text.
pub open spec fn lines_of(s: Seq<char>) -> Seq<Seq<char>> {
    lines_from(s, 0)
}

/// The two IRIs that each numeric property id in `ids` stands for.
pub open spec fn identifier_iris(ids: Seq<Seq<char>>) -> Set<Seq<char>>
    decreases ids.len(),
{
    if ids.len() == 0 {
        Set::empty()
    } else {
        identifier_iris(ids.drop_last()).insert(IDENTIFIER_DIRECT_PREFIX@ + ids.last()).insert(
            IDENTIFIER_NORMALIZED_PREFIX@ + ids.last(),
        )
    }
}

/// The characters `s[i..j]` as a string.
fn string_from(s: &Vec<char>, i: usize, j: usize) -> (r: String)
    requires
        i <= j <= s.len(),
    ensures
        r@ == s@.subrange(i as int, j as int),
{
    let mut r = String::new();
    let mut k = i;
    while k < j
        invariant
            i <= k <= j <= s.len(),
            r@ == s@.subrange(i as int, k as int),
        decreases j - k,
    {
        assert(s@.subrange(i as int, k + 1) =~= s@.subrange(i as int, k as int).push(s@[k as int]));
        push_char(&mut r, s[k]);
        k = k + 1;
    }
    r
}

/// The lines of `data`, in order.
pub fn lines(data: &str) -> (r: Vec<String>)
    ensures
        r@.map_values(|l: String| l@) == lines_of(data@),
{
    let s = char_vec(data);
    let mut out: Vec<String> = Vec::new();
    let mut i: usize = 0;
    assert(out@.map_values(|l: String| l@) + lines_from(s@, 0) =~= lines_of(data@));
    while i < s.len()
        invariant
            s@ == data@,
            i <= s.len(),
            out@.map_values(|l: String| l@) + lines_from(s@, i as int) == lines_of(data@),
        decreases s.len() - i,
    {
        let j = find_char_from(&s, i, '\n');
        let end = if j < s.len() && j > i && s[j - 1] == '\r' {
            j - 1
        } else {
            j
        };
        let line = string_from(&s, i, end);
        let ghost before = out@.map_values(|l: String| l@);
        out.push(line);
        assert(out@.map_values(|l: String| l@) =~= before.push(line@));
        assert(before.push(line@) + lines_from(s@, j + 1) =~= before + lines_from(s@, i as int));
        if j < s.len() {
            i = j + 1;
        } else {
            i = s.len();
        }
    }
    assert(out@.map_values(|l: String| l@) + lines_from(s@, i as int) =~= out@.map_values(
        |l: String| l@,
    ));
    out
}

/// The set of the lines of `data`.
pub fn line_set(data: &str) -> (r: StringHashSet)
    ensures
        r@ == lines_of(data@).to_set(),
{
    let ls = lines(data);
    let ghost v = ls@.map_values(|l: String| l@);
    let mut set = StringHashSet::new();
    let mut k: usize = 0;
    assert(v.take(0) =~= Seq::<Seq<char>>::empty());
    while k < ls.len()
        invariant
            k <= ls.len(),
            v == ls@.map_values(|l: String| l@),
            set@ == v.take(k as int).to_set(),
        decreases ls.len() - k,
    {
        assert(v.take(k + 1) =~= v.take(k as int).push(v[k as int]));
        set.insert(ls[k].clone());
        k = k + 1;
    }
    assert(v.take(k as int) =~= v);
    set
}

/// The fixed sets that decide which statements are kept and which give labels.
pub struct Tables {
    /// Predicates whose statements are dropped.
    pub excluded: StringHashSet,
    /// Direct-property IRIs of identifier properties, whose statements are dropped.
    pub excluded_identifiers: StringHashSet,
    /// Language tags whose literals are kept.
    pub languages: StringHashSet,
    /// Predicates whose literals are labels.
    pub labels: StringHashSet,
}

impl Tables {
    /// Builds the tables from their line-oriented texts; `identifier_properties`
    /// holds numeric property ids, each of which excludes two IRIs.
    pub fn new(properties: &str, identifier_properties: &str, languages: &str, labels: &str) -> (r:
        Tables)
        ensures
            r.excluded@ == lines_of(properties@).to_set(),
            r.excluded_identifiers@ == identifier_iris(lines_of(identifier_properties@)),
            r.languages@ == lines_of(languages@).to_set(),
            r.labels@ == lines_of(labels@).to_set(),
    {
        let ids = lines(identifier_properties);
        let ghost v = ids@.map_values(|l: String| l@);
        let mut excluded_identifiers = StringHashSet::new();
        let mut k: usize = 0;
        assert(v.take(0) =~= Seq::<Seq<char>>::empty());
        while k < ids.len()
            invariant
                k <= ids.len(),
                v == ids@.map_values(|l: String| l@),
                excluded_identifiers@ == identifier_iris(v.take(k as int)),
            decreases ids.len() - k,
        {
            assert(v.take(k + 1).drop_last() =~= v.take(k as int));
            let mut direct = String::from_str(IDENTIFIER_DIRECT_PREFIX);
            direct.append(ids[k].as_str());
            let mut normalized = String::from_str(IDENTIFIER_NORMALIZED_PREFIX);
            normalized.append(ids[k].as_str());
            excluded_identifiers.insert(direct);
            excluded_identifiers.insert(normalized);
            k = k + 1;
        }
        assert(v.take(k as int) =~= v);
        Tables {
            excluded: line_set(properties),
            excluded_identifiers,
            languages: line_set(languages),
            labels: line_set(labels),
        }
    }
}

} // verus!
