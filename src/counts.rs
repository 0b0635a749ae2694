use vstd::prelude::*;
use vstd::hash_map::StringHashMap;

verus! {

/// `n`, or the largest `u64` where `n` is larger.
pub open spec fn saturate(n: nat) -> u64 {
    if n > u64::MAX {
        u64::MAX
    } else {
        n as u64
    }
}

/// The count of `k` in `m`, zero where `m` has none.
pub open spec fn count_of(m: Map<Seq<char>, u64>, k: Seq<char>) -> nat {
    if m.contains_key(k) {
        m[k] as nat
    } else {
        0
    }
}

/// `m` with `n` more counted for `k`.
pub open spec fn add_count(m: Map<Seq<char>, u64>, k: Seq<char>, n: nat) -> Map<Seq<char>, u64> {
    m.insert(k, saturate(count_of(m, k) + n))
}

/// The sum of two count maps, entity by entity.
pub open spec fn merge_counts(a: Map<Seq<char>, u64>, b: Map<Seq<char>, u64>) -> Map<
    Seq<char>,
    u64,
> {
    Map::new(
        |k: Seq<char>| a.contains_key(k) || b.contains_key(k),
        |k: Seq<char>| saturate(count_of(a, k) + count_of(b, k)),
    )
}

/// The sum of a sequence of count maps, taken from the first to the last.
pub open spec fn merged(parts: Seq<Map<Seq<char>, u64>>) -> Map<Seq<char>, u64>
    decreases parts.len(),
{
    if parts.len() == 0 {
        Map::empty()
    } else {
        merge_counts(merged(parts.drop_last()), parts.last())
    }
}

/// A count per entity identifier. Counts stop at the largest `u64`.
pub struct Counts {
    map: StringHashMap<u64>,
    keys: Vec<String>,
}

impl View for Counts {
    type V = Map<Seq<char>, u64>;

    closed spec fn view(&self) -> Map<Seq<char>, u64> {
        self.map@
    }
}

impl Counts {
    closed spec fn key_seq(&self) -> Seq<Seq<char>> {
        self.keys@.map_values(|s: String| s@)
    }

    /// Each counted identifier is listed once.
    pub closed spec fn wf(&self) -> bool {
        &&& self.key_seq().no_duplicates()
        &&& self.key_seq().to_set() == self.map@.dom()
    }

    /// No counts yet.
    pub fn new() -> (r: Counts)
        ensures
            r.wf(),
            r@ == Map::<Seq<char>, u64>::empty(),
    {
        let r = Counts { map: StringHashMap::new(), keys: Vec::new() };
        assert(r.key_seq().to_set() =~= Set::<Seq<char>>::empty());
        r
    }

    /// The number of identifiers counted.
    pub fn len(&self) -> (r: usize)
        ensures
            r == self@.len(),
    {
        self.map.len()
    }

    /// The count of `id`, if it has one.
    pub fn get(&self, id: &str) -> (r: Option<u64>)
        ensures
            r == (if self@.contains_key(id@) {
                Some(self@[id@])
            } else {
                None
            }),
    {
        match self.map.get(id) {
            Some(v) => Some(*v),
            None => None,
        }
    }

    /// Counts `n` more for `id`.
    pub fn add(&mut self, id: &str, n: u64)
        requires
            old(self).wf(),
        ensures
            final(self).wf(),
            final(self)@ == add_count(old(self)@, id@, n as nat),
    {
        let ghost ks = self.key_seq();
        match self.map.get(id) {
            Some(v) => {
                let total = v.saturating_add(n);
                self.map.insert(id.to_owned(), total);
                assert(self.map@.dom() =~= old(self).map@.dom());
            },
            None => {
                self.map.insert(id.to_owned(), n);
                self.keys.push(id.to_owned());
                proof {
                    assert(self.key_seq() =~= ks.push(id@));
                    ks.lemma_push_to_set_commute(id@);
                    assert(!ks.contains(id@));
                    assert(self.key_seq().to_set() =~= self.map@.dom());
                }
            },
        }
    }

    /// Counts one more for `id`.
    pub fn increment(&mut self, id: &str)
        requires
            old(self).wf(),
        ensures
            final(self).wf(),
            final(self)@ == add_count(old(self)@, id@, 1),
    {
        self.add(id, 1)
    }

    /// Every identifier with its count, each identifier once.
    pub fn entries(&self) -> (r: Vec<(String, u64)>)
        requires
            self.wf(),
        ensures
            forall|i: int|
                0 <= i < r.len() ==> #[trigger] self@.contains_key(r[i].0@) && self@[r[i].0@]
                    == r[i].1,
            forall|k: Seq<char>|
                #[trigger] self@.contains_key(k) ==> exists|i: int|
                    0 <= i < r.len() && #[trigger] r[i].0@ == k,
            forall|i: int, j: int| 0 <= i < j < r.len() ==> r[i].0@ != r[j].0@,
    {
        let mut r: Vec<(String, u64)> = Vec::new();
        let mut i: usize = 0;
        while i < self.keys.len()
            invariant
                self.wf(),
                i <= self.keys.len(),
                r.len() == i,
                forall|j: int| 0 <= j < i ==> #[trigger] r[j].0@ == self.key_seq()[j],
                forall|j: int|
                    0 <= j < i ==> self@.contains_key(#[trigger] r[j].0@) && self@[r[j].0@]
                        == r[j].1,
            decreases self.keys.len() - i,
        {
            assert(self.key_seq().contains(self.key_seq()[i as int]));
            let k = self.keys[i].clone();
            let v = match self.map.get(k.as_str()) {
                Some(v) => *v,
                None => 0,
            };
            r.push((k, v));
            i = i + 1;
        }
        assert forall|k: Seq<char>| #[trigger] self@.contains_key(k) implies exists|i: int|
            0 <= i < r.len() && #[trigger] r[i].0@ == k by {
            assert(self.key_seq().to_set().contains(k));
            let j = choose|j: int| 0 <= j < self.key_seq().len() && self.key_seq()[j] == k;
            assert(r[j].0@ == k);
        }
        r
    }

    /// Adds every count of `other` to this one.
    pub fn merge(&mut self, other: &Counts)
        requires
            old(self).wf(),
            other.wf(),
        ensures
            final(self).wf(),
            final(self)@ == merge_counts(old(self)@, other@),
    {
        let ghost ks = other.key_seq();
        let mut i: usize = 0;
        assert(merge_counts(old(self)@, other@.restrict(ks.take(0).to_set())) =~= old(self)@);
        while i < other.keys.len()
            invariant
                other.wf(),
                ks == other.key_seq(),
                i <= other.keys.len(),
                self.wf(),
                self@ == merge_counts(old(self)@, other@.restrict(ks.take(i as int).to_set())),
            decreases other.keys.len() - i,
        {
            let k = &other.keys[i];
            assert(ks.contains(ks[i as int]));
            let v = match other.map.get(k.as_str()) {
                Some(v) => *v,
                None => 0,
            };
            self.add(k.as_str(), v);
            proof {
                let t = ks.take(i as int);
                assert(ks.take(i + 1) =~= t.push(k@));
                t.lemma_push_to_set_commute(k@);
                assert(!t.contains(k@)) by {
                    if t.contains(k@) {
                        let j = choose|j: int| 0 <= j < t.len() && t[j] == k@;
                        assert(ks[j] == ks[i as int]);
                    }
                }
                assert(self@ =~= merge_counts(
                    old(self)@,
                    other@.restrict(ks.take(i + 1).to_set()),
                ));
            }
            i = i + 1;
        }
        assert(ks.take(i as int) =~= ks);
        assert(other@.restrict(ks.to_set()) =~= other@);
    }
}

/// Summing counts does not depend on the order of the two summands.
pub proof fn lemma_merge_counts_commutes(a: Map<Seq<char>, u64>, b: Map<Seq<char>, u64>)
    ensures
        merge_counts(a, b) == merge_counts(b, a),
{
    assert(merge_counts(a, b) =~= merge_counts(b, a));
}

/// Adding `a` and then `b` to running counts gives what adding `b` and then `a` gives.
pub proof fn lemma_merge_order_free(
    m: Map<Seq<char>, u64>,
    a: Map<Seq<char>, u64>,
    b: Map<Seq<char>, u64>,
)
    ensures
        merge_counts(merge_counts(m, a), b) == merge_counts(merge_counts(m, b), a),
{
    assert(merge_counts(merge_counts(m, a), b) =~= merge_counts(merge_counts(m, b), a));
}

/// The sum of per-worker counts does not depend on the order in which they are
/// summed: exchanging two neighbours leaves it as it is, and every reordering is a
/// chain of such exchanges.
pub proof fn lemma_merged_swap(parts: Seq<Map<Seq<char>, u64>>, i: int)
    requires
        0 <= i,
        i + 1 < parts.len(),
    ensures
        merged(parts.update(i, parts[i + 1]).update(i + 1, parts[i])) == merged(parts),
    decreases parts.len(),
{
    let swapped = parts.update(i, parts[i + 1]).update(i + 1, parts[i]);
    if i + 2 == parts.len() {
        let prefix = parts.drop_last().drop_last();
        assert(swapped.drop_last().drop_last() =~= prefix);
        assert(swapped.drop_last().last() == parts.last());
        assert(parts.drop_last().drop_last() == prefix);
        assert(merged(swapped.drop_last()) == merge_counts(merged(prefix), parts[i + 1]));
        assert(merged(parts.drop_last()) == merge_counts(merged(prefix), parts[i]));
        lemma_merge_order_free(merged(prefix), parts[i], parts[i + 1]);
    } else {
        lemma_merged_swap(parts.drop_last(), i);
        assert(swapped.drop_last() =~= parts.drop_last().update(i, parts[i + 1]).update(
            i + 1,
            parts[i],
        ));
        assert(swapped.last() == parts.last());
    }
}

/// Taking any one part out and adding it last gives the same sum.
proof fn lemma_merged_remove(parts: Seq<Map<Seq<char>, u64>>, j: int)
    requires
        0 <= j < parts.len(),
    ensures
        merged(parts) == merge_counts(merged(parts.remove(j)), parts[j]),
    decreases parts.len() - j,
{
    if j == parts.len() - 1 {
        assert(parts.remove(j) =~= parts.drop_last());
    } else {
        let swapped = parts.update(j, parts[j + 1]).update(j + 1, parts[j]);
        lemma_merged_swap(parts, j);
        lemma_merged_remove(swapped, j + 1);
        assert(swapped.remove(j + 1) =~= parts.remove(j));
    }
}

/// The sum of per-worker counts is the same in whatever order the counts are
/// summed: `reordered[i]` is `parts[order[i]]`, where `order` takes each part once.
pub proof fn lemma_merged_order_free(
    parts: Seq<Map<Seq<char>, u64>>,
    order: Seq<int>,
    reordered: Seq<Map<Seq<char>, u64>>,
)
    requires
        order.len() == parts.len(),
        reordered.len() == parts.len(),
        forall|i: int| 0 <= i < order.len() ==> 0 <= #[trigger] order[i] < parts.len(),
        forall|a: int, b: int| 0 <= a < b < order.len() ==> order[a] != order[b],
        forall|i: int| 0 <= i < order.len() ==> #[trigger] reordered[i] == parts[order[i]],
    ensures
        merged(reordered) == merged(parts),
    decreases parts.len(),
{
    if parts.len() > 0 {
        let n = parts.len() - 1;
        let j = order[n];
        let order2 = Seq::new(
            n as nat,
            |i: int|
                if order[i] < j {
                    order[i]
                } else {
                    order[i] - 1
                },
        );
        let parts2 = parts.remove(j);
        let reordered2 = reordered.drop_last();
        assert forall|i: int| 0 <= i < order2.len() implies 0 <= #[trigger] order2[i]
            < parts2.len() by {
            assert(order[i] != order[n]);
        }
        assert forall|a: int, b: int| 0 <= a < b < order2.len() implies order2[a]
            != order2[b] by {
            assert(order[a] != order[n]);
            assert(order[b] != order[n]);
            assert(order[a] != order[b]);
        }
        assert forall|i: int| 0 <= i < order2.len() implies #[trigger] reordered2[i]
            == parts2[order2[i]] by {
            assert(reordered[i] == parts[order[i]]);
            assert(order[i] != order[n]);
        }
        lemma_merged_order_free(parts2, order2, reordered2);
        lemma_merged_remove(parts, j);
        assert(reordered.last() == parts[j]);
    }
}

} // verus!
