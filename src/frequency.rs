use crate::ranking::{
    lemma_lex_asymmetric, lemma_lex_irreflexive, lemma_lex_total, lemma_lex_transitive, lex_lt,
    RankKey,
};
use vstd::prelude::*;

verus! {

/// How often `k` occurs in `occ`.
pub open spec fn occurrences(occ: Seq<Seq<int>>, k: Seq<int>) -> nat
    decreases occ.len(),
{
    if occ.len() == 0 {
        0
    } else {
        occurrences(occ.drop_last(), k) + if occ.last() == k {
            1nat
        } else {
            0nat
        }
    }
}

/// Each key that occurs in `occ`, with how often it occurs.
pub open spec fn frequencies(occ: Seq<Seq<int>>) -> Map<Seq<int>, nat> {
    Map::new(|k: Seq<int>| occ.contains(k), |k: Seq<int>| occurrences(occ, k))
}

/// `a` comes before `b` in a ranking: it is more frequent, or as frequent and
/// smaller.
pub open spec fn outranks(freq: Map<Seq<int>, nat>, a: Seq<int>, b: Seq<int>) -> bool {
    freq[a] > freq[b] || (freq[a] == freq[b] && lex_lt(a, b))
}

/// `r` is the first `n` keys of `freq` (or all of them, if there are fewer),
/// most frequent first, ties in ascending key order.
pub open spec fn is_top_ranking(freq: Map<Seq<int>, nat>, r: Seq<Seq<int>>, n: nat) -> bool {
    &&& r.len() <= n
    &&& forall|i: int| 0 <= i < r.len() ==> freq.contains_key(#[trigger] r[i])
    &&& forall|i: int, j: int| 0 <= i < j < r.len() ==> outranks(freq, #[trigger] r[i], #[trigger] r[j])
    &&& forall|k: Seq<int>| #[trigger]
        freq.contains_key(k) && !r.contains(k) ==> r.len() == n && forall|i: int|
            0 <= i < r.len() ==> outranks(freq, #[trigger] r[i], k)
}

pub open spec fn ranks<K: RankKey>(keys: Seq<K>) -> Seq<Seq<int>> {
    keys.map_values(|k: K| k.rank())
}

pub proof fn lemma_outranks_irreflexive(freq: Map<Seq<int>, nat>, a: Seq<int>)
    ensures
        !outranks(freq, a, a),
{
    lemma_lex_irreflexive(a);
}

pub proof fn lemma_outranks_asymmetric(freq: Map<Seq<int>, nat>, a: Seq<int>, b: Seq<int>)
    ensures
        outranks(freq, a, b) ==> !outranks(freq, b, a),
{
    lemma_lex_asymmetric(a, b);
}

pub proof fn lemma_outranks_total(freq: Map<Seq<int>, nat>, a: Seq<int>, b: Seq<int>)
    ensures
        a != b ==> outranks(freq, a, b) || outranks(freq, b, a),
{
    lemma_lex_total(a, b);
}

pub proof fn lemma_outranks_transitive(
    freq: Map<Seq<int>, nat>,
    a: Seq<int>,
    b: Seq<int>,
    c: Seq<int>,
)
    ensures
        outranks(freq, a, b) && outranks(freq, b, c) ==> outranks(freq, a, c),
{
    lemma_lex_transitive(a, b, c);
}

pub proof fn lemma_occurrences_bounded(occ: Seq<Seq<int>>, k: Seq<int>)
    ensures
        occurrences(occ, k) <= occ.len(),
        occurrences(occ, k) > 0 <==> occ.contains(k),
    decreases occ.len(),
{
    if occ.len() > 0 {
        lemma_occurrences_bounded(occ.drop_last(), k);
        if occ.drop_last().contains(k) {
            let i = choose|i: int| 0 <= i < occ.drop_last().len() && occ.drop_last()[i] == k;
            assert(occ[i] == k);
        }
        if occ.contains(k) && occ.last() != k {
            let i = choose|i: int| 0 <= i < occ.len() && occ[i] == k;
            assert(occ.drop_last()[i] == k);
        }
    }
}

/// One more occurrence of `k` adds one to its frequency and nothing else.
pub proof fn lemma_frequencies_push(occ: Seq<Seq<int>>, k: Seq<int>)
    ensures
        frequencies(occ.push(k)) == frequencies(occ).insert(k, occurrences(occ, k) + 1),
{
    let f = frequencies(occ.push(k));
    let g = frequencies(occ).insert(k, occurrences(occ, k) + 1);
    assert(occ.push(k).drop_last() =~= occ);
    assert forall|x: Seq<int>| f.contains_key(x) <==> g.contains_key(x) by {
        if occ.contains(x) {
            let i = choose|i: int| 0 <= i < occ.len() && occ[i] == x;
            assert(occ.push(k)[i] == x);
        }
        if occ.push(k).contains(x) && x != k {
            let i = choose|i: int| 0 <= i < occ.push(k).len() && occ.push(k)[i] == x;
            assert(occ[i] == x);
        }
        assert(occ.push(k)[occ.len() as int] == k);
    }
    assert(f =~= g);
}

/// Counts of keys, each key held once.
pub struct FrequencyTable<K> {
    keys: Vec<K>,
    counts: Vec<u64>,
    model: Ghost<Map<Seq<int>, nat>>,
}

impl<K: RankKey> FrequencyTable<K> {
    /// Each key held, with its count.
    pub closed spec fn frequencies(&self) -> Map<Seq<int>, nat> {
        self.model@
    }

    pub closed spec fn wf(&self) -> bool {
        &&& self.keys.len() == self.counts.len()
        &&& forall|i: int, j: int|
            0 <= i < j < self.keys.len() ==> (#[trigger] self.keys@[i]).rank() != (
            #[trigger] self.keys@[j]).rank()
        &&& forall|i: int|
            0 <= i < self.keys.len() ==> self.model@.contains_key(#[trigger] self.keys@[i].rank())
                && self.model@[self.keys@[i].rank()] == self.counts@[i]
        &&& forall|k: Seq<int>| #[trigger]
            self.model@.contains_key(k) ==> exists|i: int|
                0 <= i < self.keys.len() && (#[trigger] self.keys@[i]).rank() == k
    }

    pub fn new() -> (t: Self)
        ensures
            t.wf(),
            t.frequencies() == Map::<Seq<int>, nat>::empty(),
    {
        FrequencyTable { keys: Vec::new(), counts: Vec::new(), model: Ghost(Map::empty()) }
    }

    /// Counts one more occurrence of `key`.
    pub fn record(&mut self, key: K)
        requires
            old(self).wf(),
            old(self).frequencies().contains_key(key.rank()) ==> old(self).frequencies()[key.rank()]
                < u64::MAX,
        ensures
            final(self).wf(),
            final(self).frequencies() == old(self).frequencies().insert(
                key.rank(),
                if old(self).frequencies().contains_key(key.rank()) {
                    old(self).frequencies()[key.rank()] + 1
                } else {
                    1
                },
            ),
    {
        let ghost k = key.rank();
        let len = self.keys.len();
        let mut j: usize = 0;
        while j < len
            invariant
                self == old(self),
                old(self).wf(),
                old(self).frequencies().contains_key(key.rank()) ==> old(self).frequencies()[key.rank()]
                    < u64::MAX,
                len == self.keys.len(),
                j <= len,
                k == key.rank(),
                forall|m: int| 0 <= m < j ==> self.keys@[m].rank() != k,
            decreases len - j,
        {
            if self.keys[j].same_key(&key) {
                let c = self.counts[j];
                assert(self.model@[k] == c);
                self.counts.set(j, c + 1);
                self.model = Ghost(self.model@.insert(k, (c + 1) as nat));
                assert forall|i: int| 0 <= i < self.keys.len() implies self.model@.contains_key(
                    #[trigger] self.keys@[i].rank(),
                ) && self.model@[self.keys@[i].rank()] == self.counts@[i] by {
                    if i != j {
                        assert(old(self).keys@[i].rank() != old(self).keys@[j as int].rank());
                    }
                }
                return;
            }
            j = j + 1;
        }
        proof {
            if self.model@.contains_key(k) {
                let i = choose|i: int| 0 <= i < self.keys.len() && (#[trigger] self.keys@[i]).rank()
                    == k;
                assert(self.keys@[i].rank() != k);
            }
        }
        self.keys.push(key);
        self.counts.push(1);
        self.model = Ghost(self.model@.insert(k, 1));
        assert forall|i: int| 0 <= i < self.keys.len() implies self.model@.contains_key(
            #[trigger] self.keys@[i].rank(),
        ) && self.model@[self.keys@[i].rank()] == self.counts@[i] by {
            if i < len {
                assert(old(self).keys@[i] == self.keys@[i]);
            }
        }
        assert forall|k2: Seq<int>| #[trigger] self.model@.contains_key(k2) implies exists|i: int|
            0 <= i < self.keys.len() && (#[trigger] self.keys@[i]).rank() == k2 by {
            if k2 == k {
                assert(self.keys@[len as int].rank() == k);
            } else {
                let i = choose|i: int|
                    0 <= i < old(self).keys.len() && (#[trigger] old(self).keys@[i]).rank() == k2;
                assert(self.keys@[i] == old(self).keys@[i]);
            }
        }
    }
}

/// `ka` with count `ca` comes before `kb` with count `cb` in a ranking.
fn entry_outranks<K: RankKey>(ka: &K, ca: u64, kb: &K, cb: u64) -> (r: bool)
    ensures
        r == (ca > cb || (ca == cb && lex_lt(ka.rank(), kb.rank()))),
{
    if ca > cb {
        true
    } else if ca == cb {
        ka.precedes(kb)
    } else {
        false
    }
}

/// The `n` most frequent keys of `table`, most frequent first, ties broken by
/// ascending key; fewer when the table holds fewer keys.
pub fn top_n_by_frequency<K: RankKey>(table: &FrequencyTable<K>, n: usize) -> (r: Vec<K>)
    requires
        table.wf(),
    ensures
        is_top_ranking(table.frequencies(), ranks(r@), n as nat),
{
    let ghost freq = table.frequencies();
    let len = table.keys.len();
    let mut result: Vec<K> = Vec::new();
    let mut last: usize = 0;
    while result.len() < n
        invariant
            table.wf(),
            freq == table.frequencies(),
            len == table.keys.len(),
            result.len() <= n,
            result.len() > 0 ==> last < len && ranks(result@).last() == table.keys@[last as int].rank(),
            forall|i: int| 0 <= i < result.len() ==> freq.contains_key(#[trigger] ranks(result@)[i]),
            forall|i: int, j: int|
                0 <= i < j < result.len() ==> outranks(
                    freq,
                    #[trigger] ranks(result@)[i],
                    #[trigger] ranks(result@)[j],
                ),
            forall|k: Seq<int>| #[trigger]
                freq.contains_key(k) && !ranks(result@).contains(k) ==> forall|i: int|
                    0 <= i < result.len() ==> outranks(freq, #[trigger] ranks(result@)[i], k),
        ensures
            result.len() == n || forall|k: Seq<int>| #[trigger]
                freq.contains_key(k) ==> ranks(result@).contains(k),
        decreases n - result.len(),
    {
        let ghost chosen = ranks(result@);
        let mut best: usize = 0;
        let mut found = false;
        let mut j: usize = 0;
        while j < len
            invariant
                table.wf(),
                freq == table.frequencies(),
                len == table.keys.len(),
                chosen == ranks(result@),
                result.len() > 0 ==> last < len && chosen.last() == table.keys@[last as int].rank(),
                j <= len,
                found ==> best < j && (result.len() == 0 || outranks(
                    freq,
                    chosen.last(),
                    table.keys@[best as int].rank(),
                )),
                found ==> forall|m: int|
                    0 <= m < j && m != best && (result.len() == 0 || outranks(
                        freq,
                        chosen.last(),
                        #[trigger] table.keys@[m].rank(),
                    )) ==> outranks(freq, table.keys@[best as int].rank(), table.keys@[m].rank()),
                !found ==> forall|m: int|
                    0 <= m < j ==> !(result.len() == 0 || outranks(
                        freq,
                        chosen.last(),
                        #[trigger] table.keys@[m].rank(),
                    )),
            decreases len - j,
        {
            let candidate = result.len() == 0 || entry_outranks(
                &table.keys[last],
                table.counts[last],
                &table.keys[j],
                table.counts[j],
            );
            if candidate {
                if !found || entry_outranks(
                    &table.keys[j],
                    table.counts[j],
                    &table.keys[best],
                    table.counts[best],
                ) {
                    proof {
                        if found {
                            let kj = table.keys@[j as int].rank();
                            let kb = table.keys@[best as int].rank();
                            assert forall|m: int|
                                0 <= m < j && m != j && (result.len() == 0 || outranks(
                                    freq,
                                    chosen.last(),
                                    #[trigger] table.keys@[m].rank(),
                                )) implies outranks(freq, kj, table.keys@[m].rank()) by {
                                if m != best {
                                    lemma_outranks_transitive(freq, kj, kb, table.keys@[m].rank());
                                }
                            }
                        }
                    }
                    best = j;
                    found = true;
                } else {
                    proof {
                        let kj = table.keys@[j as int].rank();
                        let kb = table.keys@[best as int].rank();
                        assert(kj != kb);
                        lemma_outranks_total(freq, kj, kb);
                    }
                }
            }
            j = j + 1;
        }
        if !found {
            proof {
                assert forall|k: Seq<int>| #[trigger] freq.contains_key(k) implies chosen.contains(
                    k,
                ) by {
                    let m = choose|m: int|
                        0 <= m < table.keys.len() && (#[trigger] table.keys@[m]).rank() == k;
                    if !chosen.contains(k) {
                        assert(outranks(freq, chosen[chosen.len() - 1], k));
                    }
                }
            }
            break;
        }
        let ghost kb = table.keys@[best as int].rank();
        proof {
            if chosen.contains(kb) {
                let i = choose|i: int| 0 <= i < chosen.len() && chosen[i] == kb;
                lemma_outranks_irreflexive(freq, kb);
                lemma_outranks_asymmetric(freq, chosen[i], chosen.last());
            }
        }
        result.push(table.keys[best].copy_key());
        last = best;
        proof {
            let after = ranks(result@);
            assert(after =~= chosen.push(kb));
            assert forall|k: Seq<int>| #[trigger]
                freq.contains_key(k) && !after.contains(k) implies forall|i: int|
                0 <= i < after.len() ==> outranks(freq, #[trigger] after[i], k) by {
                assert(after[chosen.len() as int] == kb);
                if chosen.contains(k) {
                    let i = choose|i: int| 0 <= i < chosen.len() && chosen[i] == k;
                    assert(after[i] == k);
                }
                let m = choose|m: int|
                    0 <= m < table.keys.len() && (#[trigger] table.keys@[m]).rank() == k;
                if chosen.len() > 0 {
                    assert(outranks(freq, chosen[chosen.len() - 1], k));
                }
                assert(m != best);
            }
        }
    }
    result
}

} // verus!
