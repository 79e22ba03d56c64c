use vstd::prelude::*;

verus! {

/// Strict lexicographic order on sequences of integers.
pub open spec fn lex_lt(a: Seq<int>, b: Seq<int>) -> bool
    decreases a.len(),
{
    if b.len() == 0 {
        false
    } else if a.len() == 0 {
        true
    } else if a[0] != b[0] {
        a[0] < b[0]
    } else {
        lex_lt(a.drop_first(), b.drop_first())
    }
}

pub proof fn lemma_lex_irreflexive(a: Seq<int>)
    ensures
        !lex_lt(a, a),
    decreases a.len(),
{
    if a.len() > 0 {
        lemma_lex_irreflexive(a.drop_first());
    }
}

pub proof fn lemma_lex_asymmetric(a: Seq<int>, b: Seq<int>)
    ensures
        lex_lt(a, b) ==> !lex_lt(b, a),
    decreases a.len(),
{
    if a.len() > 0 && b.len() > 0 && a[0] == b[0] {
        lemma_lex_asymmetric(a.drop_first(), b.drop_first());
    }
}

pub proof fn lemma_lex_total(a: Seq<int>, b: Seq<int>)
    ensures
        a != b ==> lex_lt(a, b) || lex_lt(b, a),
    decreases a.len(),
{
    if a.len() > 0 && b.len() > 0 && a[0] == b[0] {
        lemma_lex_total(a.drop_first(), b.drop_first());
        if a.drop_first() == b.drop_first() {
            assert(a =~= seq![a[0]] + a.drop_first());
            assert(b =~= seq![b[0]] + b.drop_first());
        }
    } else if a.len() == 0 && b.len() == 0 {
        assert(a =~= b);
    }
}

pub proof fn lemma_lex_transitive(a: Seq<int>, b: Seq<int>, c: Seq<int>)
    ensures
        lex_lt(a, b) && lex_lt(b, c) ==> lex_lt(a, c),
    decreases a.len(),
{
    if a.len() > 0 && b.len() > 0 && c.len() > 0 && a[0] == b[0] && b[0] == c[0] {
        lemma_lex_transitive(a.drop_first(), b.drop_first(), c.drop_first());
    }
}

/// Past a common prefix the order is decided by what follows it.
pub proof fn lemma_lex_skip(a: Seq<int>, b: Seq<int>, i: int)
    requires
        0 <= i <= a.len(),
        i <= b.len(),
        forall|j: int| 0 <= j < i ==> a[j] == b[j],
    ensures
        lex_lt(a, b) == lex_lt(a.skip(i), b.skip(i)),
    decreases i,
{
    if i > 0 {
        lemma_lex_skip(a.drop_first(), b.drop_first(), i - 1);
        assert(a.drop_first().skip(i - 1) =~= a.skip(i));
        assert(b.drop_first().skip(i - 1) =~= b.skip(i));
    } else {
        assert(a.skip(0) =~= a);
        assert(b.skip(0) =~= b);
    }
}

/// A key that can be ranked: it is seen as a sequence of integers, ordered
/// lexicographically, which is how its type orders its values.
pub trait RankKey: Sized {
    spec fn rank(&self) -> Seq<int>;

    fn precedes(&self, other: &Self) -> (r: bool)
        ensures
            r == lex_lt(self.rank(), other.rank()),
    ;

    fn same_key(&self, other: &Self) -> (r: bool)
        ensures
            r == (self.rank() == other.rank()),
    ;

    fn copy_key(&self) -> (r: Self)
        ensures
            r.rank() == self.rank(),
    ;
}

pub open spec fn port_rank(p: u16) -> Seq<int> {
    seq![p as int]
}

impl RankKey for u16 {
    open spec fn rank(&self) -> Seq<int> {
        port_rank(*self)
    }

    fn precedes(&self, other: &u16) -> (r: bool) {
        proof {
            let a = port_rank(*self);
            let b = port_rank(*other);
            assert(a.drop_first() =~= Seq::<int>::empty());
            assert(b.drop_first() =~= Seq::<int>::empty());
            lemma_lex_irreflexive(Seq::<int>::empty());
        }
        *self < *other
    }

    fn same_key(&self, other: &u16) -> (r: bool) {
        proof {
            if port_rank(*self) == port_rank(*other) {
                assert(port_rank(*self)[0] == port_rank(*other)[0]);
            }
        }
        *self == *other
    }

    fn copy_key(&self) -> (r: u16) {
        *self
    }
}

pub open spec fn text_rank(s: Seq<char>) -> Seq<int> {
    s.map_values(|c: char| c as int)
}

impl RankKey for String {
    open spec fn rank(&self) -> Seq<int> {
        text_rank(self@)
    }

    fn precedes(&self, other: &String) -> (r: bool) {
        let a = self.as_str();
        let b = other.as_str();
        let la = a.unicode_len();
        let lb = b.unicode_len();
        let ghost ra = text_rank(a@);
        let ghost rb = text_rank(b@);
        let mut i: usize = 0;
        while i < la && i < lb
            invariant
                i <= la,
                i <= lb,
                la == a@.len(),
                lb == b@.len(),
                ra == text_rank(a@),
                rb == text_rank(b@),
                a@ == self@,
                b@ == other@,
                forall|j: int| 0 <= j < i ==> ra[j] == rb[j],
            decreases la - i,
        {
            let ca = a.get_char(i);
            let cb = b.get_char(i);
            if ca != cb {
                proof {
                    lemma_lex_skip(ra, rb, i as int);
                    assert(ra.skip(i as int)[0] == ca as int);
                    assert(rb.skip(i as int)[0] == cb as int);
                }
                return (ca as u32) < (cb as u32);
            }
            i = i + 1;
        }
        proof {
            lemma_lex_skip(ra, rb, i as int);
        }
        la < lb
    }

    fn same_key(&self, other: &String) -> (r: bool) {
        proof {
            if text_rank(self@) == text_rank(other@) {
                assert(self@.len() == text_rank(self@).len());
                assert forall|j: int| 0 <= j < self@.len() implies self@[j] == other@[j] by {
                    assert(text_rank(self@)[j] == text_rank(other@)[j]);
                }
                assert(self@ =~= other@);
            }
        }
        *self == *other
    }

    fn copy_key(&self) -> (r: String) {
        self.clone()
    }
}

} // verus!
