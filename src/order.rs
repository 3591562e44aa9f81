use vstd::prelude::*;
use vstd::multiset::Multiset;
use vstd::seq_lib::{group_to_multiset_ensures, to_multiset_insert};
use crate::entry::{Directory, Entry};

verus! {

/// Strict lexicographic order on names, character by character.
pub open spec fn lex_lt(a: Seq<char>, b: Seq<char>) -> bool
    decreases a.len(),
{
    if a.len() == 0 {
        b.len() > 0
    } else if b.len() == 0 {
        false
    } else if a[0] != b[0] {
        a[0] < b[0]
    } else {
        lex_lt(a.drop_first(), b.drop_first())
    }
}

/// Exactly one of `a < b`, `b < a` and `a == b` holds.
pub proof fn lemma_lex_total(a: Seq<char>, b: Seq<char>)
    ensures
        lex_lt(a, b) || lex_lt(b, a) || a == b,
        !(lex_lt(a, b) && lex_lt(b, a)),
        !lex_lt(a, a),
    decreases a.len(),
{
    if a.len() > 0 && b.len() > 0 {
        lemma_lex_total(a.drop_first(), b.drop_first());
        if a[0] == b[0] && a.drop_first() == b.drop_first() {
            assert(a =~= seq![a[0]] + a.drop_first());
            assert(b =~= seq![b[0]] + b.drop_first());
        }
    } else if a.len() == 0 && b.len() == 0 {
        assert(a =~= b);
    }
    if a.len() > 0 {
        lemma_lex_total(a.drop_first(), a.drop_first());
    }
}

/// The order is transitive.
pub proof fn lemma_lex_transitive(a: Seq<char>, b: Seq<char>, c: Seq<char>)
    requires
        lex_lt(a, b),
        lex_lt(b, c),
    ensures
        lex_lt(a, c),
    decreases a.len(),
{
    if a.len() > 0 && b.len() > 0 && c.len() > 0 && a[0] == b[0] && b[0] == c[0] {
        lemma_lex_transitive(a.drop_first(), b.drop_first(), c.drop_first());
    }
}

/// `a` does not come after `b`.
pub open spec fn lex_le(a: Seq<char>, b: Seq<char>) -> bool {
    !lex_lt(b, a)
}

proof fn lemma_lex_le_transitive(a: Seq<char>, b: Seq<char>, c: Seq<char>)
    requires
        lex_le(a, b),
        lex_le(b, c),
    ensures
        lex_le(a, c),
{
    lemma_lex_total(a, b);
    if lex_lt(c, a) {
        if lex_lt(a, b) {
            lemma_lex_transitive(c, a, b);
        }
    }
}

/// `a < b` on strings, by characters.
pub fn name_lt(a: &str, b: &str) -> (r: bool)
    ensures
        r == lex_lt(a@, b@),
{
    let na = a.unicode_len();
    let nb = b.unicode_len();
    let mut i: usize = 0;
    assert(a@.subrange(0, na as int) =~= a@);
    assert(b@.subrange(0, nb as int) =~= b@);
    while i < na && i < nb
        invariant
            na == a@.len(),
            nb == b@.len(),
            i <= na,
            i <= nb,
            lex_lt(a@, b@) == lex_lt(a@.subrange(i as int, na as int), b@.subrange(i as int, nb as int)),
        decreases na - i,
    {
        let ca = a.get_char(i);
        let cb = b.get_char(i);
        let ghost sa = a@.subrange(i as int, na as int);
        let ghost sb = b@.subrange(i as int, nb as int);
        assert(sa[0] == ca && sb[0] == cb);
        if ca != cb {
            return ca < cb;
        }
        assert(sa.drop_first() =~= a@.subrange(i + 1, na as int));
        assert(sb.drop_first() =~= b@.subrange(i + 1, nb as int));
        i = i + 1;
    }
    i == na && i < nb
}

/// Something listed under a name.
pub trait Named {
    spec fn key(&self) -> Seq<char>;

    fn name_str(&self) -> (r: &str)
        ensures
            r@ == self.key(),
    ;
}

impl Named for Entry {
    open spec fn key(&self) -> Seq<char> {
        self.name@
    }

    fn name_str(&self) -> (r: &str) {
        self.name.as_str()
    }
}

impl Named for Directory {
    open spec fn key(&self) -> Seq<char> {
        self.name@
    }

    fn name_str(&self) -> (r: &str) {
        self.name.as_str()
    }
}

/// Sorted by name, equal names in any order.
pub open spec fn is_sorted<T: Named>(v: Seq<T>) -> bool {
    forall|i: int, j: int| 0 <= i < j < v.len() ==> lex_le(#[trigger] v[i].key(), #[trigger] v[j].key())
}

/// `r` is `v` sorted: a permutation of it in name order, and `v` itself
/// where `v` was already in order.
pub open spec fn sorts_to<T: Named>(v: Seq<T>, r: Seq<T>) -> bool {
    &&& r.to_multiset() == v.to_multiset()
    &&& is_sorted(r)
    &&& is_sorted(v) ==> r == v
}

/// Sorting a sorted sequence changes nothing: sorting twice is sorting once.
pub proof fn lemma_sort_idempotent<T: Named>(v: Seq<T>, once: Seq<T>, twice: Seq<T>)
    requires
        sorts_to(v, once),
        sorts_to(once, twice),
    ensures
        twice == once,
        is_sorted(twice),
{
}

/// Sorts by name; stable, so names already in order stay as they are.
pub fn sort_by_name<T: Named>(v: Vec<T>) -> (r: Vec<T>)
    ensures
        sorts_to(v@, r@),
{
    broadcast use to_multiset_insert, group_to_multiset_ensures;

    let ghost orig = v@;
    let mut input = v;
    let mut out: Vec<T> = Vec::new();
    assert(out@.to_multiset() =~= Multiset::empty());
    assert(orig.subrange(0, orig.len() as int) =~= orig);
    let n = input.len();
    let mut i: usize = 0;
    while i < n
        invariant
            n == orig.len(),
            i <= n,
            input@ == orig.subrange(i as int, n as int),
            out@.len() == i,
            out@.to_multiset().add(input@.to_multiset()) == orig.to_multiset(),
            is_sorted(out@),
            is_sorted(orig) ==> out@ == orig.subrange(0, i as int),
        decreases n - i,
    {
        let ghost in0 = input@;
        let ghost ms_out = out@.to_multiset();
        let x = input.remove(0);
        assert(in0.remove(0) =~= input@);
        proof {
            in0.to_multiset_ensures();
            assert(in0.remove(0).to_multiset() =~= in0.to_multiset().remove(in0[0]));
            assert(in0.contains(x));
            assert(in0.to_multiset().count(x) > 0);
        }
        assert(input@ =~= orig.subrange(i + 1, n as int));
        let mut p: usize = out.len();
        while p > 0 && name_lt(x.name_str(), out[p - 1].name_str())
            invariant
                p <= out@.len(),
                forall|k: int| p <= k < out@.len() ==> lex_lt(x.key(), #[trigger] out@[k].key()),
            decreases p,
        {
            p = p - 1;
        }
        let ghost o0 = out@;
        proof {
            if is_sorted(orig) && i > 0 {
                assert(orig[i as int - 1] == o0[i as int - 1]);
                assert(lex_le(orig[i as int - 1].key(), orig[i as int].key()));
            }
        }
        out.insert(p, x);
        proof {
            assert(out@ == o0.insert(p as int, x));
            assert forall|a: int, b: int| 0 <= a < b < out@.len() implies lex_le(
                #[trigger] out@[a].key(),
                #[trigger] out@[b].key(),
            ) by {
                if p > 0 {
                    lemma_lex_total(x.key(), o0[p - 1].key());
                }
                if b == p {
                    if a < p - 1 {
                        lemma_lex_le_transitive(o0[a].key(), o0[p - 1].key(), x.key());
                    }
                } else if a == p {
                    lemma_lex_total(x.key(), out@[b].key());
                } else if a < p && b > p {
                    lemma_lex_total(x.key(), o0[b - 1].key());
                    if a < p - 1 {
                        lemma_lex_le_transitive(o0[a].key(), o0[p - 1].key(), x.key());
                    }
                    lemma_lex_le_transitive(o0[a].key(), x.key(), o0[b - 1].key());
                }
            }
            to_multiset_insert(o0, p as int, x);
            assert(out@.to_multiset() =~= ms_out.insert(x));
            assert(out@.to_multiset().add(input@.to_multiset()) =~= orig.to_multiset());
            if is_sorted(orig) {
                if i > 0 {
                    assert(!lex_lt(x.key(), o0[i as int - 1].key()));
                }
                assert(p == i);
                assert(out@ =~= orig.subrange(0, i as int + 1));
            }
        }
        i = i + 1;
    }
    proof {
        assert(input@.len() == 0);
        assert(input@ =~= Seq::<T>::empty());
        assert(input@.to_multiset() =~= Multiset::empty());
        assert(out@.to_multiset().add(input@.to_multiset()) =~= out@.to_multiset());
        assert(orig.subrange(0, n as int) =~= orig);
    }
    out
}

} // verus!
