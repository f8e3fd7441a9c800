//! Sorting strings as Rust orders them: char by char.

use vstd::prelude::*;

use crate::completion::words::texts;
use crate::extendedtests::{sorts_before, str_less};

verus! {

/// Whether the texts are in order: none sorts before one ahead of it.
pub open spec fn in_order(s: Seq<Seq<char>>) -> bool {
    forall|i: int, j: int| 0 <= i < j < s.len() ==> !sorts_before(#[trigger] s[j], #[trigger] s[i])
}

/// No text sorts before itself.
pub proof fn lemma_before_irreflexive(a: Seq<char>)
    ensures
        !sorts_before(a, a),
    decreases a.len(),
{
    if a.len() > 0 {
        lemma_before_irreflexive(a.drop_first());
    }
}

/// Sorting before is transitive.
pub proof fn lemma_before_transitive(a: Seq<char>, b: Seq<char>, c: Seq<char>)
    requires
        sorts_before(a, b),
        sorts_before(b, c),
    ensures
        sorts_before(a, c),
    decreases a.len(),
{
    if a.len() > 0 && b.len() > 0 && c.len() > 0 && a[0] == b[0] && b[0] == c[0] {
        lemma_before_transitive(a.drop_first(), b.drop_first(), c.drop_first());
    }
}

/// Of two different texts, one sorts before the other.
pub proof fn lemma_before_total(a: Seq<char>, b: Seq<char>)
    requires
        a != b,
    ensures
        sorts_before(a, b) || sorts_before(b, a),
    decreases a.len(),
{
    if a.len() > 0 && b.len() > 0 && a[0] == b[0] {
        if a.drop_first() == b.drop_first() {
            assert(a =~= seq![a[0]] + a.drop_first());
            assert(b =~= seq![b[0]] + b.drop_first());
        }
        lemma_before_total(a.drop_first(), b.drop_first());
    } else if a.len() == 0 && b.len() == 0 {
        assert(a =~= b);
    }
}

/// Returns the strings sorted, char by char: the same strings, in order.
pub fn sorted_strings(v: Vec<String>) -> (r: Vec<String>)
    ensures
        in_order(texts(r@)),
        texts(r@).to_multiset() == texts(v@).to_multiset(),
{
    broadcast use vstd::seq_lib::to_multiset_insert, vstd::seq_lib::to_multiset_build;

    let mut out: Vec<String> = Vec::new();
    let mut i: usize = 0;
    proof {
        assert(texts(out@) =~= Seq::<Seq<char>>::empty());
        assert(texts(v@).take(0) =~= Seq::<Seq<char>>::empty());
    }
    while i < v.len()
        invariant
            i <= v@.len(),
            in_order(texts(out@)),
            texts(out@).to_multiset() == texts(v@).take(i as int).to_multiset(),
        decreases v@.len() - i,
    {
        let x = v[i].clone();
        let ghost xs = v@[i as int]@;
        proof {
            assert(texts(v@)[i as int] == xs);
        }
        let mut p: usize = 0;
        while p < out.len() && !str_less(x.as_str(), out[p].as_str())
            invariant
                p <= out@.len(),
                x@ == xs,
                forall|k: int| 0 <= k < p ==> !sorts_before(xs, #[trigger] texts(out@)[k]),
            decreases out@.len() - p,
        {
            p = p + 1;
        }
        let ghost before = texts(out@);
        out.insert(p, x);
        proof {
            assert(texts(out@) =~= before.insert(p as int, xs));
            assert forall|a: int, b: int| 0 <= a < b < texts(out@).len() implies !sorts_before(
                #[trigger] texts(out@)[b],
                #[trigger] texts(out@)[a],
            ) by {
                let s = texts(out@);
                if b < p {
                    assert(s[a] == before[a] && s[b] == before[b]);
                } else if b == p {
                    assert(s[a] == before[a]);
                    assert(s[b] == xs);
                } else if a == p {
                    assert(s[b] == before[b - 1]);
                    assert(s[a] == xs);
                    if sorts_before(before[b - 1], xs) {
                        assert(sorts_before(xs, before[p as int]));
                        lemma_before_transitive(before[b - 1], xs, before[p as int]);
                        if b - 1 == p {
                            lemma_before_irreflexive(before[p as int]);
                        }
                    }
                } else if a < p {
                    assert(s[a] == before[a] && s[b] == before[b - 1]);
                } else {
                    assert(s[a] == before[a - 1] && s[b] == before[b - 1]);
                }
            }
            assert(texts(v@).take(i + 1) =~= texts(v@).take(i as int).push(xs));
            vstd::seq_lib::to_multiset_insert(before, p as int, xs);
            vstd::seq_lib::to_multiset_build(texts(v@).take(i as int), xs);
            assert(texts(out@).to_multiset() == before.to_multiset().insert(xs));
            assert(texts(v@).take(i + 1).to_multiset() == texts(v@).take(i as int).to_multiset().insert(xs));
        }
        i = i + 1;
    }
    proof {
        assert(texts(v@).take(v@.len() as int) =~= texts(v@));
    }
    out
}

/// Two sorted lists, each holding no text twice, that hold the same texts are the same.
pub proof fn lemma_sorted_listing_unique(a: Seq<Seq<char>>, b: Seq<Seq<char>>)
    requires
        in_order(a),
        in_order(b),
        a.no_duplicates(),
        b.no_duplicates(),
        forall|n: Seq<char>| a.contains(n) <==> b.contains(n),
    ensures
        a == b,
    decreases a.len(),
{
    if a.len() == 0 {
        if b.len() > 0 {
            assert(b.contains(b[0]));
        }
        assert(a =~= b);
    } else {
        assert(a.contains(a[0]));
        assert(b.len() > 0);
        assert(b.contains(b[0]));
        let j = choose|j: int| 0 <= j < b.len() && b[j] == a[0];
        let k = choose|k: int| 0 <= k < a.len() && a[k] == b[0];
        if a[0] != b[0] {
            lemma_before_total(a[0], b[0]);
            assert(!sorts_before(a[k], a[0]));
            assert(!sorts_before(b[j], b[0]));
        }
        let ta = a.drop_first();
        let tb = b.drop_first();
        assert forall|n: Seq<char>| ta.contains(n) <==> tb.contains(n) by {
            if ta.contains(n) {
                let i = choose|i: int| 0 <= i < ta.len() && ta[i] == n;
                assert(a[i + 1] == n && a[i + 1] != a[0]);
                assert(a.contains(n));
                let i2 = choose|i2: int| 0 <= i2 < b.len() && b[i2] == n;
                assert(i2 != 0);
                assert(tb[i2 - 1] == n);
            }
            if tb.contains(n) {
                let i = choose|i: int| 0 <= i < tb.len() && tb[i] == n;
                assert(b[i + 1] == n && b[i + 1] != b[0]);
                assert(b.contains(n));
                let i2 = choose|i2: int| 0 <= i2 < a.len() && a[i2] == n;
                assert(i2 != 0);
                assert(ta[i2 - 1] == n);
            }
        }
        assert(in_order(ta)) by {
            assert forall|x: int, y: int| 0 <= x < y < ta.len() implies !sorts_before(#[trigger] ta[y], #[trigger] ta[x]) by {
                assert(ta[y] == a[y + 1] && ta[x] == a[x + 1]);
            }
        }
        assert(in_order(tb)) by {
            assert forall|x: int, y: int| 0 <= x < y < tb.len() implies !sorts_before(#[trigger] tb[y], #[trigger] tb[x]) by {
                assert(tb[y] == b[y + 1] && tb[x] == b[x + 1]);
            }
        }
        lemma_sorted_listing_unique(ta, tb);
        assert(a =~= seq![a[0]] + ta);
        assert(b =~= seq![b[0]] + tb);
    }
}

} // verus!
