//! The order identifiers are listed in: character by character, a prefix
//! before any longer text it starts.

use vstd::prelude::*;

use crate::text::chars_of;

verus! {

/// Whether `a` sorts strictly before `b`, character by character.
pub open spec fn lex_less(a: Seq<char>, b: Seq<char>) -> bool
    decreases a.len(),
{
    if a.len() == 0 {
        b.len() > 0
    } else if b.len() == 0 {
        false
    } else if a[0] != b[0] {
        a[0] < b[0]
    } else {
        lex_less(a.drop_first(), b.drop_first())
    }
}

/// The texts `v` spells, in order.
pub open spec fn texts_of(v: Seq<String>) -> Seq<Seq<char>> {
    v.map_values(|s: String| s@)
}

/// Whether `s` is in strictly increasing order, so that no text occurs twice.
pub open spec fn strictly_sorted(s: Seq<Seq<char>>) -> bool {
    forall|i: int, j: int| 0 <= i < j < s.len() ==> lex_less(#[trigger] s[i], #[trigger] s[j])
}

/// No text sorts before itself.
pub proof fn lemma_lex_irreflexive(a: Seq<char>)
    ensures
        !lex_less(a, a),
    decreases a.len(),
{
    if a.len() > 0 {
        lemma_lex_irreflexive(a.drop_first());
    }
}

/// Of two different texts, one sorts before the other, and never both.
pub proof fn lemma_lex_total(a: Seq<char>, b: Seq<char>)
    ensures
        a != b ==> (lex_less(a, b) || lex_less(b, a)),
        !(lex_less(a, b) && lex_less(b, a)),
    decreases a.len(),
{
    if a.len() > 0 && b.len() > 0 && a[0] == b[0] {
        lemma_lex_total(a.drop_first(), b.drop_first());
        if a != b {
            assert(a.drop_first() != b.drop_first()) by {
                if a.drop_first() == b.drop_first() {
                    assert(a =~= seq![a[0]] + a.drop_first());
                    assert(b =~= seq![b[0]] + b.drop_first());
                }
            }
        }
    } else if a.len() == 0 && b.len() == 0 {
        assert(a =~= b);
    }
}

/// Sorting before is transitive.
pub proof fn lemma_lex_transitive(a: Seq<char>, b: Seq<char>, c: Seq<char>)
    requires
        lex_less(a, b),
        lex_less(b, c),
    ensures
        lex_less(a, c),
    decreases a.len(),
{
    if a.len() > 0 && b.len() > 0 && c.len() > 0 && a[0] == b[0] && b[0] == c[0] {
        lemma_lex_transitive(a.drop_first(), b.drop_first(), c.drop_first());
    }
}

/// Whether `a` sorts strictly before `b`.
pub fn less_than(a: &str, b: &str) -> (r: bool)
    ensures
        r == lex_less(a@, b@),
{
    let x = chars_of(a);
    let y = chars_of(b);
    let mut i: usize = 0;
    assert(x@.skip(0) =~= x@ && y@.skip(0) =~= y@);
    while i < x.len() && i < y.len() && x[i] == y[i]
        invariant
            i <= x.len(),
            i <= y.len(),
            lex_less(x@, y@) == lex_less(x@.skip(i as int), y@.skip(i as int)),
        decreases x.len() - i,
    {
        assert(x@.skip(i as int).drop_first() =~= x@.skip(i + 1));
        assert(y@.skip(i as int).drop_first() =~= y@.skip(i + 1));
        i = i + 1;
    }
    if i == x.len() {
        i < y.len()
    } else if i == y.len() {
        false
    } else {
        x[i] < y[i]
    }
}

/// Adds `s` to a strictly sorted list, keeping it strictly sorted; a text the
/// list already holds is not added twice.
pub fn insert_sorted(v: &mut Vec<String>, s: String)
    requires
        strictly_sorted(texts_of(old(v)@)),
    ensures
        strictly_sorted(texts_of(final(v)@)),
        texts_of(final(v)@).to_set() == texts_of(old(v)@).to_set().insert(s@),
        final(v)@.len() <= old(v)@.len() + 1,
{
    let ghost before = texts_of(v@);
    let mut i: usize = 0;
    while i < v.len() && less_than(v[i].as_str(), s.as_str())
        invariant
            i <= v.len(),
            before == texts_of(v@),
            strictly_sorted(before),
            forall|k: int| 0 <= k < i ==> lex_less(#[trigger] before[k], s@),
        decreases v.len() - i,
    {
        i = i + 1;
    }
    if i < v.len() && crate::text::str_eq(v[i].as_str(), s.as_str()) {
        assert(before.to_set() =~= before.to_set().insert(s@)) by {
            assert(before[i as int] == s@);
        }
        return;
    }
    proof {
        if i < v.len() {
            lemma_lex_total(before[i as int], s@);
        }
        assert forall|k: int| i <= k < before.len() implies lex_less(s@, #[trigger] before[k]) by {
            if k > i {
                lemma_lex_transitive(s@, before[i as int], before[k]);
            }
        }
    }
    v.insert(i, s);
    proof {
        let after = texts_of(v@);
        assert(after =~= before.insert(i as int, s@));
        assert forall|a: int, b: int| 0 <= a < b < after.len() implies lex_less(
            #[trigger] after[a],
            #[trigger] after[b],
        ) by {
            if b < i {
            } else if a < i && b == i {
            } else if a < i && b > i {
                assert(after[b] == before[b - 1]);
                lemma_lex_transitive(after[a], s@, after[b]);
            } else if a == i {
                assert(after[b] == before[b - 1]);
            } else {
                assert(after[a] == before[a - 1] && after[b] == before[b - 1]);
            }
        }
        assert(after.to_set() =~= before.to_set().insert(s@)) by {
            assert forall|t: Seq<char>| after.to_set().contains(t) implies before.to_set().insert(s@).contains(t) by {
                let k = choose|k: int| 0 <= k < after.len() && after[k] == t;
                if k < i {
                    assert(before[k] == t);
                } else if k > i {
                    assert(before[k - 1] == t);
                }
            }
            assert forall|t: Seq<char>| before.to_set().insert(s@).contains(t) implies after.to_set().contains(t) by {
                if t == s@ {
                    assert(after[i as int] == t);
                } else {
                    let k = choose|k: int| 0 <= k < before.len() && before[k] == t;
                    if k < i {
                        assert(after[k] == t);
                    } else {
                        assert(after[k + 1] == t);
                    }
                }
            }
        }
    }
}


/// Whether `s` is in increasing order, equal texts side by side.
pub open spec fn ordered(s: Seq<Seq<char>>) -> bool {
    forall|i: int, j: int| 0 <= i < j < s.len() ==> !lex_less(#[trigger] s[j], #[trigger] s[i])
}

/// The texts of `v` in increasing order, each as often as `v` holds it.
pub fn sort_texts(v: Vec<String>) -> (r: Vec<String>)
    ensures
        ordered(texts_of(r@)),
        texts_of(r@).to_multiset() == texts_of(v@).to_multiset(),
{
    let ghost input = texts_of(v@);
    let mut out: Vec<String> = Vec::new();
    let mut rest = v;
    let ghost mut done: int = 0;
    assert(input.take(0).to_multiset() =~= texts_of(out@).to_multiset()) by {
        assert(input.take(0) =~= Seq::<Seq<char>>::empty());
        assert(texts_of(out@) =~= Seq::<Seq<char>>::empty());
    }
    while rest.len() > 0
        invariant
            0 <= done <= input.len(),
            texts_of(rest@) == input.skip(done),
            ordered(texts_of(out@)),
            texts_of(out@).to_multiset() == input.take(done).to_multiset(),
        decreases rest.len(),
    {
        let ghost rest_before = rest@;
        assert(texts_of(rest_before).len() == rest_before.len());
        assert(done < input.len());
        assert(texts_of(rest_before)[0] == input[done]);
        let s = rest.remove(0);
        proof {
            assert(rest@ =~= rest_before.drop_first());
            assert(s@ == input[done]);
            assert forall|k: int| 0 <= k < texts_of(rest@).len() implies texts_of(rest@)[k] == input.skip(done + 1)[k] by {
                assert(texts_of(rest@)[k] == rest@[k]@);
                assert(rest@[k] == rest_before[k + 1]);
                assert(texts_of(rest_before)[k + 1] == input.skip(done)[k + 1]);
            }
            assert(texts_of(rest@) =~= input.skip(done + 1));
            assert(input.take(done + 1) =~= input.take(done).push(input[done]));
            vstd::seq_lib::to_multiset_build(input.take(done), input[done]);
        }
        let ghost before = texts_of(out@);
        let mut i: usize = 0;
        while i < out.len() && !less_than(s.as_str(), out[i].as_str())
            invariant
                i <= out.len(),
                before == texts_of(out@),
                ordered(before),
                forall|k: int| 0 <= k < i ==> !lex_less(s@, #[trigger] before[k]),
            decreases out.len() - i,
        {
            i = i + 1;
        }
        proof {
            assert forall|k: int| i <= k < before.len() implies lex_less(s@, #[trigger] before[k]) by {
                if k > i {
                    lemma_lex_total(before[i as int], before[k]);
                    if lex_less(before[i as int], before[k]) {
                        lemma_lex_transitive(s@, before[i as int], before[k]);
                    }
                }
            }
        }
        out.insert(i, s);
        proof {
            let after = texts_of(out@);
            assert(after =~= before.insert(i as int, s@));
            vstd::seq_lib::to_multiset_insert(before, i as int, s@);
            assert forall|a: int, b: int| 0 <= a < b < after.len() implies !lex_less(
                #[trigger] after[b],
                #[trigger] after[a],
            ) by {
                if b < i {
                } else if a < i && b == i {
                } else if a < i && b > i {
                    assert(after[b] == before[b - 1]);
                    lemma_lex_total(after[a], after[b]);
                    if lex_less(after[b], after[a]) {
                        lemma_lex_transitive(s@, after[b], after[a]);
                        lemma_lex_total(s@, after[a]);
                    }
                } else if a == i {
                    assert(after[b] == before[b - 1]);
                    lemma_lex_total(s@, after[b]);
                } else {
                    assert(after[a] == before[a - 1] && after[b] == before[b - 1]);
                }
            }
            done = done + 1;
        }
    }
    proof {
        assert(input.take(done) =~= input);
    }
    out
}


/// Two strictly sorted lists of the same texts are the same list.
pub proof fn lemma_sorted_unique(a: Seq<Seq<char>>, b: Seq<Seq<char>>)
    requires
        strictly_sorted(a),
        strictly_sorted(b),
        a.to_set() == b.to_set(),
    ensures
        a == b,
    decreases a.len(),
{
    if a.len() == 0 {
        if b.len() > 0 {
            assert(b.to_set().contains(b[0]));
        }
        assert(a =~= b);
    } else {
        assert(a.to_set().contains(a[0]));
        assert(b.len() > 0);
        assert(b.to_set().contains(b[0]));
        let i = choose|i: int| 0 <= i < b.len() && b[i] == a[0];
        let j = choose|j: int| 0 <= j < a.len() && a[j] == b[0];
        if i > 0 && j > 0 {
            assert(lex_less(b[0], b[i]));
            assert(lex_less(a[0], a[j]));
            lemma_lex_total(a[0], b[0]);
        } else if i > 0 {
            assert(j == 0 || a[j] == b[0]);
            assert(lex_less(b[0], b[i]));
            lemma_lex_irreflexive(a[0]);
        } else if j > 0 {
            assert(lex_less(a[0], a[j]));
            lemma_lex_irreflexive(b[0]);
        }
        assert(a[0] == b[0]);
        let a1 = a.drop_first();
        let b1 = b.drop_first();
        assert(a1.to_set() =~= b1.to_set()) by {
            assert forall|t: Seq<char>| a1.to_set().contains(t) implies b1.to_set().contains(t) by {
                let k = choose|k: int| 0 <= k < a1.len() && a1[k] == t;
                assert(lex_less(a[0], a[k + 1]));
                assert(b.to_set().contains(t));
                let m = choose|m: int| 0 <= m < b.len() && b[m] == t;
                if m == 0 {
                    lemma_lex_irreflexive(t);
                }
                assert(b1[m - 1] == t);
            }
            assert forall|t: Seq<char>| b1.to_set().contains(t) implies a1.to_set().contains(t) by {
                let k = choose|k: int| 0 <= k < b1.len() && b1[k] == t;
                assert(lex_less(b[0], b[k + 1]));
                assert(a.to_set().contains(t));
                let m = choose|m: int| 0 <= m < a.len() && a[m] == t;
                if m == 0 {
                    lemma_lex_irreflexive(t);
                }
                assert(a1[m - 1] == t);
            }
        }
        assert(strictly_sorted(a1)) by {
            assert forall|x: int, y: int| 0 <= x < y < a1.len() implies lex_less(#[trigger] a1[x], #[trigger] a1[y]) by {
                assert(a1[x] == a[x + 1] && a1[y] == a[y + 1]);
            }
        }
        assert(strictly_sorted(b1)) by {
            assert forall|x: int, y: int| 0 <= x < y < b1.len() implies lex_less(#[trigger] b1[x], #[trigger] b1[y]) by {
                assert(b1[x] == b[x + 1] && b1[y] == b[y + 1]);
            }
        }
        lemma_sorted_unique(a1, b1);
        assert(a =~= seq![a[0]] + a1);
        assert(b =~= seq![b[0]] + b1);
    }
}

/// The texts of `s` in strictly increasing order, for a finite set.
pub open spec fn sorted_ids(s: Set<Seq<char>>) -> Seq<Seq<char>> {
    choose|q: Seq<Seq<char>>| strictly_sorted(q) && q.to_set() == s
}

/// A strictly sorted list is the sorted form of the texts it holds.
pub proof fn lemma_sorted_ids(q: Seq<Seq<char>>)
    requires
        strictly_sorted(q),
    ensures
        sorted_ids(q.to_set()) == q,
{
    let s = q.to_set();
    assert(strictly_sorted(q) && q.to_set() == s);
    let r = sorted_ids(s);
    lemma_sorted_unique(r, q);
}


/// A strictly sorted list holds as many texts as its set does.
pub proof fn lemma_sorted_len(q: Seq<Seq<char>>)
    requires
        strictly_sorted(q),
    ensures
        q.len() == q.to_set().len(),
{
    assert(q.no_duplicates()) by {
        assert forall|i: int, j: int| 0 <= i < q.len() && 0 <= j < q.len() && i != j implies q[i] != q[j] by {
            if i < j {
                lemma_lex_irreflexive(q[i]);
            } else {
                lemma_lex_irreflexive(q[j]);
            }
        }
    }
    q.unique_seq_to_set();
}

} // verus!
