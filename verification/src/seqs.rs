//! Small facts about sequences that the rules below lean on.

use vstd::prelude::*;

verus! {

/// The position of the first element satisfying `p`, or `-1`.
pub open spec fn first_where<T>(s: Seq<T>, p: spec_fn(T) -> bool) -> int
    decreases s.len(),
{
    if s.len() == 0 {
        -1
    } else if p(s[0]) {
        0
    } else {
        let rest = first_where(s.drop_first(), p);
        if rest < 0 { -1 } else { rest + 1 }
    }
}

/// Proof that the first match is where a left-to-right scan stops.
pub proof fn lemma_first_where<T>(s: Seq<T>, p: spec_fn(T) -> bool, i: int)
    requires
        0 <= i <= s.len(),
        forall|k: int| 0 <= k < i ==> !p(#[trigger] s[k]),
        i < s.len() ==> p(s[i]),
    ensures
        first_where(s, p) == (if i < s.len() { i } else { -1 }),
    decreases i,
{
    if i > 0 {
        assert(!p(s[0]));
        lemma_first_where(s.drop_first(), p, i - 1);
    }
}

/// Proof that `first_where` names a matching element, and that none before
/// it matches.
pub proof fn lemma_first_where_facts<T>(s: Seq<T>, p: spec_fn(T) -> bool)
    ensures
        -1 <= first_where(s, p) < s.len(),
        first_where(s, p) >= 0 ==> p(s[first_where(s, p)]),
        forall|k: int| 0 <= k < s.len() && (first_where(s, p) < 0 || k < first_where(s, p)) ==> !p(#[trigger] s[k]),
    decreases s.len(),
{
    if s.len() > 0 {
        lemma_first_where_facts(s.drop_first(), p);
        assert forall|k: int| 0 <= k < s.len() && (first_where(s, p) < 0 || k < first_where(s, p)) implies !p(#[trigger] s[k]) by {
            if k > 0 {
                assert(s[k] == s.drop_first()[k - 1]);
            }
        }
    }
}

/// Proof that filtering one more element extends the filtered prefix.
pub proof fn lemma_filter_take<T>(s: Seq<T>, p: spec_fn(T) -> bool, i: int)
    requires
        0 <= i < s.len(),
    ensures
        s.take(i + 1).filter(p) == (if p(s[i]) { s.take(i).filter(p).push(s[i]) } else { s.take(i).filter(p) }),
{
    reveal_with_fuel(Seq::filter, 1);
    assert(s.take(i + 1).drop_last() =~= s.take(i));
}

/// Keeps the elements `keep` accepts, in order; `keep` decides as `p` says.
pub fn retain_matching<T, F: Fn(&T) -> bool>(v: &mut Vec<T>, keep: F, Ghost(p): Ghost<spec_fn(T) -> bool>)
    requires
        forall|x: &T| #[trigger] keep.requires((x,)),
        forall|x: &T, b: bool| keep.ensures((x,), b) ==> b == p(*x),
    ensures
        final(v)@ == old(v)@.filter(p),
{
    let mut rest: Vec<T> = Vec::new();
    std::mem::swap(&mut rest, v);
    let ghost original = rest@;
    let mut kept: Vec<T> = Vec::new();
    let ghost mut i: int = 0;
    assert(original.skip(0) =~= original);
    while rest.len() > 0
        invariant
            0 <= i <= original.len(),
            rest@ == original.skip(i),
            kept@ == original.take(i).filter(p),
            forall|x: &T| #[trigger] keep.requires((x,)),
            forall|x: &T, b: bool| keep.ensures((x,), b) ==> b == p(*x),
        decreases rest.len(),
    {
        let x = rest.remove(0);
        proof {
            assert(x == original[i]);
            lemma_filter_take(original, p, i);
            assert(original.skip(i + 1) =~= original.skip(i).drop_first());
        }
        let accepted = keep(&x);
        if accepted {
            kept.push(x);
        }
        proof { i = i + 1; }
    }
    assert(original.take(i) =~= original);
    *v = kept;
}


/// Proof that the elements of `s` with `x` appended are those of `s` and `x`.
pub proof fn lemma_push_to_set<T>(s: Seq<T>, x: T)
    ensures
        s.push(x).to_set() == s.to_set().insert(x),
{
    let t = s.push(x);
    assert forall|y: T| t.to_set().contains(y) implies s.to_set().insert(x).contains(y) by {
        let k = choose|k: int| 0 <= k < t.len() && t[k] == y;
        if k < s.len() {
            assert(s[k] == y);
        }
    }
    assert forall|y: T| s.to_set().insert(x).contains(y) implies t.to_set().contains(y) by {
        if y == x {
            assert(t[s.len() as int] == y);
        } else {
            let k = choose|k: int| 0 <= k < s.len() && s[k] == y;
            assert(t[k] == y);
        }
    }
    assert(t.to_set() =~= s.to_set().insert(x));
}

} // verus!
