//! The order in which names are listed: character by character, by code
//! point, a prefix before any longer text (the order of `str` and, for
//! names that are valid Unicode, of file paths in one directory).
use vstd::prelude::*;
use vstd::relations::{sorted_by, total_ordering};

verus! {

/// `a` comes no later than `b`.
pub open spec fn chars_le(a: Seq<char>, b: Seq<char>) -> bool
    decreases a.len(),
{
    if a.len() == 0 {
        true
    } else if b.len() == 0 {
        false
    } else if a[0] != b[0] {
        a[0] < b[0]
    } else {
        chars_le(a.drop_first(), b.drop_first())
    }
}

/// The order as a relation.
pub open spec fn name_order() -> spec_fn(Seq<char>, Seq<char>) -> bool {
    |a: Seq<char>, b: Seq<char>| chars_le(a, b)
}

proof fn lemma_chars_le_reflexive(a: Seq<char>)
    ensures
        chars_le(a, a),
    decreases a.len(),
{
    if a.len() > 0 {
        lemma_chars_le_reflexive(a.drop_first());
    }
}

proof fn lemma_chars_le_antisymmetric(a: Seq<char>, b: Seq<char>)
    requires
        chars_le(a, b),
        chars_le(b, a),
    ensures
        a == b,
    decreases a.len(),
{
    if a.len() > 0 && b.len() > 0 {
        if a[0] == b[0] {
            lemma_chars_le_antisymmetric(a.drop_first(), b.drop_first());
            assert(a == seq![a[0]] + a.drop_first());
            assert(b == seq![b[0]] + b.drop_first());
        }
    } else {
        assert(a.len() == 0 && b.len() == 0);
        assert(a =~= b);
    }
}

proof fn lemma_chars_le_transitive(a: Seq<char>, b: Seq<char>, c: Seq<char>)
    requires
        chars_le(a, b),
        chars_le(b, c),
    ensures
        chars_le(a, c),
    decreases a.len(),
{
    if a.len() > 0 && b.len() > 0 && c.len() > 0 {
        if a[0] == b[0] && b[0] == c[0] {
            lemma_chars_le_transitive(a.drop_first(), b.drop_first(), c.drop_first());
        }
    }
}

proof fn lemma_chars_le_total(a: Seq<char>, b: Seq<char>)
    ensures
        chars_le(a, b) || chars_le(b, a),
    decreases a.len(),
{
    if a.len() > 0 && b.len() > 0 && a[0] == b[0] {
        lemma_chars_le_total(a.drop_first(), b.drop_first());
    }
}

/// The order is a total order.
pub proof fn lemma_name_order_total()
    ensures
        total_ordering(name_order()),
{
    assert forall|a: Seq<char>| #[trigger] name_order()(a, a) by {
        lemma_chars_le_reflexive(a);
    }
    assert forall|a: Seq<char>, b: Seq<char>| #[trigger]
        name_order()(a, b) && #[trigger] name_order()(b, a) implies a == b by {
        lemma_chars_le_antisymmetric(a, b);
    }
    assert forall|a: Seq<char>, b: Seq<char>, c: Seq<char>| #[trigger]
        name_order()(a, b) && #[trigger] name_order()(b, c) implies name_order()(a, c) by {
        lemma_chars_le_transitive(a, b, c);
    }
    assert forall|a: Seq<char>, b: Seq<char>| #[trigger]
        name_order()(a, b) || #[trigger] name_order()(b, a) by {
        lemma_chars_le_total(a, b);
    }
}

/// Whether `a` comes no later than `b`.
pub fn chars_le_exec(a: &Vec<char>, b: &Vec<char>) -> (r: bool)
    ensures
        r == chars_le(a@, b@),
{
    let mut i: usize = 0;
    assert(a@.skip(0) == a@ && b@.skip(0) == b@);
    loop
        invariant
            i <= a.len(),
            i <= b.len(),
            chars_le(a@.skip(i as int), b@.skip(i as int)) == chars_le(a@, b@),
        decreases a.len() - i,
    {
        if i == a.len() {
            return true;
        }
        if i == b.len() {
            return false;
        }
        let x = a[i];
        let y = b[i];
        assert(a@.skip(i as int)[0] == x && b@.skip(i as int)[0] == y);
        if x != y {
            return x < y;
        }
        assert(a@.skip(i as int).drop_first() == a@.skip(i + 1));
        assert(b@.skip(i as int).drop_first() == b@.skip(i + 1));
        i += 1;
    }
}

/// The character sequences held by a vector of texts.
pub open spec fn texts_view(v: Seq<Vec<char>>) -> Seq<Seq<char>> {
    v.map_values(|t: Vec<char>| t@)
}

/// `v` put in order.
pub fn sort_texts(v: Vec<Vec<char>>) -> (r: Vec<Vec<char>>)
    ensures
        sorted_by(texts_view(r@), name_order()),
        texts_view(r@).to_multiset() == texts_view(v@).to_multiset(),
{
    proof {
        lemma_name_order_total();
    }
    let mut sorted: Vec<Vec<char>> = Vec::new();
    let mut i: usize = 0;
    assert(texts_view(v@).take(0) =~= Seq::<Seq<char>>::empty());
    assert(texts_view(sorted@) =~= Seq::<Seq<char>>::empty());
    while i < v.len()
        invariant
            i <= v.len(),
            total_ordering(name_order()),
            sorted_by(texts_view(sorted@), name_order()),
            texts_view(sorted@).to_multiset() == texts_view(v@).take(i as int).to_multiset(),
        decreases v.len() - i,
    {
        let x = v[i].clone();
        assert(x@ == v@[i as int]@);
        let mut j: usize = 0;
        while j < sorted.len() && chars_le_exec(&sorted[j], &x)
            invariant
                j <= sorted.len(),
                forall|k: int| 0 <= k < j ==> chars_le(#[trigger] sorted@[k]@, x@),
            decreases sorted.len() - j,
        {
            j += 1;
        }
        let ghost before = texts_view(sorted@);
        sorted.insert(j, x);
        proof {
            let after = texts_view(sorted@);
            assert(after =~= before.insert(j as int, x@));
            assert(after =~= before.take(j as int) + seq![x@] + before.skip(j as int));
            assert(before =~= before.take(j as int) + before.skip(j as int));
            vstd::seq_lib::lemma_multiset_commutative(before.take(j as int) + seq![x@], before.skip(j as int));
            vstd::seq_lib::lemma_multiset_commutative(before.take(j as int), seq![x@]);
            vstd::seq_lib::lemma_multiset_commutative(before.take(j as int), before.skip(j as int));
            let taken = texts_view(v@).take(i + 1);
            assert(taken =~= texts_view(v@).take(i as int) + seq![x@]);
            vstd::seq_lib::lemma_multiset_commutative(texts_view(v@).take(i as int), seq![x@]);
            if j < before.len() {
                assert(!chars_le(before[j as int], x@));
                lemma_chars_le_total(before[j as int], x@);
            }
            assert forall|a: int, b: int| 0 <= a < b < after.len() implies #[trigger] chars_le(
                after[a],
                after[b],
            ) by {
                if b < j {
                    assert(name_order()(before[a], before[b]));
                } else if b == j {
                    assert(chars_le(before[a], x@));
                } else if a == j {
                    if b - 1 > j {
                        assert(name_order()(before[j as int], before[b - 1]));
                        lemma_chars_le_transitive(x@, before[j as int], before[b - 1]);
                    }
                } else if a < j {
                    assert(name_order()(before[a], before[b - 1]));
                } else {
                    assert(name_order()(before[a - 1], before[b - 1]));
                }
            }
        }
        i += 1;
    }
    assert(texts_view(v@).take(v.len() as int) == texts_view(v@));
    sorted
}

} // verus!
