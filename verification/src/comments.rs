//! Recursive extraction of unique participant names from a comment forest.

use crate::text::normalize_name;
use crate::text::strip_quotes;
use vstd::prelude::*;

verus! {

/// One comment: an author name and its ordered replies, arbitrarily deep.
pub struct CommentNode {
    pub author: String,
    pub replies: Vec<CommentNode>,
}

/// The normalized author names of one node's subtree, depth first, the
/// node's own author first, duplicates kept.
pub open spec fn node_names(n: CommentNode) -> Seq<Seq<char>>
    decreases n,
{
    seq![strip_quotes(n.author@)] + forest_names(n.replies@)
}

/// The normalized author names of a whole forest, depth first, in order of
/// appearance, duplicates kept.
pub open spec fn forest_names(f: Seq<CommentNode>) -> Seq<Seq<char>>
    decreases f,
{
    if f.len() == 0 {
        Seq::empty()
    } else {
        node_names(f[0]) + forest_names(f.drop_first())
    }
}

/// Appends to `acc` each name of `xs` not yet present, in order of first
/// appearance: the shared participant set after one extraction pass.
pub open spec fn add_names(acc: Seq<Seq<char>>, xs: Seq<Seq<char>>) -> Seq<Seq<char>>
    decreases xs.len(),
{
    if xs.len() == 0 {
        acc
    } else if acc.contains(xs[0]) {
        add_names(acc, xs.drop_first())
    } else {
        add_names(acc.push(xs[0]), xs.drop_first())
    }
}

/// No name stands twice in the set.
pub open spec fn no_dups(s: Seq<Seq<char>>) -> bool {
    forall|i: int, j: int| 0 <= i < j < s.len() ==> s[i] != s[j]
}

proof fn lemma_add_names_concat(acc: Seq<Seq<char>>, a: Seq<Seq<char>>, b: Seq<Seq<char>>)
    ensures
        add_names(acc, a + b) == add_names(add_names(acc, a), b),
    decreases a.len(),
{
    if a.len() == 0 {
        assert(a + b =~= b);
    } else {
        assert((a + b)[0] == a[0]);
        assert((a + b).drop_first() =~= a.drop_first() + b);
        if acc.contains(a[0]) {
            lemma_add_names_concat(acc, a.drop_first(), b);
        } else {
            lemma_add_names_concat(acc.push(a[0]), a.drop_first(), b);
        }
    }
}

proof fn lemma_forest_names_push(f: Seq<CommentNode>, x: CommentNode)
    ensures
        forest_names(f.push(x)) == forest_names(f) + node_names(x),
    decreases f.len(),
{
    if f.len() == 0 {
        assert(f.push(x)[0] == x);
        assert(f.push(x).drop_first() =~= f);
        assert(forest_names(f) == Seq::<Seq<char>>::empty());
        assert(forest_names(f.push(x)) == node_names(x) + forest_names(f));
        assert(forest_names(f.push(x)) =~~= forest_names(f) + node_names(x));
    } else {
        assert(f.push(x)[0] == f[0]);
        assert(f.push(x).drop_first() =~= f.drop_first().push(x));
        lemma_forest_names_push(f.drop_first(), x);
        assert(forest_names(f.push(x)) == node_names(f[0]) + (forest_names(f.drop_first())
            + node_names(x)));
        assert(node_names(f[0]) + (forest_names(f.drop_first()) + node_names(x)) =~= (node_names(
            f[0],
        ) + forest_names(f.drop_first())) + node_names(x));
    }
}

/// The deduplication law: a name stands in the set after a pass exactly when
/// it stood there before or appears in the pass, old names keep their places,
/// and a set without duplicates stays without duplicates.
pub proof fn lemma_add_names(acc: Seq<Seq<char>>, xs: Seq<Seq<char>>)
    ensures
        forall|x: Seq<char>|
            add_names(acc, xs).contains(x) <==> acc.contains(x) || xs.contains(x),
        no_dups(acc) ==> no_dups(add_names(acc, xs)),
        add_names(acc, xs).len() >= acc.len(),
        forall|i: int| 0 <= i < acc.len() ==> add_names(acc, xs)[i] == acc[i],
    decreases xs.len(),
{
    if xs.len() == 0 {
    } else {
        let x0 = xs[0];
        assert(xs.contains(x0)) by {
            assert(xs[0] == x0);
        }
        assert(forall|x: Seq<char>|
            xs.contains(x) <==> x == x0 || xs.drop_first().contains(x)) by {
            assert forall|x: Seq<char>| xs.contains(x) implies x == x0 || xs.drop_first().contains(
                x,
            ) by {
                let i = choose|i: int| 0 <= i < xs.len() && xs[i] == x;
                if i > 0 {
                    assert(xs.drop_first()[i - 1] == x);
                }
            }
            assert forall|x: Seq<char>|
                x == x0 || xs.drop_first().contains(x) implies xs.contains(x) by {
                if x == x0 {
                    assert(xs[0] == x);
                } else {
                    let i = choose|i: int|
                        0 <= i < xs.drop_first().len() && xs.drop_first()[i] == x;
                    assert(xs[i + 1] == x);
                }
            }
        }
        if acc.contains(x0) {
            lemma_add_names(acc, xs.drop_first());
            assert(add_names(acc, xs) == add_names(acc, xs.drop_first()));
        } else {
            let acc2 = acc.push(x0);
            assert(forall|x: Seq<char>| acc2.contains(x) <==> acc.contains(x) || x == x0) by {
                assert forall|x: Seq<char>| acc2.contains(x) implies acc.contains(x) || x
                    == x0 by {
                    let i = choose|i: int| 0 <= i < acc2.len() && acc2[i] == x;
                    if i < acc.len() {
                        assert(acc[i] == x);
                    }
                }
                assert forall|x: Seq<char>| acc.contains(x) || x == x0 implies acc2.contains(
                    x,
                ) by {
                    if acc.contains(x) {
                        let i = choose|i: int| 0 <= i < acc.len() && acc[i] == x;
                        assert(acc2[i] == x);
                    } else {
                        assert(acc2[acc.len() as int] == x);
                    }
                }
            }
            assert(no_dups(acc) ==> no_dups(acc2)) by {
                if no_dups(acc) {
                    assert forall|i: int, j: int| 0 <= i < j < acc2.len() implies acc2[i]
                        != acc2[j] by {
                        if j == acc.len() {
                            assert(!acc.contains(x0));
                            assert(acc[i] == acc2[i]);
                        }
                    }
                }
            }
            lemma_add_names(acc2, xs.drop_first());
            assert(add_names(acc, xs) == add_names(acc2, xs.drop_first()));
            assert forall|i: int| 0 <= i < acc.len() implies add_names(acc, xs)[i] == acc[i] by {
                assert(add_names(acc2, xs.drop_first())[i] == acc2[i]);
                assert(acc2[i] == acc[i]);
            }
        }
    }
}

/// Extraction on an empty set yields exactly the distinct names of the
/// forest, each exactly once, whatever the nesting depth.
pub proof fn lemma_extract_unique(f: Seq<CommentNode>)
    ensures
        forall|x: Seq<char>|
            add_names(Seq::empty(), forest_names(f)).contains(x) <==> forest_names(f).contains(x),
        no_dups(add_names(Seq::empty(), forest_names(f))),
{
    lemma_add_names(Seq::empty(), forest_names(f));
}

/// Collects the distinct normalized participant names of comment forests
/// into one shared, growable set, preserving first-seen order.
pub struct CommentTreeExtractor {}

impl CommentTreeExtractor {
    /// Depth-first walk of one node: records the author if not yet present,
    /// then every reply, at any depth.
    fn extract_node(n: &CommentNode, names: &mut Vec<String>)
        ensures
            final(names).deep_view() == add_names(old(names).deep_view(), node_names(*n)),
        decreases *n,
    {
        let normalized = normalize_name(n.author.as_str());
        let mut present = false;
        let mut j: usize = 0;
        while j < names.len()
            invariant
                0 <= j <= names.len(),
                present <==> exists|k: int| 0 <= k < j && names.deep_view()[k] == normalized@,
            decreases names.len() - j,
        {
            if names[j] == normalized {
                proof {
                    assert(names.deep_view()[j as int] == normalized@);
                }
                present = true;
            }
            j = j + 1;
        }
        proof {
            assert(present <==> names.deep_view().contains(normalized@));
        }
        let ghost acc0 = names.deep_view();
        if !present {
            names.push(normalized);
        }
        let ghost acc1 = names.deep_view();
        proof {
            if !acc0.contains(strip_quotes(n.author@)) {
                assert(acc1 =~= acc0.push(strip_quotes(n.author@)));
            } else {
                assert(acc1 =~= acc0);
            }
            let single = seq![strip_quotes(n.author@)];
            assert(single.drop_first() =~= Seq::<Seq<char>>::empty());
            assert(single[0] == strip_quotes(n.author@));
            assert(add_names(acc0, single) == add_names(acc1, single.drop_first()));
            assert(add_names(acc1, single.drop_first()) == acc1);
            assert(n.replies@.take(0) =~= Seq::<CommentNode>::empty());
            assert(forest_names(n.replies@.take(0)) == Seq::<Seq<char>>::empty());
            assert(add_names(acc1, forest_names(n.replies@.take(0))) == acc1);
        }
        let mut i: usize = 0;
        while i < n.replies.len()
            invariant
                0 <= i <= n.replies.len(),
                names.deep_view() == add_names(acc1, forest_names(n.replies@.take(i as int))),
            decreases n.replies.len() - i,
        {
            proof {
                assert(n.replies@.take(i + 1).drop_last() =~= n.replies@.take(i as int));
                assert(n.replies@.take(i + 1) =~= n.replies@.take(i as int).push(n.replies@[i as int]));
                lemma_forest_names_push(n.replies@.take(i as int), n.replies@[i as int]);
                lemma_add_names_concat(
                    acc1,
                    forest_names(n.replies@.take(i as int)),
                    node_names(n.replies@[i as int]),
                );
            }
            Self::extract_node(&n.replies[i], names);
            i = i + 1;
        }
        proof {
            assert(n.replies@.take(n.replies@.len() as int) =~= n.replies@);
            let single = seq![strip_quotes(n.author@)];
            lemma_add_names_concat(old(names).deep_view(), single, forest_names(n.replies@));
            assert(single + forest_names(n.replies@) == node_names(*n));
        }
    }

    /// Records every distinct normalized author name of the forest in the
    /// shared set, appending unseen names in first-seen, depth-first order.
    pub fn extract(forest: &Vec<CommentNode>, names: &mut Vec<String>)
        ensures
            final(names).deep_view() == add_names(old(names).deep_view(), forest_names(forest@)),
    {
        proof {
            assert(forest@.take(0) =~= Seq::<CommentNode>::empty());
            assert(forest_names(forest@.take(0)) == Seq::<Seq<char>>::empty());
            assert(add_names(old(names).deep_view(), forest_names(forest@.take(0)))
                == old(names).deep_view());
        }
        let mut i: usize = 0;
        while i < forest.len()
            invariant
                0 <= i <= forest.len(),
                names.deep_view() == add_names(
                    old(names).deep_view(),
                    forest_names(forest@.take(i as int)),
                ),
            decreases forest.len() - i,
        {
            proof {
                assert(forest@.take(i + 1) =~= forest@.take(i as int).push(forest@[i as int]));
                lemma_forest_names_push(forest@.take(i as int), forest@[i as int]);
                lemma_add_names_concat(
                    old(names).deep_view(),
                    forest_names(forest@.take(i as int)),
                    node_names(forest@[i as int]),
                );
            }
            Self::extract_node(&forest[i], names);
            i = i + 1;
        }
        proof {
            assert(forest@.take(forest@.len() as int) =~= forest@);
        }
    }
}

} // verus!
