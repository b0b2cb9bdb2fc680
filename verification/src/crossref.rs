//! The cross-reference map: user-assigned footnote ids mapped to final
//! footnote numbers.

use crate::parser::{Branch, BranchModel};
use vstd::prelude::*;

verus! {

broadcast use vstd::std_specs::vec::group_vec_axioms, vstd::seq::group_seq_axioms;

/// The models of an id-to-number pair vector.
pub open spec fn pairs_model(v: Seq<(String, i32)>) -> Seq<(Seq<char>, int)>
    decreases v.len(),
{
    if v.len() == 0 {
        Seq::empty()
    } else {
        seq![(v[0].0@, v[0].1 as int)] + pairs_model(v.drop_first())
    }
}

pub proof fn lemma_pairs_model(v: Seq<(String, i32)>)
    ensures
        pairs_model(v).len() == v.len(),
        forall|k: int|
            0 <= k < v.len() ==> pairs_model(v)[k] == (v[k].0@, v[k].1 as int),
    decreases v.len(),
{
    if v.len() > 0 {
        lemma_pairs_model(v.drop_first());
        assert forall|k: int| 0 <= k < v.len() implies pairs_model(v)[k] == (
            v[k].0@,
            v[k].1 as int,
        ) by {
            if k > 0 {
                assert(v.drop_first()[k - 1] == v[k]);
            }
        }
    }
}

/// The id-to-number entries that the first `i` branches of the tree yield:
/// one per footnote with an id, in document order.
pub open spec fn crossref_pre(tree: Seq<BranchModel>, i: int) -> Seq<(Seq<char>, int)>
    decreases i,
{
    if i <= 0 {
        Seq::empty()
    } else {
        let p = crossref_pre(tree, i - 1);
        match tree[i - 1] {
            BranchModel::Footnote(f) => match f.id {
                Some(id) => p + seq![(id, f.number)],
                None => p,
            },
            _ => p,
        }
    }
}

/// The cross-reference map of a whole tree.
pub open spec fn crossref_map_spec(tree: Seq<BranchModel>) -> Seq<(Seq<char>, int)> {
    crossref_pre(tree, tree.len() as int)
}

/// The number stored under `key`: the latest entry wins, as with repeated
/// map insertions.
pub open spec fn crossref_lookup(m: Seq<(Seq<char>, int)>, key: Seq<char>) -> Option<int>
    decreases m.len(),
{
    if m.len() == 0 {
        None
    } else if m.last().0 == key {
        Some(m.last().1)
    } else {
        crossref_lookup(m.drop_last(), key)
    }
}

/// Creates the cross-reference map.
///
/// Iterates through the branches looking for footnotes.  If a footnote has
/// an id, the id and footnote number are added to the map.
pub fn build_crossref_map(tree: &Vec<Branch>) -> (r: Vec<(String, i32)>)
    ensures
        pairs_model(r@) == crossref_map_spec(crate::parser::branches_model(tree@)),
{
    let mut crossref_map: Vec<(String, i32)> = Vec::new();
    let n: usize = tree.len();
    let mut i: usize = 0;
    let ghost tm = crate::parser::branches_model(tree@);
    proof {
        crate::parser::lemma_branches_model(tree@);
        assert(pairs_model(crossref_map@) =~= Seq::<(Seq<char>, int)>::empty());
    }
    while i < n
        invariant
            n == tree@.len(),
            i <= n,
            tm == crate::parser::branches_model(tree@),
            tm.len() == n,
            forall|k: int| 0 <= k < n ==> tm[k] == crate::parser::branch_model(tree@[k]),
            pairs_model(crossref_map@) == crossref_pre(tm, i as int),
        decreases n - i,
    {
        let ghost pre = crossref_map@;
        match &tree[i] {
            Branch::Footnote(f) => {
                match &f.id {
                    Some(id) => {
                        crossref_map.push((id.clone(), f.number));
                        proof {
                            lemma_pairs_model(pre);
                            lemma_pairs_model(crossref_map@);
                            assert(pairs_model(crossref_map@) =~= pairs_model(pre) + seq![
                                (id@, f.number as int),
                            ]);
                        }
                    },
                    None => {},
                }
            },
            _ => {},
        }
        proof {
            assert(tm[i as int] == crate::parser::branch_model(tree@[i as int]));
            assert(pairs_model(crossref_map@) == crossref_pre(tm, i + 1));
        }
        i = i + 1;
    }
    crossref_map
}

/// Look a cross-reference id up, preferring the latest entry.
pub fn lookup_crossref(map: &Vec<(String, i32)>, key: &String) -> (r: Option<i32>)
    ensures
        match r {
            Some(x) => crossref_lookup(pairs_model(map@), key@) == Some(x as int),
            None => crossref_lookup(pairs_model(map@), key@) is None,
        },
{
    let ghost pm = pairs_model(map@);
    let n: usize = map.len();
    proof {
        lemma_pairs_model(map@);
        assert(pm.take(n as int) =~= pm);
    }
    let mut i: usize = n;
    while i > 0
        invariant
            n == map@.len(),
            i <= n,
            pm == pairs_model(map@),
            pm.len() == n,
            forall|k: int| 0 <= k < n ==> pm[k] == (map@[k].0@, map@[k].1 as int),
            crossref_lookup(pm, key@) == crossref_lookup(pm.take(i as int), key@),
        decreases i,
    {
        i = i - 1;
        if map[i].0 == *key {
            proof {
                assert(pm.take(i + 1).last() == pm[i as int]);
            }
            return Some(map[i].1);
        }
        proof {
            assert(pm.take(i + 1).last() == pm[i as int]);
            assert(pm.take(i + 1).drop_last() =~= pm.take(i as int));
        }
    }
    proof {
        assert(pm.take(0).len() == 0);
    }
    None
}

} // verus!
