//! Stable ordering of fields by offset.
use vstd::prelude::*;

use crate::model::{fields_view, Field, FieldView};

verus! {

/// `s` with `f` put before the first element whose offset is greater than
/// `f`'s: after every element of equal offset.
pub open spec fn insert_by_offset(f: FieldView, s: Seq<FieldView>) -> Seq<FieldView>
    decreases s.len(),
{
    if s.len() == 0 {
        seq![f]
    } else if f.offset < s[0].offset {
        seq![f] + s
    } else {
        seq![s[0]] + insert_by_offset(f, s.drop_first())
    }
}

/// The fields ordered by ascending offset; fields of equal offset keep
/// their relative order.
pub open spec fn sort_by_offset(s: Seq<FieldView>) -> Seq<FieldView>
    decreases s.len(),
{
    if s.len() == 0 {
        s
    } else {
        insert_by_offset(s.last(), sort_by_offset(s.drop_last()))
    }
}

/// Offsets do not decrease along `s`.
pub open spec fn offsets_ascending(s: Seq<FieldView>) -> bool {
    forall|i: int, j: int| 0 <= i <= j < s.len() ==> s[i].offset <= s[j].offset
}

/// Inserting by offset is inserting at the first position whose offset is
/// greater.
pub proof fn lemma_insert_at_first_greater(f: FieldView, s: Seq<FieldView>, p: int)
    requires
        0 <= p <= s.len(),
        forall|k: int| 0 <= k < p ==> s[k].offset <= f.offset,
        p < s.len() ==> f.offset < s[p].offset,
    ensures
        insert_by_offset(f, s) == s.insert(p, f),
    decreases s.len(),
{
    if p == 0 {
        assert(insert_by_offset(f, s) =~= s.insert(p, f));
    } else {
        lemma_insert_at_first_greater(f, s.drop_first(), p - 1);
        assert(insert_by_offset(f, s) =~= s.insert(p, f));
    }
}

/// Where `insert_by_offset` puts `f`: after every element of offset at most
/// `f`'s, before the first of greater offset.
pub proof fn lemma_insert_position(f: FieldView, s: Seq<FieldView>) -> (p: int)
    ensures
        0 <= p <= s.len(),
        insert_by_offset(f, s) == s.insert(p, f),
        forall|k: int| 0 <= k < p ==> s[k].offset <= f.offset,
        p < s.len() ==> f.offset < s[p].offset,
    decreases s.len(),
{
    if s.len() == 0 || f.offset < s[0].offset {
        assert(insert_by_offset(f, s) =~= s.insert(0, f));
        0
    } else {
        let q = lemma_insert_position(f, s.drop_first());
        assert(insert_by_offset(f, s) =~= s.insert(q + 1, f));
        assert forall|k: int| 0 <= k < q + 1 implies s[k].offset <= f.offset by {
            if k > 0 {
                assert(s[k] == s.drop_first()[k - 1]);
            }
        }
        q + 1
    }
}

/// Sorting by offset yields ascending offsets and keeps every field.
pub proof fn lemma_sort_by_offset(s: Seq<FieldView>)
    ensures
        offsets_ascending(sort_by_offset(s)),
        sort_by_offset(s).to_multiset() == s.to_multiset(),
    decreases s.len(),
{
    broadcast use vstd::seq_lib::group_to_multiset_ensures;

    if s.len() > 0 {
        let rest = sort_by_offset(s.drop_last());
        lemma_sort_by_offset(s.drop_last());
        let f = s.last();
        let p = lemma_insert_position(f, rest);
        let t = rest.insert(p, f);
        assert forall|i: int, j: int| 0 <= i <= j < t.len() implies t[i].offset <= t[j].offset by {
            if i < p && j > p {
                assert(t[i] == rest[i]);
                assert(t[j] == rest[j - 1]);
            } else if i > p {
                assert(t[i] == rest[i - 1]);
                assert(t[j] == rest[j - 1]);
            }
        }
        vstd::seq_lib::to_multiset_insert(rest, p, f);
        assert(s =~= s.drop_last().push(f));
    }
}

/// The positions of `fields`, ordered so that the fields they name come by
/// ascending offset, ties in their original order.
pub fn sorted_order(fields: &Vec<Field>) -> (order: Vec<usize>)
    ensures
        order@.len() == fields@.len(),
        forall|k: int| 0 <= k < order@.len() ==> order@[k] < fields@.len(),
        order@.map_values(|j: usize| fields@[j as int]@) == sort_by_offset(fields_view(fields@)),
{
    let ghost fv = fields_view(fields@);
    let mut order: Vec<usize> = Vec::new();
    let mut i: usize = 0;
    assert(fv.take(0) =~= Seq::<FieldView>::empty());
    assert(order@.map_values(|j: usize| fields@[j as int]@) =~= sort_by_offset(fv.take(0)));
    while i < fields.len()
        invariant
            fv == fields_view(fields@),
            i <= fields@.len(),
            order@.len() == i,
            forall|k: int| 0 <= k < order@.len() ==> order@[k] < i,
            order@.map_values(|j: usize| fields@[j as int]@) == sort_by_offset(fv.take(i as int)),
        decreases fields@.len() - i,
    {
        let key = fields[i].offset;
        let mut p: usize = 0;
        while p < order.len() && fields[order[p]].offset <= key
            invariant
                i < fields@.len(),
                key == fields@[i as int].offset,
                order@.len() == i,
                forall|k: int| 0 <= k < order@.len() ==> order@[k] < i,
                p <= order@.len(),
                forall|k: int| 0 <= k < p ==> fields@[order@[k] as int].offset <= key,
            decreases order@.len() - p,
        {
            p = p + 1;
        }
        let ghost before = order@.map_values(|j: usize| fields@[j as int]@);
        proof {
            lemma_insert_at_first_greater(fv[i as int], before, p as int);
            assert(fv.take(i + 1).drop_last() =~= fv.take(i as int));
        }
        order.insert(p, i);
        assert(order@.map_values(|j: usize| fields@[j as int]@) =~= before.insert(
            p as int,
            fv[i as int],
        ));
        i = i + 1;
    }
    assert(fv.take(i as int) =~= fv);
    order
}

} // verus!
