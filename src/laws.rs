//! What holds of every rendering.
use vstd::prelude::*;
use vstd::seq_lib::*;

use crate::model::{FieldView, LayoutView, RowView, TypeLayoutInfo};
use crate::render::{
    declared_total, layout_text, longest_name, name_step, name_width, size_step,
};
use crate::rows::{field_row, field_rows, layout_rows, padding_label, rows_from};
use crate::sort::{lemma_sort_by_offset, offsets_ascending, sort_by_offset};

verus! {

/// In offset order, each field ends at or before the start of the next,
/// and every field ends within the type.
pub open spec fn fields_disjoint_within(v: LayoutView) -> bool {
    let s = sort_by_offset(v.fields);
    &&& forall|k: int| 0 <= k && k + 1 < s.len() ==> s[k].offset + s[k].size <= s[k + 1].offset
    &&& forall|k: int| 0 <= k < s.len() ==> s[k].offset + s[k].size <= v.size
}

/// The rows' spans follow one another with no gap and no overlap, from
/// `start` to `end`.
pub open spec fn spans_contiguous(rows: Seq<RowView>, start: nat, end: nat) -> bool {
    &&& rows.len() == 0 ==> start == end
    &&& rows.len() > 0 ==> rows[0].offset == start && rows.last().offset + rows.last().size == end
    &&& forall|k: int|
        0 <= k && k + 1 < rows.len() ==> rows[k].offset + rows[k].size == rows[k + 1].offset
}

/// The sum of the rows' sizes.
pub open spec fn rows_total(rows: Seq<RowView>) -> nat
    decreases rows.len(),
{
    if rows.len() == 0 {
        0
    } else {
        rows[0].size + rows_total(rows.drop_first())
    }
}

/// Rendering reads nothing but the report's contents: two reports with the
/// same contents, such as one report rendered twice, give the same text.
pub proof fn lemma_render_deterministic(a: &TypeLayoutInfo, b: &TypeLayoutInfo)
    requires
        a@ == b@,
    ensures
        layout_text(a@) == layout_text(b@),
{
}

proof fn lemma_rows_total_append(a: Seq<RowView>, b: Seq<RowView>)
    ensures
        rows_total(a + b) == rows_total(a) + rows_total(b),
    decreases a.len(),
{
    if a.len() > 0 {
        assert((a + b).drop_first() =~= a.drop_first() + b);
        lemma_rows_total_append(a.drop_first(), b);
    } else {
        assert(a + b =~= b);
    }
}

proof fn lemma_spans_append(a: Seq<RowView>, b: Seq<RowView>, start: nat, mid: nat, end: nat)
    requires
        spans_contiguous(a, start, mid),
        spans_contiguous(b, mid, end),
    ensures
        spans_contiguous(a + b, start, end),
{
    let c = a + b;
    if a.len() == 0 {
        assert(c =~= b);
    } else if b.len() == 0 {
        assert(c =~= a);
    } else {
        assert forall|k: int| 0 <= k && k + 1 < c.len() implies c[k].offset + c[k].size
            == c[k + 1].offset by {
            if k + 1 < a.len() {
                assert(c[k] == a[k] && c[k + 1] == a[k + 1]);
            } else if k + 1 == a.len() {
                assert(c[k] == a.last() && c[k + 1] == b[0]);
            } else {
                assert(c[k] == b[k - a.len()] && c[k + 1] == b[k + 1 - a.len()]);
            }
        }
    }
}

/// The rows from a cursor onwards cover the bytes from the cursor to the
/// end of the type, when the remaining fields neither overlap nor pass the
/// end.
proof fn lemma_rows_from_cover(cells: Seq<RowView>, cursor: nat, size: nat)
    requires
        cursor <= size,
        cells.len() > 0 ==> cursor <= cells[0].offset,
        forall|k: int|
            0 <= k && k + 1 < cells.len() ==> cells[k].offset + cells[k].size <= cells[k + 1].offset,
        forall|k: int| 0 <= k < cells.len() ==> cells[k].offset + cells[k].size <= size,
    ensures
        spans_contiguous(rows_from(cells, cursor, size), cursor, size),
        rows_total(rows_from(cells, cursor, size)) == size - cursor,
    decreases cells.len(),
{
    let r = rows_from(cells, cursor, size);
    if cells.len() == 0 {
        if cursor < size {
            assert(rows_total(r) == rows_total(r.drop_first()) + (size - cursor));
            assert(r.drop_first() =~= Seq::<RowView>::empty());
        }
    } else {
        let f = cells[0];
        let end = f.offset + f.size;
        let rest = cells.drop_first();
        assert forall|k: int| 0 <= k && k + 1 < rest.len() implies rest[k].offset + rest[k].size
            <= rest[k + 1].offset by {
            assert(rest[k] == cells[k + 1] && rest[k + 1] == cells[k + 2]);
        }
        assert forall|k: int| 0 <= k < rest.len() implies rest[k].offset + rest[k].size
            <= size by {
            assert(rest[k] == cells[k + 1]);
        }
        if rest.len() > 0 {
            assert(rest[0] == cells[1]);
        }
        lemma_rows_from_cover(rest, end, size);
        let tail = rows_from(rest, end, size);
        let gap = if cursor < f.offset {
            seq![crate::rows::padding_row(cursor, f.offset)]
        } else {
            Seq::<RowView>::empty()
        };
        assert(r == gap + seq![f] + tail);
        assert(spans_contiguous(gap, cursor, f.offset));
        assert(spans_contiguous(seq![f], f.offset, end));
        lemma_spans_append(gap, seq![f], cursor, f.offset, end);
        lemma_spans_append(gap + seq![f], tail, cursor, end, size);
        lemma_rows_total_append(gap + seq![f], tail);
        lemma_rows_total_append(gap, seq![f]);
        assert(rows_total(seq![f]) == f.size + rows_total(seq![f].drop_first()));
        assert(seq![f].drop_first() =~= Seq::<RowView>::empty());
        if cursor < f.offset {
            assert(rows_total(gap) == gap[0].size + rows_total(gap.drop_first()));
            assert(gap.drop_first() =~= Seq::<RowView>::empty());
        }
    }
}

proof fn lemma_field_rows_disjoint(v: LayoutView)
    requires
        fields_disjoint_within(v),
    ensures
        forall|k: int|
            0 <= k && k + 1 < field_rows(v).len() ==> field_rows(v)[k].offset + field_rows(v)[k].size
                <= field_rows(v)[k + 1].offset,
        forall|k: int|
            0 <= k < field_rows(v).len() ==> field_rows(v)[k].offset + field_rows(v)[k].size <= v.size,
{
    let s = sort_by_offset(v.fields);
    let c = field_rows(v);
    assert forall|k: int| 0 <= k && k + 1 < c.len() implies c[k].offset + c[k].size
        <= c[k + 1].offset by {
        assert(c[k] == field_row(s[k]) && c[k + 1] == field_row(s[k + 1]));
    }
    assert forall|k: int| 0 <= k < c.len() implies c[k].offset + c[k].size <= v.size by {
        assert(c[k] == field_row(s[k]));
    }
}

/// The sizes of all rows, fields and padding, add up to the type's size,
/// when the fields neither overlap nor pass the end of the type.
pub proof fn lemma_rows_cover_size(v: LayoutView)
    requires
        fields_disjoint_within(v),
    ensures
        rows_total(layout_rows(v)) == v.size,
{
    lemma_field_rows_disjoint(v);
    lemma_rows_from_cover(field_rows(v), 0, v.size);
}

/// Each row starts where the one before it ends: the rows cover the bytes
/// from 0 to the type's size exactly once, when the fields neither overlap
/// nor pass the end of the type.
pub proof fn lemma_rows_contiguous(v: LayoutView)
    requires
        fields_disjoint_within(v),
    ensures
        spans_contiguous(layout_rows(v), 0, v.size),
{
    lemma_field_rows_disjoint(v);
    lemma_rows_from_cover(field_rows(v), 0, v.size);
}

proof fn lemma_longest_name_below(fields: Seq<FieldView>, bound: nat)
    requires
        forall|i: int| 0 <= i < fields.len() ==> fields[i].name.len() < bound,
        bound > 0,
    ensures
        longest_name(fields) < bound,
    decreases fields.len(),
{
    if fields.len() > 0 {
        lemma_longest_name_below(fields.drop_last(), bound);
    }
}

/// The Name column is at least as wide as the padding label exactly when
/// the fields' sizes add up to less than the type's size, unless a field
/// name is itself that long in a type that shows no padding.
pub proof fn lemma_padding_width_gate(v: LayoutView)
    requires
        declared_total(v.fields) >= v.size ==> forall|i: int|
            0 <= i < v.fields.len() ==> v.fields[i].name.len() < padding_label().len(),
    ensures
        (declared_total(v.fields) < v.size) <==> name_width(v) >= padding_label().len(),
{
    reveal_strlit("[padding]");
    reveal_strlit("Name");
    if declared_total(v.fields) >= v.size {
        lemma_longest_name_below(v.fields, padding_label().len());
    }
}

/// Fields that share an offset show the same row.
pub open spec fn equal_offsets_same_row(s: Seq<FieldView>) -> bool {
    forall|i: int, j: int|
        0 <= i < s.len() && 0 <= j < s.len() && s[i].offset == s[j].offset ==> field_row(s[i])
            == field_row(s[j])
}

/// Two arrangements of the same fields, both in ascending offset order,
/// show the same rows when fields that share an offset show the same row.
proof fn lemma_sorted_same_rows(x: Seq<FieldView>, y: Seq<FieldView>)
    requires
        offsets_ascending(x),
        offsets_ascending(y),
        x.to_multiset() == y.to_multiset(),
        equal_offsets_same_row(x),
    ensures
        x.map_values(|f: FieldView| field_row(f)) == y.map_values(|f: FieldView| field_row(f)),
    decreases x.len(),
{
    broadcast use group_to_multiset_ensures;

    to_multiset_len(x);
    to_multiset_len(y);
    if x.len() == 0 {
        assert(y.len() == 0);
        assert(x.map_values(|f: FieldView| field_row(f)) =~= y.map_values(|f: FieldView| field_row(f)));
    } else {
        assert(y.len() == x.len());
        let x0 = x[0];
        let y0 = y[0];
        assert(x.contains(x0));
        assert(x.to_multiset().count(x0) > 0);
        assert(y.to_multiset().count(x0) > 0);
        assert(y.contains(x0));
        let k = y.index_of(x0);
        assert(y.contains(y0));
        assert(y.to_multiset().count(y0) > 0);
        assert(x.to_multiset().count(y0) > 0);
        assert(x.contains(y0));
        let m = x.index_of(y0);
        assert(y0.offset == x0.offset);
        assert forall|j: int| 0 <= j <= k implies field_row(#[trigger] y[j]) == field_row(x0) by {
            assert(y.contains(y[j]));
            assert(y.to_multiset().count(y[j]) > 0);
            assert(x.to_multiset().count(y[j]) > 0);
            assert(x.contains(y[j]));
            let q = x.index_of(y[j]);
            assert(x[q].offset == x0.offset);
        }
        let xr = x.drop_first();
        let yr = y.remove(k);
        assert(xr =~= x.remove(0));
        to_multiset_remove(x, 0);
        to_multiset_remove(y, k);
        assert forall|i: int, j: int| 0 <= i <= j < yr.len() implies yr[i].offset <= yr[j].offset by {
            if i < k && j >= k {
                assert(yr[i] == y[i] && yr[j] == y[j + 1]);
            } else if i >= k {
                assert(yr[i] == y[i + 1] && yr[j] == y[j + 1]);
            }
        }
        assert forall|i: int, j: int|
            0 <= i < xr.len() && 0 <= j < xr.len() && xr[i].offset == xr[j].offset implies field_row(
            xr[i],
        ) == field_row(xr[j]) by {
            assert(xr[i] == x[i + 1] && xr[j] == x[j + 1]);
        }
        lemma_sorted_same_rows(xr, yr);
        let xm = x.map_values(|f: FieldView| field_row(f));
        let ym = y.map_values(|f: FieldView| field_row(f));
        let xrm = xr.map_values(|f: FieldView| field_row(f));
        let yrm = yr.map_values(|f: FieldView| field_row(f));
        assert forall|i: int| 0 <= i < xm.len() implies xm[i] == ym[i] by {
            if i == 0 {
                assert(field_row(y[0]) == field_row(x0));
            } else if i <= k {
                assert(xm[i] == xrm[i - 1]);
                assert(yrm[i - 1] == field_row(y[i - 1]));
                assert(field_row(y[i]) == field_row(x0));
                assert(field_row(y[i - 1]) == field_row(x0));
            } else {
                assert(xm[i] == xrm[i - 1]);
                assert(yrm[i - 1] == field_row(y[i]));
            }
        }
        assert(xm =~= ym);
    }
}

/// Shuffling a report's fields does not change its rendering, when fields
/// that share an offset show the same row (name, offset and size).
pub proof fn lemma_render_order_independent(a: LayoutView, b: LayoutView)
    requires
        a.name == b.name,
        a.size == b.size,
        a.alignment == b.alignment,
        a.fields.to_multiset() == b.fields.to_multiset(),
        equal_offsets_same_row(a.fields),
    ensures
        layout_rows(a) == layout_rows(b),
        layout_text(a) == layout_text(b),
{
    broadcast use group_to_multiset_ensures;

    let sa = sort_by_offset(a.fields);
    let sb = sort_by_offset(b.fields);
    lemma_sort_by_offset(a.fields);
    lemma_sort_by_offset(b.fields);
    assert forall|i: int, j: int|
        0 <= i < sa.len() && 0 <= j < sa.len() && sa[i].offset == sa[j].offset implies field_row(
        sa[i],
    ) == field_row(sa[j]) by {
        assert(sa.contains(sa[i]));
        assert(sa.contains(sa[j]));
        assert(sa.to_multiset().count(sa[i]) > 0);
        assert(sa.to_multiset().count(sa[j]) > 0);
        assert(a.fields.to_multiset().count(sa[i]) > 0);
        assert(a.fields.to_multiset().count(sa[j]) > 0);
        assert(a.fields.contains(sa[i]));
        assert(a.fields.contains(sa[j]));
        let p = a.fields.index_of(sa[i]);
        let q = a.fields.index_of(sa[j]);
        assert(a.fields[p].offset == a.fields[q].offset);
    }
    lemma_sorted_same_rows(sa, sb);
    assert(field_rows(a) == field_rows(b));
    assert(a.fields.len() == b.fields.len()) by {
        to_multiset_len(a.fields);
        to_multiset_len(b.fields);
    }
    assert(commutative_foldl(size_step()));
    assert(commutative_foldl(name_step()));
    lemma_fold_left_permutation(a.fields, b.fields, size_step(), 0nat);
    lemma_fold_left_permutation(a.fields, b.fields, name_step(), 0nat);
    assert(declared_total(a.fields) == declared_total(b.fields));
    assert(longest_name(a.fields) == longest_name(b.fields));
    assert(name_width(a) == name_width(b));
}

} // verus!
