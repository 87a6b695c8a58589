//! The rows of a layout table: each field in offset order, with a padding
//! row for every gap before a field and after the last one.
use vstd::prelude::*;
use vstd::string::*;

use crate::model::{fields_view, rows_view, FieldView, LayoutView, Row, RowView, TypeLayoutInfo};
use crate::sort::{sort_by_offset, sorted_order};

verus! {

/// The name shown on a padding row.
pub open spec fn padding_label() -> Seq<char> {
    "[padding]"@
}

/// The row that shows a field.
pub open spec fn field_row(f: FieldView) -> RowView {
    RowView { offset: f.offset, name: f.name, size: f.size }
}

/// The row that shows the padding bytes `[from, to)`.
pub open spec fn padding_row(from: nat, to: nat) -> RowView {
    RowView { offset: from, name: padding_label(), size: (to - from) as nat }
}

/// The rows for `cells` (fields in offset order) when bytes up to `cursor`
/// are already shown, in a type of `size` bytes.
pub open spec fn rows_from(cells: Seq<RowView>, cursor: nat, size: nat) -> Seq<RowView>
    decreases cells.len(),
{
    if cells.len() == 0 {
        if cursor < size {
            seq![padding_row(cursor, size)]
        } else {
            seq![]
        }
    } else {
        let f = cells[0];
        let gap = if cursor < f.offset {
            seq![padding_row(cursor, f.offset)]
        } else {
            seq![]
        };
        gap + seq![f] + rows_from(cells.drop_first(), f.offset + f.size, size)
    }
}

/// The field rows of a report, in offset order.
pub open spec fn field_rows(v: LayoutView) -> Seq<RowView> {
    sort_by_offset(v.fields).map_values(|f: FieldView| field_row(f))
}

/// All rows of a report's table, padding included.
pub open spec fn layout_rows(v: LayoutView) -> Seq<RowView> {
    rows_from(field_rows(v), 0, v.size)
}

impl TypeLayoutInfo {
    /// The rows of this report's table: the fields by ascending offset, a
    /// padding row before each field that starts past the bytes shown so
    /// far, and one after the last field if bytes of the type remain.
    pub fn rows(&self) -> (r: Vec<Row>)
        ensures
            rows_view(r@) == layout_rows(self@),
    {
        let order = sorted_order(&self.fields);
        let ghost cells = field_rows(self@);
        let ghost sorted = sort_by_offset(fields_view(self.fields@));
        let ghost n = order@.len() as int;
        assert(cells.len() == n);
        assert forall|k: int| 0 <= k < n implies cells[k] == field_row(
            self.fields@[order@[k] as int]@,
        ) by {
            assert(sorted[k] == order@.map_values(|j: usize| self.fields@[j as int]@)[k]);
        }
        proof {
            reveal_strlit("[padding]");
        }
        let mut rows: Vec<Row> = Vec::new();
        let mut cursor: u128 = 0;
        let mut k: usize = 0;
        assert(cells.subrange(0, n) =~= cells);
        while k < order.len()
            invariant
                n == order@.len(),
                cells.len() == n,
                forall|i: int| 0 <= i < n ==> order@[i] < self.fields@.len(),
                forall|i: int|
                    0 <= i < n ==> cells[i] == field_row(#[trigger] self.fields@[order@[i] as int]@),
                k <= n,
                cursor <= usize::MAX as u128 + usize::MAX as u128,
                rows_view(rows@) + rows_from(cells.subrange(k as int, n), cursor as nat, self.size as nat)
                    == layout_rows(self@),
            decreases n - k,
        {
            let f = &self.fields[order[k]];
            let ghost c0 = cursor as nat;
            let ghost before = rows_view(rows@);
            let ghost rest = cells.subrange(k as int, n);
            let ghost cell = cells[k as int];
            let ghost gap = if c0 < cell.offset {
                seq![padding_row(c0, cell.offset)]
            } else {
                seq![]
            };
            assert(rest[0] == cell);
            assert(cell == field_row(self.fields@[order@[k as int] as int]@));
            assert(cell == field_row(f@));
            assert(rest.drop_first() =~= cells.subrange(k + 1, n));
            if (f.offset as u128) > cursor {
                let pad = Row {
                    offset: cursor as usize,
                    name: String::from_str("[padding]"),
                    size: f.offset - cursor as usize,
                };
                rows.push(pad);
                assert(rows_view(rows@) =~= before + gap);
            } else {
                assert(rows_view(rows@) =~= before + gap);
            }
            let ghost mid = rows_view(rows@);
            rows.push(Row { offset: f.offset, name: f.name.clone(), size: f.size });
            cursor = f.offset as u128 + f.size as u128;
            assert(rows_view(rows@) =~= mid.push(cell));
            assert(rows_view(rows@) =~= before + gap + seq![cell]);
            assert(rows_view(rows@) + rows_from(cells.subrange(k + 1, n), cursor as nat, self.size as nat)
                =~= before + rows_from(rest, c0, self.size as nat));
            k = k + 1;
        }
        if cursor < self.size as u128 {
            rows.push(Row {
                offset: cursor as usize,
                name: String::from_str("[padding]"),
                size: self.size - cursor as usize,
            });
        }
        assert(cells.subrange(n, n) =~= Seq::<RowView>::empty());
        assert(rows_view(rows@) =~= layout_rows(self@));
        rows
    }
}

} // verus!
