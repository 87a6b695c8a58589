//! The text table of a layout report.
use vstd::prelude::*;
use vstd::string::*;

use crate::decimal::{append_decimal, decimal, decimal_string};
use crate::model::{rows_view, FieldView, LayoutView, Row, RowView, RowWidths, TypeLayoutInfo};
use crate::rows::{layout_rows, padding_label};

verus! {

pub open spec fn max_nat(a: nat, b: nat) -> nat {
    if a < b {
        b
    } else {
        a
    }
}

/// `n` copies of `c`.
pub open spec fn repeat_char(c: char, n: nat) -> Seq<char> {
    Seq::new(n, |_i: int| c)
}

/// `s` followed by enough spaces to make it `width` characters long; `s`
/// itself when it is already that long.
pub open spec fn pad_right(s: Seq<char>, width: nat) -> Seq<char> {
    if s.len() < width {
        s + repeat_char(' ', (width - s.len()) as nat)
    } else {
        s
    }
}

/// One line of the table, with its three cells left-justified to the
/// column widths.
pub open spec fn table_line(
    offset: Seq<char>,
    name: Seq<char>,
    size: Seq<char>,
    offset_width: nat,
    name_width: nat,
    size_width: nat,
) -> Seq<char> {
    "| "@ + pad_right(offset, offset_width) + " | "@ + pad_right(name, name_width) + " | "@
        + pad_right(size, size_width) + " |\n"@
}

/// Adds a field's size to a running total.
pub open spec fn size_step() -> spec_fn(nat, FieldView) -> nat {
    |total: nat, f: FieldView| total + f.size
}

/// Keeps the longer of a running maximum and a field's name length.
pub open spec fn name_step() -> spec_fn(nat, FieldView) -> nat {
    |longest: nat, f: FieldView| max_nat(longest, f.name.len())
}

/// The sum of the fields' sizes.
pub open spec fn declared_total(fields: Seq<FieldView>) -> nat {
    fields.fold_left(0nat, size_step())
}

/// The length of the longest field name, 0 when there are no fields.
pub open spec fn longest_name(fields: Seq<FieldView>) -> nat {
    fields.fold_left(0nat, name_step())
}

/// The width of the Offset column: its header, or the widest offset shown.
pub open spec fn offset_width(rows: Seq<RowView>) -> nat
    decreases rows.len(),
{
    if rows.len() == 0 {
        "Offset"@.len()
    } else {
        max_nat(offset_width(rows.drop_last()), decimal(rows.last().offset).len())
    }
}

/// The width of the Size column: its header, or the widest size shown.
pub open spec fn size_width(rows: Seq<RowView>) -> nat
    decreases rows.len(),
{
    if rows.len() == 0 {
        "Size"@.len()
    } else {
        max_nat(size_width(rows.drop_last()), decimal(rows.last().size).len())
    }
}

/// The width of the Name column: its header, the longest field name (1
/// when there are no fields), and the padding label if and only if the
/// fields' sizes add up to less than the type's size.
pub open spec fn name_width(v: LayoutView) -> nat {
    let names = if v.fields.len() == 0 {
        1
    } else {
        longest_name(v.fields)
    };
    let padding = if declared_total(v.fields) < v.size {
        padding_label().len()
    } else {
        0
    };
    max_nat("Name"@.len(), max_nat(names, padding))
}

/// The lines of the data rows.
pub open spec fn rows_text(
    rows: Seq<RowView>,
    offset_width: nat,
    name_width: nat,
    size_width: nat,
) -> Seq<char>
    decreases rows.len(),
{
    if rows.len() == 0 {
        Seq::empty()
    } else {
        let r = rows.last();
        rows_text(rows.drop_last(), offset_width, name_width, size_width) + table_line(
            decimal(r.offset),
            r.name,
            decimal(r.size),
            offset_width,
            name_width,
            size_width,
        )
    }
}

/// The first line: the type's name, size and alignment.
pub open spec fn header_line(v: LayoutView) -> Seq<char> {
    v.name + " (size "@ + decimal(v.size) + ", alignment "@ + decimal(v.alignment) + ")\n"@
}

/// The whole rendering of a report: the first line, the column headers, a
/// line of dashes, and one line per row.
pub open spec fn layout_text(v: LayoutView) -> Seq<char> {
    let rows = layout_rows(v);
    let wo = offset_width(rows);
    let wn = name_width(v);
    let ws = size_width(rows);
    header_line(v) + table_line("Offset"@, "Name"@, "Size"@, wo, wn, ws) + table_line(
        repeat_char('-', wo),
        repeat_char('-', wn),
        repeat_char('-', ws),
        wo,
        wn,
        ws,
    ) + rows_text(rows, wo, wn, ws)
}

/// Appends `n` copies of the one character of `piece`.
fn append_repeated(out: &mut String, piece: &str, n: usize)
    requires
        piece@.len() == 1,
    ensures
        final(out)@ == old(out)@ + repeat_char(piece@[0], n as nat),
{
    let mut i: usize = 0;
    assert(out@ =~= old(out)@ + repeat_char(piece@[0], 0));
    while i < n
        invariant
            piece@.len() == 1,
            i <= n,
            out@ == old(out)@ + repeat_char(piece@[0], i as nat),
        decreases n - i,
    {
        out.append(piece);
        i = i + 1;
        assert(out@ =~= old(out)@ + repeat_char(piece@[0], i as nat));
    }
}

/// Appends `cell`, left-justified to `width` characters.
fn append_padded(out: &mut String, cell: &str, width: usize)
    ensures
        final(out)@ == old(out)@ + pad_right(cell@, width as nat),
{
    out.append(cell);
    let len = cell.unicode_len();
    if len < width {
        proof {
            reveal_strlit(" ");
        }
        append_repeated(out, " ", width - len);
        assert(out@ =~= old(out)@ + pad_right(cell@, width as nat));
    } else {
        assert(out@ =~= old(out)@ + pad_right(cell@, width as nat));
    }
}

/// Appends one line of the table: the three cells, each left-justified to
/// its column's width, between bars.
pub fn write_row(out: &mut String, widths: RowWidths, offset: &str, name: &str, size: &str)
    ensures
        final(out)@ == old(out)@ + table_line(
            offset@,
            name@,
            size@,
            widths.offset as nat,
            widths.name as nat,
            widths.size as nat,
        ),
{
    out.append("| ");
    append_padded(out, offset, widths.offset);
    out.append(" | ");
    append_padded(out, name, widths.name);
    out.append(" | ");
    append_padded(out, size, widths.size);
    out.append(" |\n");
    assert(out@ =~= old(out)@ + table_line(
        offset@,
        name@,
        size@,
        widths.offset as nat,
        widths.name as nat,
        widths.size as nat,
    ));
}

/// Sums of sizes only grow along a sequence of fields.
pub proof fn lemma_declared_total_prefix(fields: Seq<FieldView>, j: int)
    requires
        0 <= j <= fields.len(),
    ensures
        declared_total(fields.take(j)) <= declared_total(fields),
    decreases fields.len(),
{
    if j < fields.len() {
        assert(fields.drop_last().take(j) =~= fields.take(j));
        lemma_declared_total_prefix(fields.drop_last(), j);
    } else {
        assert(fields.take(j) =~= fields);
    }
}

impl TypeLayoutInfo {
    /// Whether the fields' sizes add up to less than the type's size, so
    /// that the table shows padding.
    pub fn has_padding(&self) -> (r: bool)
        ensures
            r == (declared_total(self@.fields) < self@.size),
    {
        if self.size == 0 {
            return false;
        }
        let ghost fv = self@.fields;
        let mut total: usize = 0;
        let mut i: usize = 0;
        assert(fv.take(0) =~= Seq::<FieldView>::empty());
        while i < self.fields.len()
            invariant
                fv == self@.fields,
                i <= fv.len(),
                total == declared_total(fv.take(i as int)),
                total < self.size,
            decreases fv.len() - i,
        {
            let size = self.fields[i].size;
            assert(fv.take(i + 1).drop_last() =~= fv.take(i as int));
            if size >= self.size - total {
                proof {
                    lemma_declared_total_prefix(fv, i + 1);
                }
                return false;
            }
            total = total + size;
            i = i + 1;
        }
        assert(fv.take(i as int) =~= fv);
        true
    }

    /// The column widths of this report's table, given its rows.
    fn column_widths(&self, rows: &Vec<Row>) -> (r: RowWidths)
        requires
            rows_view(rows@) == layout_rows(self@),
        ensures
            r.offset == offset_width(layout_rows(self@)),
            r.name == name_width(self@),
            r.size == size_width(layout_rows(self@)),
    {
        proof {
            reveal_strlit("Offset");
            reveal_strlit("Name");
            reveal_strlit("Size");
            reveal_strlit("[padding]");
        }
        let ghost rv = rows_view(rows@);
        let mut offset: usize = 6;
        let mut size: usize = 4;
        let mut i: usize = 0;
        assert(rv.take(0) =~= Seq::<RowView>::empty());
        while i < rows.len()
            invariant
                rv == rows_view(rows@),
                i <= rv.len(),
                offset == offset_width(rv.take(i as int)),
                size == size_width(rv.take(i as int)),
            decreases rv.len() - i,
        {
            assert(rv.take(i + 1).drop_last() =~= rv.take(i as int));
            assert(rv[i as int] == rows@[i as int]@);
            let o = decimal_string(rows[i].offset).as_str().unicode_len();
            if o > offset {
                offset = o;
            }
            let s = decimal_string(rows[i].size).as_str().unicode_len();
            if s > size {
                size = s;
            }
            i = i + 1;
        }
        assert(rv.take(i as int) =~= rv);

        let ghost fv = self@.fields;
        let mut longest: usize = 0;
        let mut j: usize = 0;
        assert(fv.take(0) =~= Seq::<FieldView>::empty());
        while j < self.fields.len()
            invariant
                fv == self@.fields,
                j <= fv.len(),
                longest == longest_name(fv.take(j as int)),
            decreases fv.len() - j,
        {
            assert(fv.take(j + 1).drop_last() =~= fv.take(j as int));
            let len = self.fields[j].name.as_str().unicode_len();
            if len > longest {
                longest = len;
            }
            j = j + 1;
        }
        assert(fv.take(j as int) =~= fv);
        let names: usize = if self.fields.len() == 0 {
            1
        } else {
            longest
        };
        let padding: usize = if self.has_padding() {
            9
        } else {
            0
        };
        let wide = if names < padding {
            padding
        } else {
            names
        };
        let name = if wide < 4 {
            4
        } else {
            wide
        };
        RowWidths { offset, name, size }
    }

    /// The table of this report: a line with the type's name, size and
    /// alignment, the column headers Offset, Name and Size, a line of
    /// dashes, and a line for each row of `rows`, every cell left-justified
    /// to its column's width.
    pub fn render(&self) -> (r: String)
        ensures
            r@ == layout_text(self@),
    {
        let rows = self.rows();
        let widths = self.column_widths(&rows);
        let ghost rv = rows_view(rows@);
        let ghost wo = widths.offset as nat;
        let ghost wn = widths.name as nat;
        let ghost ws = widths.size as nat;
        let mut out = String::new();
        out.append(self.name.as_str());
        out.append(" (size ");
        append_decimal(&mut out, self.size);
        out.append(", alignment ");
        append_decimal(&mut out, self.alignment);
        out.append(")\n");
        assert(out@ =~= header_line(self@));
        write_row(&mut out, widths, "Offset", "Name", "Size");
        proof {
            reveal_strlit("-");
        }
        let mut dashes_offset = String::new();
        append_repeated(&mut dashes_offset, "-", widths.offset);
        let mut dashes_name = String::new();
        append_repeated(&mut dashes_name, "-", widths.name);
        let mut dashes_size = String::new();
        append_repeated(&mut dashes_size, "-", widths.size);
        assert(dashes_offset@ =~= repeat_char('-', wo));
        assert(dashes_name@ =~= repeat_char('-', wn));
        assert(dashes_size@ =~= repeat_char('-', ws));
        write_row(&mut out, widths, dashes_offset.as_str(), dashes_name.as_str(), dashes_size.as_str());
        let ghost head = out@;
        let mut i: usize = 0;
        assert(rv.take(0) =~= Seq::<RowView>::empty());
        assert(out@ =~= head + rows_text(rv.take(0), wo, wn, ws));
        while i < rows.len()
            invariant
                rv == rows_view(rows@),
                i <= rv.len(),
                out@ == head + rows_text(rv.take(i as int), wo, wn, ws),
                wo == widths.offset as nat,
                wn == widths.name as nat,
                ws == widths.size as nat,
            decreases rv.len() - i,
        {
            assert(rv.take(i + 1).drop_last() =~= rv.take(i as int));
            assert(rv[i as int] == rows@[i as int]@);
            let offset = decimal_string(rows[i].offset);
            let size = decimal_string(rows[i].size);
            write_row(&mut out, widths, offset.as_str(), rows[i].name.as_str(), size.as_str());
            i = i + 1;
            assert(out@ =~= head + rows_text(rv.take(i as int), wo, wn, ws));
        }
        assert(rv.take(i as int) =~= rv);
        assert(out@ =~= layout_text(self@));
        out
    }
}

} // verus!
