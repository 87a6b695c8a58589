//! The layout report: a type's size and alignment and its fields, and the
//! rows that a rendered table shows.
use vstd::prelude::*;

verus! {

/// A type whose layout can be reported. Each inspectable type implements it
/// by hand, from `size_of`, `align_of` and the offsets of its fields.
pub trait TypeLayout {
    fn type_layout() -> TypeLayoutInfo;
}

/// The layout of one inspected type. `fields` may come in any order: the
/// rendering sorts them by offset.
#[derive(Debug, Clone)]
pub struct TypeLayoutInfo {
    pub name: String,
    pub size: usize,
    pub alignment: usize,
    pub fields: Vec<Field>,
    /// The generic parameters the type was instantiated with, for display.
    pub generics: Vec<String>,
}

/// One declared field: its name (or positional index), the name of its
/// type, its size in bytes and its offset from the start of the type.
#[derive(Debug, Clone)]
pub struct Field {
    pub name: String,
    pub ty: String,
    pub size: usize,
    pub offset: usize,
}

/// One row of a rendered table: a field, or a run of padding bytes.
#[derive(Debug, Clone)]
pub struct Row {
    pub offset: usize,
    pub name: String,
    pub size: usize,
}

/// The widths of the three columns of a rendered table.
#[derive(Debug, Clone, Copy)]
pub struct RowWidths {
    pub offset: usize,
    pub name: usize,
    pub size: usize,
}

/// A field as plain values: what `Field` holds, with strings as characters.
pub struct FieldView {
    pub name: Seq<char>,
    pub ty: Seq<char>,
    pub size: nat,
    pub offset: nat,
}

/// A report as plain values.
pub struct LayoutView {
    pub name: Seq<char>,
    pub size: nat,
    pub alignment: nat,
    pub fields: Seq<FieldView>,
    pub generics: Seq<Seq<char>>,
}

/// A table row as plain values.
pub struct RowView {
    pub offset: nat,
    pub name: Seq<char>,
    pub size: nat,
}

impl View for Field {
    type V = FieldView;

    open spec fn view(&self) -> FieldView {
        FieldView { name: self.name@, ty: self.ty@, size: self.size as nat, offset: self.offset as nat }
    }
}

/// The views of a sequence of fields.
pub open spec fn fields_view(fields: Seq<Field>) -> Seq<FieldView> {
    fields.map_values(|f: Field| f@)
}

impl View for TypeLayoutInfo {
    type V = LayoutView;

    open spec fn view(&self) -> LayoutView {
        LayoutView {
            name: self.name@,
            size: self.size as nat,
            alignment: self.alignment as nat,
            fields: fields_view(self.fields@),
            generics: self.generics@.map_values(|g: String| g@),
        }
    }
}

impl View for Row {
    type V = RowView;

    open spec fn view(&self) -> RowView {
        RowView { offset: self.offset as nat, name: self.name@, size: self.size as nat }
    }
}

/// The views of a sequence of rows.
pub open spec fn rows_view(rows: Seq<Row>) -> Seq<RowView> {
    rows.map_values(|r: Row| r@)
}

} // verus!
