use type_layout::decimal::decimal_string;
use type_layout::render::write_row;
use type_layout::sort::sorted_order;
use type_layout::{Field, RowWidths, TypeLayout, TypeLayoutInfo};

fn field(name: &str, ty: &str, size: usize, offset: usize) -> Field {
    Field {
        name: name.to_string(),
        ty: ty.to_string(),
        size,
        offset,
    }
}

fn info(name: &str, size: usize, alignment: usize, fields: Vec<Field>) -> TypeLayoutInfo {
    TypeLayoutInfo {
        name: name.to_string(),
        size,
        alignment,
        fields,
        generics: Vec::new(),
    }
}

fn row_triples(layout: &TypeLayoutInfo) -> Vec<(usize, String, usize)> {
    layout
        .rows()
        .into_iter()
        .map(|r| (r.offset, r.name, r.size))
        .collect()
}

#[allow(dead_code)]
struct Wrapper {
    value: u32,
}

impl TypeLayout for Wrapper {
    fn type_layout() -> TypeLayoutInfo {
        info(
            "Wrapper",
            std::mem::size_of::<Wrapper>(),
            std::mem::align_of::<Wrapper>(),
            vec![field("value", "u32", std::mem::size_of::<u32>(), 0)],
        )
    }
}

#[test]
fn scenario_inner_padding() {
    let layout = info(
        "Foo",
        8,
        4,
        vec![field("a", "u8", 1, 0), field("b", "u32", 4, 4)],
    );
    assert_eq!(
        row_triples(&layout),
        vec![
            (0, "a".to_string(), 1),
            (1, "[padding]".to_string(), 3),
            (4, "b".to_string(), 4),
        ]
    );
    assert_eq!(
        layout.render(),
        "Foo (size 8, alignment 4)\n\
         | Offset | Name      | Size |\n\
         | ------ | --------- | ---- |\n\
         | 0      | a         | 1    |\n\
         | 1      | [padding] | 3    |\n\
         | 4      | b         | 4    |\n"
    );
}

#[test]
fn scenario_tail_padding() {
    let layout = info("OverAligned", 128, 128, vec![field("value", "u8", 1, 0)]);
    assert_eq!(
        row_triples(&layout),
        vec![(0, "value".to_string(), 1), (1, "[padding]".to_string(), 127)]
    );
    assert_eq!(
        layout.render(),
        "OverAligned (size 128, alignment 128)\n\
         | Offset | Name      | Size |\n\
         | ------ | --------- | ---- |\n\
         | 0      | value     | 1    |\n\
         | 1      | [padding] | 127  |\n"
    );
}

#[test]
fn scenario_empty_zero_size() {
    let layout = info("Empty", 0, 1, Vec::new());
    assert!(layout.rows().is_empty());
    assert_eq!(
        layout.render(),
        "Empty (size 0, alignment 1)\n\
         | Offset | Name | Size |\n\
         | ------ | ---- | ---- |\n"
    );
}

#[test]
fn scenario_no_fields_nonzero_size() {
    let layout = info("Opaque", 3, 1, Vec::new());
    assert_eq!(row_triples(&layout), vec![(0, "[padding]".to_string(), 3)]);
    assert_eq!(
        layout.render(),
        "Opaque (size 3, alignment 1)\n\
         | Offset | Name      | Size |\n\
         | ------ | --------- | ---- |\n\
         | 0      | [padding] | 3    |\n"
    );
}

#[test]
fn render_twice_is_identical() {
    let layout = info(
        "Foo",
        8,
        4,
        vec![field("a", "u8", 1, 0), field("b", "u32", 4, 4)],
    );
    assert_eq!(layout.render(), layout.render());
}

#[test]
fn shuffled_fields_render_as_sorted() {
    let sorted = info(
        "Mixed",
        16,
        8,
        vec![
            field("a", "u8", 1, 0),
            field("b", "u16", 2, 2),
            field("c", "u64", 8, 8),
        ],
    );
    let shuffled = info(
        "Mixed",
        16,
        8,
        vec![
            field("c", "u64", 8, 8),
            field("a", "u8", 1, 0),
            field("b", "u16", 2, 2),
        ],
    );
    assert_eq!(shuffled.render(), sorted.render());
    assert_eq!(
        row_triples(&shuffled),
        vec![
            (0, "a".to_string(), 1),
            (1, "[padding]".to_string(), 1),
            (2, "b".to_string(), 2),
            (4, "[padding]".to_string(), 4),
            (8, "c".to_string(), 8),
        ]
    );
}

#[test]
fn rows_cover_size_contiguously() {
    let layout = info(
        "Gappy",
        24,
        8,
        vec![
            field("z", "u64", 8, 8),
            field("y", "u8", 1, 0),
            field("x", "u16", 2, 18),
        ],
    );
    let rows = layout.rows();
    let total: usize = rows.iter().map(|r| r.size).sum();
    assert_eq!(total, 24);
    assert_eq!(rows[0].offset, 0);
    for pair in rows.windows(2) {
        assert_eq!(pair[0].offset + pair[0].size, pair[1].offset);
    }
    let last = rows.last().unwrap();
    assert_eq!(last.offset + last.size, 24);
    assert_eq!(rows.len(), 6);
}

#[test]
fn name_column_reserves_padding_label_only_when_padded() {
    let padded = info("P", 2, 1, vec![field("a", "u8", 1, 0)]);
    assert!(padded.has_padding());
    assert!(padded.render().contains("| Name      |"));

    let packed = info("Q", 2, 1, vec![field("a", "u8", 1, 0), field("b", "u8", 1, 1)]);
    assert!(!packed.has_padding());
    assert_eq!(
        packed.render(),
        "Q (size 2, alignment 1)\n\
         | Offset | Name | Size |\n\
         | ------ | ---- | ---- |\n\
         | 0      | a    | 1    |\n\
         | 1      | b    | 1    |\n"
    );
}

#[test]
fn long_names_widen_the_name_column() {
    let layout = info("Long", 4, 4, vec![field("a_rather_long_name", "u32", 4, 0)]);
    assert_eq!(
        layout.render(),
        "Long (size 4, alignment 4)\n\
         | Offset | Name               | Size |\n\
         | ------ | ------------------ | ---- |\n\
         | 0      | a_rather_long_name | 4    |\n"
    );
}

#[test]
fn wide_numbers_widen_their_columns() {
    let layout = info("Big", 1234567, 1, vec![field("x", "[u8; 234567]", 234567, 1000000)]);
    assert_eq!(
        layout.render(),
        "Big (size 1234567, alignment 1)\n\
         | Offset  | Name      | Size    |\n\
         | ------- | --------- | ------- |\n\
         | 0       | [padding] | 1000000 |\n\
         | 1000000 | x         | 234567  |\n"
    );
}

#[test]
fn overlapping_fields_render_without_failing() {
    let layout = info("Bad", 4, 4, vec![field("a", "u32", 4, 0), field("b", "u16", 2, 1)]);
    assert_eq!(
        row_triples(&layout),
        vec![(0, "a".to_string(), 4), (1, "b".to_string(), 2), (3, "[padding]".to_string(), 1)]
    );
}

#[test]
fn sizes_summing_past_usize_do_not_overflow() {
    let layout = info(
        "Huge",
        usize::MAX,
        1,
        vec![field("a", "A", usize::MAX, 0), field("b", "B", usize::MAX, 0)],
    );
    assert!(!layout.has_padding());
    assert_eq!(layout.rows().len(), 2);
}

#[test]
fn sort_keeps_ties_in_original_order() {
    let fields = vec![
        field("late", "u8", 1, 4),
        field("unit_first", "()", 0, 0),
        field("unit_second", "()", 0, 0),
        field("early", "u32", 4, 0),
    ];
    assert_eq!(sorted_order(&fields), vec![1, 2, 3, 0]);
}

#[test]
fn decimal_digits() {
    assert_eq!(decimal_string(0), "0");
    assert_eq!(decimal_string(7), "7");
    assert_eq!(decimal_string(10), "10");
    assert_eq!(decimal_string(9876543210), "9876543210");
    assert_eq!(decimal_string(usize::MAX), usize::MAX.to_string());
}

#[test]
fn write_row_pads_each_cell() {
    let mut out = String::from("> ");
    let widths = RowWidths {
        offset: 6,
        name: 5,
        size: 4,
    };
    write_row(&mut out, widths, "12", "ab", "3");
    assert_eq!(out, "> | 12     | ab    | 3    |\n");
    let mut tight = String::new();
    write_row(&mut tight, RowWidths { offset: 1, name: 1, size: 1 }, "123", "name", "45");
    assert_eq!(tight, "| 123 | name | 45 |\n");
}

#[test]
fn hand_written_type_layout() {
    let layout = Wrapper::type_layout();
    assert_eq!(layout.size, 4);
    assert_eq!(layout.alignment, 4);
    assert_eq!(
        layout.render(),
        "Wrapper (size 4, alignment 4)\n\
         | Offset | Name  | Size |\n\
         | ------ | ----- | ---- |\n\
         | 0      | value | 4    |\n"
    );
}
