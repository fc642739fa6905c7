use csv2struct::classify::FieldKind;
use csv2struct::error::Error;
use csv2struct::index::{Field, Index, RecordType};
use csv2struct::scan::infer;
use csv2struct::schema::{ColumnSchema, Primitive};

fn strings(v: &[&str]) -> Vec<String> {
    v.iter().map(|s| s.to_string()).collect()
}

fn table(headers: &[&str], rows: &[&[&str]]) -> Vec<ColumnSchema> {
    let rows: Vec<Vec<String>> = rows.iter().map(|r| strings(r)).collect();
    infer(&strings(headers), &rows).unwrap()
}

fn column(cells: &[&str]) -> ColumnSchema {
    let kinds: Vec<FieldKind> = cells.iter().map(|c| FieldKind::parse(c)).collect();
    ColumnSchema::from_observations(&"c".to_string(), &kinds)
}

#[test]
fn index_groups_cells_by_column_in_first_seen_order() {
    let mut index = Index::new();
    index.add(RecordType::with(vec![
        Field::with("a".to_string(), FieldKind::parse("1")),
        Field::with("b".to_string(), FieldKind::parse("red")),
    ]));
    index.add(RecordType::with(vec![
        Field::with("b".to_string(), FieldKind::parse("")),
        Field::with("c".to_string(), FieldKind::parse("4.4")),
        Field::with("a".to_string(), FieldKind::parse("2")),
    ]));
    let names: Vec<&str> = index.inner.iter().map(|p| p.0.as_str()).collect();
    assert_eq!(names, vec!["a", "b", "c"]);
    assert_eq!(index.inner[0].1.len(), 2);
    assert_eq!(index.inner[1].1.len(), 2);
    assert_eq!(index.inner[2].1.len(), 1);
    assert!(matches!(index.inner[1].1[1], FieldKind::Empty));
    assert!(matches!(index.inner[2].1[0], FieldKind::Real));
}

#[test]
fn from_row_classifies_each_cell_under_its_header() {
    let rt = RecordType::from_row(&strings(&["x", "y", "z"]), &strings(&["3", "", "q"]));
    assert_eq!(rt.fields.len(), 3);
    assert_eq!(rt.fields[1].name, "y");
    assert!(matches!(rt.fields[0].kind, FieldKind::Integer));
    assert!(matches!(rt.fields[1].kind, FieldKind::Empty));
    assert!(matches!(&rt.fields[2].kind, FieldKind::Factor(t) if t == "q"));
}

#[test]
fn scenario_four_columns() {
    let s = table(
        &["foo", "bar", "baz", "qux"],
        &[&["1", "2", "3", "green"], &["4.4", "5", "6", "red"], &["7.2", "", "8", "blue"]],
    );
    assert_eq!(s.len(), 4);
    assert_eq!(s[0].name, "foo");
    assert_eq!(s[0].primitive, Primitive::Real);
    assert!(!s[0].optional);
    assert_eq!(s[1].name, "bar");
    assert_eq!(s[1].primitive, Primitive::Integer);
    assert!(s[1].optional);
    assert_eq!(s[2].name, "baz");
    assert_eq!(s[2].primitive, Primitive::Integer);
    assert!(!s[2].optional);
    assert_eq!(s[3].name, "qux");
    assert_eq!(s[3].primitive, Primitive::Categorical);
    assert!(!s[3].optional);
    assert_eq!(s[3].levels, strings(&["green", "red", "blue"]));
}

#[test]
fn scenario_categorical_with_missing() {
    let s = table(&["a"], &[&["1"], &[""], &["x"]]);
    assert_eq!(s.len(), 1);
    assert_eq!(s[0].primitive, Primitive::Categorical);
    assert!(s[0].optional);
    assert_eq!(s[0].levels, strings(&["x"]));
}

#[test]
fn scenario_all_integers() {
    let s = table(&["n"], &[&["1"], &["2"], &["3"]]);
    assert_eq!(s[0].name, "n");
    assert_eq!(s[0].primitive, Primitive::Integer);
    assert!(!s[0].optional);
    assert!(s[0].levels.is_empty());
}

#[test]
fn scenario_one_real_forces_real() {
    let s = table(&["n"], &[&["1"], &["2.0"], &["3"]]);
    assert_eq!(s[0].primitive, Primitive::Real);
    assert!(!s[0].optional);
}

#[test]
fn all_missing_column_is_categorical_without_levels() {
    let s = table(&["m", "k"], &[&["", "1"], &["", "2"]]);
    assert_eq!(s[0].primitive, Primitive::Categorical);
    assert!(s[0].optional);
    assert!(s[0].levels.is_empty());
    assert_eq!(s[1].primitive, Primitive::Integer);
}

#[test]
fn header_without_rows() {
    let s = table(&["a", "b"], &[]);
    assert_eq!(s.len(), 0);
}

#[test]
fn short_row_is_rejected_with_its_position() {
    let rows = vec![strings(&["1", "2"]), strings(&["3", "4"]), strings(&["5"]), strings(&["6"])];
    match infer(&strings(&["a", "b"]), &rows) {
        Err(Error::MissingHeaderValue(k)) => assert_eq!(k, 2),
        other => panic!("unexpected {:?}", other),
    }
}

#[test]
fn long_row_is_rejected() {
    let rows = vec![strings(&["1", "2", "3"])];
    assert!(matches!(infer(&strings(&["a", "b"]), &rows), Err(Error::MissingHeaderValue(0))));
}

#[test]
fn categorical_takes_precedence_over_numbers() {
    let c = column(&["1", "2.5", "3", "x", "4"]);
    assert_eq!(c.primitive, Primitive::Categorical);
    assert_eq!(c.levels, strings(&["x"]));
    assert!(!c.optional);
}

#[test]
fn optional_only_when_a_cell_is_missing() {
    let with = column(&["1", "", "2"]);
    let without = column(&["1", "2"]);
    assert!(with.optional);
    assert!(!without.optional);
    assert_eq!(with.primitive, without.primitive);
    let only_missing_added = column(&["a", "", "b", ""]);
    assert_eq!(only_missing_added.levels, column(&["a", "b"]).levels);
    assert_eq!(only_missing_added.primitive, Primitive::Categorical);
}

#[test]
fn levels_deduplicated_in_first_seen_order() {
    let c = column(&["red", "blue", "red", "", "green", "blue", "7"]);
    assert_eq!(c.levels, strings(&["red", "blue", "green"]));
    assert!(c.optional);
}

#[test]
fn levels_keep_text_verbatim() {
    let c = column(&["Red", "red", " red", "red"]);
    assert_eq!(c.levels, strings(&["Red", "red", " red"]));
}

#[test]
fn resolving_twice_gives_the_same_schema() {
    let mut index = Index::new();
    for row in [["1", "a"], ["", "b"], ["2.5", "a"]] {
        index.add(RecordType::from_row(&strings(&["p", "q"]), &strings(&row)));
    }
    let a = index.to_schema();
    let b = index.to_schema();
    assert_eq!(format!("{:?}", a), format!("{:?}", b));
    assert_eq!(a[0].primitive, Primitive::Real);
    assert!(a[0].optional);
    assert_eq!(a[1].levels, strings(&["a", "b"]));
}

#[test]
fn categorical_columns_get_pascal_cased_enums() {
    let s = table(&["light color", "n"], &[&["dark red", "1"], &["pale_blue", "2"], &["dark red", "3"]]);
    let defs = csv2struct::naming::enum_defs(&s);
    assert_eq!(defs.len(), 2);
    let def = defs[0].as_ref().unwrap();
    assert_eq!(def.name, "LightColor");
    assert_eq!(def.variants, strings(&["DarkRed", "PaleBlue"]));
    assert!(defs[1].is_none());
}

#[test]
fn scan_keeps_one_column_per_header_with_every_row() {
    let headers = strings(&["x", "y"]);
    let mut index = Index::new();
    for row in [["1", "a"], ["", "2.5"], ["3", "b"]] {
        index.add(RecordType::from_row(&headers, &strings(&row)));
    }
    assert_eq!(index.inner.len(), 2);
    assert_eq!(index.inner[0].0, "x");
    assert_eq!(index.inner[1].0, "y");
    let x = &index.inner[0].1;
    assert!(matches!((&x[0], &x[1], &x[2]), (FieldKind::Integer, FieldKind::Empty, FieldKind::Integer)));
    let y = &index.inner[1].1;
    assert!(matches!(&y[0], FieldKind::Factor(t) if t == "a"));
    assert!(matches!(&y[1], FieldKind::Real));
    assert!(matches!(&y[2], FieldKind::Factor(t) if t == "b"));
}
