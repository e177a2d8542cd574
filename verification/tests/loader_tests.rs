use erd::loader::{
    fetch_field, is_primary_key, load, relation_from_row, wrap_description, ColumnRow, IndexRow,
    RelationRow,
};
use erd::schema::Index;

fn col(table: &str, column: &str, data_type: &str, index: i32) -> ColumnRow {
    ColumnRow {
        table: table.to_string(),
        column: column.to_string(),
        data_type: data_type.to_string(),
        index,
        default: None,
        nullable: "YES".to_string(),
        max_chars: None,
        description: None,
        table_description: None,
    }
}

fn rel_row(on_table: &str, on_field: &str, to_table: &str, to_field: &str) -> RelationRow {
    RelationRow {
        fields: vec![
            ("on_table".to_string(), on_table.to_string()),
            ("on_field".to_string(), on_field.to_string()),
            ("to_table".to_string(), to_table.to_string()),
            ("to_field".to_string(), to_field.to_string()),
        ],
    }
}

fn idx_row(table: &str, name: &str, primary: bool, columns: &str) -> IndexRow {
    IndexRow {
        table: table.to_string(),
        name: name.to_string(),
        primary,
        unique: primary,
        columns: columns.to_string(),
    }
}

#[test]
fn fetch_field_found_and_missing() {
    let fields = vec![
        ("on_table".to_string(), "users".to_string()),
        ("on_field".to_string(), "id".to_string()),
    ];
    assert_eq!(fetch_field(&fields, "on_table"), Ok("users".to_string()));
    assert_eq!(
        fetch_field(&fields, "to_table"),
        Err("could not find field to_table".to_string())
    );
}

#[test]
fn relation_row_missing_field_names_it() {
    let row = RelationRow {
        fields: vec![
            ("on_table".to_string(), "a".to_string()),
            ("on_field".to_string(), "x".to_string()),
            ("to_table".to_string(), "b".to_string()),
        ],
    };
    let r = relation_from_row(&row);
    assert_eq!(r.err(), Some("could not find field to_field".to_string()));
}

#[test]
fn is_primary_key_scans_indexes() {
    let indexes = vec![
        Index {
            table: "users".to_string(),
            name: "users_pkey".to_string(),
            primary: true,
            unique: true,
            fields: vec!["id".to_string()],
        },
        Index {
            table: "users".to_string(),
            name: "users_email".to_string(),
            primary: false,
            unique: true,
            fields: vec!["email".to_string()],
        },
    ];
    assert!(is_primary_key("users", "id", &indexes));
    assert!(!is_primary_key("users", "email", &indexes));
    assert!(!is_primary_key("posts", "id", &indexes));
}

#[test]
fn wrap_unset_or_zero_width_leaves_text_unchanged() {
    let text = "a description that is quite long and would wrap";
    assert_eq!(wrap_description(text.to_string(), None), text);
    assert_eq!(wrap_description(text.to_string(), Some(0)), text);
}

#[test]
fn wrap_positive_width_rewraps() {
    assert_eq!(wrap_description("aaa bbb".to_string(), Some(3)), "aaa\nbbb");
}

#[test]
fn load_groups_consecutive_rows_into_tables() {
    let cols = vec![
        col("a", "x", "integer", 1),
        col("a", "y", "text", 2),
        col("b", "z", "integer", 1),
    ];
    let schema = load(cols, Vec::new(), Vec::new(), &None, &None, None, None).unwrap();
    assert_eq!(schema.tables.len(), 2);
    assert_eq!(schema.tables[0].name, "a");
    assert_eq!(schema.tables[0].fields.len(), 2);
    assert_eq!(schema.tables[0].fields[0].column, "x");
    assert_eq!(schema.tables[0].fields[1].column, "y");
    assert_eq!(schema.tables[1].name, "b");
    assert_eq!(schema.tables[1].fields.len(), 1);
    assert_eq!(schema.relations.len(), 0);
}

#[test]
fn load_applies_table_filter_before_building() {
    let cols = vec![col("a", "x", "integer", 1), col("b", "z", "integer", 1)];
    let inc = Some(vec!["a".to_string(), "b".to_string()]);
    let exc = Some(vec!["b".to_string()]);
    let schema = load(cols, Vec::new(), Vec::new(), &inc, &exc, None, None).unwrap();
    assert_eq!(schema.tables.len(), 1);
    assert_eq!(schema.tables[0].name, "a");
}

#[test]
fn load_filters_relations_on_both_endpoints() {
    let cols = vec![col("a", "x", "integer", 1), col("b", "z", "integer", 1)];
    let rels = vec![
        rel_row("a", "x", "b", "z"),
        rel_row("a", "x", "c", "w"),
        rel_row("c", "w", "b", "z"),
    ];
    let inc = Some(vec!["a".to_string(), "b".to_string()]);
    let schema = load(cols, rels, Vec::new(), &inc, &None, None, None).unwrap();
    assert_eq!(schema.relations.len(), 1);
    assert_eq!(schema.relations[0].on_table, "a");
    assert_eq!(schema.relations[0].to_table, "b");
}

#[test]
fn load_keeps_dangling_relations() {
    let cols = vec![col("a", "x", "integer", 1)];
    let rels = vec![rel_row("a", "x", "ghost", "z")];
    let schema = load(cols, rels, Vec::new(), &None, &None, None, None).unwrap();
    assert_eq!(schema.tables.len(), 1);
    assert_eq!(schema.relations.len(), 1);
    assert_eq!(schema.relations[0].to_table, "ghost");
}

#[test]
fn load_aborts_on_malformed_relation_row() {
    let cols = vec![col("a", "x", "integer", 1)];
    let bad = RelationRow {
        fields: vec![("on_table".to_string(), "a".to_string())],
    };
    let r = load(cols, vec![bad], Vec::new(), &None, &None, None, None);
    assert_eq!(r.err(), Some("could not find field on_field".to_string()));
}

#[test]
fn load_resolves_primary_keys_from_indexes() {
    let cols = vec![col("users", "id", "integer", 1), col("users", "email", "text", 2)];
    let idx = vec![
        idx_row("users", "users_pkey", true, "{id}"),
        idx_row("users", "users_email", false, "{email}"),
    ];
    let schema = load(cols, Vec::new(), idx, &None, &None, None, None).unwrap();
    assert!(schema.tables[0].fields[0].primary_key);
    assert!(!schema.tables[0].fields[1].primary_key);
}

#[test]
fn load_parses_multi_column_index_fields() {
    let cols = vec![col("t", "a", "integer", 1), col("t", "b", "integer", 2), col(
        "t", "c", "integer", 3,
    )];
    let idx = vec![idx_row("t", "t_pkey", true, "{a,b}")];
    let schema = load(cols, Vec::new(), idx, &None, &None, None, None).unwrap();
    assert!(schema.tables[0].fields[0].primary_key);
    assert!(schema.tables[0].fields[1].primary_key);
    assert!(!schema.tables[0].fields[2].primary_key);
}

#[test]
fn load_wraps_descriptions_with_configured_widths() {
    let mut c = col("t", "a", "integer", 1);
    c.description = Some("aaa bbb".to_string());
    c.table_description = Some("ccc ddd".to_string());
    let schema = load(vec![c], Vec::new(), Vec::new(), &None, &None, Some(3), Some(3)).unwrap();
    assert_eq!(schema.tables[0].fields[0].description, Some("aaa\nbbb".to_string()));
    assert_eq!(schema.tables[0].description, Some("ccc\nddd".to_string()));
}

#[test]
fn load_leaves_descriptions_alone_without_widths() {
    let mut c = col("t", "a", "integer", 1);
    c.description = Some("aaa bbb".to_string());
    c.table_description = Some("ccc ddd".to_string());
    let schema = load(vec![c], Vec::new(), Vec::new(), &None, &None, None, None).unwrap();
    assert_eq!(schema.tables[0].fields[0].description, Some("aaa bbb".to_string()));
    assert_eq!(schema.tables[0].description, Some("ccc ddd".to_string()));
}
