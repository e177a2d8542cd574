use erd::drawer::dot::Dot;
use erd::drawer::plain_text::PlainText;
use erd::drawer::Drawer;
use erd::loader::{load, ColumnRow, IndexRow};
use erd::schema::{Relation, Schema};

fn col(table: &str, column: &str, data_type: &str, index: i32) -> ColumnRow {
    ColumnRow {
        table: table.to_string(),
        column: column.to_string(),
        data_type: data_type.to_string(),
        index,
        default: None,
        nullable: "YES".to_string(),
        max_chars: None,
        description: None,
        table_description: None,
    }
}

fn two_table_schema() -> Schema {
    let cols = vec![col("a", "x", "integer", 1), col("b", "y", "integer", 1)];
    load(cols, Vec::new(), Vec::new(), &None, &None, None, None).unwrap()
}

#[test]
fn plain_text_section_order_is_exact() {
    let cols = vec![col("a", "x", "integer", 1), col("b", "y", "text", 1)];
    let schema = load(cols, Vec::new(), Vec::new(), &None, &None, None, None).unwrap();
    let out = PlainText.write(&schema, None, None, None, "t", 30, "blue", "TB");
    assert_eq!(
        out,
        "=== Tables ===\n[a]\nx: integer\n\n\n[b]\ny: text\n\n\n=== Relations ===\n=== Done ===\n"
    );
}

#[test]
fn plain_text_empty_tables_have_their_blocks() {
    let schema = Schema {
        tables: Vec::new(),
        relations: Vec::new(),
        partial_tables: std::collections::HashMap::new(),
    };
    let out = PlainText.write(&schema, None, None, None, "t", 30, "blue", "TB");
    assert_eq!(out, "=== Tables ===\n=== Relations ===\n=== Done ===\n");
}

#[test]
fn plain_text_relation_line_prints_on_endpoint_twice() {
    let schema = Schema {
        tables: Vec::new(),
        relations: vec![Relation {
            on_table: "a".to_string(),
            on_field: "x".to_string(),
            to_table: "b".to_string(),
            to_field: "y".to_string(),
        }],
        partial_tables: std::collections::HashMap::new(),
    };
    let out = PlainText.write(&schema, None, None, None, "t", 30, "blue", "TB");
    assert_eq!(out, "=== Tables ===\n=== Relations ===\na:x -> a:x\n\n=== Done ===\n");
}

#[test]
fn plain_text_ignores_render_filters() {
    let schema = two_table_schema();
    let out1 = PlainText.write(&schema, None, None, None, "t", 30, "blue", "TB");
    let out2 = PlainText.write(
        &schema,
        Some(vec!["a".to_string()]),
        Some(vec!["b".to_string()]),
        Some("Title".to_string()),
        "b",
        99,
        "red",
        "LR",
    );
    assert_eq!(out1, out2);
}

#[test]
fn dot_node_has_column_rows_and_port() {
    let cols = vec![col("users", "id", "character varying", 1)];
    let idx = vec![IndexRow {
        table: "users".to_string(),
        name: "users_pkey".to_string(),
        primary: true,
        unique: true,
        columns: "{id}".to_string(),
    }];
    let schema = load(cols, Vec::new(), idx, &None, &None, None, None).unwrap();
    assert!(schema.tables[0].fields[0].primary_key);
    let out = Dot.write(&schema, None, None, None, "t", 30, "blue", "TB");
    assert!(out.contains("  \"users\" [label=<"));
    assert!(out.contains("<font>id</font>"));
    assert!(out.contains("<font>varchar</font>"));
    assert!(out.contains("port=\"id\""));
    assert!(out.contains("port='__title'"));
    assert!(out.starts_with("digraph erd {"));
    assert!(out.ends_with("\n}\n"));
}

#[test]
fn dot_aliases_only_the_two_verbose_types() {
    let cols = vec![
        col("t", "a", "character varying", 1),
        col("t", "b", "timestamp without time zone", 2),
        col("t", "c", "integer", 3),
    ];
    let schema = load(cols, Vec::new(), Vec::new(), &None, &None, None, None).unwrap();
    let out = Dot.write(&schema, None, None, None, "t", 30, "blue", "TB");
    assert!(out.contains("<font>varchar</font>"));
    assert!(out.contains("<font>timestamp</font>"));
    assert!(out.contains("<font>integer</font>"));
    assert!(!out.contains("character varying"));
    assert!(!out.contains("timestamp without time zone"));
}

#[test]
fn dot_title_block_is_emitted_verbatim() {
    let schema = two_table_schema();
    let out = Dot.write(
        &schema,
        None,
        None,
        Some("My Schema".to_string()),
        "t",
        30,
        "blue",
        "LR",
    );
    assert!(out.contains("label = \"My Schema\""));
    assert!(out.contains("labelloc = t"));
    assert!(out.contains("fontsize = 30"));
    assert!(out.contains("fontcolor = blue"));
    assert!(out.contains("rankdir = \"LR\""));
}

#[test]
fn dot_without_title_has_no_label_block() {
    let schema = two_table_schema();
    let out = Dot.write(&schema, None, None, None, "t", 30, "blue", "TB");
    assert!(!out.contains("label = "));
    assert!(!out.contains("labelloc"));
}

#[test]
fn dot_render_filter_selects_tables() {
    let schema = two_table_schema();
    let out = Dot.write(
        &schema,
        Some(vec!["a".to_string()]),
        None,
        None,
        "t",
        30,
        "blue",
        "TB",
    );
    assert!(out.contains("\"a\" [label=<"));
    assert!(!out.contains("\"b\" [label=<"));
}

#[test]
fn dot_render_exclusion_wins() {
    let schema = two_table_schema();
    let out = Dot.write(
        &schema,
        Some(vec!["a".to_string(), "b".to_string()]),
        Some(vec!["b".to_string()]),
        None,
        "t",
        30,
        "blue",
        "TB",
    );
    assert!(out.contains("\"a\" [label=<"));
    assert!(!out.contains("\"b\" [label=<"));
}

#[test]
fn dot_relation_edge_uses_both_endpoints() {
    let cols = vec![col("a", "x", "integer", 1), col("b", "y", "integer", 1)];
    let schema = Schema {
        relations: vec![Relation {
            on_table: "a".to_string(),
            on_field: "x".to_string(),
            to_table: "b".to_string(),
            to_field: "y".to_string(),
        }],
        ..load(cols, Vec::new(), Vec::new(), &None, &None, None, None).unwrap()
    };
    let out = Dot.write(&schema, None, None, None, "t", 30, "blue", "TB");
    assert!(out.contains("\"a\":\"x\" -> \"b\":\"y\"\n"));
}

#[test]
fn dot_relation_dropped_when_one_endpoint_not_in_render_list() {
    let cols = vec![col("a", "x", "integer", 1), col("b", "y", "integer", 1)];
    let schema = Schema {
        relations: vec![Relation {
            on_table: "a".to_string(),
            on_field: "x".to_string(),
            to_table: "b".to_string(),
            to_field: "y".to_string(),
        }],
        ..load(cols, Vec::new(), Vec::new(), &None, &None, None, None).unwrap()
    };
    let out = Dot.write(
        &schema,
        Some(vec!["a".to_string()]),
        None,
        None,
        "t",
        30,
        "blue",
        "TB",
    );
    assert!(!out.contains(" -> "));
}

#[test]
fn dot_render_filter_never_readmits_a_load_excluded_table() {
    let cols = vec![col("a", "x", "integer", 1), col("b", "y", "integer", 1)];
    let schema = load(
        cols,
        Vec::new(),
        Vec::new(),
        &None,
        &Some(vec!["b".to_string()]),
        None,
        None,
    )
    .unwrap();
    let out = Dot.write(
        &schema,
        Some(vec!["a".to_string(), "b".to_string()]),
        None,
        None,
        "t",
        30,
        "blue",
        "TB",
    );
    assert!(!out.contains("\"b\" [label=<"));
}

#[test]
fn rendering_twice_is_byte_identical() {
    let schema = two_table_schema();
    let inc = Some(vec!["a".to_string(), "b".to_string()]);
    let d1 = Dot.write(&schema, inc.clone(), None, Some("T".to_string()), "t", 30, "blue", "TB");
    let d2 = Dot.write(&schema, inc.clone(), None, Some("T".to_string()), "t", 30, "blue", "TB");
    assert_eq!(d1, d2);
    let p1 = PlainText.write(&schema, None, None, None, "t", 30, "blue", "TB");
    let p2 = PlainText.write(&schema, None, None, None, "t", 30, "blue", "TB");
    assert_eq!(p1, p2);
}

#[test]
fn dot_empty_schema_exact_output() {
    let schema = Schema {
        tables: Vec::new(),
        relations: Vec::new(),
        partial_tables: std::collections::HashMap::new(),
    };
    let out = Dot.write(&schema, None, None, None, "t", 30, "blue", "TB");
    assert_eq!(
        out,
        "digraph erd {\n\n    \n\n    graph [\n    rankdir = \"TB\"\n    ];\n    node [\n    fontsize = \"16\"\n    shape = \"plaintext\"\n    ];\n    edge [\n    ];\n\n}\n"
    );
}

#[test]
fn dot_title_header_exact_output() {
    let schema = Schema {
        tables: Vec::new(),
        relations: Vec::new(),
        partial_tables: std::collections::HashMap::new(),
    };
    let out = Dot.write(&schema, None, None, Some("T".to_string()), "t", 30, "blue", "LR");
    assert_eq!(
        out,
        "digraph erd {\n\n    label = \"T\"\n   labelloc = t\n    fontsize = 30\n   fontcolor = blue\n\n\n    graph [\n    rankdir = \"LR\"\n    ];\n    node [\n    fontsize = \"16\"\n    shape = \"plaintext\"\n    ];\n    edge [\n    ];\n\n}\n"
    );
}

#[test]
fn dot_node_block_exact_markup() {
    let cols = vec![col("t", "a", "integer", 1)];
    let schema = load(cols, Vec::new(), Vec::new(), &None, &None, None, None).unwrap();
    let out = Dot.write(&schema, None, None, None, "t", 30, "blue", "TB");
    let node = "  \"t\" [label=<\n        <table\n            border='0'\n            cellborder='1'\n            cellspacing='0'\n            style='rounded' >\n        <tr>\n            <td\n                colspan='2'\n                bgcolor='#009879'\n                port='__title'\n            ><font color='white' face='Courier bold italic' point-size='20'><b>t</b></font></td>\n        </tr>\n        <tr>\n            <td><font color='black' face='Courier bold' point-size='18'><b>Column</b></font></td>\n            <td><font color='black' face='Courier bold' point-size='18'><b>Type</b></font></td>\n        </tr>\n            <tr><td port=\"a\" align='text'><font>a</font><br align='left'/></td><td><font>integer</font></td></tr>\n          </table>>];\n\n";
    assert!(out.contains(node));
}

#[test]
fn empty_schema_still_has_dot_envelope() {
    let schema = Schema {
        tables: Vec::new(),
        relations: Vec::new(),
        partial_tables: std::collections::HashMap::new(),
    };
    let out = Dot.write(&schema, None, None, None, "t", 30, "blue", "TB");
    assert!(out.starts_with("digraph erd {"));
    assert!(out.ends_with("\n}\n"));
    assert!(!out.contains("[label=<"));
}
