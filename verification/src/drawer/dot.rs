//! Prints all the data in dot format: a directed-graph document whose nodes
//! are tables (one label row per column, each row addressable as a port) and
//! whose edges are foreign-key relations between column ports.

use crate::drawer::Drawer;
use crate::filter::{should_include, spec_should_include, str_eq};
use crate::loader::{
    lemma_load_relation_presence, lemma_load_table_presence, spec_load, ColumnRowV, IndexRowV,
};
use crate::schema::{Relation, RelationV, Schema, SchemaV, Table, TableColumnV, TableV};
use crate::text::{decimal, spec_decimal};
use vstd::prelude::*;

verus! {

/// Graphviz drawer.
pub struct Dot;

/// The title block of the graph header: empty without a title, otherwise the
/// label, its location, the font size and the font color, all verbatim.
pub open spec fn spec_title_header(
    title: Option<Seq<char>>,
    title_loc: Seq<char>,
    title_size: u32,
    title_color: Seq<char>,
) -> Seq<char> {
    match title {
        Some(t) => "label = \""@ + t + "\"\n   labelloc = "@ + title_loc + "\n    fontsize = "@
            + spec_decimal(title_size as nat) + "\n   fontcolor = "@ + title_color + "\n"@,
        None => Seq::<char>::empty(),
    }
}

/// The graph header: the digraph opening, the title block, and the global
/// graph, node and edge style defaults, with the layout direction verbatim.
pub open spec fn spec_graph_header(
    title: Option<Seq<char>>,
    title_loc: Seq<char>,
    title_size: u32,
    title_color: Seq<char>,
    direction: Seq<char>,
) -> Seq<char> {
    "digraph erd {\n\n    "@ + spec_title_header(title, title_loc, title_size, title_color)
        + "\n\n    graph [\n    rankdir = \""@ + direction
        + "\"\n    ];\n    node [\n    fontsize = \"16\"\n    shape = \"plaintext\"\n    ];\n    edge [\n    ];\n"@
}

/// The closing of the graph block.
pub open spec fn spec_graph_footer() -> Seq<char> {
    "\n}\n"@
}

/// The opening of a table node: the node keyed by table name, a title row
/// with the reserved `__title` port, and the column/type heading row.
pub open spec fn spec_table_header(name: Seq<char>) -> Seq<char> {
    "  \""@ + name
        + "\" [label=<\n        <table\n            border='0'\n            cellborder='1'\n            cellspacing='0'\n            style='rounded' >\n        <tr>\n            <td\n                colspan='2'\n                bgcolor='#009879'\n                port='__title'\n            ><font color='white' face='Courier bold italic' point-size='20'><b>"@
        + name
        + "</b></font></td>\n        </tr>\n        <tr>\n            <td><font color='black' face='Courier bold' point-size='18'><b>Column</b></font></td>\n            <td><font color='black' face='Courier bold' point-size='18'><b>Type</b></font></td>\n        </tr>\n"@
}

/// The human-friendly alias of a data-type name; only two aliases are
/// defined, every other type string passes through unchanged.
pub open spec fn spec_type_alias(t: Seq<char>) -> Seq<char> {
    if t == "character varying"@ {
        "varchar"@
    } else if t == "timestamp without time zone"@ {
        "timestamp"@
    } else {
        t
    }
}

/// One column row of a table node, ported by the column name.
pub open spec fn spec_table_field(field_name: Seq<char>, field_type: Seq<char>) -> Seq<char> {
    "            <tr><td port=\""@ + field_name + "\" align='text'><font>"@ + field_name
        + "</font><br align='left'/></td><td><font>"@ + spec_type_alias(field_type)
        + "</font></td></tr>\n"@
}

/// The closing of a table node.
pub open spec fn spec_table_footer() -> Seq<char> {
    "          </table>>];\n"@
}

/// The column rows of one table, in field order.
pub open spec fn spec_dot_fields(fields: Seq<TableColumnV>) -> Seq<char>
    decreases fields.len(),
{
    if fields.len() == 0 {
        Seq::<char>::empty()
    } else {
        spec_dot_fields(fields.drop_last()) + spec_table_field(
            fields.last().column,
            fields.last().data_type,
        )
    }
}

/// One whole table node.
pub open spec fn spec_dot_table(t: TableV) -> Seq<char> {
    spec_table_header(t.name) + spec_dot_fields(t.fields) + spec_table_footer()
}

/// The table nodes kept by the render-time filter, in schema order, each
/// followed by a separating newline. A table with no include list is included
/// by default (the synthetic include list is its own name).
pub open spec fn spec_dot_tables(
    tables: Seq<TableV>,
    include_list: Option<Seq<Seq<char>>>,
    exclude: Option<Seq<Seq<char>>>,
) -> Seq<char>
    decreases tables.len(),
{
    if tables.len() == 0 {
        Seq::<char>::empty()
    } else {
        spec_dot_tables(tables.drop_last(), include_list, exclude) + (
        if spec_should_include(tables.last().name, include_list, exclude) {
            spec_dot_table(tables.last()) + "\n"@
        } else {
            Seq::<char>::empty()
        })
    }
}

/// One relation edge, from the referencing column port to the referenced one.
pub open spec fn spec_dot_relation(r: RelationV) -> Seq<char> {
    "\""@ + r.on_table + "\":\""@ + r.on_field + "\" -> \""@ + r.to_table + "\":\""@ + r.to_field
        + "\"\n"@
}

/// Whether a relation is kept by the render-time filter: both endpoints must
/// pass. With no include list the synthetic include list is the pair of
/// endpoint names, so the relation is included by default.
pub open spec fn spec_relation_kept(
    r: RelationV,
    include_list: Option<Seq<Seq<char>>>,
    exclude: Option<Seq<Seq<char>>>,
) -> bool {
    spec_should_include(r.on_table, include_list, exclude) && spec_should_include(
        r.to_table,
        include_list,
        exclude,
    )
}

/// The relation edges kept by the render-time filter, in schema order.
pub open spec fn spec_dot_relations(
    relations: Seq<RelationV>,
    include_list: Option<Seq<Seq<char>>>,
    exclude: Option<Seq<Seq<char>>>,
) -> Seq<char>
    decreases relations.len(),
{
    if relations.len() == 0 {
        Seq::<char>::empty()
    } else {
        spec_dot_relations(relations.drop_last(), include_list, exclude) + (
        if spec_relation_kept(relations.last(), include_list, exclude) {
            spec_dot_relation(relations.last())
        } else {
            Seq::<char>::empty()
        })
    }
}

/// The whole dot document.
pub open spec fn spec_dot_output(
    schema: SchemaV,
    include_list: Option<Seq<Seq<char>>>,
    exclude: Option<Seq<Seq<char>>>,
    title: Option<Seq<char>>,
    title_loc: Seq<char>,
    title_size: u32,
    title_color: Seq<char>,
    direction: Seq<char>,
) -> Seq<char> {
    spec_graph_header(title, title_loc, title_size, title_color, direction) + spec_dot_tables(
        schema.tables,
        include_list,
        exclude,
    ) + spec_dot_relations(schema.relations, include_list, exclude) + spec_graph_footer()
}

/// Builds the graph header, with the title block when a title is given.
fn graph_header(
    title: Option<String>,
    title_loc: &str,
    title_size: u32,
    title_color: &str,
    direction: &str,
) -> (r: String)
    ensures
        r@ == spec_graph_header(title.deep_view(), title_loc@, title_size, title_color@,
            direction@),
{
    let ghost tdeep = title.deep_view();
    let mut out = String::from_str("digraph erd {\n\n    ");
    match title {
        Some(t) => {
            out.append("label = \"");
            out.append(t.as_str());
            out.append("\"\n   labelloc = ");
            out.append(title_loc);
            out.append("\n    fontsize = ");
            let size = decimal(title_size);
            out.append(size.as_str());
            out.append("\n   fontcolor = ");
            out.append(title_color);
            out.append("\n");
        },
        None => {},
    }
    proof {
        assert(out@ =~= "digraph erd {\n\n    "@ + spec_title_header(tdeep, title_loc@,
            title_size, title_color@));
    }
    out.append("\n\n    graph [\n    rankdir = \"");
    out.append(direction);
    out.append(
        "\"\n    ];\n    node [\n    fontsize = \"16\"\n    shape = \"plaintext\"\n    ];\n    edge [\n    ];\n",
    );
    proof {
        assert(out@ =~= spec_graph_header(tdeep, title_loc@, title_size, title_color@,
            direction@));
    }
    out
}

/// Builds the opening of a table node.
fn table_header(name: &str) -> (r: String)
    ensures
        r@ == spec_table_header(name@),
{
    let mut out = String::from_str("  \"");
    out.append(name);
    out.append(
        "\" [label=<\n        <table\n            border='0'\n            cellborder='1'\n            cellspacing='0'\n            style='rounded' >\n        <tr>\n            <td\n                colspan='2'\n                bgcolor='#009879'\n                port='__title'\n            ><font color='white' face='Courier bold italic' point-size='20'><b>",
    );
    out.append(name);
    out.append(
        "</b></font></td>\n        </tr>\n        <tr>\n            <td><font color='black' face='Courier bold' point-size='18'><b>Column</b></font></td>\n            <td><font color='black' face='Courier bold' point-size='18'><b>Type</b></font></td>\n        </tr>\n",
    );
    proof {
        assert(out@ =~= spec_table_header(name@));
    }
    out
}

/// Builds one column row, aliasing the two verbose catalog type names.
fn table_field(field_name: &str, field_type: &str) -> (r: String)
    ensures
        r@ == spec_table_field(field_name@, field_type@),
{
    let aliased: &str = if str_eq(field_type, "character varying") {
        "varchar"
    } else if str_eq(field_type, "timestamp without time zone") {
        "timestamp"
    } else {
        field_type
    };
    let mut out = String::from_str("            <tr><td port=\"");
    out.append(field_name);
    out.append("\" align='text'><font>");
    out.append(field_name);
    out.append("</font><br align='left'/></td><td><font>");
    out.append(aliased);
    out.append("</font></td></tr>\n");
    proof {
        assert(out@ =~= spec_table_field(field_name@, field_type@));
    }
    out
}

/// Builds the closing of a table node.
fn table_footer() -> (r: String)
    ensures
        r@ == spec_table_footer(),
{
    String::from_str("          </table>>];\n")
}

fn write_table(table: &Table, out: &mut String)
    ensures
        final(out)@ == old(out)@ + spec_dot_table(table.deep_view()),
{
    let header = table_header(table.name.as_str());
    out.append(header.as_str());
    let ghost fdeep = table.deep_view().fields;
    let ghost head = old(out)@ + spec_table_header(table.name@);
    proof {
        assert(fdeep.take(0) =~= Seq::<TableColumnV>::empty());
        assert(out@ =~= head + spec_dot_fields(fdeep.take(0)));
    }
    let mut i: usize = 0;
    while i < table.fields.len()
        invariant
            i <= fdeep.len(),
            fdeep.len() == table.fields@.len(),
            fdeep == table.deep_view().fields,
            head == old(out)@ + spec_table_header(table.name@),
            out@ == head + spec_dot_fields(fdeep.take(i as int)),
        decreases fdeep.len() - i,
    {
        let f = &table.fields[i];
        proof {
            assert(fdeep[i as int] == table.fields@[i as int].deep_view());
            assert(fdeep.take(i + 1).drop_last() =~= fdeep.take(i as int));
            assert(fdeep.take(i + 1).last() == fdeep[i as int]);
        }
        let row = table_field(f.column.as_str(), f.data_type.as_str());
        out.append(row.as_str());
        proof {
            assert(out@ =~= head + spec_dot_fields(fdeep.take(i + 1)));
        }
        i = i + 1;
    }
    let footer = table_footer();
    out.append(footer.as_str());
    proof {
        assert(fdeep.take(fdeep.len() as int) =~= fdeep);
        assert(out@ =~= old(out)@ + spec_dot_table(table.deep_view()));
    }
}

fn write_relation(relation: &Relation, out: &mut String)
    ensures
        final(out)@ == old(out)@ + spec_dot_relation(relation.deep_view()),
{
    out.append("\"");
    out.append(relation.on_table.as_str());
    out.append("\":\"");
    out.append(relation.on_field.as_str());
    out.append("\" -> \"");
    out.append(relation.to_table.as_str());
    out.append("\":\"");
    out.append(relation.to_field.as_str());
    out.append("\"\n");
    proof {
        assert(out@ =~= old(out)@ + spec_dot_relation(relation.deep_view()));
    }
}

impl Drawer for Dot {
    /// The dot format honours the render-time filter and every presentation
    /// option.
    open spec fn spec_write(
        &self,
        schema: SchemaV,
        include_list: Option<Seq<Seq<char>>>,
        exclude: Option<Seq<Seq<char>>>,
        title: Option<Seq<char>>,
        title_loc: Seq<char>,
        title_size: u32,
        title_color: Seq<char>,
        direction: Seq<char>,
    ) -> Seq<char> {
        spec_dot_output(schema, include_list, exclude, title, title_loc, title_size, title_color,
            direction)
    }

    fn write(
        &self,
        schema: &Schema,
        include_tables: Option<Vec<String>>,
        exclude_tables: Option<Vec<String>>,
        title: Option<String>,
        title_loc: &str,
        title_size: u32,
        title_color: &str,
        direction: &str,
    ) -> (out: String)
    {
        let ghost sdeep = schema.deep_view();
        let ghost inc = include_tables.deep_view();
        let ghost exc = exclude_tables.deep_view();
        let ghost header = spec_graph_header(title.deep_view(), title_loc@, title_size,
            title_color@, direction@);
        let mut out = graph_header(title, title_loc, title_size, title_color, direction);
        proof {
            assert(sdeep.tables.take(0) =~= Seq::<TableV>::empty());
            assert(out@ =~= header + spec_dot_tables(sdeep.tables.take(0), inc, exc));
        }
        let mut i: usize = 0;
        while i < schema.tables.len()
            invariant
                i <= sdeep.tables.len(),
                sdeep.tables.len() == schema.tables@.len(),
                sdeep == schema.deep_view(),
                inc == include_tables.deep_view(),
                exc == exclude_tables.deep_view(),
                out@ == header + spec_dot_tables(sdeep.tables.take(i as int), inc, exc),
            decreases sdeep.tables.len() - i,
        {
            let table = &schema.tables[i];
            proof {
                assert(sdeep.tables[i as int] == schema.tables@[i as int].deep_view());
                assert(sdeep.tables.take(i + 1).drop_last() =~= sdeep.tables.take(i as int));
                assert(sdeep.tables.take(i + 1).last() == sdeep.tables[i as int]);
            }
            if should_include(table.name.as_str(), &include_tables, &exclude_tables) {
                write_table(table, &mut out);
                out.append("\n");
            }
            proof {
                assert(out@ =~= header + spec_dot_tables(sdeep.tables.take(i + 1), inc, exc));
            }
            i = i + 1;
        }
        let ghost mid = header + spec_dot_tables(sdeep.tables, inc, exc);
        proof {
            assert(sdeep.tables.take(sdeep.tables.len() as int) =~= sdeep.tables);
            assert(sdeep.relations.take(0) =~= Seq::<RelationV>::empty());
            assert(out@ =~= mid + spec_dot_relations(sdeep.relations.take(0), inc, exc));
        }
        let mut j: usize = 0;
        while j < schema.relations.len()
            invariant
                j <= sdeep.relations.len(),
                sdeep.relations.len() == schema.relations@.len(),
                sdeep == schema.deep_view(),
                inc == include_tables.deep_view(),
                exc == exclude_tables.deep_view(),
                mid == header + spec_dot_tables(sdeep.tables, inc, exc),
                out@ == mid + spec_dot_relations(sdeep.relations.take(j as int), inc, exc),
            decreases sdeep.relations.len() - j,
        {
            let relation = &schema.relations[j];
            proof {
                assert(sdeep.relations[j as int] == schema.relations@[j as int].deep_view());
                assert(sdeep.relations.take(j + 1).drop_last() =~= sdeep.relations.take(j as int));
                assert(sdeep.relations.take(j + 1).last() == sdeep.relations[j as int]);
            }
            if should_include(relation.on_table.as_str(), &include_tables, &exclude_tables)
                && should_include(relation.to_table.as_str(), &include_tables, &exclude_tables) {
                write_relation(relation, &mut out);
            }
            proof {
                assert(out@ =~= mid + spec_dot_relations(sdeep.relations.take(j + 1), inc, exc));
            }
            j = j + 1;
        }
        out.append("\n}\n");
        proof {
            assert(sdeep.relations.take(sdeep.relations.len() as int) =~= sdeep.relations);
            assert(out@ =~= spec_dot_output(sdeep, inc, exc, title.deep_view(), title_loc@,
                title_size, title_color@, direction@));
        }
        out
    }
}

/// The tables whose node the dot drawer emits, in schema order.
pub open spec fn spec_kept_tables(
    tables: Seq<TableV>,
    include_list: Option<Seq<Seq<char>>>,
    exclude: Option<Seq<Seq<char>>>,
) -> Seq<TableV>
    decreases tables.len(),
{
    if tables.len() == 0 {
        Seq::<TableV>::empty()
    } else {
        spec_kept_tables(tables.drop_last(), include_list, exclude) + (
        if spec_should_include(tables.last().name, include_list, exclude) {
            seq![tables.last()]
        } else {
            Seq::<TableV>::empty()
        })
    }
}

/// The relations whose edge the dot drawer emits, in schema order.
pub open spec fn spec_kept_relations(
    relations: Seq<RelationV>,
    include_list: Option<Seq<Seq<char>>>,
    exclude: Option<Seq<Seq<char>>>,
) -> Seq<RelationV>
    decreases relations.len(),
{
    if relations.len() == 0 {
        Seq::<RelationV>::empty()
    } else {
        spec_kept_relations(relations.drop_last(), include_list, exclude) + (
        if spec_relation_kept(relations.last(), include_list, exclude) {
            seq![relations.last()]
        } else {
            Seq::<RelationV>::empty()
        })
    }
}

/// The nodes of a table list, unfiltered.
pub open spec fn spec_dot_nodes(tables: Seq<TableV>) -> Seq<char>
    decreases tables.len(),
{
    if tables.len() == 0 {
        Seq::<char>::empty()
    } else {
        spec_dot_nodes(tables.drop_last()) + spec_dot_table(tables.last()) + "\n"@
    }
}

/// The edges of a relation list, unfiltered.
pub open spec fn spec_dot_edges(relations: Seq<RelationV>) -> Seq<char>
    decreases relations.len(),
{
    if relations.len() == 0 {
        Seq::<char>::empty()
    } else {
        spec_dot_edges(relations.drop_last()) + spec_dot_relation(relations.last())
    }
}

/// The dot tables section is exactly the nodes of the kept tables: nothing
/// else reaches the output.
pub proof fn lemma_dot_tables_from_kept(
    tables: Seq<TableV>,
    include_list: Option<Seq<Seq<char>>>,
    exclude: Option<Seq<Seq<char>>>,
)
    ensures
        spec_dot_tables(tables, include_list, exclude) == spec_dot_nodes(
            spec_kept_tables(tables, include_list, exclude),
        ),
    decreases tables.len(),
{
    if tables.len() > 0 {
        lemma_dot_tables_from_kept(tables.drop_last(), include_list, exclude);
        let prev_kept = spec_kept_tables(tables.drop_last(), include_list, exclude);
        let t = tables.last();
        if spec_should_include(t.name, include_list, exclude) {
            let kept = prev_kept + seq![t];
            assert(kept.drop_last() =~= prev_kept);
            assert(kept.last() == t);
            assert(spec_dot_nodes(kept) == spec_dot_nodes(prev_kept) + spec_dot_table(t) + "\n"@);
            assert(spec_dot_tables(tables, include_list, exclude) =~= spec_dot_nodes(kept));
        } else {
            assert(spec_kept_tables(tables, include_list, exclude) =~= prev_kept);
            assert(spec_dot_tables(tables, include_list, exclude) =~= spec_dot_nodes(prev_kept));
        }
    }
}

/// The dot relations section is exactly the edges of the kept relations.
pub proof fn lemma_dot_relations_from_kept(
    relations: Seq<RelationV>,
    include_list: Option<Seq<Seq<char>>>,
    exclude: Option<Seq<Seq<char>>>,
)
    ensures
        spec_dot_relations(relations, include_list, exclude) == spec_dot_edges(
            spec_kept_relations(relations, include_list, exclude),
        ),
    decreases relations.len(),
{
    if relations.len() > 0 {
        lemma_dot_relations_from_kept(relations.drop_last(), include_list, exclude);
        let prev_kept = spec_kept_relations(relations.drop_last(), include_list, exclude);
        let r = relations.last();
        if spec_relation_kept(r, include_list, exclude) {
            let kept = prev_kept + seq![r];
            assert(kept.drop_last() =~= prev_kept);
            assert(kept.last() == r);
            assert(spec_dot_edges(kept) == spec_dot_edges(prev_kept) + spec_dot_relation(r));
            assert(spec_dot_relations(relations, include_list, exclude) =~= spec_dot_edges(kept));
        } else {
            assert(spec_kept_relations(relations, include_list, exclude) =~= prev_kept);
            assert(spec_dot_relations(relations, include_list, exclude) =~= spec_dot_edges(
                prev_kept,
            ));
        }
    }
}

/// A table's node is emitted iff the table is in the schema and its name
/// passes the render-time filter: the filter selects, it never adds.
pub proof fn lemma_kept_tables_characterization(
    tables: Seq<TableV>,
    include_list: Option<Seq<Seq<char>>>,
    exclude: Option<Seq<Seq<char>>>,
)
    ensures
        forall|t: TableV|
            #![trigger spec_kept_tables(tables, include_list, exclude).contains(t)]
            spec_kept_tables(tables, include_list, exclude).contains(t) <==> (tables.contains(t)
                && spec_should_include(t.name, include_list, exclude)),
    decreases tables.len(),
{
    if tables.len() > 0 {
        lemma_kept_tables_characterization(tables.drop_last(), include_list, exclude);
        let prev = tables.drop_last();
        let prev_kept = spec_kept_tables(prev, include_list, exclude);
        let kept = spec_kept_tables(tables, include_list, exclude);
        let last = tables.last();
        assert forall|t: TableV| kept.contains(t) implies (tables.contains(t)
            && spec_should_include(t.name, include_list, exclude)) by {
            let k = choose|k: int| 0 <= k < kept.len() && kept[k] == t;
            if k < prev_kept.len() {
                assert(prev_kept.contains(t));
                let k2 = choose|k2: int| 0 <= k2 < prev.len() && prev[k2] == t;
                assert(tables[k2] == t);
            } else {
                assert(t == last);
                assert(tables[tables.len() - 1] == t);
            }
        }
        assert forall|t: TableV| (tables.contains(t) && spec_should_include(t.name, include_list,
            exclude)) implies kept.contains(t) by {
            let k = choose|k: int| 0 <= k < tables.len() && tables[k] == t;
            if k < tables.len() - 1 {
                assert(prev[k] == t);
                assert(prev.contains(t));
                assert(prev_kept.contains(t));
                let k2 = choose|k2: int| 0 <= k2 < prev_kept.len() && prev_kept[k2] == t;
                assert(kept[k2] == t);
            } else {
                assert(t == last);
                assert(kept[kept.len() - 1] == t);
            }
        }
    }
}

/// A relation's edge is emitted iff the relation is in the schema and both of
/// its endpoints pass the render-time filter.
pub proof fn lemma_kept_relations_characterization(
    relations: Seq<RelationV>,
    include_list: Option<Seq<Seq<char>>>,
    exclude: Option<Seq<Seq<char>>>,
)
    ensures
        forall|r: RelationV|
            #![trigger spec_kept_relations(relations, include_list, exclude).contains(r)]
            spec_kept_relations(relations, include_list, exclude).contains(r) <==> (
            relations.contains(r) && spec_relation_kept(r, include_list, exclude)),
    decreases relations.len(),
{
    if relations.len() > 0 {
        lemma_kept_relations_characterization(relations.drop_last(), include_list, exclude);
        let prev = relations.drop_last();
        let prev_kept = spec_kept_relations(prev, include_list, exclude);
        let kept = spec_kept_relations(relations, include_list, exclude);
        let last = relations.last();
        assert forall|r: RelationV| kept.contains(r) implies (relations.contains(r)
            && spec_relation_kept(r, include_list, exclude)) by {
            let k = choose|k: int| 0 <= k < kept.len() && kept[k] == r;
            if k < prev_kept.len() {
                assert(prev_kept.contains(r));
                let k2 = choose|k2: int| 0 <= k2 < prev.len() && prev[k2] == r;
                assert(relations[k2] == r);
            } else {
                assert(r == last);
                assert(relations[relations.len() - 1] == r);
            }
        }
        assert forall|r: RelationV| (relations.contains(r) && spec_relation_kept(r, include_list,
            exclude)) implies kept.contains(r) by {
            let k = choose|k: int| 0 <= k < relations.len() && relations[k] == r;
            if k < relations.len() - 1 {
                assert(prev[k] == r);
                assert(prev.contains(r));
                assert(prev_kept.contains(r));
                let k2 = choose|k2: int| 0 <= k2 < prev_kept.len() && prev_kept[k2] == r;
                assert(kept[k2] == r);
            } else {
                assert(r == last);
                assert(kept[kept.len() - 1] == r);
            }
        }
    }
}

/// Render-time filtering composes with load-time filtering, it never
/// overrides it: a table name that failed the load-time filter is absent from
/// the loaded schema and so is emitted by no render-time filter whatsoever,
/// and a relation with an endpoint that failed the load-time filter likewise
/// never reappears in the rendered output.
pub proof fn lemma_render_composes_with_load(
    cols: Seq<ColumnRowV>,
    rels: Seq<Seq<(Seq<char>, Seq<char>)>>,
    idx_rows: Seq<IndexRowV>,
    include_list: Option<Seq<Seq<char>>>,
    exclude: Option<Seq<Seq<char>>>,
    cwrap: Option<usize>,
    twrap: Option<usize>,
    render_include: Option<Seq<Seq<char>>>,
    render_exclude: Option<Seq<Seq<char>>>,
    name: Seq<char>,
    rv: RelationV,
)
    requires
        spec_load(cols, rels, idx_rows, include_list, exclude, cwrap, twrap) is Ok,
    ensures
        !spec_should_include(name, include_list, exclude) ==> forall|t: TableV|
            spec_kept_tables(
                spec_load(cols, rels, idx_rows, include_list, exclude, cwrap, twrap)
                    ->Ok_0.tables,
                render_include,
                render_exclude,
            ).contains(t) ==> #[trigger] t.name != name,
        !(spec_should_include(rv.on_table, include_list, exclude) && spec_should_include(
            rv.to_table,
            include_list,
            exclude,
        )) ==> !spec_kept_relations(
            spec_load(cols, rels, idx_rows, include_list, exclude, cwrap, twrap)->Ok_0.relations,
            render_include,
            render_exclude,
        ).contains(rv),
{
    let sv = spec_load(cols, rels, idx_rows, include_list, exclude, cwrap, twrap)->Ok_0;
    lemma_kept_tables_characterization(sv.tables, render_include, render_exclude);
    lemma_kept_relations_characterization(sv.relations, render_include, render_exclude);
    lemma_load_table_presence(cols, rels, idx_rows, include_list, exclude, cwrap, twrap, name);
    lemma_load_relation_presence(cols, rels, idx_rows, include_list, exclude, cwrap, twrap, rv);
    if !spec_should_include(name, include_list, exclude) {
        assert forall|t: TableV|
            spec_kept_tables(sv.tables, render_include, render_exclude).contains(t)
            implies #[trigger] t.name != name by {
            if t.name == name {
                assert(sv.tables.contains(t));
                let k = choose|k: int| 0 <= k < sv.tables.len() && sv.tables[k] == t;
                assert(sv.table_names()[k] == name);
                assert(sv.table_names().contains(name));
            }
        }
    }
}

} // verus!
