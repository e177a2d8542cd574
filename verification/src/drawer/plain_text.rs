//! Prints all the data in plain text format.
//!
//! This format is a debugging dump: it ignores the render-time filters, the
//! title and the layout options, and prints every table and relation of the
//! schema between fixed section markers.

use crate::drawer::Drawer;
use crate::schema::{Relation, RelationV, Schema, SchemaV, Table, TableColumnV, TableV};
use vstd::prelude::*;

verus! {

/// Plain-text drawer.
pub struct PlainText;

/// One `name: type` line for a column.
pub open spec fn spec_column_line(c: TableColumnV) -> Seq<char> {
    c.column + ": "@ + c.data_type + "\n"@
}

/// The column lines of a table, in field order.
pub open spec fn spec_fields_text(fields: Seq<TableColumnV>) -> Seq<char>
    decreases fields.len(),
{
    if fields.len() == 0 {
        Seq::<char>::empty()
    } else {
        spec_fields_text(fields.drop_last()) + spec_column_line(fields.last())
    }
}

/// One table block: the bracketed name, its column lines, a blank line.
pub open spec fn spec_table_text(t: TableV) -> Seq<char> {
    "["@ + t.name + "]\n"@ + spec_fields_text(t.fields) + "\n"@
}

/// All table blocks in order, each followed by a separating blank line.
pub open spec fn spec_tables_text(tables: Seq<TableV>) -> Seq<char>
    decreases tables.len(),
{
    if tables.len() == 0 {
        Seq::<char>::empty()
    } else {
        spec_tables_text(tables.drop_last()) + spec_table_text(tables.last()) + "\n"@
    }
}

/// One relation line. Both sides print the `on` endpoint; this format is a
/// debugging dump and keeps that quirk as its documented output shape.
pub open spec fn spec_relation_line(r: RelationV) -> Seq<char> {
    r.on_table + ":"@ + r.on_field + " -> "@ + r.on_table + ":"@ + r.on_field + "\n"@
}

/// All relation lines in order, each followed by a separating blank line.
pub open spec fn spec_relations_text(relations: Seq<RelationV>) -> Seq<char>
    decreases relations.len(),
{
    if relations.len() == 0 {
        Seq::<char>::empty()
    } else {
        spec_relations_text(relations.drop_last()) + spec_relation_line(relations.last()) + "\n"@
    }
}

/// The whole plain-text dump: tables section, relations section, done marker.
pub open spec fn spec_plain_text(s: SchemaV) -> Seq<char> {
    "=== Tables ===\n"@ + spec_tables_text(s.tables) + "=== Relations ===\n"@
        + spec_relations_text(s.relations) + "=== Done ===\n"@
}

fn write_table(table: &Table, out: &mut String)
    ensures
        final(out)@ == old(out)@ + spec_table_text(table.deep_view()),
{
    let ghost base = out@;
    out.append("[");
    out.append(table.name.as_str());
    out.append("]\n");
    let ghost fdeep = table.deep_view().fields;
    let ghost head = base + "["@ + table.name@ + "]\n"@;
    proof {
        assert(fdeep.take(0) =~= Seq::<TableColumnV>::empty());
        assert(out@ =~= head + spec_fields_text(fdeep.take(0)));
    }
    let mut i: usize = 0;
    while i < table.fields.len()
        invariant
            i <= fdeep.len(),
            fdeep.len() == table.fields@.len(),
            fdeep == table.deep_view().fields,
            head == base + "["@ + table.name@ + "]\n"@,
            out@ == head + spec_fields_text(fdeep.take(i as int)),
        decreases fdeep.len() - i,
    {
        let f = &table.fields[i];
        proof {
            assert(fdeep[i as int] == table.fields@[i as int].deep_view());
            assert(fdeep.take(i + 1).drop_last() =~= fdeep.take(i as int));
            assert(fdeep.take(i + 1).last() == fdeep[i as int]);
        }
        out.append(f.column.as_str());
        out.append(": ");
        out.append(f.data_type.as_str());
        out.append("\n");
        proof {
            assert(out@ =~= head + spec_fields_text(fdeep.take(i + 1)));
        }
        i = i + 1;
    }
    out.append("\n");
    proof {
        assert(fdeep.take(fdeep.len() as int) =~= fdeep);
        assert(out@ =~= old(out)@ + spec_table_text(table.deep_view()));
    }
}

fn write_relation(relation: &Relation, out: &mut String)
    ensures
        final(out)@ == old(out)@ + spec_relation_line(relation.deep_view()),
{
    out.append(relation.on_table.as_str());
    out.append(":");
    out.append(relation.on_field.as_str());
    out.append(" -> ");
    out.append(relation.on_table.as_str());
    out.append(":");
    out.append(relation.on_field.as_str());
    out.append("\n");
    proof {
        assert(out@ =~= old(out)@ + spec_relation_line(relation.deep_view()));
    }
}

impl Drawer for PlainText {
    /// The plain-text format ignores every rendering option.
    open spec fn spec_write(
        &self,
        schema: SchemaV,
        include_list: Option<Seq<Seq<char>>>,
        exclude: Option<Seq<Seq<char>>>,
        title: Option<Seq<char>>,
        title_loc: Seq<char>,
        title_size: u32,
        title_color: Seq<char>,
        direction: Seq<char>,
    ) -> Seq<char> {
        spec_plain_text(schema)
    }

    fn write(
        &self,
        schema: &Schema,
        include_tables: Option<Vec<String>>,
        exclude_tables: Option<Vec<String>>,
        title: Option<String>,
        title_loc: &str,
        title_size: u32,
        title_color: &str,
        direction: &str,
    ) -> (out: String)
    {
        let ghost sdeep = schema.deep_view();
        let mut out = String::from_str("=== Tables ===\n");
        proof {
            assert(sdeep.tables.take(0) =~= Seq::<TableV>::empty());
            assert(out@ =~= "=== Tables ===\n"@ + spec_tables_text(sdeep.tables.take(0)));
        }
        let mut i: usize = 0;
        while i < schema.tables.len()
            invariant
                i <= sdeep.tables.len(),
                sdeep.tables.len() == schema.tables@.len(),
                sdeep == schema.deep_view(),
                out@ == "=== Tables ===\n"@ + spec_tables_text(sdeep.tables.take(i as int)),
            decreases sdeep.tables.len() - i,
        {
            proof {
                assert(sdeep.tables[i as int] == schema.tables@[i as int].deep_view());
                assert(sdeep.tables.take(i + 1).drop_last() =~= sdeep.tables.take(i as int));
                assert(sdeep.tables.take(i + 1).last() == sdeep.tables[i as int]);
            }
            write_table(&schema.tables[i], &mut out);
            out.append("\n");
            proof {
                assert(out@ =~= "=== Tables ===\n"@ + spec_tables_text(
                    sdeep.tables.take(i + 1),
                ));
            }
            i = i + 1;
        }
        out.append("=== Relations ===\n");
        let ghost mid = "=== Tables ===\n"@ + spec_tables_text(sdeep.tables)
            + "=== Relations ===\n"@;
        proof {
            assert(sdeep.tables.take(sdeep.tables.len() as int) =~= sdeep.tables);
            assert(sdeep.relations.take(0) =~= Seq::<RelationV>::empty());
            assert(out@ =~= mid + spec_relations_text(sdeep.relations.take(0)));
        }
        let mut j: usize = 0;
        while j < schema.relations.len()
            invariant
                j <= sdeep.relations.len(),
                sdeep.relations.len() == schema.relations@.len(),
                sdeep == schema.deep_view(),
                mid == "=== Tables ===\n"@ + spec_tables_text(sdeep.tables)
                    + "=== Relations ===\n"@,
                out@ == mid + spec_relations_text(sdeep.relations.take(j as int)),
            decreases sdeep.relations.len() - j,
        {
            proof {
                assert(sdeep.relations[j as int] == schema.relations@[j as int].deep_view());
                assert(sdeep.relations.take(j + 1).drop_last() =~= sdeep.relations.take(j as int));
                assert(sdeep.relations.take(j + 1).last() == sdeep.relations[j as int]);
            }
            write_relation(&schema.relations[j], &mut out);
            out.append("\n");
            proof {
                assert(out@ =~= mid + spec_relations_text(sdeep.relations.take(j + 1)));
            }
            j = j + 1;
        }
        out.append("=== Done ===\n");
        proof {
            assert(sdeep.relations.take(sdeep.relations.len() as int) =~= sdeep.relations);
            assert(out@ =~= spec_plain_text(sdeep));
        }
        out
    }
}

} // verus!
