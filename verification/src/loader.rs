//! The catalog mapper: turns three raw catalog row sets (columns, foreign
//! keys, indexes) into a [`Schema`], applying the load-time include/exclude
//! filter uniformly and resolving primary-key flags from the index list.

use itertools::Itertools;
use std::collections::HashMap;
use vstd::prelude::*;

use crate::filter::{
    contains_name, should_include, spec_contains_name, spec_should_include, str_eq,
};
use crate::schema::{Index, IndexV, Relation, RelationV, Schema, SchemaV, Table, TableColumn,
    TableColumnV, TableV};
use crate::text::{spec_split_commas, spec_trim_braces, split_commas, trim_braces};

verus! {

/// One row of the column query, fields by position: the owning table first,
/// then the column's own attributes in catalog order.
pub struct ColumnRow {
    pub table: String,
    pub column: String,
    pub data_type: String,
    pub index: i32,
    pub default: Option<String>,
    pub nullable: String,
    pub max_chars: Option<i32>,
    pub description: Option<String>,
    pub table_description: Option<String>,
}

/// Mathematical image of a column row.
pub struct ColumnRowV {
    pub table: Seq<char>,
    pub column: Seq<char>,
    pub data_type: Seq<char>,
    pub index: i32,
    pub default: Option<Seq<char>>,
    pub nullable: Seq<char>,
    pub max_chars: Option<i32>,
    pub description: Option<Seq<char>>,
    pub table_description: Option<Seq<char>>,
}

impl DeepView for ColumnRow {
    type V = ColumnRowV;

    open spec fn deep_view(&self) -> ColumnRowV {
        ColumnRowV {
            table: self.table.deep_view(),
            column: self.column.deep_view(),
            data_type: self.data_type.deep_view(),
            index: self.index,
            default: self.default.deep_view(),
            nullable: self.nullable.deep_view(),
            max_chars: self.max_chars,
            description: self.description.deep_view(),
            table_description: self.table_description.deep_view(),
        }
    }
}

/// One row of the foreign-key query: field values keyed by column name, since
/// that query's rows are consumed by name rather than by position.
pub struct RelationRow {
    pub fields: Vec<(String, String)>,
}

impl DeepView for RelationRow {
    type V = Seq<(Seq<char>, Seq<char>)>;

    open spec fn deep_view(&self) -> Seq<(Seq<char>, Seq<char>)> {
        self.fields.deep_view()
    }
}

/// One row of the index query, fields by position; `columns` is the catalog
/// array literal listing the covered column names.
pub struct IndexRow {
    pub table: String,
    pub name: String,
    pub primary: bool,
    pub unique: bool,
    pub columns: String,
}

/// Mathematical image of an index row.
pub struct IndexRowV {
    pub table: Seq<char>,
    pub name: Seq<char>,
    pub primary: bool,
    pub unique: bool,
    pub columns: Seq<char>,
}

impl DeepView for IndexRow {
    type V = IndexRowV;

    open spec fn deep_view(&self) -> IndexRowV {
        IndexRowV {
            table: self.table.deep_view(),
            name: self.name.deep_view(),
            primary: self.primary,
            unique: self.unique,
            columns: self.columns.deep_view(),
        }
    }
}

/// A run of consecutive column rows sharing one table name.
pub struct RowGroup {
    pub name: String,
    pub rows: Vec<ColumnRow>,
}

/// Consecutive rows with equal table names gathered into runs, in input order.
pub open spec fn spec_groups(rows: Seq<ColumnRowV>) -> Seq<Seq<ColumnRowV>>
    decreases rows.len(),
{
    if rows.len() == 0 {
        Seq::<Seq<ColumnRowV>>::empty()
    } else {
        let prev = spec_groups(rows.drop_last());
        let r = rows.last();
        if prev.len() > 0 && prev.last().last().table == r.table {
            prev.update(prev.len() - 1, prev.last().push(r))
        } else {
            prev + seq![seq![r]]
        }
    }
}

/// Every group produced by `spec_groups` is non-empty.
pub proof fn lemma_groups_nonempty(rows: Seq<ColumnRowV>)
    ensures
        forall|i: int|
            0 <= i < spec_groups(rows).len() ==> #[trigger] spec_groups(rows)[i].len() > 0,
    decreases rows.len(),
{
    if rows.len() > 0 {
        lemma_groups_nonempty(rows.drop_last());
        let prev = spec_groups(rows.drop_last());
        let r = rows.last();
        let g = spec_groups(rows);
        if prev.len() > 0 && prev.last().last().table == r.table {
            assert forall|i: int| 0 <= i < g.len() implies #[trigger] g[i].len() > 0 by {
                if i == prev.len() - 1 {
                    assert(g[i] == prev.last().push(r));
                } else {
                    assert(g[i] == prev[i]);
                }
            }
        } else {
            assert forall|i: int| 0 <= i < g.len() implies #[trigger] g[i].len() > 0 by {
                if i == prev.len() {
                    assert(g[i] == seq![r]);
                } else {
                    assert(g[i] == prev[i]);
                }
            }
        }
    }
}

/// Relies on itertools' chunk_by: consecutive elements that map to the same
/// key are grouped into one run, in input order, keyed by that shared key.
#[verifier::external_body]
fn group_by_table(rows: Vec<ColumnRow>) -> (r: Vec<RowGroup>)
    ensures
        r@.map_values(|g: RowGroup| g.rows.deep_view()) == spec_groups(rows.deep_view()),
        forall|i: int|
            0 <= i < r@.len() ==> #[trigger] r@[i].rows@.len() > 0 && r@[i].name@
                == r@[i].rows.deep_view()[0].table,
{
    let chunks = rows.into_iter().chunk_by(|row| row.table.clone());
    (&chunks)
        .into_iter()
        .map(|(name, grp)| RowGroup { name, rows: grp.collect() })
        .collect()
}

/// What `textwrap::fill` returns for a text and a width; the result depends on
/// those two arguments alone.
pub uninterp spec fn fill_of(text: Seq<char>, width: usize) -> Seq<char>;

/// Relies on textwrap::fill: re-wraps the text into lines of at most `width`
/// display columns.
#[verifier::external_body]
fn fill_text(text: &str, width: usize) -> (r: String)
    ensures
        r@ == fill_of(text@, width),
{
    textwrap::fill(text, width)
}

/// A description wrapped to `width` columns; a width of 0 or no width at all
/// leaves the text unchanged.
pub open spec fn spec_wrap(text: Seq<char>, width: Option<usize>) -> Seq<char> {
    match width {
        Some(w) => if w == 0 {
            text
        } else {
            fill_of(text, w)
        },
        None => text,
    }
}

/// Wraps a description; a wrap width of 0 or an unset width leaves it unchanged.
pub fn wrap_description(text: String, width: Option<usize>) -> (r: String)
    ensures
        r@ == spec_wrap(text@, width),
{
    match width {
        Some(w) => if w == 0 {
            text
        } else {
            fill_text(text.as_str(), w)
        },
        None => text,
    }
}

/// Wrapping with a width of 0 or an unset width leaves any text unchanged.
pub proof fn lemma_wrap_boundary(text: Seq<char>)
    ensures
        spec_wrap(text, None) == text,
        spec_wrap(text, Some(0)) == text,
{
}

fn clone_opt_string(o: &Option<String>) -> (r: Option<String>)
    ensures
        r == *o,
{
    match o {
        Some(s) => Some(s.clone()),
        None => None,
    }
}

/// The value stored under `key`, searching in order.
pub open spec fn spec_lookup(fields: Seq<(Seq<char>, Seq<char>)>, key: Seq<char>) -> Option<
    Seq<char>,
>
    decreases fields.len(),
{
    if fields.len() == 0 {
        None
    } else if fields[0].0 == key {
        Some(fields[0].1)
    } else {
        spec_lookup(fields.skip(1), key)
    }
}

/// The error text reported for a row that lacks `key`.
pub open spec fn spec_missing_field(key: Seq<char>) -> Seq<char> {
    "could not find field "@ + key
}

/// Looks `key` up among a row's named fields; a missing key is reported as an
/// error naming that key.
pub fn fetch_field(fields: &Vec<(String, String)>, key: &str) -> (r: Result<String, String>)
    ensures
        (match spec_lookup(fields.deep_view(), key@) {
            Some(v) => r matches Ok(s) && s@ == v,
            None => r matches Err(e) && e@ == spec_missing_field(key@),
        }),
{
    let ghost fdeep = fields.deep_view();
    let mut i: usize = 0;
    proof {
        assert(fdeep.skip(0) =~= fdeep);
    }
    while i < fields.len()
        invariant
            i <= fdeep.len(),
            fdeep.len() == fields@.len(),
            fdeep == fields.deep_view(),
            spec_lookup(fdeep.skip(i as int), key@) == spec_lookup(fdeep, key@),
        decreases fdeep.len() - i,
    {
        proof {
            assert(fdeep.skip(i as int)[0] == fdeep[i as int]);
            assert(fdeep.skip(i as int).skip(1) =~= fdeep.skip(i + 1));
        }
        if str_eq(fields[i].0.as_str(), key) {
            return Ok(fields[i].1.clone());
        }
        i = i + 1;
    }
    proof {
        assert(fdeep.skip(i as int) =~= Seq::<(Seq<char>, Seq<char>)>::empty());
    }
    let mut msg = String::from_str("could not find field ");
    msg.append(key);
    Err(msg)
}

/// The relation a foreign-key row describes, or the first missing field,
/// checking the fields in the order they are used.
pub open spec fn spec_relation_of(row: Seq<(Seq<char>, Seq<char>)>) -> Result<RelationV, Seq<char>> {
    match spec_lookup(row, "on_table"@) {
        None => Err(spec_missing_field("on_table"@)),
        Some(on_table) => match spec_lookup(row, "on_field"@) {
            None => Err(spec_missing_field("on_field"@)),
            Some(on_field) => match spec_lookup(row, "to_table"@) {
                None => Err(spec_missing_field("to_table"@)),
                Some(to_table) => match spec_lookup(row, "to_field"@) {
                    None => Err(spec_missing_field("to_field"@)),
                    Some(to_field) => Ok(RelationV { on_table, on_field, to_table, to_field }),
                },
            },
        },
    }
}

/// Builds a relation from a foreign-key row's named fields.
pub fn relation_from_row(row: &RelationRow) -> (r: Result<Relation, String>)
    ensures
        (match spec_relation_of(row.deep_view()) {
            Ok(rv) => r matches Ok(rel) && rel.deep_view() == rv,
            Err(m) => r matches Err(e) && e@ == m,
        }),
{
    let on_table = match fetch_field(&row.fields, "on_table") {
        Ok(v) => v,
        Err(e) => {
            return Err(e);
        },
    };
    let on_field = match fetch_field(&row.fields, "on_field") {
        Ok(v) => v,
        Err(e) => {
            return Err(e);
        },
    };
    let to_table = match fetch_field(&row.fields, "to_table") {
        Ok(v) => v,
        Err(e) => {
            return Err(e);
        },
    };
    let to_field = match fetch_field(&row.fields, "to_field") {
        Ok(v) => v,
        Err(e) => {
            return Err(e);
        },
    };
    Ok(Relation { on_table, on_field, to_table, to_field })
}

/// The index an index row describes: its covered column names are parsed from
/// the catalog array literal by stripping braces and splitting on commas.
pub open spec fn spec_index_of(row: IndexRowV) -> IndexV {
    IndexV {
        table: row.table,
        name: row.name,
        primary: row.primary,
        unique: row.unique,
        fields: spec_split_commas(spec_trim_braces(row.columns)),
    }
}

/// Builds an index from an index row.
pub fn index_from_row(row: &IndexRow) -> (r: Index)
    ensures
        r.deep_view() == spec_index_of(row.deep_view()),
{
    let fields = split_commas(trim_braces(row.columns.as_str()));
    Index {
        table: row.table.clone(),
        name: row.name.clone(),
        primary: row.primary,
        unique: row.unique,
        fields,
    }
}

/// Whether some index on `table`, marked primary, lists `column` among its fields.
pub open spec fn spec_is_primary_key(
    table: Seq<char>,
    column: Seq<char>,
    indexes: Seq<IndexV>,
) -> bool {
    exists|i: int|
        0 <= i < indexes.len() && #[trigger] indexes[i].table == table && indexes[i].primary
            && spec_contains_name(indexes[i].fields, column)
}

/// Scans the index list for a primary index on `table` covering `column`.
pub fn is_primary_key(table: &str, column: &str, indexes: &Vec<Index>) -> (r: bool)
    ensures
        r == spec_is_primary_key(table@, column@, indexes.deep_view()),
{
    let ghost ideep = indexes.deep_view();
    let mut i: usize = 0;
    while i < indexes.len()
        invariant
            i <= ideep.len(),
            ideep.len() == indexes@.len(),
            ideep == indexes.deep_view(),
            forall|j: int|
                0 <= j < i ==> !(#[trigger] ideep[j].table == table@ && ideep[j].primary
                    && spec_contains_name(ideep[j].fields, column@)),
        decreases ideep.len() - i,
    {
        let idx = &indexes[i];
        if str_eq(idx.table.as_str(), table) && idx.primary && contains_name(&idx.fields, column) {
            proof {
                assert(ideep[i as int] == indexes@[i as int].deep_view());
                assert(ideep[i as int].table == table@ && ideep[i as int].primary
                    && spec_contains_name(ideep[i as int].fields, column@));
            }
            return true;
        }
        i = i + 1;
    }
    false
}

/// The column a column row describes, with its primary-key flag resolved and
/// its description wrapped.
pub open spec fn spec_column_of(row: ColumnRowV, pk: bool, cwrap: Option<usize>) -> TableColumnV {
    TableColumnV {
        column: row.column,
        data_type: row.data_type,
        index: row.index,
        default: row.default,
        nullable: row.nullable,
        max_chars: row.max_chars,
        description: match row.description {
            Some(d) => Some(spec_wrap(d, cwrap)),
            None => None,
        },
        table_description: row.table_description,
        primary_key: pk,
    }
}

/// Builds a column from a column row.
fn column_from_row(row: &ColumnRow, pk: bool, cwrap: Option<usize>) -> (r: TableColumn)
    ensures
        r.deep_view() == spec_column_of(row.deep_view(), pk, cwrap),
{
    let description = match &row.description {
        Some(d) => Some(wrap_description(d.clone(), cwrap)),
        None => None,
    };
    TableColumn {
        column: row.column.clone(),
        data_type: row.data_type.clone(),
        index: row.index,
        default: clone_opt_string(&row.default),
        nullable: row.nullable.clone(),
        max_chars: row.max_chars,
        description,
        table_description: clone_opt_string(&row.table_description),
        primary_key: pk,
    }
}

/// The columns of one run of rows: each with its primary-key flag taken from
/// the index list, keyed by the run's table name.
pub open spec fn spec_table_fields(
    group: Seq<ColumnRowV>,
    indexes: Seq<IndexV>,
    cwrap: Option<usize>,
) -> Seq<TableColumnV> {
    group.map_values(
        (|row: ColumnRowV|
            spec_column_of(
                row,
                spec_is_primary_key(group[0].table, row.column, indexes),
                cwrap,
            )),
    )
}

/// The table one run of rows describes: named after the run, described by the
/// first row's table description (wrapped), carrying one column per row.
pub open spec fn spec_table_of(
    group: Seq<ColumnRowV>,
    indexes: Seq<IndexV>,
    cwrap: Option<usize>,
    twrap: Option<usize>,
) -> TableV {
    TableV {
        name: group[0].table,
        description: match group[0].table_description {
            Some(d) => Some(spec_wrap(d, twrap)),
            None => None,
        },
        fields: spec_table_fields(group, indexes, cwrap),
    }
}

/// Builds a table from one run of column rows.
fn build_table(
    group: &RowGroup,
    indexes: &Vec<Index>,
    cwrap: Option<usize>,
    twrap: Option<usize>,
) -> (t: Table)
    requires
        group.rows@.len() > 0,
        group.name@ == group.rows.deep_view()[0].table,
    ensures
        t.deep_view() == spec_table_of(group.rows.deep_view(), indexes.deep_view(), cwrap, twrap),
{
    let ghost g = group.rows.deep_view();
    let ghost idxv = indexes.deep_view();
    let mut fields: Vec<TableColumn> = Vec::new();
    let mut i: usize = 0;
    while i < group.rows.len()
        invariant
            i <= g.len(),
            g.len() == group.rows@.len(),
            g == group.rows.deep_view(),
            idxv == indexes.deep_view(),
            0 < g.len(),
            group.name@ == g[0].table,
            fields@.len() == i,
            forall|j: int|
                0 <= j < i ==> #[trigger] fields.deep_view()[j] == spec_column_of(
                    g[j],
                    spec_is_primary_key(g[0].table, g[j].column, idxv),
                    cwrap,
                ),
        decreases g.len() - i,
    {
        let row = &group.rows[i];
        proof {
            assert(g[i as int] == group.rows@[i as int].deep_view());
        }
        let pk = is_primary_key(group.name.as_str(), row.column.as_str(), indexes);
        let ghost prefields = fields@;
        let ghost predeep = fields.deep_view();
        fields.push(column_from_row(row, pk, cwrap));
        proof {
            assert forall|j: int| 0 <= j < i + 1 implies #[trigger] fields.deep_view()[j]
                == spec_column_of(
                g[j],
                spec_is_primary_key(g[0].table, g[j].column, idxv),
                cwrap,
            ) by {
                assert(fields.deep_view()[j] == fields@[j].deep_view());
                if j < i {
                    assert(fields@[j] == prefields[j]);
                    assert(predeep[j] == prefields[j].deep_view());
                    assert(predeep[j] == spec_column_of(
                        g[j],
                        spec_is_primary_key(g[0].table, g[j].column, idxv),
                        cwrap,
                    ));
                }
            }
        }
        i = i + 1;
    }
    let description = match &group.rows[0].table_description {
        Some(d) => Some(wrap_description(d.clone(), twrap)),
        None => None,
    };
    let t = Table { name: group.name.clone(), description, fields };
    proof {
        assert(g[0] == group.rows@[0].deep_view());
        assert(t.deep_view().fields =~= spec_table_fields(g, idxv, cwrap));
    }
    t
}

/// The indexes kept from the raw index rows: those whose table passes the
/// load-time filter, converted in order.
pub open spec fn spec_indexes_of(
    rows: Seq<IndexRowV>,
    include_list: Option<Seq<Seq<char>>>,
    exclude: Option<Seq<Seq<char>>>,
) -> Seq<IndexV>
    decreases rows.len(),
{
    if rows.len() == 0 {
        Seq::<IndexV>::empty()
    } else {
        let rest = spec_indexes_of(rows.skip(1), include_list, exclude);
        if spec_should_include(rows[0].table, include_list, exclude) {
            seq![spec_index_of(rows[0])] + rest
        } else {
            rest
        }
    }
}

/// The tables kept from the grouped column rows: each run whose table name
/// passes the load-time filter becomes one table, in order.
pub open spec fn spec_tables_of(
    groups: Seq<Seq<ColumnRowV>>,
    include_list: Option<Seq<Seq<char>>>,
    exclude: Option<Seq<Seq<char>>>,
    indexes: Seq<IndexV>,
    cwrap: Option<usize>,
    twrap: Option<usize>,
) -> Seq<TableV>
    decreases groups.len(),
{
    if groups.len() == 0 {
        Seq::<TableV>::empty()
    } else {
        let rest = spec_tables_of(groups.skip(1), include_list, exclude, indexes, cwrap, twrap);
        if groups[0].len() > 0 && spec_should_include(groups[0][0].table, include_list, exclude) {
            seq![spec_table_of(groups[0], indexes, cwrap, twrap)] + rest
        } else {
            rest
        }
    }
}

/// The relations kept from the raw foreign-key rows: the first malformed row
/// aborts the whole conversion; otherwise a relation is kept iff both of its
/// endpoints pass the load-time filter.
pub open spec fn spec_relations_of(
    rows: Seq<Seq<(Seq<char>, Seq<char>)>>,
    include_list: Option<Seq<Seq<char>>>,
    exclude: Option<Seq<Seq<char>>>,
) -> Result<Seq<RelationV>, Seq<char>>
    decreases rows.len(),
{
    if rows.len() == 0 {
        Ok(Seq::<RelationV>::empty())
    } else {
        match spec_relation_of(rows[0]) {
            Err(m) => Err(m),
            Ok(rv) => match spec_relations_of(rows.skip(1), include_list, exclude) {
                Err(m) => Err(m),
                Ok(rest) => Ok(
                    if spec_should_include(rv.on_table, include_list, exclude)
                        && spec_should_include(rv.to_table, include_list, exclude) {
                        seq![rv] + rest
                    } else {
                        rest
                    },
                ),
            },
        }
    }
}

/// The schema that loading yields: indexes filtered and parsed first, column
/// rows grouped into runs and mapped to tables, foreign-key rows mapped to
/// relations; the first malformed foreign-key row aborts the load.
pub open spec fn spec_load(
    cols: Seq<ColumnRowV>,
    rels: Seq<Seq<(Seq<char>, Seq<char>)>>,
    idx_rows: Seq<IndexRowV>,
    include_list: Option<Seq<Seq<char>>>,
    exclude: Option<Seq<Seq<char>>>,
    cwrap: Option<usize>,
    twrap: Option<usize>,
) -> Result<SchemaV, Seq<char>> {
    let indexes = spec_indexes_of(idx_rows, include_list, exclude);
    match spec_relations_of(rels, include_list, exclude) {
        Err(m) => Err(m),
        Ok(relations) => Ok(
            SchemaV {
                tables: spec_tables_of(
                    spec_groups(cols),
                    include_list,
                    exclude,
                    indexes,
                    cwrap,
                    twrap,
                ),
                relations,
                partial_tables: Map::<Seq<char>, Seq<Seq<char>>>::empty(),
            },
        ),
    }
}

/// Builds the schema from the three catalog row sets, applying the load-time
/// include/exclude filter to tables, to both endpoints of every relation and
/// to the owning table of every index, and wrapping descriptions to the two
/// configured widths. A foreign-key row that lacks one of its expected fields
/// fails the whole load with an error naming that field.
pub fn load(
    column_rows: Vec<ColumnRow>,
    relation_rows: Vec<RelationRow>,
    index_rows: Vec<IndexRow>,
    include_tables: &Option<Vec<String>>,
    exclude_tables: &Option<Vec<String>>,
    column_description_wrap: Option<usize>,
    table_description_wrap: Option<usize>,
) -> (r: Result<Schema, String>)
    ensures
        (match spec_load(
            column_rows.deep_view(),
            relation_rows.deep_view(),
            index_rows.deep_view(),
            include_tables.deep_view(),
            exclude_tables.deep_view(),
            column_description_wrap,
            table_description_wrap,
        ) {
            Ok(sv) => r matches Ok(s) && s.deep_view() == sv,
            Err(m) => r matches Err(e) && e@ == m,
        }),
{
    let ghost cdeep = column_rows.deep_view();
    let ghost rdeep = relation_rows.deep_view();
    let ghost idee = index_rows.deep_view();
    let ghost inc = include_tables.deep_view();
    let ghost exc = exclude_tables.deep_view();

    // Indexes first: simple row-to-struct conversion, filtered by table name.
    let mut indexes: Vec<Index> = Vec::new();
    let mut i: usize = 0;
    proof {
        assert(idee.skip(0) =~= idee);
        assert(indexes.deep_view() + spec_indexes_of(idee, inc, exc) =~= spec_indexes_of(
            idee,
            inc,
            exc,
        ));
    }
    while i < index_rows.len()
        invariant
            i <= idee.len(),
            idee.len() == index_rows@.len(),
            idee == index_rows.deep_view(),
            inc == include_tables.deep_view(),
            exc == exclude_tables.deep_view(),
            spec_indexes_of(idee, inc, exc) == indexes.deep_view() + spec_indexes_of(
                idee.skip(i as int),
                inc,
                exc,
            ),
        decreases idee.len() - i,
    {
        let ghost pre = indexes.deep_view();
        proof {
            assert(idee.skip(i as int)[0] == idee[i as int]);
            assert(idee.skip(i as int).skip(1) =~= idee.skip(i + 1));
            assert(idee[i as int] == index_rows@[i as int].deep_view());
        }
        let row = &index_rows[i];
        if should_include(row.table.as_str(), include_tables, exclude_tables) {
            indexes.push(index_from_row(row));
            proof {
                assert(indexes.deep_view() =~= pre.push(spec_index_of(idee[i as int])));
                assert(pre.push(spec_index_of(idee[i as int])) + spec_indexes_of(
                    idee.skip(i + 1),
                    inc,
                    exc,
                ) =~= pre + (seq![spec_index_of(idee[i as int])] + spec_indexes_of(
                    idee.skip(i + 1),
                    inc,
                    exc,
                )));
            }
        }
        i = i + 1;
    }
    proof {
        assert(idee.skip(idee.len() as int) =~= Seq::<IndexRowV>::empty());
        assert(indexes.deep_view() + spec_indexes_of(idee.skip(idee.len() as int), inc, exc)
            =~= indexes.deep_view());
        assert(indexes.deep_view() == spec_indexes_of(idee, inc, exc));
    }

    // Tables: group the pre-sorted column rows into runs, drop the runs whose
    // table name fails the filter, and build a table from each kept run.
    let groups = group_by_table(column_rows);
    let ghost gdeep = groups@.map_values(|g: RowGroup| g.rows.deep_view());
    let mut tables: Vec<Table> = Vec::new();
    let mut t: usize = 0;
    proof {
        assert(gdeep.skip(0) =~= gdeep);
        assert(tables.deep_view() + spec_tables_of(
            gdeep,
            inc,
            exc,
            indexes.deep_view(),
            column_description_wrap,
            table_description_wrap,
        ) =~= spec_tables_of(
            gdeep,
            inc,
            exc,
            indexes.deep_view(),
            column_description_wrap,
            table_description_wrap,
        ));
    }
    while t < groups.len()
        invariant
            t <= gdeep.len(),
            gdeep.len() == groups@.len(),
            gdeep == groups@.map_values(|g: RowGroup| g.rows.deep_view()),
            gdeep == spec_groups(cdeep),
            inc == include_tables.deep_view(),
            exc == exclude_tables.deep_view(),
            forall|k: int|
                0 <= k < groups@.len() ==> #[trigger] groups@[k].rows@.len() > 0
                    && groups@[k].name@ == groups@[k].rows.deep_view()[0].table,
            spec_tables_of(
                gdeep,
                inc,
                exc,
                indexes.deep_view(),
                column_description_wrap,
                table_description_wrap,
            ) == tables.deep_view() + spec_tables_of(
                gdeep.skip(t as int),
                inc,
                exc,
                indexes.deep_view(),
                column_description_wrap,
                table_description_wrap,
            ),
        decreases gdeep.len() - t,
    {
        let ghost pre = tables.deep_view();
        proof {
            assert(gdeep.skip(t as int)[0] == gdeep[t as int]);
            assert(gdeep.skip(t as int).skip(1) =~= gdeep.skip(t + 1));
            assert(gdeep[t as int] == groups@[t as int].rows.deep_view());
        }
        let group = &groups[t];
        if should_include(group.name.as_str(), include_tables, exclude_tables) {
            tables.push(
                build_table(group, &indexes, column_description_wrap, table_description_wrap),
            );
            proof {
                let entry = spec_table_of(
                    gdeep[t as int],
                    indexes.deep_view(),
                    column_description_wrap,
                    table_description_wrap,
                );
                assert(tables.deep_view() =~= pre.push(entry));
                assert(pre.push(entry) + spec_tables_of(
                    gdeep.skip(t + 1),
                    inc,
                    exc,
                    indexes.deep_view(),
                    column_description_wrap,
                    table_description_wrap,
                ) =~= pre + (seq![entry] + spec_tables_of(
                    gdeep.skip(t + 1),
                    inc,
                    exc,
                    indexes.deep_view(),
                    column_description_wrap,
                    table_description_wrap,
                )));
            }
        }
        t = t + 1;
    }
    proof {
        assert(gdeep.skip(gdeep.len() as int) =~= Seq::<Seq<ColumnRowV>>::empty());
        assert(tables.deep_view() + spec_tables_of(
            gdeep.skip(gdeep.len() as int),
            inc,
            exc,
            indexes.deep_view(),
            column_description_wrap,
            table_description_wrap,
        ) =~= tables.deep_view());
    }

    // Relations: the first malformed row aborts; a well-formed relation is
    // kept iff both endpoints pass the filter.
    let mut relations: Vec<Relation> = Vec::new();
    let mut j: usize = 0;
    proof {
        assert(rdeep.skip(0) =~= rdeep);
        let r0 = spec_relations_of(rdeep, inc, exc);
        if r0 is Ok {
            assert(relations.deep_view() + r0->Ok_0 =~= r0->Ok_0);
        }
    }
    while j < relation_rows.len()
        invariant
            j <= rdeep.len(),
            rdeep.len() == relation_rows@.len(),
            rdeep == relation_rows.deep_view(),
            inc == include_tables.deep_view(),
            exc == exclude_tables.deep_view(),
            (match spec_relations_of(rdeep.skip(j as int), inc, exc) {
                Ok(rest) => spec_relations_of(rdeep, inc, exc) == Ok::<_, Seq<char>>(
                    relations.deep_view() + rest,
                ),
                Err(m) => spec_relations_of(rdeep, inc, exc) == Err::<Seq<RelationV>, _>(m),
            }),
        decreases rdeep.len() - j,
    {
        let ghost pre = relations.deep_view();
        proof {
            assert(rdeep.skip(j as int)[0] == rdeep[j as int]);
            assert(rdeep.skip(j as int).skip(1) =~= rdeep.skip(j + 1));
            assert(rdeep[j as int] == relation_rows@[j as int].deep_view());
        }
        let row = &relation_rows[j];
        let relation = match relation_from_row(row) {
            Ok(rel) => rel,
            Err(e) => {
                return Err(e);
            },
        };
        if should_include(relation.on_table.as_str(), include_tables, exclude_tables)
            && should_include(relation.to_table.as_str(), include_tables, exclude_tables) {
            relations.push(relation);
            proof {
                let rv = spec_relation_of(rdeep[j as int])->Ok_0;
                assert(relations.deep_view() =~= pre.push(rv));
                let after = spec_relations_of(rdeep.skip(j + 1), inc, exc);
                if after is Ok {
                    assert(pre.push(rv) + after->Ok_0 =~= pre + (seq![rv] + after->Ok_0));
                }
            }
        }
        j = j + 1;
    }
    proof {
        assert(rdeep.skip(rdeep.len() as int) =~= Seq::<Seq<(Seq<char>, Seq<char>)>>::empty());
        assert(relations.deep_view() + Seq::<RelationV>::empty() =~= relations.deep_view());
    }

    let partial_tables: HashMap<String, Vec<String>> = HashMap::new();
    let schema = Schema { tables, relations, partial_tables };
    proof {
        reveal(vstd::std_specs::hash::hash_map_deep_view_impl);
        assert(schema.partial_tables.deep_view() =~= Map::<Seq<char>, Seq<Seq<char>>>::empty());
    }
    Ok(schema)
}

/// Column rows arrive pre-sorted by table: rows sharing a table name are
/// consecutive. Out-of-order input is a caller contract violation.
pub open spec fn rows_grouped(rows: Seq<ColumnRowV>) -> bool {
    forall|i: int, j: int, k: int|
        0 <= i < j < k < rows.len() && rows[i].table == rows[k].table ==> rows[j].table
            == rows[i].table
}

/// The table name of each run, in order.
pub open spec fn spec_group_keys(rows: Seq<ColumnRowV>) -> Seq<Seq<char>> {
    spec_groups(rows).map_values(|g: Seq<ColumnRowV>| g[0].table)
}

/// Every row of a run carries the run's table name.
pub proof fn lemma_groups_uniform(rows: Seq<ColumnRowV>)
    ensures
        forall|m: int, j: int|
            0 <= m < spec_groups(rows).len() && 0 <= j < spec_groups(rows)[m].len()
                ==> #[trigger] spec_groups(rows)[m][j].table == spec_groups(rows)[m][0].table,
    decreases rows.len(),
{
    if rows.len() > 0 {
        lemma_groups_uniform(rows.drop_last());
        lemma_groups_nonempty(rows.drop_last());
        let prev = spec_groups(rows.drop_last());
        let r = rows.last();
        let g = spec_groups(rows);
        if prev.len() > 0 && prev.last().last().table == r.table {
            assert forall|m: int, j: int|
                0 <= m < g.len() && 0 <= j < g[m].len() implies #[trigger] g[m][j].table
                == g[m][0].table by {
                if m == prev.len() - 1 {
                    assert(g[m] == prev.last().push(r));
                    assert(g[m][0] == prev.last()[0]);
                    if j < prev.last().len() {
                        assert(g[m][j] == prev.last()[j]);
                    } else {
                        assert(g[m][j] == r);
                        assert(prev.last().last().table == prev.last()[0].table);
                    }
                } else {
                    assert(g[m] == prev[m]);
                }
            }
        } else {
            assert forall|m: int, j: int|
                0 <= m < g.len() && 0 <= j < g[m].len() implies #[trigger] g[m][j].table
                == g[m][0].table by {
                if m == prev.len() {
                    assert(g[m] == seq![r]);
                } else {
                    assert(g[m] == prev[m]);
                }
            }
        }
    }
}

/// The last row of the input sits at the end of the last run.
pub proof fn lemma_groups_last(rows: Seq<ColumnRowV>)
    requires
        rows.len() > 0,
    ensures
        spec_groups(rows).len() > 0,
        spec_groups(rows).last().len() > 0,
        spec_groups(rows).last().last() == rows.last(),
{
    lemma_groups_nonempty(rows.drop_last());
    let prev = spec_groups(rows.drop_last());
    let r = rows.last();
    if prev.len() > 0 && prev.last().last().table == r.table {
        assert(spec_groups(rows).last() == prev.last().push(r));
    } else {
        assert(spec_groups(rows).last() == seq![r]);
    }
}

/// Every run's table name is the table name of some input row.
pub proof fn lemma_group_keys_cover(rows: Seq<ColumnRowV>)
    ensures
        forall|m: int|
            0 <= m < spec_group_keys(rows).len() ==> exists|i: int|
                0 <= i < rows.len() && rows[i].table == #[trigger] spec_group_keys(rows)[m],
    decreases rows.len(),
{
    if rows.len() > 0 {
        lemma_group_keys_cover(rows.drop_last());
        lemma_groups_nonempty(rows.drop_last());
        let prev = spec_groups(rows.drop_last());
        let keys_prev = spec_group_keys(rows.drop_last());
        let keys = spec_group_keys(rows);
        let r = rows.last();
        let g = spec_groups(rows);
        if prev.len() > 0 && prev.last().last().table == r.table {
            assert forall|m: int|
                0 <= m < keys.len() implies exists|i: int|
                0 <= i < rows.len() && rows[i].table == #[trigger] keys[m] by {
                if m == prev.len() - 1 {
                    assert(g[m] == prev.last().push(r));
                    assert(keys[m] == prev.last()[0].table);
                } else {
                    assert(g[m] == prev[m]);
                }
                assert(keys[m] == keys_prev[m]);
                let i = choose|i: int|
                    0 <= i < rows.drop_last().len() && rows.drop_last()[i].table == keys_prev[m];
                assert(rows[i] == rows.drop_last()[i]);
                assert(rows[i].table == keys[m]);
            }
        } else {
            assert forall|m: int|
                0 <= m < keys.len() implies exists|i: int|
                0 <= i < rows.len() && rows[i].table == #[trigger] keys[m] by {
                if m == prev.len() {
                    assert(g[m] == seq![r]);
                    assert(rows[rows.len() - 1].table == keys[m]);
                } else {
                    assert(g[m] == prev[m]);
                    assert(keys[m] == keys_prev[m]);
                    let i = choose|i: int|
                        0 <= i < rows.drop_last().len() && rows.drop_last()[i].table
                            == keys_prev[m];
                    assert(rows[i] == rows.drop_last()[i]);
                    assert(rows[i].table == keys[m]);
                }
            }
        }
    }
}

/// Every input row's table name is the name of some run.
pub proof fn lemma_keys_cover_rows(rows: Seq<ColumnRowV>)
    ensures
        forall|i: int|
            0 <= i < rows.len() ==> exists|m: int|
                0 <= m < spec_group_keys(rows).len() && spec_group_keys(rows)[m]
                    == #[trigger] rows[i].table,
    decreases rows.len(),
{
    if rows.len() > 0 {
        lemma_keys_cover_rows(rows.drop_last());
        lemma_groups_nonempty(rows.drop_last());
        lemma_groups_uniform(rows);
        let prev = spec_groups(rows.drop_last());
        let keys_prev = spec_group_keys(rows.drop_last());
        let keys = spec_group_keys(rows);
        let r = rows.last();
        let g = spec_groups(rows);
        assert forall|i: int| 0 <= i < rows.len() implies exists|m: int|
            0 <= m < keys.len() && keys[m] == #[trigger] rows[i].table by {
            if prev.len() > 0 && prev.last().last().table == r.table {
                assert forall|m: int| 0 <= m < keys.len() implies keys[m] == keys_prev[m] by {
                    if m == prev.len() - 1 {
                        assert(g[m] == prev.last().push(r));
                    } else {
                        assert(g[m] == prev[m]);
                    }
                }
                if i == rows.len() - 1 {
                    let m = g.len() - 1;
                    assert(g[m] == prev.last().push(r));
                    assert(g[m][g[m].len() - 1] == r);
                    assert(g[m][g[m].len() - 1].table == g[m][0].table);
                    assert(keys[m] == r.table);
                } else {
                    assert(rows.drop_last()[i] == rows[i]);
                    let m = choose|m: int|
                        0 <= m < keys_prev.len() && keys_prev[m] == rows.drop_last()[i].table;
                    assert(keys[m] == rows[i].table);
                }
            } else {
                if i == rows.len() - 1 {
                    let m = g.len() - 1;
                    assert(g[m] == seq![r]);
                    assert(keys[m] == r.table);
                } else {
                    assert(rows.drop_last()[i] == rows[i]);
                    let m = choose|m: int|
                        0 <= m < keys_prev.len() && keys_prev[m] == rows.drop_last()[i].table;
                    assert(g[m] == prev[m]);
                    assert(keys[m] == rows[i].table);
                }
            }
        }
    }
}

/// On pre-sorted input the runs carry pairwise distinct table names.
pub proof fn lemma_group_keys_distinct(rows: Seq<ColumnRowV>)
    requires
        rows_grouped(rows),
    ensures
        forall|m1: int, m2: int|
            0 <= m1 < m2 < spec_group_keys(rows).len() ==> #[trigger] spec_group_keys(rows)[m1]
                != #[trigger] spec_group_keys(rows)[m2],
    decreases rows.len(),
{
    if rows.len() > 0 {
        let rows_prev = rows.drop_last();
        assert(rows_grouped(rows_prev)) by {
            assert forall|i: int, j: int, k: int|
                0 <= i < j < k < rows_prev.len() && rows_prev[i].table == rows_prev[k].table
                implies rows_prev[j].table == rows_prev[i].table by {
                assert(rows[i] == rows_prev[i]);
                assert(rows[j] == rows_prev[j]);
                assert(rows[k] == rows_prev[k]);
            }
        }
        lemma_group_keys_distinct(rows_prev);
        lemma_group_keys_cover(rows_prev);
        lemma_groups_nonempty(rows_prev);
        let prev = spec_groups(rows_prev);
        let keys_prev = spec_group_keys(rows_prev);
        let keys = spec_group_keys(rows);
        let r = rows.last();
        let g = spec_groups(rows);
        if prev.len() > 0 && prev.last().last().table == r.table {
            assert forall|m1: int, m2: int|
                0 <= m1 < m2 < keys.len() implies #[trigger] keys[m1] != #[trigger] keys[m2] by {
                if m2 == prev.len() - 1 {
                    assert(g[m2] == prev.last().push(r));
                    assert(keys[m2] == prev.last()[0].table);
                    assert(keys[m2] == keys_prev[m2]);
                } else {
                    assert(g[m2] == prev[m2]);
                    assert(keys[m2] == keys_prev[m2]);
                }
                assert(g[m1] == prev[m1]);
                assert(keys[m1] == keys_prev[m1]);
            }
        } else {
            assert forall|m1: int, m2: int|
                0 <= m1 < m2 < keys.len() implies #[trigger] keys[m1] != #[trigger] keys[m2] by {
                if m2 < prev.len() {
                    assert(g[m1] == prev[m1]);
                    assert(g[m2] == prev[m2]);
                    assert(keys[m1] == keys_prev[m1]);
                    assert(keys[m2] == keys_prev[m2]);
                } else {
                    assert(g[m2] == seq![r]);
                    assert(keys[m2] == r.table);
                    assert(g[m1] == prev[m1]);
                    assert(keys[m1] == keys_prev[m1]);
                    if keys_prev[m1] == r.table {
                        // Some earlier row carries the new run's name: the
                        // input was not grouped by table.
                        let i = choose|i: int|
                            0 <= i < rows_prev.len() && rows_prev[i].table == keys_prev[m1];
                        lemma_groups_last(rows_prev);
                        assert(prev.last().last() == rows_prev.last());
                        assert(rows_prev.last().table != r.table);
                        assert(rows[i] == rows_prev[i]);
                        assert(rows[rows.len() - 2] == rows_prev[rows_prev.len() - 1]);
                        assert(i < rows.len() - 2);
                        assert(rows[i].table == rows[rows.len() - 1].table);
                        assert(false);
                    }
                }
            }
        }
    }
}

/// A table is in the mapped output iff its run's name passes the filter:
/// presence in the table list of `spec_tables_of` is equivalent to being the
/// name of some run and passing the load-time filter.
pub proof fn lemma_tables_of_presence(
    groups: Seq<Seq<ColumnRowV>>,
    include_list: Option<Seq<Seq<char>>>,
    exclude: Option<Seq<Seq<char>>>,
    indexes: Seq<IndexV>,
    cwrap: Option<usize>,
    twrap: Option<usize>,
    name: Seq<char>,
)
    requires
        forall|m: int| 0 <= m < groups.len() ==> #[trigger] groups[m].len() > 0,
    ensures
        (exists|k: int|
            0 <= k < spec_tables_of(groups, include_list, exclude, indexes, cwrap, twrap).len()
                && #[trigger] spec_tables_of(groups, include_list, exclude, indexes, cwrap, twrap)[k].name
                == name) <==> ((exists|m: int|
            0 <= m < groups.len() && #[trigger] groups[m][0].table == name)
            && spec_should_include(name, include_list, exclude)),
    decreases groups.len(),
{
    let whole = spec_tables_of(groups, include_list, exclude, indexes, cwrap, twrap);
    if groups.len() == 0 {
    } else {
        let tail = groups.skip(1);
        assert forall|m: int| 0 <= m < tail.len() implies #[trigger] tail[m].len() > 0 by {
            assert(tail[m] == groups[m + 1]);
        }
        lemma_tables_of_presence(tail, include_list, exclude, indexes, cwrap, twrap, name);
        let rest = spec_tables_of(tail, include_list, exclude, indexes, cwrap, twrap);
        let kept = spec_should_include(groups[0][0].table, include_list, exclude);
        let head = spec_table_of(groups[0], indexes, cwrap, twrap);
        if exists|k: int| 0 <= k < whole.len() && #[trigger] whole[k].name == name {
            let k = choose|k: int| 0 <= k < whole.len() && #[trigger] whole[k].name == name;
            if kept && k == 0 {
                assert(whole[0] == head);
                assert(groups[0][0].table == name);
            } else {
                let k2: int = if kept {
                    k - 1
                } else {
                    k
                };
                assert(rest[k2].name == name);
                let m = choose|m: int| 0 <= m < tail.len() && #[trigger] tail[m][0].table == name;
                assert(groups[m + 1][0].table == name);
            }
        }
        if (exists|m: int| 0 <= m < groups.len() && #[trigger] groups[m][0].table == name)
            && spec_should_include(name, include_list, exclude) {
            let m = choose|m: int| 0 <= m < groups.len() && #[trigger] groups[m][0].table == name;
            if m == 0 {
                assert(kept);
                assert(whole[0] == head);
                assert(whole[0].name == name);
            } else {
                assert(tail[m - 1][0].table == name);
                let k2 = choose|k: int| 0 <= k < rest.len() && #[trigger] rest[k].name == name;
                if kept {
                    assert(whole[k2 + 1].name == name);
                } else {
                    assert(whole[k2].name == name);
                }
            }
        }
    }
}

/// Every mapped table is named after one of the runs.
pub proof fn lemma_tables_of_names_cover(
    groups: Seq<Seq<ColumnRowV>>,
    include_list: Option<Seq<Seq<char>>>,
    exclude: Option<Seq<Seq<char>>>,
    indexes: Seq<IndexV>,
    cwrap: Option<usize>,
    twrap: Option<usize>,
)
    ensures
        forall|k: int|
            0 <= k < spec_tables_of(groups, include_list, exclude, indexes, cwrap, twrap).len()
                ==> exists|m: int|
                0 <= m < groups.len() && #[trigger] spec_tables_of(
                    groups,
                    include_list,
                    exclude,
                    indexes,
                    cwrap,
                    twrap,
                )[k].name == groups[m][0].table,
    decreases groups.len(),
{
    let whole = spec_tables_of(groups, include_list, exclude, indexes, cwrap, twrap);
    if groups.len() > 0 {
        let tail = groups.skip(1);
        lemma_tables_of_names_cover(tail, include_list, exclude, indexes, cwrap, twrap);
        let rest = spec_tables_of(tail, include_list, exclude, indexes, cwrap, twrap);
        let kept = groups[0].len() > 0 && spec_should_include(
            groups[0][0].table,
            include_list,
            exclude,
        );
        assert forall|k: int| 0 <= k < whole.len() implies exists|m: int|
            0 <= m < groups.len() && #[trigger] whole[k].name == groups[m][0].table by {
            if kept && k == 0 {
                assert(whole[0] == spec_table_of(groups[0], indexes, cwrap, twrap));
                assert(whole[0].name == groups[0][0].table);
            } else {
                let k2: int = if kept {
                    k - 1
                } else {
                    k
                };
                assert(whole[k] == rest[k2]);
                let m = choose|m: int| 0 <= m < tail.len() && rest[k2].name == #[trigger] tail[m][0].table;
                assert(tail[m] == groups[m + 1]);
                assert(whole[k].name == groups[m + 1][0].table);
            }
        }
    }
}

/// Runs with pairwise distinct names map to tables with pairwise distinct names.
pub proof fn lemma_tables_of_distinct(
    groups: Seq<Seq<ColumnRowV>>,
    include_list: Option<Seq<Seq<char>>>,
    exclude: Option<Seq<Seq<char>>>,
    indexes: Seq<IndexV>,
    cwrap: Option<usize>,
    twrap: Option<usize>,
)
    requires
        forall|m1: int, m2: int|
            0 <= m1 < m2 < groups.len() ==> #[trigger] groups[m1][0].table
                != #[trigger] groups[m2][0].table,
    ensures
        forall|k1: int, k2: int|
            0 <= k1 < k2 < spec_tables_of(groups, include_list, exclude, indexes, cwrap,
                twrap).len() ==> #[trigger] spec_tables_of(
                groups,
                include_list,
                exclude,
                indexes,
                cwrap,
                twrap,
            )[k1].name != #[trigger] spec_tables_of(
                groups,
                include_list,
                exclude,
                indexes,
                cwrap,
                twrap,
            )[k2].name,
    decreases groups.len(),
{
    let whole = spec_tables_of(groups, include_list, exclude, indexes, cwrap, twrap);
    if groups.len() > 0 {
        let tail = groups.skip(1);
        assert forall|m1: int, m2: int| 0 <= m1 < m2 < tail.len() implies #[trigger] tail[m1][0].table
            != #[trigger] tail[m2][0].table by {
            assert(tail[m1] == groups[m1 + 1]);
            assert(tail[m2] == groups[m2 + 1]);
        }
        lemma_tables_of_distinct(tail, include_list, exclude, indexes, cwrap, twrap);
        lemma_tables_of_names_cover(tail, include_list, exclude, indexes, cwrap, twrap);
        let rest = spec_tables_of(tail, include_list, exclude, indexes, cwrap, twrap);
        let kept = groups[0].len() > 0 && spec_should_include(
            groups[0][0].table,
            include_list,
            exclude,
        );
        assert forall|k1: int, k2: int| 0 <= k1 < k2 < whole.len() implies #[trigger] whole[k1].name
            != #[trigger] whole[k2].name by {
            if kept && k1 == 0 {
                assert(whole[0] == spec_table_of(groups[0], indexes, cwrap, twrap));
                assert(whole[k2] == rest[k2 - 1]);
                let m = choose|m: int|
                    0 <= m < tail.len() && rest[k2 - 1].name == #[trigger] tail[m][0].table;
                assert(tail[m] == groups[m + 1]);
                assert(groups[0][0].table != groups[m + 1][0].table);
            } else {
                let off: int = if kept {
                    1
                } else {
                    0
                };
                assert(whole[k1] == rest[k1 - off]);
                assert(whole[k2] == rest[k2 - off]);
            }
        }
    }
}

/// A relation is in the mapped output iff some foreign-key row describes it
/// and both of its endpoints pass the filter.
pub proof fn lemma_relations_of_presence(
    rows: Seq<Seq<(Seq<char>, Seq<char>)>>,
    include_list: Option<Seq<Seq<char>>>,
    exclude: Option<Seq<Seq<char>>>,
    rv: RelationV,
)
    requires
        spec_relations_of(rows, include_list, exclude) is Ok,
    ensures
        (exists|k: int|
            0 <= k < spec_relations_of(rows, include_list, exclude)->Ok_0.len()
                && #[trigger] spec_relations_of(rows, include_list, exclude)->Ok_0[k] == rv) <==> ((
        exists|i: int|
            0 <= i < rows.len() && #[trigger] spec_relation_of(rows[i]) == Ok::<
                RelationV,
                Seq<char>,
            >(rv)) && spec_should_include(rv.on_table, include_list, exclude)
            && spec_should_include(rv.to_table, include_list, exclude)),
    decreases rows.len(),
{
    let whole = spec_relations_of(rows, include_list, exclude)->Ok_0;
    if rows.len() == 0 {
    } else {
        let tail = rows.skip(1);
        lemma_relations_of_presence(tail, include_list, exclude, rv);
        let rest = spec_relations_of(tail, include_list, exclude)->Ok_0;
        let head = spec_relation_of(rows[0])->Ok_0;
        let kept = spec_should_include(head.on_table, include_list, exclude)
            && spec_should_include(head.to_table, include_list, exclude);
        if exists|k: int| 0 <= k < whole.len() && #[trigger] whole[k] == rv {
            let k = choose|k: int| 0 <= k < whole.len() && #[trigger] whole[k] == rv;
            if kept && k == 0 {
                assert(whole[0] == head);
                assert(spec_relation_of(rows[0]) == Ok::<RelationV, Seq<char>>(rv));
            } else {
                let k2: int = if kept {
                    k - 1
                } else {
                    k
                };
                assert(rest[k2] == rv);
                let i = choose|i: int|
                    0 <= i < tail.len() && #[trigger] spec_relation_of(tail[i]) == Ok::<
                        RelationV,
                        Seq<char>,
                    >(rv);
                assert(tail[i] == rows[i + 1]);
            }
        }
        if (exists|i: int|
            0 <= i < rows.len() && #[trigger] spec_relation_of(rows[i]) == Ok::<
                RelationV,
                Seq<char>,
            >(rv)) && spec_should_include(rv.on_table, include_list, exclude)
            && spec_should_include(rv.to_table, include_list, exclude) {
            let i = choose|i: int|
                0 <= i < rows.len() && #[trigger] spec_relation_of(rows[i]) == Ok::<
                    RelationV,
                    Seq<char>,
                >(rv);
            if i == 0 {
                assert(head == rv);
                assert(kept);
                assert(whole[0] == rv);
            } else {
                assert(spec_relation_of(tail[i - 1]) == Ok::<RelationV, Seq<char>>(rv));
                let k2 = choose|k: int| 0 <= k < rest.len() && #[trigger] rest[k] == rv;
                if kept {
                    assert(whole[k2 + 1] == rv);
                } else {
                    assert(whole[k2] == rv);
                }
            }
        }
    }
}

/// Every column's primary-key flag agrees with the index list: it is set iff
/// some primary index on the column's table covers the column.
pub proof fn lemma_tables_of_primary_keys(
    groups: Seq<Seq<ColumnRowV>>,
    include_list: Option<Seq<Seq<char>>>,
    exclude: Option<Seq<Seq<char>>>,
    indexes: Seq<IndexV>,
    cwrap: Option<usize>,
    twrap: Option<usize>,
)
    ensures
        forall|k: int, j: int|
            0 <= k < spec_tables_of(groups, include_list, exclude, indexes, cwrap, twrap).len()
                && 0 <= j < spec_tables_of(groups, include_list, exclude, indexes, cwrap,
                twrap)[k].fields.len() ==> (#[trigger] spec_tables_of(
                groups,
                include_list,
                exclude,
                indexes,
                cwrap,
                twrap,
            )[k].fields[j].primary_key <==> spec_is_primary_key(
                spec_tables_of(groups, include_list, exclude, indexes, cwrap, twrap)[k].name,
                spec_tables_of(groups, include_list, exclude, indexes, cwrap, twrap)[k].fields[j].column,
                indexes,
            )),
    decreases groups.len(),
{
    let whole = spec_tables_of(groups, include_list, exclude, indexes, cwrap, twrap);
    if groups.len() > 0 {
        let tail = groups.skip(1);
        lemma_tables_of_primary_keys(tail, include_list, exclude, indexes, cwrap, twrap);
        let rest = spec_tables_of(tail, include_list, exclude, indexes, cwrap, twrap);
        let kept = groups[0].len() > 0 && spec_should_include(
            groups[0][0].table,
            include_list,
            exclude,
        );
        assert forall|k: int, j: int|
            0 <= k < whole.len() && 0 <= j < whole[k].fields.len() implies (
        #[trigger] whole[k].fields[j].primary_key <==> spec_is_primary_key(
            whole[k].name,
            whole[k].fields[j].column,
            indexes,
        )) by {
            if kept && k == 0 {
                let g = groups[0];
                let t = spec_table_of(g, indexes, cwrap, twrap);
                assert(whole[0] == t);
                assert(t.fields[j] == spec_column_of(
                    g[j],
                    spec_is_primary_key(g[0].table, g[j].column, indexes),
                    cwrap,
                ));
            } else {
                let k2: int = if kept {
                    k - 1
                } else {
                    k
                };
                assert(whole[k] == rest[k2]);
            }
        }
    }
}

/// A table is present in a loaded schema iff its name is the name of some run
/// of the column rows and passes the load-time filter with the configured
/// include/exclude lists.
pub proof fn lemma_load_table_presence(
    cols: Seq<ColumnRowV>,
    rels: Seq<Seq<(Seq<char>, Seq<char>)>>,
    idx_rows: Seq<IndexRowV>,
    include_list: Option<Seq<Seq<char>>>,
    exclude: Option<Seq<Seq<char>>>,
    cwrap: Option<usize>,
    twrap: Option<usize>,
    name: Seq<char>,
)
    requires
        spec_load(cols, rels, idx_rows, include_list, exclude, cwrap, twrap) is Ok,
    ensures
        spec_load(cols, rels, idx_rows, include_list, exclude, cwrap, twrap)->Ok_0.table_names()
            .contains(name) <==> (spec_group_keys(cols).contains(name) && spec_should_include(
            name,
            include_list,
            exclude,
        )),
{
    let sv = spec_load(cols, rels, idx_rows, include_list, exclude, cwrap, twrap)->Ok_0;
    let groups = spec_groups(cols);
    let indexes = spec_indexes_of(idx_rows, include_list, exclude);
    lemma_groups_nonempty(cols);
    lemma_tables_of_presence(groups, include_list, exclude, indexes, cwrap, twrap, name);
    assert(sv.tables == spec_tables_of(groups, include_list, exclude, indexes, cwrap, twrap));
    assert forall|k: int| 0 <= k < sv.tables.len() implies sv.table_names()[k]
        == sv.tables[k].name by {}
    if sv.table_names().contains(name) {
        let k = choose|k: int| 0 <= k < sv.table_names().len() && sv.table_names()[k] == name;
        assert(sv.tables[k].name == name);
        let m = choose|m: int| 0 <= m < groups.len() && #[trigger] groups[m][0].table == name;
        assert(spec_group_keys(cols)[m] == name);
    }
    if spec_group_keys(cols).contains(name) && spec_should_include(name, include_list, exclude) {
        let m = choose|m: int|
            0 <= m < spec_group_keys(cols).len() && spec_group_keys(cols)[m] == name;
        assert(groups[m][0].table == name);
        let k = choose|k: int| 0 <= k < sv.tables.len() && #[trigger] sv.tables[k].name == name;
        assert(sv.table_names()[k] == name);
    }
}

/// A table is present in a loaded schema iff some column row carries its name
/// and the name passes the load-time filter with the configured
/// include/exclude lists.
pub proof fn lemma_load_table_presence_rows(
    cols: Seq<ColumnRowV>,
    rels: Seq<Seq<(Seq<char>, Seq<char>)>>,
    idx_rows: Seq<IndexRowV>,
    include_list: Option<Seq<Seq<char>>>,
    exclude: Option<Seq<Seq<char>>>,
    cwrap: Option<usize>,
    twrap: Option<usize>,
    name: Seq<char>,
)
    requires
        spec_load(cols, rels, idx_rows, include_list, exclude, cwrap, twrap) is Ok,
    ensures
        spec_load(cols, rels, idx_rows, include_list, exclude, cwrap, twrap)->Ok_0.table_names()
            .contains(name) <==> ((exists|i: int|
            0 <= i < cols.len() && #[trigger] cols[i].table == name) && spec_should_include(
            name,
            include_list,
            exclude,
        )),
{
    lemma_load_table_presence(cols, rels, idx_rows, include_list, exclude, cwrap, twrap, name);
    lemma_group_keys_cover(cols);
    lemma_keys_cover_rows(cols);
    let keys = spec_group_keys(cols);
    if keys.contains(name) {
        let m = choose|m: int| 0 <= m < keys.len() && keys[m] == name;
        let i = choose|i: int| 0 <= i < cols.len() && cols[i].table == keys[m];
        assert(cols[i].table == name);
    }
    if exists|i: int| 0 <= i < cols.len() && #[trigger] cols[i].table == name {
        let i = choose|i: int| 0 <= i < cols.len() && #[trigger] cols[i].table == name;
        let m = choose|m: int| 0 <= m < keys.len() && keys[m] == cols[i].table;
        assert(keys.contains(name));
    }
}

/// A relation is present in a loaded schema iff some foreign-key row
/// describes it and both its `on_table` and `to_table` endpoints
/// independently pass the load-time filter.
pub proof fn lemma_load_relation_presence(
    cols: Seq<ColumnRowV>,
    rels: Seq<Seq<(Seq<char>, Seq<char>)>>,
    idx_rows: Seq<IndexRowV>,
    include_list: Option<Seq<Seq<char>>>,
    exclude: Option<Seq<Seq<char>>>,
    cwrap: Option<usize>,
    twrap: Option<usize>,
    rv: RelationV,
)
    requires
        spec_load(cols, rels, idx_rows, include_list, exclude, cwrap, twrap) is Ok,
    ensures
        spec_load(cols, rels, idx_rows, include_list, exclude, cwrap, twrap)->Ok_0.relations
            .contains(rv) <==> ((exists|i: int|
            0 <= i < rels.len() && #[trigger] spec_relation_of(rels[i]) == Ok::<
                RelationV,
                Seq<char>,
            >(rv)) && spec_should_include(rv.on_table, include_list, exclude)
            && spec_should_include(rv.to_table, include_list, exclude)),
{
    lemma_relations_of_presence(rels, include_list, exclude, rv);
}

/// Every column's primary-key flag in a loaded schema is set iff some index
/// kept for that schema, on the column's table and marked primary, lists the
/// column among its fields.
pub proof fn lemma_load_primary_keys(
    cols: Seq<ColumnRowV>,
    rels: Seq<Seq<(Seq<char>, Seq<char>)>>,
    idx_rows: Seq<IndexRowV>,
    include_list: Option<Seq<Seq<char>>>,
    exclude: Option<Seq<Seq<char>>>,
    cwrap: Option<usize>,
    twrap: Option<usize>,
)
    requires
        spec_load(cols, rels, idx_rows, include_list, exclude, cwrap, twrap) is Ok,
    ensures
        forall|k: int, j: int|
            0 <= k < spec_load(cols, rels, idx_rows, include_list, exclude, cwrap, twrap)
                ->Ok_0.tables.len() && 0 <= j < spec_load(cols, rels, idx_rows, include_list,
                exclude, cwrap, twrap)->Ok_0.tables[k].fields.len() ==> (#[trigger] spec_load(
                cols,
                rels,
                idx_rows,
                include_list,
                exclude,
                cwrap,
                twrap,
            )->Ok_0.tables[k].fields[j].primary_key <==> spec_is_primary_key(
                spec_load(cols, rels, idx_rows, include_list, exclude, cwrap, twrap)
                    ->Ok_0.tables[k].name,
                spec_load(cols, rels, idx_rows, include_list, exclude, cwrap, twrap)
                    ->Ok_0.tables[k].fields[j].column,
                spec_indexes_of(idx_rows, include_list, exclude),
            )),
{
    let indexes = spec_indexes_of(idx_rows, include_list, exclude);
    lemma_tables_of_primary_keys(spec_groups(cols), include_list, exclude, indexes, cwrap, twrap);
}

/// On pre-sorted column rows a loaded schema's table names are unique.
pub proof fn lemma_load_unique_names(
    cols: Seq<ColumnRowV>,
    rels: Seq<Seq<(Seq<char>, Seq<char>)>>,
    idx_rows: Seq<IndexRowV>,
    include_list: Option<Seq<Seq<char>>>,
    exclude: Option<Seq<Seq<char>>>,
    cwrap: Option<usize>,
    twrap: Option<usize>,
)
    requires
        rows_grouped(cols),
        spec_load(cols, rels, idx_rows, include_list, exclude, cwrap, twrap) is Ok,
    ensures
        spec_load(cols, rels, idx_rows, include_list, exclude, cwrap, twrap)->Ok_0.wf(),
{
    let groups = spec_groups(cols);
    let indexes = spec_indexes_of(idx_rows, include_list, exclude);
    lemma_group_keys_distinct(cols);
    assert forall|m1: int, m2: int| 0 <= m1 < m2 < groups.len() implies #[trigger] groups[m1][0].table
        != #[trigger] groups[m2][0].table by {
        assert(spec_group_keys(cols)[m1] == groups[m1][0].table);
        assert(spec_group_keys(cols)[m2] == groups[m2][0].table);
    }
    lemma_tables_of_distinct(groups, include_list, exclude, indexes, cwrap, twrap);
}

} // verus!
