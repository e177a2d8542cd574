//! Core entities of the schema model.

use std::collections::HashMap;
use vstd::prelude::*;

verus! {

pub type TableName = String;

pub type FieldName = String;

/// All the schema information.
pub struct Schema {
    /// List of tables in the database.
    pub tables: Vec<Table>,
    /// List of relations in the database.
    pub relations: Vec<Relation>,
    /// Tables that were only partially loaded, keyed by table name.
    pub partial_tables: HashMap<String, Vec<String>>,
}

/// Column information.
pub struct TableColumn {
    pub column: String,
    pub data_type: String,
    pub index: i32,
    pub default: Option<String>,
    pub nullable: String,
    pub max_chars: Option<i32>,
    pub description: Option<String>,
    /// Redundant copy of the owning table's description, kept on every column
    /// so that a renderer that only sees a column still has it.
    pub table_description: Option<String>,
    pub primary_key: bool,
}

/// Table information.
pub struct Table {
    /// Table name.
    pub name: String,
    /// Table description.
    pub description: Option<String>,
    /// List of fields, in catalog ordinal order.
    pub fields: Vec<TableColumn>,
}

/// Relation node: a directed foreign-key edge.
pub struct Relation {
    /// Table that the constraint references.
    pub on_table: TableName,
    /// Field that the constraint references.
    pub on_field: FieldName,
    /// Table which the foreign key references.
    pub to_table: TableName,
    /// Field which the foreign key references.
    pub to_field: FieldName,
}

/// Index definition. Indexes are a transient input used to resolve the
/// primary-key flag on columns; they are not retained in the final schema.
pub struct Index {
    pub table: TableName,
    pub name: String,
    pub primary: bool,
    pub unique: bool,
    pub fields: Vec<String>,
}

/// Mathematical image of a column: every text field as a sequence of characters.
pub struct TableColumnV {
    pub column: Seq<char>,
    pub data_type: Seq<char>,
    pub index: i32,
    pub default: Option<Seq<char>>,
    pub nullable: Seq<char>,
    pub max_chars: Option<i32>,
    pub description: Option<Seq<char>>,
    pub table_description: Option<Seq<char>>,
    pub primary_key: bool,
}

/// Mathematical image of a table.
pub struct TableV {
    pub name: Seq<char>,
    pub description: Option<Seq<char>>,
    pub fields: Seq<TableColumnV>,
}

/// Mathematical image of a relation.
pub struct RelationV {
    pub on_table: Seq<char>,
    pub on_field: Seq<char>,
    pub to_table: Seq<char>,
    pub to_field: Seq<char>,
}

/// Mathematical image of an index.
pub struct IndexV {
    pub table: Seq<char>,
    pub name: Seq<char>,
    pub primary: bool,
    pub unique: bool,
    pub fields: Seq<Seq<char>>,
}

/// Mathematical image of a whole schema.
pub struct SchemaV {
    pub tables: Seq<TableV>,
    pub relations: Seq<RelationV>,
    pub partial_tables: Map<Seq<char>, Seq<Seq<char>>>,
}

impl DeepView for TableColumn {
    type V = TableColumnV;

    open spec fn deep_view(&self) -> TableColumnV {
        TableColumnV {
            column: self.column.deep_view(),
            data_type: self.data_type.deep_view(),
            index: self.index,
            default: self.default.deep_view(),
            nullable: self.nullable.deep_view(),
            max_chars: self.max_chars,
            description: self.description.deep_view(),
            table_description: self.table_description.deep_view(),
            primary_key: self.primary_key,
        }
    }
}

impl DeepView for Table {
    type V = TableV;

    open spec fn deep_view(&self) -> TableV {
        TableV {
            name: self.name.deep_view(),
            description: self.description.deep_view(),
            fields: self.fields.deep_view(),
        }
    }
}

impl DeepView for Relation {
    type V = RelationV;

    open spec fn deep_view(&self) -> RelationV {
        RelationV {
            on_table: self.on_table.deep_view(),
            on_field: self.on_field.deep_view(),
            to_table: self.to_table.deep_view(),
            to_field: self.to_field.deep_view(),
        }
    }
}

impl DeepView for Index {
    type V = IndexV;

    open spec fn deep_view(&self) -> IndexV {
        IndexV {
            table: self.table.deep_view(),
            name: self.name.deep_view(),
            primary: self.primary,
            unique: self.unique,
            fields: self.fields.deep_view(),
        }
    }
}

impl DeepView for Schema {
    type V = SchemaV;

    open spec fn deep_view(&self) -> SchemaV {
        SchemaV {
            tables: self.tables.deep_view(),
            relations: self.relations.deep_view(),
            partial_tables: self.partial_tables.deep_view(),
        }
    }
}

impl SchemaV {
    /// The names of the tables kept in the schema, in order.
    pub open spec fn table_names(self) -> Seq<Seq<char>> {
        self.tables.map_values(|t: TableV| t.name)
    }

    /// Well-formedness: table names are unique within a schema.
    pub open spec fn wf(self) -> bool {
        forall|i: int, j: int|
            0 <= i < j < self.tables.len() ==> self.tables[i].name != self.tables[j].name
    }
}

} // verus!
