//! Plugins to draw schemas.

pub mod dot;
pub mod plain_text;

use crate::schema::{Schema, SchemaV};
use vstd::prelude::*;

verus! {

/// Capability for drawing the diagram of a database schema.
///
/// Each implementation fixes, as a spec function, the exact text it emits for
/// a schema and a set of rendering options; its `write` method returns
/// precisely that text, so rendering is deterministic by construction. The
/// caller owns the byte sink and writes the returned text to it.
pub trait Drawer {
    /// The exact text this drawer emits for a schema and options.
    spec fn spec_write(
        &self,
        schema: SchemaV,
        include_list: Option<Seq<Seq<char>>>,
        exclude: Option<Seq<Seq<char>>>,
        title: Option<Seq<char>>,
        title_loc: Seq<char>,
        title_size: u32,
        title_color: Seq<char>,
        direction: Seq<char>,
    ) -> Seq<char>;

    /// Renders the schema, honouring the render-time include/exclude filter
    /// and the presentation options as far as the format supports them.
    fn write(
        &self,
        schema: &Schema,
        include_tables: Option<Vec<String>>,
        exclude_tables: Option<Vec<String>>,
        title: Option<String>,
        title_loc: &str,
        title_size: u32,
        title_color: &str,
        direction: &str,
    ) -> (out: String)
        ensures
            out@ == self.spec_write(
                schema.deep_view(),
                include_tables.deep_view(),
                exclude_tables.deep_view(),
                title.deep_view(),
                title_loc@,
                title_size,
                title_color@,
                direction@,
            ),
    ;
}

/// Rendering is deterministic: a drawer's output is a function of the schema
/// and the options alone, with nothing drawn from time or chance, so writing
/// the same schema with the same options twice yields byte-identical text.
pub proof fn lemma_write_deterministic<D: Drawer>(
    d: &D,
    schema: SchemaV,
    include_list: Option<Seq<Seq<char>>>,
    exclude: Option<Seq<Seq<char>>>,
    title: Option<Seq<char>>,
    title_loc: Seq<char>,
    title_size: u32,
    title_color: Seq<char>,
    direction: Seq<char>,
    out1: Seq<char>,
    out2: Seq<char>,
)
    requires
        out1 == d.spec_write(schema, include_list, exclude, title, title_loc, title_size,
            title_color, direction),
        out2 == d.spec_write(schema, include_list, exclude, title, title_loc, title_size,
            title_color, direction),
    ensures
        out1 == out2,
{
}

} // verus!
