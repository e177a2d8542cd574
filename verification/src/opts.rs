//! Configuration surface of the pipeline: connection settings and the
//! load-time filtering and presentation options. Parsing these from the
//! command line is the caller's concern; the library only consumes the plain
//! values.

use vstd::prelude::*;

verus! {

/// Connection settings for the database session.
pub struct Pg {
    pub hostname: String,
    pub username: String,
    pub password: String,
    pub database: String,
    pub schema: String,
}

impl Default for Pg {
    /// The conventional local-development defaults.
    fn default() -> (r: Pg)
        ensures
            r.hostname@ == "localhost"@,
            r.username@ == "postgres"@,
            r.password@ == "postgres"@,
            r.database@ == "postgres"@,
            r.schema@ == "public"@,
    {
        Pg {
            hostname: String::from_str("localhost"),
            username: String::from_str("postgres"),
            password: String::from_str("postgres"),
            database: String::from_str("postgres"),
            schema: String::from_str("public"),
        }
    }
}

/// All options of one run.
pub struct Opts {
    pub pg_opts: Pg,
    pub include_tables: Option<Vec<String>>,
    pub exclude_tables: Option<Vec<String>>,
    pub title: Option<String>,
    pub column_description_wrap: Option<usize>,
    pub table_description_wrap: Option<usize>,
    pub comments: bool,
    /// Input template file path, when one is given.
    pub template: Option<String>,
}

} // verus!
