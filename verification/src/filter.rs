//! The include/exclude filter predicate.
//!
//! A table name passes the filter when it appears in the include list (or no
//! include list is given) and does not appear in the exclude list (an absent
//! exclude list excludes nothing). Exclusion always wins over inclusion. The
//! same predicate is applied at load time and, with an independent
//! configuration, at render time.

use vstd::prelude::*;

verus! {

/// Whether `name` occurs in `names`.
pub open spec fn spec_contains_name(names: Seq<Seq<char>>, name: Seq<char>) -> bool {
    exists|i: int| 0 <= i < names.len() && names[i] == name
}

/// Whether `name` passes the include side: absent list means included by default.
pub open spec fn spec_include_table(name: Seq<char>, include_list: Option<Seq<Seq<char>>>) -> bool {
    match include_list {
        Some(inc) => spec_contains_name(inc, name),
        None => true,
    }
}

/// Whether `name` is struck by the exclude side: absent list excludes nothing.
pub open spec fn spec_exclude_table(name: Seq<char>, exclude: Option<Seq<Seq<char>>>) -> bool {
    match exclude {
        Some(exc) => spec_contains_name(exc, name),
        None => false,
    }
}

/// The filter predicate: included and not excluded.
pub open spec fn spec_should_include(
    name: Seq<char>,
    include_list: Option<Seq<Seq<char>>>,
    exclude: Option<Seq<Seq<char>>>,
) -> bool {
    spec_include_table(name, include_list) && !spec_exclude_table(name, exclude)
}

/// Character-by-character string comparison.
pub fn str_eq(a: &str, b: &str) -> (r: bool)
    ensures
        r == (a@ == b@),
{
    let n = a.unicode_len();
    let m = b.unicode_len();
    if n != m {
        proof {
            if a@ == b@ {
                assert(a@.len() == b@.len());
            }
        }
        return false;
    }
    let mut i: usize = 0;
    while i < n
        invariant
            n == a@.len(),
            n == b@.len(),
            i <= n,
            forall|j: int| 0 <= j < i ==> a@[j] == b@[j],
        decreases n - i,
    {
        if a.get_char(i) != b.get_char(i) {
            proof {
                if a@ == b@ {
                    assert(a@[i as int] == b@[i as int]);
                }
            }
            return false;
        }
        i = i + 1;
    }
    proof {
        assert(a@ =~= b@);
    }
    true
}

/// Whether `name` occurs in `names`.
pub fn contains_name(names: &Vec<String>, name: &str) -> (r: bool)
    ensures
        r == spec_contains_name(names.deep_view(), name@),
{
    let mut i: usize = 0;
    while i < names.len()
        invariant
            i <= names@.len(),
            forall|j: int| 0 <= j < i ==> names.deep_view()[j] != name@,
        decreases names@.len() - i,
    {
        if str_eq(names[i].as_str(), name) {
            assert(names.deep_view()[i as int] == name@);
            return true;
        }
        i = i + 1;
    }
    false
}

/// Do we include this table name?
pub fn include_table(name: &str, include_tables: &Option<Vec<String>>) -> (r: bool)
    ensures
        r == spec_include_table(name@, include_tables.deep_view()),
{
    match include_tables {
        Some(inc) => contains_name(inc, name),
        None => true,
    }
}

/// Do we exclude this table name?
pub fn exclude_table(name: &str, exclude_tables: &Option<Vec<String>>) -> (r: bool)
    ensures
        r == spec_exclude_table(name@, exclude_tables.deep_view()),
{
    match exclude_tables {
        Some(exc) => contains_name(exc, name),
        None => false,
    }
}

/// The filter predicate applied to one table name.
pub fn should_include(
    name: &str,
    include_tables: &Option<Vec<String>>,
    exclude_tables: &Option<Vec<String>>,
) -> (r: bool)
    ensures
        r == spec_should_include(name@, include_tables.deep_view(), exclude_tables.deep_view()),
{
    include_table(name, include_tables) && !exclude_table(name, exclude_tables)
}

} // verus!
