//! Resolving a named column in a header row.
use vstd::prelude::*;
use crate::text::{chars_of, same_ignoring_case, same_ignoring_case_chars};

verus! {

/// Why a table could not be read.
#[derive(Debug)]
pub enum FormatError {
    /// The table has no header row.
    MissingHeader,
    /// The header row lacks the named column.
    MissingColumn(String),
}

/// The text of each string.
pub open spec fn texts(v: Seq<String>) -> Seq<Seq<char>> {
    v.map_values(|s: String| s@)
}

/// The first header that equals `name` up to ASCII case.
pub open spec fn column_of(headers: Seq<Seq<char>>, name: Seq<char>) -> Option<int>
    decreases headers.len(),
{
    if headers.len() == 0 {
        None
    } else {
        match column_of(headers.drop_last(), name) {
            Some(i) => Some(i),
            None => if same_ignoring_case(headers.last(), name) {
                Some(headers.len() - 1)
            } else {
                None
            },
        }
    }
}

/// `e` reports that the column `name` is missing.
pub open spec fn reports_missing(e: FormatError, name: Seq<char>) -> bool {
    match e {
        FormatError::MissingColumn(n) => n@ == name,
        FormatError::MissingHeader => false,
    }
}

/// The index of the first header equal to `name` up to ASCII case, or the
/// error that names the missing column.
pub fn find_column(headers: &Vec<String>, name: &str) -> (r: Result<usize, FormatError>)
    ensures
        match r {
            Ok(i) => column_of(texts(headers@), name@) == Some(i as int),
            Err(e) => column_of(texts(headers@), name@) is None && reports_missing(e, name@),
        },
{
    let target = chars_of(name);
    let mut i: usize = 0;
    while i < headers.len()
        invariant
            i <= headers.len(),
            target@ == name@,
            column_of(texts(headers@).subrange(0, i as int), name@) is None,
        decreases headers.len() - i,
    {
        let ghost pre = texts(headers@).subrange(0, i as int);
        let ghost next = texts(headers@).subrange(0, i + 1);
        assert(next.drop_last() =~= pre);
        let h = chars_of(headers[i].as_str());
        if same_ignoring_case_chars(&h, &target) {
            assert(column_of(next, name@) == Some(i as int));
            proof {
                lemma_column_of_prefix(texts(headers@), name@, i + 1);
            }
            return Ok(i);
        }
        i = i + 1;
    }
    assert(texts(headers@).subrange(0, i as int) =~= texts(headers@));
    Err(FormatError::MissingColumn(name.to_owned()))
}

/// A match found in a prefix of the headers is the match in all of them.
proof fn lemma_column_of_prefix(headers: Seq<Seq<char>>, name: Seq<char>, k: int)
    requires
        0 <= k <= headers.len(),
        column_of(headers.subrange(0, k), name) is Some,
    ensures
        column_of(headers, name) == column_of(headers.subrange(0, k), name),
    decreases headers.len(),
{
    if k == headers.len() {
        assert(headers.subrange(0, k) =~= headers);
    } else {
        assert(headers.drop_last().subrange(0, k) =~= headers.subrange(0, k));
        lemma_column_of_prefix(headers.drop_last(), name, k);
    }
}

} // verus!
