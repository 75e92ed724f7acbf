//! The association-study summary table: a header row that names the
//! columns, then one variant per row.
use vstd::prelude::*;
use crate::columns::{column_of, find_column, reports_missing, texts, FormatError};
use crate::text::{
    chars_of, parse_u64_chars, parse_u64_spec, split_tab_fields, split_tabs, string_of, trim,
    trim_chars, trim_end, trim_end_chars, upper, upper_chars,
};

verus! {

/// Where the four columns the scoring needs stand in a row.
#[derive(Debug, Clone, Copy, PartialEq, Eq, Structural)]
pub struct GwasColumns {
    pub position: usize,
    pub effect_allele: usize,
    pub beta: usize,
    pub p_value: usize,
}

/// One well-formed row: its position and normalized effect allele, and the
/// trimmed text of its p-value and effect size, which are read as floating
/// point numbers by the caller.
#[derive(Debug)]
pub struct GwasRow {
    pub position: u64,
    pub effect_allele: String,
    pub p_value: String,
    pub beta: String,
}

/// A row as the contracts see it: its text fields as character sequences.
pub struct GwasRowView {
    pub position: u64,
    pub effect_allele: Seq<char>,
    pub p_value: Seq<char>,
    pub beta: Seq<char>,
}

impl View for GwasRow {
    type V = GwasRowView;

    open spec fn view(&self) -> GwasRowView {
        GwasRowView {
            position: self.position,
            effect_allele: self.effect_allele@,
            p_value: self.p_value@,
            beta: self.beta@,
        }
    }
}

/// The view of each row.
pub open spec fn rows_view(v: Seq<GwasRow>) -> Seq<GwasRowView> {
    v.map_values(|r: GwasRow| r@)
}

pub open spec fn position_name() -> Seq<char> {
    seq!['b', 'a', 's', 'e', '_', 'p', 'a', 'i', 'r', '_', 'l', 'o', 'c', 'a', 't', 'i', 'o', 'n']
}

pub open spec fn effect_allele_name() -> Seq<char> {
    seq!['e', 'f', 'f', 'e', 'c', 't', '_', 'a', 'l', 'l', 'e', 'l', 'e']
}

pub open spec fn beta_name() -> Seq<char> {
    seq!['b', 'e', 't', 'a']
}

pub open spec fn p_value_name() -> Seq<char> {
    seq!['p', '_', 'v', 'a', 'l', 'u', 'e']
}

/// The header's fields: the line without trailing whitespace, split on tabs.
pub open spec fn header_fields(line: Seq<char>) -> Seq<Seq<char>> {
    split_tabs(trim_end(line))
}

/// The four columns, when the header names all of them.
pub open spec fn resolve_columns(h: Seq<Seq<char>>) -> Option<GwasColumns> {
    match (column_of(h, position_name()), column_of(h, effect_allele_name()), column_of(h, beta_name()), column_of(h, p_value_name())) {
        (Some(p), Some(e), Some(b), Some(v)) => Some(
            GwasColumns {
                position: p as usize,
                effect_allele: e as usize,
                beta: b as usize,
                p_value: v as usize,
            },
        ),
        _ => None,
    }
}

/// The first of the four names, in the order position, effect allele, beta,
/// p-value, that the header lacks.
pub open spec fn first_missing(h: Seq<Seq<char>>) -> Seq<char> {
    if column_of(h, position_name()) is None {
        position_name()
    } else if column_of(h, effect_allele_name()) is None {
        effect_allele_name()
    } else if column_of(h, beta_name()) is None {
        beta_name()
    } else {
        p_value_name()
    }
}

/// What a header line yields: the columns, or the first missing name.
pub open spec fn header_ok(line: Seq<char>, r: Result<GwasColumns, FormatError>) -> bool {
    match r {
        Ok(c) => resolve_columns(header_fields(line)) == Some(c),
        Err(e) => resolve_columns(header_fields(line)) is None && reports_missing(
            e,
            first_missing(header_fields(line)),
        ),
    }
}

/// What one data row yields under the columns `c`: nothing for a blank line,
/// a row too short for any of the columns, a position that is not an unsigned
/// integer, or an effect allele that is empty after trimming.
pub open spec fn gwas_row(line: Seq<char>, c: GwasColumns) -> Option<GwasRowView> {
    let f = split_tabs(line);
    if trim(line).len() == 0 {
        None
    } else if f.len() <= c.position || f.len() <= c.effect_allele || f.len() <= c.beta
        || f.len() <= c.p_value {
        None
    } else {
        match parse_u64_spec(trim(f[c.position as int])) {
            None => None,
            Some(pos) => {
                let allele = upper(trim(f[c.effect_allele as int]));
                if allele.len() == 0 {
                    None
                } else {
                    Some(
                        GwasRowView {
                            position: pos,
                            effect_allele: allele,
                            p_value: trim(f[c.p_value as int]),
                            beta: trim(f[c.beta as int]),
                        },
                    )
                }
            },
        }
    }
}

/// The rows that the data lines yield, in the order of the lines.
pub open spec fn gwas_rows(lines: Seq<Seq<char>>, c: GwasColumns) -> Seq<GwasRowView>
    decreases lines.len(),
{
    if lines.len() == 0 {
        Seq::empty()
    } else {
        let prev = gwas_rows(lines.drop_last(), c);
        match gwas_row(lines.last(), c) {
            Some(r) => prev.push(r),
            None => prev,
        }
    }
}

/// What a whole table yields: no header row, a header that lacks a column,
/// or the rows of the lines after the header.
pub open spec fn table_ok(lines: Seq<Seq<char>>, r: Result<Vec<GwasRow>, FormatError>) -> bool {
    if lines.len() == 0 {
        r matches Err(FormatError::MissingHeader)
    } else {
        match resolve_columns(header_fields(lines[0])) {
            None => r matches Err(e) && reports_missing(e, first_missing(header_fields(lines[0]))),
            Some(c) => r matches Ok(rows) && rows_view(rows@) == gwas_rows(lines.drop_first(), c),
        }
    }
}

/// Reads the header line and resolves the four columns by name, ignoring
/// ASCII case and column order.
pub fn parse_gwas_header(line: &str) -> (r: Result<GwasColumns, FormatError>)
    ensures
        header_ok(line@, r),
{
    let chars = chars_of(line);
    let trimmed = trim_end_chars(&chars);
    let fields = split_tab_fields(&trimmed);
    let mut headers: Vec<String> = Vec::new();
    let mut i: usize = 0;
    while i < fields.len()
        invariant
            i <= fields.len(),
            texts(headers@) =~= split_tabs(trim_end(line@)).subrange(0, i as int),
            fields.len() == split_tabs(trimmed@).len(),
            trimmed@ == trim_end(line@),
            forall|j: int| 0 <= j < fields.len() ==> #[trigger] fields[j]@ == split_tabs(trimmed@)[j],
        decreases fields.len() - i,
    {
        let ghost before = headers@;
        let h = string_of(&fields[i]);
        headers.push(h);
        assert(texts(headers@) =~= texts(before).push(h@));
        i = i + 1;
    }
    assert(texts(headers@) =~= header_fields(line@));
    proof {
        reveal_strlit("base_pair_location");
        reveal_strlit("effect_allele");
        reveal_strlit("beta");
        reveal_strlit("p_value");
        assert("base_pair_location"@ =~= position_name());
        assert("effect_allele"@ =~= effect_allele_name());
        assert("beta"@ =~= beta_name());
        assert("p_value"@ =~= p_value_name());
    }
    let position = match find_column(&headers, "base_pair_location") {
        Ok(k) => k,
        Err(e) => {
            return Err(e);
        },
    };
    let effect_allele = match find_column(&headers, "effect_allele") {
        Ok(k) => k,
        Err(e) => {
            return Err(e);
        },
    };
    let beta = match find_column(&headers, "beta") {
        Ok(k) => k,
        Err(e) => {
            return Err(e);
        },
    };
    let p_value = match find_column(&headers, "p_value") {
        Ok(k) => k,
        Err(e) => {
            return Err(e);
        },
    };
    Ok(GwasColumns { position, effect_allele, beta, p_value })
}

/// Reads one data row under the columns `c`; `None` where the row is skipped.
pub fn parse_gwas_row(line: &str, c: &GwasColumns) -> (r: Option<GwasRow>)
    ensures
        match r {
            Some(row) => gwas_row(line@, *c) == Some(row@),
            None => gwas_row(line@, *c) is None,
        },
{
    let chars = chars_of(line);
    let whole = trim_chars(&chars);
    if whole.len() == 0 {
        return None;
    }
    let f = split_tab_fields(&chars);
    if f.len() <= c.position || f.len() <= c.effect_allele || f.len() <= c.beta || f.len()
        <= c.p_value {
        return None;
    }
    let position = match parse_u64_chars(&trim_chars(&f[c.position])) {
        Some(v) => v,
        None => {
            return None;
        },
    };
    let allele = upper_chars(&trim_chars(&f[c.effect_allele]));
    if allele.len() == 0 {
        return None;
    }
    let p_value = trim_chars(&f[c.p_value]);
    let beta = trim_chars(&f[c.beta]);
    Some(
        GwasRow {
            position,
            effect_allele: string_of(&allele),
            p_value: string_of(&p_value),
            beta: string_of(&beta),
        },
    )
}

/// Reads a whole summary table, given as its lines: the header, then the
/// rows that are kept, in their order.
pub fn parse_gwas(lines: &Vec<String>) -> (r: Result<Vec<GwasRow>, FormatError>)
    ensures
        table_ok(texts(lines@), r),
{
    if lines.len() == 0 {
        return Err(FormatError::MissingHeader);
    }
    let c = match parse_gwas_header(lines[0].as_str()) {
        Ok(c) => c,
        Err(e) => {
            return Err(e);
        },
    };
    let ghost body = texts(lines@).drop_first();
    let mut rows: Vec<GwasRow> = Vec::new();
    let mut i: usize = 1;
    while i < lines.len()
        invariant
            1 <= i <= lines.len(),
            body == texts(lines@).drop_first(),
            rows_view(rows@) == gwas_rows(body.subrange(0, i - 1), c),
        decreases lines.len() - i,
    {
        let ghost before = rows@;
        assert(body.subrange(0, i as int).drop_last() =~= body.subrange(0, i - 1));
        assert(body.subrange(0, i as int).last() == lines@[i as int]@);
        match parse_gwas_row(lines[i].as_str(), &c) {
            Some(row) => {
                rows.push(row);
                assert(rows_view(rows@) =~= rows_view(before).push(row@));
            },
            None => {},
        }
        i = i + 1;
    }
    assert(body.subrange(0, i - 1) =~= body);
    Ok(rows)
}

} // verus!
