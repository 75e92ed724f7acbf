//! An individual's genotype calls, keyed by position, read from a BED-like
//! table without a header.
use vstd::prelude::*;
use std::collections::HashMap;
use crate::columns::texts;
use crate::text::{
    chars_of, parse_u64_chars, parse_u64_spec, split_tab_fields, split_tabs, string_of, trim,
    trim_chars, upper, upper_chars,
};

verus! {

broadcast use vstd::std_specs::hash::group_hash_axioms;

/// Genotype calls by position: at most one call per position.
#[derive(Debug)]
pub struct GenomeMap {
    pub calls: HashMap<u64, String>,
}

impl View for GenomeMap {
    type V = Map<u64, Seq<char>>;

    open spec fn view(&self) -> Map<u64, Seq<char>> {
        self.calls@.map_values(|g: String| g@)
    }
}

impl GenomeMap {
    /// A map without calls.
    pub fn new() -> (r: GenomeMap)
        ensures
            r@ == Map::<u64, Seq<char>>::empty(),
    {
        let r = GenomeMap { calls: HashMap::new() };
        assert(r@ =~= Map::<u64, Seq<char>>::empty());
        r
    }

    /// Records `genotype` at `position`, replacing any earlier call there.
    pub fn insert(&mut self, position: u64, genotype: String)
        ensures
            final(self)@ == old(self)@.insert(position, genotype@),
    {
        let ghost g = genotype@;
        self.calls.insert(position, genotype);
        assert(self@ =~= old(self)@.insert(position, g));
    }

    /// The call at `position`, if there is one.
    pub fn get(&self, position: u64) -> (r: Option<&String>)
        ensures
            match r {
                Some(g) => self@.contains_key(position) && self@[position] == g@,
                None => !self@.contains_key(position),
            },
    {
        self.calls.get(&position)
    }

    /// Whether there is a call at `position`.
    pub fn contains(&self, position: u64) -> (r: bool)
        ensures
            r == self@.contains_key(position),
    {
        self.calls.contains_key(&position)
    }

    /// The number of positions with a call.
    pub fn len(&self) -> (r: usize)
        ensures
            r == self@.len(),
    {
        assert(self@.dom() =~= self.calls@.dom());
        self.calls.len()
    }
}

/// What one line of the genome table yields: nothing for a blank line, a
/// comment line (one that starts with `#`), a row of fewer than four fields
/// or a start that is not an unsigned integer; else the start (second field)
/// and the trimmed, upper-cased genotype (fourth field).
pub open spec fn genome_entry(line: Seq<char>) -> Option<(u64, Seq<char>)> {
    let f = split_tabs(line);
    if trim(line).len() == 0 || (line.len() > 0 && line[0] == '#') {
        None
    } else if f.len() < 4 {
        None
    } else {
        match parse_u64_spec(trim(f[1])) {
            None => None,
            Some(p) => Some((p, upper(trim(f[3])))),
        }
    }
}

/// The calls of a whole table: each entry in turn, a later one at the same
/// position replacing an earlier one.
pub open spec fn genome_of(lines: Seq<Seq<char>>) -> Map<u64, Seq<char>>
    decreases lines.len(),
{
    if lines.len() == 0 {
        Map::empty()
    } else {
        let m = genome_of(lines.drop_last());
        match genome_entry(lines.last()) {
            Some(e) => m.insert(e.0, e.1),
            None => m,
        }
    }
}

/// Reads one line of the genome table; `None` where the line is skipped.
pub fn parse_genome_line(line: &str) -> (r: Option<(u64, String)>)
    ensures
        match r {
            Some(e) => genome_entry(line@) == Some((e.0, e.1@)),
            None => genome_entry(line@) is None,
        },
{
    let chars = chars_of(line);
    let whole = trim_chars(&chars);
    if whole.len() == 0 || (chars.len() > 0 && chars[0] == '#') {
        return None;
    }
    let f = split_tab_fields(&chars);
    if f.len() < 4 {
        return None;
    }
    let start = match parse_u64_chars(&trim_chars(&f[1])) {
        Some(v) => v,
        None => {
            return None;
        },
    };
    let genotype = upper_chars(&trim_chars(&f[3]));
    Some((start, string_of(&genotype)))
}

/// Reads a whole genome table, given as its lines.
pub fn parse_genome(lines: &Vec<String>) -> (r: GenomeMap)
    ensures
        r@ == genome_of(texts(lines@)),
{
    let mut genome = GenomeMap::new();
    let mut i: usize = 0;
    while i < lines.len()
        invariant
            i <= lines.len(),
            genome@ == genome_of(texts(lines@).subrange(0, i as int)),
        decreases lines.len() - i,
    {
        assert(texts(lines@).subrange(0, i + 1).drop_last() =~= texts(lines@).subrange(
            0,
            i as int,
        ));
        assert(texts(lines@).subrange(0, i + 1).last() == lines@[i as int]@);
        match parse_genome_line(lines[i].as_str()) {
            Some((start, genotype)) => genome.insert(start, genotype),
            None => {},
        }
        i = i + 1;
    }
    assert(texts(lines@).subrange(0, i as int) =~= texts(lines@));
    genome
}

} // verus!
