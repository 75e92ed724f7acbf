//! Joining association records with genotype calls: effect-allele dosage
//! per record and the number of shared positions.
use vstd::prelude::*;
use std::collections::HashSet;
use crate::genome::GenomeMap;
use crate::text::chars_of;

verus! {

broadcast use vstd::std_specs::hash::group_hash_axioms;

/// One significant association: a position, its effect allele and the
/// per-allele effect size `beta`, which this library carries without reading.
#[derive(Debug)]
pub struct GwasRecord<W> {
    pub position: u64,
    pub effect_allele: String,
    pub beta: W,
}

/// How many characters of `s` equal `c`.
pub open spec fn count_char(s: Seq<char>, c: char) -> nat
    decreases s.len(),
{
    if s.len() == 0 {
        0
    } else {
        count_char(s.drop_last(), c) + if s.last() == c {
            1nat
        } else {
            0nat
        }
    }
}

/// Copies of a one-character effect allele in a genotype; an allele of any
/// other length has none.
pub open spec fn dosage(genotype: Seq<char>, allele: Seq<char>) -> nat {
    if allele.len() == 1 {
        count_char(genotype, allele[0])
    } else {
        0
    }
}

/// The dosage a record at `position` with `allele` receives from the calls
/// `g`, or `None` where `g` has no call there.
pub open spec fn dosage_at(g: Map<u64, Seq<char>>, position: u64, allele: Seq<char>) -> Option<
    u32,
> {
    if g.contains_key(position) {
        Some(dosage(g[position], allele) as u32)
    } else {
        None
    }
}

/// The dosage of each record, in the order of the records.
pub open spec fn dosages_of<W>(g: Map<u64, Seq<char>>, recs: Seq<GwasRecord<W>>) -> Seq<
    Option<u32>,
> {
    recs.map_values(|r: GwasRecord<W>| dosage_at(g, r.position, r.effect_allele@))
}

/// The distinct positions of the records.
pub open spec fn positions_of<W>(recs: Seq<GwasRecord<W>>) -> Set<u64> {
    recs.map_values(|r: GwasRecord<W>| r.position).to_set()
}

/// The number of positions with a call that some record also names.
pub open spec fn overlap_of(g: Map<u64, Seq<char>>, positions: Set<u64>) -> nat {
    g.dom().intersect(positions).len()
}

/// The number of characters of `genotype` equal to `effect_allele`, when
/// that allele is exactly one character; zero otherwise.
#[verifier::truncate]
pub fn count_effect_allele(genotype: &str, effect_allele: &str) -> (r: u32)
    ensures
        r == dosage(genotype@, effect_allele@) as u32,
{
    let a = chars_of(effect_allele);
    if a.len() != 1 {
        return 0;
    }
    let c = a[0];
    let g = chars_of(genotype);
    let mut n: usize = 0;
    let mut i: usize = 0;
    while i < g.len()
        invariant
            i <= g.len(),
            n <= i,
            n == count_char(g@.subrange(0, i as int), c),
        decreases g.len() - i,
    {
        assert(g@.subrange(0, i + 1).drop_last() =~= g@.subrange(0, i as int));
        if g[i] == c {
            n = n + 1;
        }
        i = i + 1;
    }
    assert(g@.subrange(0, i as int) =~= g@);
    n as u32
}

/// The dosage of each record from the calls of `genome`, `None` for a
/// record whose position has no call.
pub fn record_dosages<W>(genome: &GenomeMap, records: &Vec<GwasRecord<W>>) -> (r: Vec<Option<u32>>)
    ensures
        r@ == dosages_of(genome@, records@),
{
    let mut r: Vec<Option<u32>> = Vec::new();
    let mut i: usize = 0;
    while i < records.len()
        invariant
            i <= records.len(),
            r@ =~= dosages_of(genome@, records@.subrange(0, i as int)),
        decreases records.len() - i,
    {
        let rec = &records[i];
        let d = match genome.get(rec.position) {
            Some(g) => Some(count_effect_allele(g.as_str(), rec.effect_allele.as_str())),
            None => None,
        };
        r.push(d);
        i = i + 1;
    }
    assert(records@.subrange(0, i as int) =~= records@);
    r
}

/// The number of positions of `genome` that some record names.
pub fn overlap_count<W>(genome: &GenomeMap, records: &Vec<GwasRecord<W>>) -> (r: usize)
    ensures
        r == overlap_of(genome@, positions_of(records@)),
{
    let mut seen: HashSet<u64> = HashSet::new();
    let mut n: usize = 0;
    let mut i: usize = 0;
    assert(genome@.dom().intersect(seen@) =~= Set::<u64>::empty());
    assert(records@.subrange(0, 0).map_values(|r: GwasRecord<W>| r.position).to_set()
        =~= Set::<u64>::empty());
    while i < records.len()
        invariant
            i <= records.len(),
            n <= i,
            seen@ == positions_of(records@.subrange(0, i as int)),
            n == overlap_of(genome@, seen@),
        decreases records.len() - i,
    {
        let p = records[i].position;
        let ghost pre = records@.subrange(0, i as int).map_values(
            |r: GwasRecord<W>| r.position,
        );
        assert(records@.subrange(0, i + 1).map_values(|r: GwasRecord<W>| r.position) =~= pre
            + seq![p]);
        proof {
            Seq::<u64>::lemma_to_set_insert_commutes(pre, p);
            vstd::seq_lib::seq_to_set_is_finite(pre);
        }
        if !seen.contains(&p) {
            let ghost before = seen@;
            seen.insert(p);
            if genome.contains(p) {
                assert(genome@.dom().intersect(seen@) =~= genome@.dom().intersect(before).insert(
                    p,
                ));
                n = n + 1;
            } else {
                assert(genome@.dom().intersect(seen@) =~= genome@.dom().intersect(before));
            }
        } else {
            assert(seen@.insert(p) =~= seen@);
        }
        i = i + 1;
    }
    assert(records@.subrange(0, i as int) =~= records@);
    n
}

} // verus!
