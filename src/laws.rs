//! Facts about the parsers and the scoring that hold for all inputs.
use vstd::prelude::*;
use crate::genome::{genome_entry, genome_of};
use crate::gwas::{gwas_row, gwas_rows, GwasColumns};
use crate::score::{dosage, dosage_at, dosages_of, overlap_of, positions_of, GwasRecord};
use crate::text::{upper, upper_char};

verus! {

/// The summary rows of two runs of lines, one after the other, are the rows
/// of the first run followed by those of the second: rows are kept or
/// dropped one by one and never reordered.
pub proof fn lemma_gwas_rows_keep_order(a: Seq<Seq<char>>, b: Seq<Seq<char>>, c: GwasColumns)
    ensures
        gwas_rows(a + b, c) == gwas_rows(a, c) + gwas_rows(b, c),
    decreases b.len(),
{
    if b.len() == 0 {
        assert(a + b =~= a);
        assert(gwas_rows(a, c) + gwas_rows(b, c) =~= gwas_rows(a, c));
    } else {
        assert((a + b).drop_last() =~= a + b.drop_last());
        assert((a + b).last() == b.last());
        lemma_gwas_rows_keep_order(a, b.drop_last(), c);
        match gwas_row(b.last(), c) {
            Some(r) => {
                assert(gwas_rows(a, c) + gwas_rows(b, c) =~= (gwas_rows(a, c) + gwas_rows(
                    b.drop_last(),
                    c,
                )).push(r));
            },
            None => {},
        }
    }
}

/// How many lines of the genome table yield an entry.
pub open spec fn entry_count(lines: Seq<Seq<char>>) -> nat
    decreases lines.len(),
{
    if lines.len() == 0 {
        0
    } else {
        entry_count(lines.drop_last()) + if genome_entry(lines.last()) is Some {
            1nat
        } else {
            0nat
        }
    }
}

/// The genome map is finite and holds no more positions than there are
/// lines that yield an entry.
pub proof fn lemma_genome_size_bounded(lines: Seq<Seq<char>>)
    ensures
        genome_of(lines).dom().finite(),
        genome_of(lines).len() <= entry_count(lines),
    decreases lines.len(),
{
    if lines.len() > 0 {
        lemma_genome_size_bounded(lines.drop_last());
        let m = genome_of(lines.drop_last());
        match genome_entry(lines.last()) {
            Some(e) => {
                assert(m.insert(e.0, e.1).dom() =~= m.dom().insert(e.0));
            },
            None => {},
        }
    }
}

/// Where several lines give the same position, the map holds the genotype
/// of the last of them.
pub proof fn lemma_genome_last_wins(lines: Seq<Seq<char>>, i: int, position: u64, genotype: Seq<char>)
    requires
        0 <= i < lines.len(),
        genome_entry(lines[i]) == Some((position, genotype)),
        forall|j: int|
            i < j < lines.len() ==> (#[trigger] genome_entry(lines[j]) matches Some(e) ==> e.0
                != position),
    ensures
        genome_of(lines).contains_key(position),
        genome_of(lines)[position] == genotype,
    decreases lines.len(),
{
    if i < lines.len() - 1 {
        let shorter = lines.drop_last();
        assert forall|j: int| i < j < shorter.len() implies (#[trigger] genome_entry(shorter[j]) matches Some(e) ==> e.0 != position) by {
            assert(shorter[j] == lines[j]);
        }
        lemma_genome_last_wins(shorter, i, position, genotype);
        assert(genome_entry(lines[lines.len() - 1]) matches Some(e) ==> e.0 != position);
    }
}

/// Applies the entries of `lines`, in order, to the map `m`.
pub open spec fn apply_entries(m: Map<u64, Seq<char>>, lines: Seq<Seq<char>>) -> Map<u64, Seq<char>>
    decreases lines.len(),
{
    if lines.len() == 0 {
        m
    } else {
        let prev = apply_entries(m, lines.drop_last());
        match genome_entry(lines.last()) {
            Some(e) => prev.insert(e.0, e.1),
            None => prev,
        }
    }
}

proof fn lemma_genome_of_concat(a: Seq<Seq<char>>, b: Seq<Seq<char>>)
    ensures
        genome_of(a + b) == apply_entries(genome_of(a), b),
    decreases b.len(),
{
    if b.len() == 0 {
        assert(a + b =~= a);
    } else {
        assert((a + b).drop_last() =~= a + b.drop_last());
        assert((a + b).last() == b.last());
        lemma_genome_of_concat(a, b.drop_last());
    }
}

/// Two neighbouring lines of the genome table that give different positions
/// can trade places without changing the map, and so without changing the
/// dosages or the overlap computed from it.
pub proof fn lemma_genome_swap_neighbours(
    a: Seq<Seq<char>>,
    x: Seq<char>,
    y: Seq<char>,
    b: Seq<Seq<char>>,
)
    requires
        !(genome_entry(x) matches Some(ex) && genome_entry(y) matches Some(ey) && ex.0 == ey.0),
    ensures
        genome_of(a + seq![x, y] + b) == genome_of(a + seq![y, x] + b),
{
    let p = a + seq![x, y];
    let q = a + seq![y, x];
    assert(p.drop_last().drop_last() =~= a);
    assert(q.drop_last().drop_last() =~= a);
    assert(p.drop_last().last() == x);
    assert(q.drop_last().last() == y);
    assert(p.last() == y);
    assert(q.last() == x);
    let m = genome_of(a);
    let mx = match genome_entry(x) {
        Some(e) => m.insert(e.0, e.1),
        None => m,
    };
    let my = match genome_entry(y) {
        Some(e) => m.insert(e.0, e.1),
        None => m,
    };
    assert(genome_of(p.drop_last()) == mx);
    assert(genome_of(q.drop_last()) == my);
    match (genome_entry(x), genome_entry(y)) {
        (Some(ex), Some(ey)) => {
            assert(m.insert(ex.0, ex.1).insert(ey.0, ey.1) =~= m.insert(ey.0, ey.1).insert(
                ex.0,
                ex.1,
            ));
        },
        _ => {},
    }
    assert(genome_of(p) == genome_of(q));
    lemma_genome_of_concat(p, b);
    lemma_genome_of_concat(q, b);
}

/// The dosages of two runs of records, one after the other, are those of
/// each run in turn: each record's dosage depends on that record alone.
pub proof fn lemma_dosages_concat<W>(
    g: Map<u64, Seq<char>>,
    a: Seq<GwasRecord<W>>,
    b: Seq<GwasRecord<W>>,
)
    ensures
        dosages_of(g, a + b) == dosages_of(g, a) + dosages_of(g, b),
{
    assert(dosages_of(g, a + b) =~= dosages_of(g, a) + dosages_of(g, b));
}

/// The overlap does not depend on the order of the records.
pub proof fn lemma_overlap_ignores_record_order<W>(
    g: Map<u64, Seq<char>>,
    a: Seq<GwasRecord<W>>,
    b: Seq<GwasRecord<W>>,
)
    ensures
        overlap_of(g, positions_of(a + b)) == overlap_of(g, positions_of(b + a)),
{
    let f = |r: GwasRecord<W>| r.position;
    assert((a + b).map_values(f) =~= a.map_values(f) + b.map_values(f));
    assert((b + a).map_values(f) =~= b.map_values(f) + a.map_values(f));
    assert forall|p: u64| #[trigger] positions_of(a + b).contains(p) <==> positions_of(b + a).contains(p) by {
        let sa = a.map_values(f);
        let sb = b.map_values(f);
        if (sa + sb).contains(p) {
            let k = choose|k: int| 0 <= k < (sa + sb).len() && (sa + sb)[k] == p;
            if k < sa.len() {
                assert((sb + sa)[sb.len() + k] == p);
            } else {
                assert((sb + sa)[k - sa.len()] == p);
            }
        }
        if (sb + sa).contains(p) {
            let k = choose|k: int| 0 <= k < (sb + sa).len() && (sb + sa)[k] == p;
            if k < sb.len() {
                assert((sa + sb)[sa.len() + k] == p);
            } else {
                assert((sa + sb)[k - sb.len()] == p);
            }
        }
    }
    assert(positions_of(a + b) =~= positions_of(b + a));
}

/// With no calls, no record gets a dosage and nothing overlaps; with no
/// records, there are no dosages and nothing overlaps.
pub proof fn lemma_empty_inputs<W>(g: Map<u64, Seq<char>>, recs: Seq<GwasRecord<W>>)
    ensures
        forall|i: int|
            0 <= i < recs.len() ==> #[trigger] dosages_of(Map::<u64, Seq<char>>::empty(), recs)[i]
                is None,
        overlap_of(Map::<u64, Seq<char>>::empty(), positions_of(recs)) == 0,
        dosages_of(g, Seq::<GwasRecord<W>>::empty()).len() == 0,
        overlap_of(g, positions_of(Seq::<GwasRecord<W>>::empty())) == 0,
{
    assert(Map::<u64, Seq<char>>::empty().dom().intersect(positions_of(recs)) =~= Set::empty());
    assert(positions_of(Seq::<GwasRecord<W>>::empty()) =~= Set::empty());
    assert(g.dom().intersect(Set::<u64>::empty()) =~= Set::empty());
}

/// Upper-casing twice is upper-casing once.
pub proof fn lemma_upper_idempotent(s: Seq<char>)
    ensures
        upper(upper(s)) == upper(s),
{
    assert forall|i: int| 0 <= i < s.len() implies upper_char(upper_char(s[i])) == upper_char(
        s[i],
    ) by {
        let u = s[i] as u32;
        if 97 <= u <= 122 {
            assert((((u - 32) as char) as u32) == u - 32);
        }
    }
    assert(upper(upper(s)) =~= upper(s));
}

/// Genotypes and effect alleles come out of the parsers upper-cased, so the
/// dosage a record receives is the same whatever the ASCII case of the
/// genotype and allele text in the tables.
pub proof fn lemma_dosage_ignores_case(
    genome_line: Seq<char>,
    gwas_line: Seq<char>,
    c: GwasColumns,
    g: Seq<char>,
    a: Seq<char>,
)
    requires
        genome_entry(genome_line) matches Some(e) && upper(e.1) == upper(g),
        gwas_row(gwas_line, c) matches Some(r) && upper(r.effect_allele) == upper(a),
    ensures
        (genome_entry(genome_line)->0).1 == upper(g),
        gwas_row(gwas_line, c)->0.effect_allele == upper(a),
        dosage((genome_entry(genome_line)->0).1, gwas_row(gwas_line, c)->0.effect_allele) == dosage(
            upper(g),
            upper(a),
        ),
{
    let e = genome_entry(genome_line)->0;
    let r = gwas_row(gwas_line, c)->0;
    let f = crate::text::split_tabs(genome_line);
    lemma_upper_idempotent(crate::text::trim(f[3]));
    let h = crate::text::split_tabs(gwas_line);
    lemma_upper_idempotent(crate::text::trim(h[c.effect_allele as int]));
}

/// An effect allele that is not exactly one character long adds nothing:
/// its dosage is zero wherever there is a call, whatever the genotype.
pub proof fn lemma_long_allele_scores_zero(g: Map<u64, Seq<char>>, position: u64, allele: Seq<char>)
    requires
        allele.len() != 1,
    ensures
        forall|genotype: Seq<char>| dosage(genotype, allele) == 0,
        g.contains_key(position) ==> dosage_at(g, position, allele) == Some(0u32),
{
}

} // verus!
