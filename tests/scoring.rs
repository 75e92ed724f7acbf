use polygenic_score::genome::{parse_genome, GenomeMap};
use polygenic_score::gwas::parse_gwas;
use polygenic_score::score::{count_effect_allele, overlap_count, record_dosages, GwasRecord};

fn record(position: u64, allele: &str, beta: f64) -> GwasRecord<f64> {
    GwasRecord { position, effect_allele: allele.to_string(), beta }
}

fn genome(calls: &[(u64, &str)]) -> GenomeMap {
    let mut g = GenomeMap::new();
    for (p, c) in calls {
        g.insert(*p, c.to_string());
    }
    g
}

fn score(g: &GenomeMap, records: &Vec<GwasRecord<f64>>) -> (f64, usize) {
    let mut total = 0.0;
    for (r, d) in records.iter().zip(record_dosages(g, records)) {
        if let Some(d) = d {
            total += (d as f64) * r.beta;
        }
    }
    (total, overlap_count(g, records))
}

#[test]
fn count_single_allele() {
    assert_eq!(count_effect_allele("AA", "A"), 2);
    assert_eq!(count_effect_allele("AG", "A"), 1);
    assert_eq!(count_effect_allele("GG", "A"), 0);
    assert_eq!(count_effect_allele("", "A"), 0);
}

#[test]
fn count_needs_one_character_allele() {
    assert_eq!(count_effect_allele("AA", ""), 0);
    assert_eq!(count_effect_allele("AGAG", "AG"), 0);
    assert_eq!(count_effect_allele("AA", "AA"), 0);
}

#[test]
fn count_compares_exact_characters() {
    assert_eq!(count_effect_allele("aa", "A"), 0);
    assert_eq!(count_effect_allele("éé", "é"), 2);
}

#[test]
fn scenario_homozygous_effect() {
    let g = genome(&[(100, "AA")]);
    let recs = vec![record(100, "A", 2.0)];
    assert_eq!(record_dosages(&g, &recs), vec![Some(2)]);
    assert_eq!(score(&g, &recs), (4.0, 1));
}

#[test]
fn scenario_heterozygous_negative_beta() {
    let g = genome(&[(100, "AG")]);
    let recs = vec![record(100, "A", -1.5)];
    assert_eq!(score(&g, &recs), (-1.5, 1));
}

#[test]
fn scenario_no_overlap() {
    let g = genome(&[(200, "GG")]);
    let recs = vec![record(100, "A", 3.0)];
    assert_eq!(record_dosages(&g, &recs), vec![None]);
    assert_eq!(score(&g, &recs), (0.0, 0));
}

#[test]
fn empty_inputs_score_nothing() {
    let empty = GenomeMap::new();
    let recs = vec![record(1, "A", 1.0), record(2, "C", 2.0)];
    assert_eq!(record_dosages(&empty, &recs), vec![None, None]);
    assert_eq!(score(&empty, &recs), (0.0, 0));
    let g = genome(&[(1, "AA")]);
    let none: Vec<GwasRecord<f64>> = Vec::new();
    assert_eq!(record_dosages(&g, &none), Vec::<Option<u32>>::new());
    assert_eq!(score(&g, &none), (0.0, 0));
}

#[test]
fn overlap_counts_genome_positions_once() {
    let g = genome(&[(100, "AG"), (200, "CC"), (300, "TT")]);
    let recs = vec![record(100, "A", 1.0), record(100, "G", 2.0), record(300, "T", 0.5), record(400, "A", 9.0)];
    assert_eq!(record_dosages(&g, &recs), vec![Some(1), Some(1), Some(2), None]);
    assert_eq!(score(&g, &recs), (4.0, 2));
}

#[test]
fn multi_character_allele_contributes_zero() {
    let g = genome(&[(7, "AG")]);
    let recs = vec![record(7, "AG", 5.0)];
    assert_eq!(record_dosages(&g, &recs), vec![Some(0)]);
    assert_eq!(score(&g, &recs), (0.0, 1));
}

#[test]
fn parsed_tables_match_regardless_of_case() {
    let g = parse_genome(&vec!["chr1\t100\t101\tag".to_string()]);
    let rows = parse_gwas(&vec![
        "base_pair_location\teffect_allele\tbeta\tp_value".to_string(),
        "100\ta\t2.0\t0.001".to_string(),
    ])
    .unwrap();
    let recs: Vec<GwasRecord<f64>> = rows
        .into_iter()
        .map(|r| GwasRecord { position: r.position, effect_allele: r.effect_allele, beta: r.beta.parse().unwrap() })
        .collect();
    assert_eq!(record_dosages(&g, &recs), vec![Some(1)]);
    assert_eq!(score(&g, &recs), (2.0, 1));
}
