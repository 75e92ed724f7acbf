use polygenic_score::genome::{parse_genome, parse_genome_line, GenomeMap};

fn lines(v: &[&str]) -> Vec<String> {
    v.iter().map(|s| s.to_string()).collect()
}

#[test]
fn genome_line_fields() {
    assert_eq!(parse_genome_line("chr1\t100\t101\t ag "), Some((100, "AG".to_string())));
    assert_eq!(parse_genome_line("chr1\t 42 \t43\tcc\textra"), Some((42, "CC".to_string())));
}

#[test]
fn genome_skipped_lines() {
    assert_eq!(parse_genome_line(""), None);
    assert_eq!(parse_genome_line("   "), None);
    assert_eq!(parse_genome_line("#chr1\t100\t101\tAA"), None);
    assert_eq!(parse_genome_line("chr1\t100\t101"), None);
    assert_eq!(parse_genome_line("chr1\tx\t101\tAA"), None);
    assert_eq!(parse_genome_line("chr1\t-1\t101\tAA"), None);
}

#[test]
fn genome_comment_only_at_line_start() {
    assert_eq!(parse_genome_line(" #x\t9\t10\tgt"), Some((9, "GT".to_string())));
}

#[test]
fn genome_last_occurrence_wins() {
    let g = parse_genome(&lines(&[
        "chr1\t100\t101\tAA",
        "chr1\t200\t201\tCC",
        "chr1\t100\t101\tgg",
    ]));
    assert_eq!(g.len(), 2);
    assert_eq!(g.get(100).unwrap(), "GG");
    assert_eq!(g.get(200).unwrap(), "CC");
    assert!(g.get(300).is_none());
}

#[test]
fn genome_size_bounded_by_parsed_rows() {
    let g = parse_genome(&lines(&[
        "# header",
        "chr1\t1\t2\tAA",
        "short\t2",
        "chr1\tbad\t2\tAA",
        "chr1\t1\t2\tAT",
        "",
    ]));
    assert_eq!(g.len(), 1);
    assert!(g.contains(1));
    assert!(!g.contains(2));
}

#[test]
fn genome_map_insert_replaces() {
    let mut g = GenomeMap::new();
    assert_eq!(g.len(), 0);
    g.insert(5, "AC".to_string());
    g.insert(5, "TT".to_string());
    assert_eq!(g.len(), 1);
    assert_eq!(g.get(5).unwrap(), "TT");
}
