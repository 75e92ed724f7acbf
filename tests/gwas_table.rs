use polygenic_score::columns::{find_column, FormatError};
use polygenic_score::gwas::{parse_gwas, parse_gwas_header, parse_gwas_row, GwasColumns, GwasRow};

fn lines(v: &[&str]) -> Vec<String> {
    v.iter().map(|s| s.to_string()).collect()
}

const HEADER: &str = "base_pair_location\teffect_allele\tbeta\tp_value";

fn columns() -> GwasColumns {
    GwasColumns { position: 0, effect_allele: 1, beta: 2, p_value: 3 }
}

fn row(r: &GwasRow) -> (u64, &str, &str, &str) {
    (r.position, r.effect_allele.as_str(), r.p_value.as_str(), r.beta.as_str())
}

#[test]
fn header_missing_p_value_is_format_error() {
    let t = lines(&["base_pair_location\teffect_allele\tbeta", "100\tA\t2.0"]);
    match parse_gwas(&t) {
        Err(FormatError::MissingColumn(n)) => assert_eq!(n, "p_value"),
        other => panic!("unexpected {:?}", other),
    }
}

#[test]
fn empty_table_has_no_header() {
    assert!(matches!(parse_gwas(&Vec::new()), Err(FormatError::MissingHeader)));
}

#[test]
fn first_missing_column_is_named() {
    match parse_gwas_header("beta\tp_value") {
        Err(FormatError::MissingColumn(n)) => assert_eq!(n, "base_pair_location"),
        other => panic!("unexpected {:?}", other),
    }
    match parse_gwas_header("base_pair_location\tp_value") {
        Err(FormatError::MissingColumn(n)) => assert_eq!(n, "effect_allele"),
        other => panic!("unexpected {:?}", other),
    }
}

#[test]
fn header_columns_any_order_and_case() {
    let c = parse_gwas_header("P_VALUE\tBeta\tsnp\tEffect_Allele\tBase_Pair_Location").unwrap();
    assert_eq!(c, GwasColumns { position: 4, effect_allele: 3, beta: 1, p_value: 0 });
}

#[test]
fn header_trailing_whitespace_is_ignored() {
    let c = parse_gwas_header("base_pair_location\teffect_allele\tbeta\tp_value \r").unwrap();
    assert_eq!(c, columns());
}

#[test]
fn find_column_takes_first_match() {
    let h = lines(&["x", "BETA", "beta"]);
    assert_eq!(find_column(&h, "beta").unwrap(), 1);
    assert!(matches!(find_column(&h, "p_value"), Err(FormatError::MissingColumn(_))));
    assert!(matches!(find_column(&h, "bet"), Err(FormatError::MissingColumn(_))));
}

#[test]
fn row_fields_are_trimmed_and_allele_upper_cased() {
    let r = parse_gwas_row(" 100 \t a \t 2.5 \t 0.001 ", &columns()).unwrap();
    assert_eq!(row(&r), (100, "A", "0.001", "2.5"));
}

#[test]
fn skipped_rows() {
    let c = columns();
    assert!(parse_gwas_row("", &c).is_none());
    assert!(parse_gwas_row("  \t ", &c).is_none());
    assert!(parse_gwas_row("100\tA\t2.0", &c).is_none());
    assert!(parse_gwas_row("x100\tA\t2.0\t0.001", &c).is_none());
    assert!(parse_gwas_row("-100\tA\t2.0\t0.001", &c).is_none());
    assert!(parse_gwas_row("100\t \t2.0\t0.001", &c).is_none());
    assert!(parse_gwas_row("18446744073709551616\tA\t2.0\t0.001", &c).is_none());
    assert!(parse_gwas_row("+\tA\t2.0\t0.001", &c).is_none());
}

#[test]
fn position_forms() {
    let c = columns();
    assert_eq!(parse_gwas_row("+7\tA\t1\t0", &c).unwrap().position, 7);
    assert_eq!(
        parse_gwas_row("18446744073709551615\tA\t1\t0", &c).unwrap().position,
        u64::MAX
    );
    assert_eq!(parse_gwas_row("007\tA\t1\t0", &c).unwrap().position, 7);
}

#[test]
fn multi_character_allele_is_kept_at_parse_time() {
    let r = parse_gwas_row("5\tag\t1\t0.01", &columns()).unwrap();
    assert_eq!(r.effect_allele, "AG");
}

#[test]
fn rows_keep_input_order() {
    let t = lines(&[
        HEADER,
        "300\tC\t1.0\t0.001",
        "bad\tC\t1.0\t0.001",
        "",
        "100\tT\t-2\t0.5",
        "200\tG\t0.5\t1e-9",
    ]);
    let rows = parse_gwas(&t).unwrap();
    let got: Vec<(u64, &str, &str, &str)> = rows.iter().map(row).collect();
    assert_eq!(
        got,
        vec![(300, "C", "0.001", "1.0"), (100, "T", "0.5", "-2"), (200, "G", "1e-9", "0.5")]
    );
}

#[test]
fn header_only_table_has_no_rows() {
    assert_eq!(parse_gwas(&lines(&[HEADER])).unwrap().len(), 0);
}
