//! Polygenic risk scoring: reading an association-study summary table and a
//! genotype table, and joining them on genomic position to obtain each
//! variant's effect-allele dosage and the number of shared positions.
pub mod columns;
pub mod genome;
pub mod gwas;
pub mod laws;
pub mod score;
pub mod text;
