pub mod digraph;
pub mod dna;
pub mod fasta;
pub mod protein;
pub mod rna;
pub mod text;
