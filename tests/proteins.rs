use rosalind::utils::dna::Dna;
use rosalind::utils::protein::{AminoAcid, Protein, ProteinMotif};
use rosalind::utils::rna::Rna;
use std::convert::TryFrom;

#[test]
fn rna_translation_of_sample() {
    let rna = Rna::parse("AUGGCCAUGGCGCCCAGAACUGAGAUCAAUAGUACCCGUAUUAACGGGUGA").unwrap();
    assert_eq!(Protein::from_rna(&rna).to_text(), "MAMAPRTEINSTRING");
}

#[test]
fn rna_translation_never_shows_a_stop() {
    for text in ["", "UA", "UAA", "UAAUAG", "AUGUGAGCC", "GCCGC"] {
        let rna = Rna::parse(text).unwrap();
        let protein = Protein::from_rna(&rna);
        assert_eq!(protein.residues().last(), Some(&AminoAcid::Stop));
        let shown = protein.to_text();
        assert!(shown.chars().all(|c| c.is_ascii_uppercase()));
    }
    let rna = Rna::parse("AUGUGAGCC").unwrap();
    assert_eq!(Protein::from_rna(&rna).to_text(), "MA");
    assert_eq!(Protein::from_rna(&rna).residues(), [AminoAcid::M, AminoAcid::Stop, AminoAcid::A, AminoAcid::Stop]);
}

#[test]
fn dna_reading_frame_stops_at_first_stop() {
    let dna = Dna::parse("ATGGCCTAAGGGTAG").unwrap();
    let protein = Protein::from_dna(&dna).unwrap();
    assert_eq!(protein.to_text(), "MA");
    assert_eq!(protein.residues(), [AminoAcid::M, AminoAcid::A, AminoAcid::Stop]);
}

#[test]
fn dna_reading_frame_without_stop_fails() {
    let dna = Dna::parse("ATGGCCGCC").unwrap();
    assert_eq!(Protein::from_dna(&dna).map(|p| p.to_text()), Err("No start or stop codon".to_string()));
}

#[test]
fn dna_reading_frame_without_start_fails() {
    let dna = Dna::parse("TAAGCCTGA").unwrap();
    assert_eq!(Protein::from_dna(&dna).map(|p| p.to_text()), Err("No start or stop codon".to_string()));
}

#[test]
fn protein_text_parses_in_either_case() {
    let protein = Protein::parse("mA").unwrap();
    assert_eq!(protein.residues(), [AminoAcid::M, AminoAcid::A, AminoAcid::Stop]);
    assert_eq!(protein.calculate_potential_mrna_count(1_000_000), 12);
    assert_eq!(protein.calculate_potential_mrna_count(5), 2);
}

#[test]
fn invalid_protein_text_fails() {
    assert_eq!(Protein::parse("MAB").map(|p| p.to_text()), Err("Invalid amino acid char: b".to_string()));
}

#[test]
fn motif_locations_overlap() {
    let motif = ProteinMotif::new("N{P}[ST]{P}");
    assert_eq!(motif.len(), 4);
    let protein = Protein::parse("NNSSANPSANASNGT").unwrap();
    assert_eq!(protein.find_motif_locations(&motif), vec![1, 2, 10]);
}

#[test]
fn motif_skips_unknown_characters() {
    let motif = ProteinMotif::new("A-x[CD]");
    assert_eq!(motif.len(), 2);
    let protein = Protein::parse("ACADAE").unwrap();
    assert_eq!(protein.find_motif_locations(&motif), vec![1, 3]);
}

#[test]
fn empty_motif_matches_nowhere() {
    let motif = ProteinMotif::new("");
    let protein = Protein::parse("AC").unwrap();
    assert_eq!(protein.find_motif_locations(&motif), Vec::<usize>::new());
}

#[test]
fn motif_windows_end_before_the_stop() {
    let motif = ProteinMotif::new("N{P}[ST]{P}");
    let protein = Protein::parse("NAS").unwrap();
    assert_eq!(protein.find_motif_locations(&motif), Vec::<usize>::new());
    let protein = Protein::parse("NASA").unwrap();
    assert_eq!(protein.find_motif_locations(&motif), vec![1]);
}

#[test]
fn conversions_forward_to_the_library_functions() {
    let protein = Protein::try_from("ma").unwrap();
    assert_eq!(protein.to_text(), "MA");
    let protein = Protein::try_from(String::from("MK")).unwrap();
    assert_eq!(protein.to_text(), "MK");
    assert!(Protein::try_from("MZ").is_err());
    let dna = Dna::parse("ATGTTTTGA").unwrap();
    assert_eq!(Protein::try_from(&dna).unwrap().to_text(), "MF");
    let rna = Rna::from(&dna);
    assert_eq!(rna.to_text(), "AUGUUUUGA");
    assert_eq!(Protein::from(rna).to_text(), "MF");
    assert_eq!(Rna::from(dna).to_text(), "AUGUUUUGA");
}

#[test]
fn short_rna_translates_to_stop_alone() {
    let rna = Rna::parse("AU").unwrap();
    let protein = Protein::from_rna(&rna);
    assert_eq!(protein.residues(), [AminoAcid::Stop]);
    assert_eq!(protein.to_text(), "");
}
