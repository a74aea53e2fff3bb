use rosalind::utils::dna::{Dna, DnaBase};
use rosalind::utils::rna::{Rna, RnaBase};
use std::convert::TryFrom;

#[test]
fn dna_try_from_str_with_valid_characters_passes() {
    let string = "acgt";
    let dna = Dna::try_from(string);
    assert_eq!(dna, Ok(Dna::from(vec![DnaBase::A, DnaBase::C, DnaBase::G, DnaBase::T])))
}

#[test]
fn dna_try_from_string_with_valid_characters_passes() {
    let string = String::from("acgt");
    let dna = Dna::try_from(string);
    assert_eq!(dna, Ok(Dna::from(vec![DnaBase::A, DnaBase::C, DnaBase::G, DnaBase::T])))
}

#[test]
fn dna_try_from_str_with_invalid_characters_fails() {
    let string = "acdt";
    let dna = Dna::try_from(string);
    assert_eq!(dna, Err("Failed to convert d to dna base".into()))
}

#[test]
fn dna_try_from_string_with_invalid_characters_fails() {
    let string = String::from("acdt");
    let dna = Dna::try_from(string);
    assert_eq!(dna, Err("Failed to convert d to dna base".into()))
}

#[test]
fn get_prefix_length_3() {
    let string = String::from("aaataaa");
    let dna = Dna::try_from(string).unwrap();
    assert_eq!(dna.prefix(3).unwrap(), [DnaBase::A, DnaBase::A, DnaBase::A])
}

#[test]
fn get_suffix_length_3() {
    let string = String::from("aaataaa");
    let dna = Dna::try_from(string).unwrap();
    assert_eq!(dna.suffix(3).unwrap(), [DnaBase::A, DnaBase::A, DnaBase::A])
}

#[test]
fn rna_try_from_str_with_valid_characters_passes() {
    let string = "acgu";
    let rna = Rna::try_from(string);
    assert_eq!(rna, Ok(Rna::new(vec![RnaBase::A, RnaBase::C, RnaBase::G, RnaBase::U])))
}

#[test]
fn rna_try_from_string_with_valid_characters_passes() {
    let string = String::from("acgu");
    let rna = Rna::try_from(string);
    assert_eq!(rna, Ok(Rna::new(vec![RnaBase::A, RnaBase::C, RnaBase::G, RnaBase::U])))
}

#[test]
fn rna_try_from_str_with_invalid_characters_fails() {
    let string = "acdt";
    let rna = Rna::try_from(string);
    assert_eq!(rna, Err("Failed to convert d to rna base".into()))
}

#[test]
fn rna_try_from_string_with_invalid_characters_fails() {
    let string = String::from("acdt");
    let rna = Rna::try_from(string);
    assert_eq!(rna, Err("Failed to convert d to rna base".into()))
}

#[test]
fn upper_case_invalid_symbol_is_reported_in_lower_case() {
    assert_eq!(Dna::parse("ACXT"), Err("Failed to convert x to dna base".to_string()));
}

#[test]
fn reverse_complement_of_sample() {
    let mut dna = Dna::parse("AAAACCCGGT").unwrap();
    dna.reverse_complement();
    assert_eq!(dna.to_text(), "ACCGGGTTTT");
}

#[test]
fn reverse_complement_twice_gives_back_the_sequence() {
    let start = Dna::parse("gattacaCCGTTA").unwrap();
    let mut dna = start.duplicate();
    dna.reverse_complement();
    assert_eq!(dna.to_text(), "TAACGGTGTAATC");
    dna.reverse_complement();
    assert_eq!(dna, start);
}

#[test]
fn hamming_distance_of_sample() {
    let a = Dna::parse("GAGCCTACTAACGGGAT").unwrap();
    let b = Dna::parse("CATCGTAATGACGGCCT").unwrap();
    assert_eq!(a.hamming_distance(&b), Ok(7));
}

#[test]
fn hamming_distance_is_symmetric_and_zero_to_itself() {
    let a = Dna::parse("GAGCCTACTAACGGGAT").unwrap();
    let b = Dna::parse("CATCGTAATGACGGCCT").unwrap();
    assert_eq!(a.hamming_distance(&b), b.hamming_distance(&a));
    assert_eq!(a.hamming_distance(&a), Ok(0));
}

#[test]
fn hamming_distance_of_unequal_lengths_fails() {
    let a = Dna::parse("ACGT").unwrap();
    let b = Dna::parse("ACG").unwrap();
    assert_eq!(a.hamming_distance(&b), Err("Sequences not of equal length".to_string()));
}

#[test]
fn substring_locations_skip_the_last_start() {
    let s = Dna::parse("GATATATGCATATACTT").unwrap();
    let p = Dna::parse("ATAT").unwrap();
    assert_eq!(s.substring_locations(&p), vec![2, 4, 10]);
    let s = Dna::parse("ACGT").unwrap();
    let p = Dna::parse("GT").unwrap();
    assert_eq!(s.substring_locations(&p), Vec::<usize>::new());
}

#[test]
fn substring_longer_than_sequence_is_found_nowhere() {
    let s = Dna::parse("AC").unwrap();
    let p = Dna::parse("ACGT").unwrap();
    assert_eq!(s.substring_locations(&p), Vec::<usize>::new());
}

#[test]
fn chunks_drop_the_incomplete_group() {
    let dna = Dna::parse("ACGTACGT").unwrap();
    let chunks = dna.chunks_exact(3);
    assert_eq!(chunks, vec![vec![DnaBase::A, DnaBase::C, DnaBase::G], vec![DnaBase::T, DnaBase::A, DnaBase::C]]);
    let rna = Rna::parse("ACGUA").unwrap();
    assert_eq!(rna.chunks_exact(2).len(), 2);
}

#[test]
fn introns_are_located_and_removed() {
    let mut dna = Dna::parse("AACCGGTTAACC").unwrap();
    let i1 = Dna::parse("CC").unwrap();
    let i2 = Dna::parse("GGT").unwrap();
    let locations = dna.get_intron_locations(&[&i1, &i2]);
    assert_eq!(locations, vec![(2, 4), (4, 7), (10, 12)]);
    dna.remove_introns_join_exons(&locations);
    assert_eq!(dna.to_text(), "AATAA");
}

#[test]
fn overlapping_ranges_remove_their_union() {
    let mut dna = Dna::parse("ACGTACGT").unwrap();
    dna.remove_introns_join_exons(&[(1, 4), (2, 6)]);
    assert_eq!(dna.to_text(), "AGT");
}

#[test]
fn transcription_replaces_thymine() {
    let dna = Dna::parse("GATGGAACTTGACTACGTAAATT").unwrap();
    assert_eq!(Rna::from_dna(&dna).to_text(), "GAUGGAACUUGACUACGUAAAUU");
    assert_eq!(dna.count(DnaBase::T), 7);
    assert_eq!(dna.gc_count(), 8);
}

#[test]
fn prefix_and_suffix_longer_than_sequence_are_none() {
    let dna = Dna::parse("ACG").unwrap();
    assert_eq!(dna.prefix(4), None);
    assert_eq!(dna.suffix(4), None);
    assert_eq!(dna.prefix(3).unwrap(), [DnaBase::A, DnaBase::C, DnaBase::G]);
    assert_eq!(dna.suffix(1).unwrap(), [DnaBase::G]);
}
