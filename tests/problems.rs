use rosalind::problems::{cons, dna, fib, fibd, gc, grph, hamm, iev, lia, mprt, mrna, orf, prot, revc, rna, splc, subs};
use rosalind::utils::dna::Dna;
use rosalind::utils::fasta::Fasta;
use rosalind::utils::protein::Protein;

#[test]
fn cons_test_answer() {
    assert_eq!(
        cons::solve(
            Fasta::<Dna>::parse(
                ">Rosalind_1
ATCCAGCT
>Rosalind_2
GGGCAACT
>Rosalind_3
ATGGATCT
>Rosalind_4
AAGCAACC
>Rosalind_5
TTGGAACT
>Rosalind_6
ATGCCATT
>Rosalind_7
ATGGCACT"
            )
            .unwrap()
        ),
        "ATGCAACT
A: 5 1 0 0 5 5 0 0
C: 0 0 1 4 2 0 6 1
G: 1 1 6 3 0 1 0 0
T: 1 5 0 0 0 1 1 6"
    )
}

#[test]
fn dna_test_answer() {
    assert_eq!(
        dna::solve("AGCTTTTCATTCTGACTGCAACGGGCAATATGTCTCTGTGTGGATTAAAAAAAGAGTGTCTGATAGCAGC"),
        "20 12 17 21"
    )
}

#[test]
fn fib_test_answer() {
    assert_eq!(fib::solve("5 3"), "19")
}

#[test]
fn fibd_test_answer() {
    assert_eq!(fibd::solve("6 3"), "4")
}

#[test]
fn grph_test_answer() {
    assert_eq!(
        grph::solve(
            Fasta::<Dna>::parse(
                ">Rosalind_0498
AAATAAA
>Rosalind_2391
AAATTTT
>Rosalind_2323
TTTTCCC
>Rosalind_0442
AAATCCC
>Rosalind_5013
GGGTGGG"
            )
            .unwrap()
        ),
        "Rosalind_0498 Rosalind_0442
Rosalind_0498 Rosalind_2391
Rosalind_2391 Rosalind_2323"
    )
}

#[test]
fn hamm_test_answer() {
    assert_eq!(
        hamm::solve(
            "GAGCCTACTAACGGGAT
CATCGTAATGACGGCCT"
        ),
        "7"
    )
}

#[test]
fn iev_test_answer() {
    assert_eq!(iev::solve("1 0 0 1 0 1"), "3.5")
}

#[test]
fn mrna_test_answer() {
    assert_eq!(mrna::solve("MA"), "12")
}

#[test]
fn orf_test_answer() {
    assert_eq!(
        orf::solve(
            Fasta::<Dna>::parse(
                ">Rosalind_99
AGCCATGTAGCTAACTCAGGTTACATGGGGATGACCCCGCGACTTGGATTAGAGTCTCTTTTGGAATAAGCCTGAATGATCCGAGTAGCATCTCAG"
            )
            .unwrap()
        ),
        "M
MGMTPRLGLESLLE
MLLGSFRLIPKETLIQVAGSSPCNLS
MTPRLGLESLLE"
    )
}

#[test]
fn prot_test_answer() {
    assert_eq!(
        prot::solve("AUGGCCAUGGCGCCCAGAACUGAGAUCAAUAGUACCCGUAUUAACGGGUGA"),
        "MAMAPRTEINSTRING"
    )
}

#[test]
fn revc_test_answer() {
    assert_eq!(revc::solve("AAAACCCGGT"), "ACCGGGTTTT")
}

#[test]
fn rna_test_answer() {
    assert_eq!(rna::solve("GATGGAACTTGACTACGTAAATT"), "GAUGGAACUUGACUACGUAAAUU")
}

#[test]
fn splc_test_answer() {
    assert_eq!(
        splc::solve(
            Fasta::<Dna>::parse(
                ">Rosalind_10
ATGGTCTACATAGCTGACAAACAGCACGTAGCAATCGGTCGAATCTCGAGAGGCATATGGTCACATGATCGGTCGAGCGTGTTTCAAAGTTTGCGCCTAG
>Rosalind_12
ATCGGTCGAA
>Rosalind_15
ATCGGTCGAGCGTGT"
            )
            .unwrap()
        ),
        "MVYIADKQHVASREAYGHMFKVCA"
    )
}

#[test]
fn subs_test_answer() {
    assert_eq!(
        subs::solve(
            "GATATATGCATATACTT
ATAT"
        ),
        "2 4 10"
    )
}

#[test]
fn gc_highest_record_of_sample() {
    let doc = Fasta::<Dna>::parse(
        ">Rosalind_6404
CCTGCGGAAGATCGGCACTAGAATAGCCAGAACCGTTTCTCTGAGGCTTCCGGCCTTCCC
TCCCACTAATAATTCTGAGG
>Rosalind_5959
CCATCGGTAGCGCATCCTTAGTCCAATTAAGTCCCTATCCAGGCGCTCCGCCGAAGGTCT
ATATCCATTTGTCAGCAGACACGC
>Rosalind_0808
CCACCCTCGTGGTATGGCTAGGCATTCAGGAACCGGAGAACGCTTCAGACCAGCCCGGAC
TGGGAACCTGCGGGCAGTAGGTGGAAT",
    )
    .unwrap();
    assert_eq!(gc::highest_gc_record(&doc), Some(2));
    assert_eq!(doc.records()[2].0, "Rosalind_0808");
    assert_eq!(doc.records()[2].1.gc_count(), 53);
    assert_eq!(doc.records()[2].1.len(), 87);
}

#[test]
fn gc_first_of_equal_records_wins() {
    let doc = Fasta::<Dna>::parse(">a\nAT\n>b\nGA\n>c\nCT\n>d\nAAAA").unwrap();
    assert_eq!(gc::highest_gc_record(&doc), Some(1));
}

#[test]
fn gc_without_any_gc_is_none() {
    let doc = Fasta::<Dna>::parse(">a\nAT\n>b\n\n").unwrap();
    assert_eq!(gc::highest_gc_record(&doc), None);
}

#[test]
fn grph_record_shorter_than_overlap_has_no_edges() {
    let doc = Fasta::<Dna>::parse(">x\nAA\n>y\nAAAT\n>z\nAAAG").unwrap();
    assert_eq!(grph::solve(doc), "");
}

#[test]
fn grph_equal_sequences_link_both_ways() {
    let doc = Fasta::<Dna>::parse(">b\nAAA\n>a\nAAA").unwrap();
    assert_eq!(grph::solve(doc), "a b\nb a");
}

#[test]
fn cons_ties_prefer_later_base() {
    let doc = Fasta::<Dna>::parse(">1\nAC\n>2\nGT").unwrap();
    assert_eq!(cons::solve(doc), "GT\nA: 1 0\nC: 0 1\nG: 1 0\nT: 0 1");
}

#[test]
fn fib_first_month_is_one_pair() {
    assert_eq!(fib::solve("1 3"), "1");
    assert_eq!(fib::solve("+2 3"), "1");
    assert_eq!(fib::solve("3 3"), "4");
}

#[test]
fn fibd_pairs_die_after_their_lifetime() {
    assert_eq!(fibd::solve("1 3"), "1");
    assert_eq!(fibd::solve("4 1"), "0");
    assert_eq!(fibd::solve("5 3"), "3");
}

#[test]
fn iev_whole_expectation_has_no_fraction() {
    assert_eq!(iev::solve("1 1 1 2 2"), "11");
}

#[test]
fn mrna_counts_are_reduced() {
    assert_eq!(mrna::solve("lrs"), "648");
    assert_eq!(mrna::solve("LLLLLLLL"), "38848");
}

#[test]
fn orf_without_start_codon_finds_nothing() {
    let doc = Fasta::<Dna>::parse(">x\nCCCCCC").unwrap();
    assert_eq!(orf::solve(doc), "");
}

#[test]
fn subs_pattern_longer_than_text_is_found_nowhere() {
    assert_eq!(subs::solve("ACG\nACGT"), "");
    assert_eq!(subs::solve("ACG\nACG"), "");
}

#[test]
fn lia_multiplies_its_numbers() {
    assert_eq!(lia::solve("3 4"), "12");
}

#[test]
fn mprt_reports_only_proteins_with_the_motif() {
    let entries = vec![
        ("P1".to_string(), Fasta::<Protein>::parse(">sp|P1\nNASTNPSA\n").unwrap()),
        ("P2".to_string(), Fasta::<Protein>::parse(">sp|P2\nAAAA\n").unwrap()),
        ("P3".to_string(), Fasta::<Protein>::parse(">sp|P3\nGNQTANGSV").unwrap()),
    ];
    assert_eq!(mprt::solve(&entries), "P1\n1\nP3\n2 6");
}

#[test]
fn fib_and_fibd_overflow_checks() {
    assert!(fib::fits(5, 3));
    assert!(!fib::fits(100, 5));
    assert!(fibd::fits(6, 3));
    assert!(!fibd::fits(200, 20));
}
