use rosalind::utils::digraph::Digraph;
use rosalind::utils::dna::Dna;
use rosalind::utils::fasta::Fasta;
use rosalind::utils::protein::Protein;
use rosalind::utils::rna::Rna;

#[test]
fn fasta_records_keep_order_and_join_lines() {
    let doc = Fasta::<Dna>::parse(">one\nAC\n  GT \n>two\r\nTT\n>one\n").unwrap();
    assert_eq!(doc.len(), 3);
    let records = doc.records();
    assert_eq!(records[0].0, "one");
    assert_eq!(records[0].1.to_text(), "ACGT");
    assert_eq!(records[1].0, "two");
    assert_eq!(records[1].1.to_text(), "TT");
    assert_eq!(records[2].0, "one");
    assert_eq!(records[2].1.len(), 0);
}

#[test]
fn fasta_without_header_is_empty() {
    let doc = Fasta::<Dna>::parse("ACGT\nACGT\n").unwrap();
    assert_eq!(doc.len(), 0);
    let doc = Fasta::<Dna>::parse("").unwrap();
    assert_eq!(doc.len(), 0);
}

#[test]
fn fasta_lines_before_first_header_are_dropped() {
    let doc = Fasta::<Dna>::parse("AC\n>x\nGT").unwrap();
    assert_eq!(doc.records()[0].1.to_text(), "GT");
    let doc = Fasta::<Dna>::parse("A\n>i").unwrap();
    assert_eq!(doc.len(), 1);
    assert_eq!(doc.records()[0].0, "i");
    assert_eq!(doc.records()[0].1.len(), 0);
    let doc = Fasta::<Dna>::parse("not dna\n>i\nACGT").unwrap();
    assert_eq!(doc.records()[0].1.to_text(), "ACGT");
}

#[test]
fn fasta_reports_first_invalid_record() {
    let doc = Fasta::<Dna>::parse(">a\nACGT\n>b\nACQT\n>c\nXX");
    assert_eq!(doc.map(|d| d.len()), Err("Failed to convert q to dna base".to_string()));
}

#[test]
fn fasta_of_rna_and_protein() {
    let doc = Fasta::<Rna>::parse(">r\nACGU").unwrap();
    assert_eq!(doc.records()[0].1.to_text(), "ACGU");
    let doc = Fasta::<Protein>::parse(">sp|P1|X\nMKV\nNQS\n").unwrap();
    assert_eq!(doc.records()[0].0, "sp|P1|X");
    assert_eq!(doc.records()[0].1.to_text(), "MKVNQS");
}

#[test]
fn fasta_round_trip() {
    let text = ">Rosalind_1\nacgt\nAC\n>Rosalind_2\n\n>Rosalind_3\nTTTT\n";
    let doc = Fasta::<Dna>::parse(text).unwrap();
    let written = doc.to_text();
    assert_eq!(written, ">Rosalind_1\nACGTAC\n>Rosalind_2\n\n>Rosalind_3\nTTTT\n");
    let again = Fasta::<Dna>::parse(&written).unwrap();
    assert_eq!(again.len(), doc.len());
    for (a, b) in again.records().iter().zip(doc.records()) {
        assert_eq!(a.0, b.0);
        assert_eq!(a.1, b.1);
    }
}

#[test]
fn overlap_graph_edges_are_sorted() {
    let doc = Fasta::<Dna>::parse(
        ">Rosalind_0498\nAAATAAA\n>Rosalind_2391\nAAATTTT\n>Rosalind_2323\nTTTTCCC\n>Rosalind_0442\nAAATCCC\n>Rosalind_5013\nGGGTGGG",
    )
    .unwrap();
    let graph = Digraph::overlap_graph_from_fasta_dna(&doc, 3);
    let edges: Vec<(String, String)> = graph
        .adjacency_list()
        .iter()
        .map(|(a, b)| (a.name(), b.name()))
        .collect();
    assert_eq!(
        edges,
        vec![
            ("Rosalind_0498".to_string(), "Rosalind_0442".to_string()),
            ("Rosalind_0498".to_string(), "Rosalind_2391".to_string()),
            ("Rosalind_2391".to_string(), "Rosalind_2323".to_string()),
        ]
    );
    let records: Vec<usize> = graph.adjacency_list().iter().map(|(a, _)| a.record()).collect();
    assert_eq!(records, vec![0, 0, 1]);
}
