//! Amino acids, proteins, translation by the standard genetic code, and
//! protein motifs.

use crate::utils::dna::{Dna, DnaBase};
use crate::utils::rna::{as_dna, Rna, RnaBase};
use crate::utils::text::{ascii_lower, chars_of, push_char, to_ascii_lower};
use vstd::prelude::*;

verus! {

/// The twenty standard amino acids, and `Stop`, which marks the end of a
/// translation and has no letter.
#[derive(Clone, Copy, Debug, PartialEq, Eq, Structural)]
pub enum AminoAcid {
    A,
    C,
    D,
    E,
    F,
    G,
    H,
    I,
    K,
    L,
    M,
    N,
    P,
    Q,
    R,
    S,
    T,
    V,
    W,
    Y,
    Stop,
}

/// The residue an upper-case letter names; any other character names none.
pub open spec fn amino_of_upper(c: char) -> Option<AminoAcid> {
    match c {
        'A' => Some(AminoAcid::A),
        'C' => Some(AminoAcid::C),
        'D' => Some(AminoAcid::D),
        'E' => Some(AminoAcid::E),
        'F' => Some(AminoAcid::F),
        'G' => Some(AminoAcid::G),
        'H' => Some(AminoAcid::H),
        'I' => Some(AminoAcid::I),
        'K' => Some(AminoAcid::K),
        'L' => Some(AminoAcid::L),
        'M' => Some(AminoAcid::M),
        'N' => Some(AminoAcid::N),
        'P' => Some(AminoAcid::P),
        'Q' => Some(AminoAcid::Q),
        'R' => Some(AminoAcid::R),
        'S' => Some(AminoAcid::S),
        'T' => Some(AminoAcid::T),
        'V' => Some(AminoAcid::V),
        'W' => Some(AminoAcid::W),
        'Y' => Some(AminoAcid::Y),
        _ => None,
    }
}

/// The residue a letter names, in either case.
pub open spec fn amino_of_char(c: char) -> Option<AminoAcid> {
    if 'a' <= c && c <= 'z' {
        amino_of_upper(((c as u32) - 32) as char)
    } else {
        amino_of_upper(c)
    }
}

/// The text of one residue: its upper-case letter, or nothing for `Stop`.
pub open spec fn amino_text(a: AminoAcid) -> Seq<char> {
    match a {
        AminoAcid::A => seq!['A'],
        AminoAcid::C => seq!['C'],
        AminoAcid::D => seq!['D'],
        AminoAcid::E => seq!['E'],
        AminoAcid::F => seq!['F'],
        AminoAcid::G => seq!['G'],
        AminoAcid::H => seq!['H'],
        AminoAcid::I => seq!['I'],
        AminoAcid::K => seq!['K'],
        AminoAcid::L => seq!['L'],
        AminoAcid::M => seq!['M'],
        AminoAcid::N => seq!['N'],
        AminoAcid::P => seq!['P'],
        AminoAcid::Q => seq!['Q'],
        AminoAcid::R => seq!['R'],
        AminoAcid::S => seq!['S'],
        AminoAcid::T => seq!['T'],
        AminoAcid::V => seq!['V'],
        AminoAcid::W => seq!['W'],
        AminoAcid::Y => seq!['Y'],
        AminoAcid::Stop => seq![],
    }
}

/// The standard genetic code, over DNA letters; `TAA`, `TAG` and `TGA` are `Stop`.
pub open spec fn codon(b1: DnaBase, b2: DnaBase, b3: DnaBase) -> AminoAcid {
    match (b2, b1, b3) {
        (DnaBase::T, DnaBase::T, DnaBase::T) | (DnaBase::T, DnaBase::T, DnaBase::C) => AminoAcid::F,
        (DnaBase::T, DnaBase::T, _) | (DnaBase::T, DnaBase::C, _) => AminoAcid::L,
        (DnaBase::T, DnaBase::A, DnaBase::G) => AminoAcid::M,
        (DnaBase::T, DnaBase::A, _) => AminoAcid::I,
        (DnaBase::T, DnaBase::G, _) => AminoAcid::V,
        (DnaBase::C, DnaBase::T, _) => AminoAcid::S,
        (DnaBase::C, DnaBase::C, _) => AminoAcid::P,
        (DnaBase::C, DnaBase::A, _) => AminoAcid::T,
        (DnaBase::C, DnaBase::G, _) => AminoAcid::A,
        (DnaBase::A, DnaBase::T, DnaBase::T) | (DnaBase::A, DnaBase::T, DnaBase::C) => AminoAcid::Y,
        (DnaBase::A, DnaBase::T, _) => AminoAcid::Stop,
        (DnaBase::A, DnaBase::C, DnaBase::T) | (DnaBase::A, DnaBase::C, DnaBase::C) => AminoAcid::H,
        (DnaBase::A, DnaBase::C, _) => AminoAcid::Q,
        (DnaBase::A, DnaBase::A, DnaBase::T) | (DnaBase::A, DnaBase::A, DnaBase::C) => AminoAcid::N,
        (DnaBase::A, DnaBase::A, _) => AminoAcid::K,
        (DnaBase::A, DnaBase::G, DnaBase::T) | (DnaBase::A, DnaBase::G, DnaBase::C) => AminoAcid::D,
        (DnaBase::A, DnaBase::G, _) => AminoAcid::E,
        (DnaBase::G, DnaBase::T, DnaBase::T) | (DnaBase::G, DnaBase::T, DnaBase::C) => AminoAcid::C,
        (DnaBase::G, DnaBase::T, DnaBase::A) => AminoAcid::Stop,
        (DnaBase::G, DnaBase::T, DnaBase::G) => AminoAcid::W,
        (DnaBase::G, DnaBase::C, _) => AminoAcid::R,
        (DnaBase::G, DnaBase::A, DnaBase::T) | (DnaBase::G, DnaBase::A, DnaBase::C) => AminoAcid::S,
        (DnaBase::G, DnaBase::A, _) => AminoAcid::R,
        (DnaBase::G, DnaBase::G, _) => AminoAcid::G,
    }
}

/// Number of codons that encode a residue (`Stop` counts its three codons).
pub open spec fn codon_count(a: AminoAcid) -> nat {
    match a {
        AminoAcid::A | AminoAcid::G | AminoAcid::P | AminoAcid::T | AminoAcid::V => 4,
        AminoAcid::C | AminoAcid::D | AminoAcid::E | AminoAcid::F | AminoAcid::H | AminoAcid::K
        | AminoAcid::N | AminoAcid::Q | AminoAcid::Y => 2,
        AminoAcid::I | AminoAcid::Stop => 3,
        AminoAcid::L | AminoAcid::R | AminoAcid::S => 6,
        AminoAcid::M | AminoAcid::W => 1,
    }
}

/// The residue of the `i`-th codon of a DNA sequence.
pub open spec fn dna_codon(s: Seq<DnaBase>, i: int) -> AminoAcid {
    codon(s[3 * i], s[3 * i + 1], s[3 * i + 2])
}

/// Whether the `i`-th codon is the start codon `ATG`.
pub open spec fn is_start_codon(s: Seq<DnaBase>, i: int) -> bool {
    s[3 * i] == DnaBase::A && s[3 * i + 1] == DnaBase::T && s[3 * i + 2] == DnaBase::G
}

/// The residues of codons `from` up to `to` (exclusive).
pub open spec fn dna_codons(s: Seq<DnaBase>, from: int, to: int) -> Seq<AminoAcid> {
    Seq::new((to - from) as nat, |t: int| dna_codon(s, from + t))
}

/// The reading frame of `s` opens at codon `a`, its first `ATG`, and closes at
/// codon `b`, the first stop codon after it.
pub open spec fn orf_at(s: Seq<DnaBase>, a: int, b: int) -> bool {
    &&& 0 <= a < b < s.len() / 3
    &&& is_start_codon(s, a)
    &&& forall|j: int| 0 <= j < a ==> !is_start_codon(s, j)
    &&& dna_codon(s, b) == AminoAcid::Stop
    &&& forall|j: int| a < j < b ==> dna_codon(s, j) != AminoAcid::Stop
}

/// Whether a scan of `s` from its first base finds a start codon and then a stop codon.
pub open spec fn has_orf(s: Seq<DnaBase>) -> bool {
    exists|a: int, b: int| orf_at(s, a, b)
}

/// The translation of every complete codon of an RNA sequence.
pub open spec fn rna_codons(s: Seq<RnaBase>) -> Seq<AminoAcid> {
    Seq::new(s.len() / 3, |i: int| codon(as_dna(s[3 * i]), as_dna(s[3 * i + 1]), as_dna(s[3 * i + 2])))
}

/// `p`, with `Stop` added unless it already ends with `Stop`.
pub open spec fn stopped(p: Seq<AminoAcid>) -> Seq<AminoAcid> {
    if p.len() > 0 && p.last() == AminoAcid::Stop {
        p
    } else {
        p.push(AminoAcid::Stop)
    }
}

/// The protein an RNA sequence translates to.
pub open spec fn rna_translation(s: Seq<RnaBase>) -> Seq<AminoAcid> {
    stopped(rna_codons(s))
}

/// The text of the residues below `n`.
pub open spec fn protein_text_before(p: Seq<AminoAcid>, n: nat) -> Seq<char>
    decreases n,
{
    if n == 0 {
        seq![]
    } else {
        protein_text_before(p, (n - 1) as nat) + amino_text(p[n - 1])
    }
}

/// The text of a protein: the letters of its residues, `Stop` leaving none.
pub open spec fn protein_text(p: Seq<AminoAcid>) -> Seq<char> {
    protein_text_before(p, p.len())
}

/// Whether every character of `s` names a residue, in either case.
pub open spec fn is_protein_text(s: Seq<char>) -> bool {
    forall|i: int| 0 <= i < s.len() ==> (#[trigger] amino_of_char(s[i])) is Some
}

/// The protein that valid protein text denotes: its residues, then `Stop`.
pub open spec fn protein_of_text(s: Seq<char>) -> Seq<AminoAcid> {
    s.map_values(|c: char| amino_of_char(c)->Some_0).push(AminoAcid::Stop)
}

/// `e` is the error for text whose first character that names no residue is at `i`.
pub open spec fn protein_rejection_at(s: Seq<char>, e: Seq<char>, i: int) -> bool {
    &&& 0 <= i < s.len()
    &&& forall|j: int| 0 <= j < i ==> (#[trigger] amino_of_char(s[j])) is Some
    &&& amino_of_char(s[i]) is None
    &&& e == "Invalid amino acid char: "@ + seq![ascii_lower(s[i])]
}

/// `e` is the error reported for text that is not a protein.
pub open spec fn protein_rejection(s: Seq<char>, e: Seq<char>) -> bool {
    exists|i: int| protein_rejection_at(s, e, i)
}

/// The number of RNA strings that could encode the residues below `n`, modulo `m`,
/// reduced after each factor.
pub open spec fn mrna_count_before(p: Seq<AminoAcid>, m: nat, n: nat) -> nat
    decreases n,
{
    if n == 0 {
        1
    } else {
        (mrna_count_before(p, m, (n - 1) as nat) * codon_count(p[n - 1])) % m
    }
}

/// Text of a protein never holds a mark for `Stop`: each character names a residue.
pub proof fn protein_text_letters(p: Seq<AminoAcid>, n: nat)
    requires
        n <= p.len(),
    ensures
        forall|i: int|
            0 <= i < protein_text_before(p, n).len() ==> (#[trigger] amino_of_upper(
                protein_text_before(p, n)[i],
            )) is Some,
    decreases n,
{
    if n > 0 {
        protein_text_letters(p, (n - 1) as nat);
        let prev = protein_text_before(p, (n - 1) as nat);
        let t = amino_text(p[n - 1]);
        assert(protein_text_before(p, n) == prev + t);
        assert forall|i: int| 0 <= i < (prev + t).len() implies (#[trigger] amino_of_upper(
            (prev + t)[i],
        )) is Some by {
            if i >= prev.len() {
                assert((prev + t)[i] == t[i - prev.len()]);
            } else {
                assert((prev + t)[i] == prev[i]);
            }
        }
    }
}

/// Translating RNA always gives a protein that ends with `Stop`, and its text
/// holds only residue letters.
pub proof fn rna_translation_text(s: Seq<RnaBase>)
    ensures
        rna_translation(s).len() > 0,
        rna_translation(s).last() == AminoAcid::Stop,
        forall|i: int|
            0 <= i < protein_text(rna_translation(s)).len() ==> (#[trigger] amino_of_upper(
                protein_text(rna_translation(s))[i],
            )) is Some,
{
    protein_text_letters(rna_translation(s), rna_translation(s).len());
}

/// A scan that finds a start codon but no stop codon after it finds no reading frame.
pub proof fn start_without_stop_has_no_orf(s: Seq<DnaBase>, a: int)
    requires
        0 <= a < s.len() / 3,
        is_start_codon(s, a),
        forall|j: int| 0 <= j < a ==> !is_start_codon(s, j),
        forall|j: int| a < j < s.len() / 3 ==> dna_codon(s, j) != AminoAcid::Stop,
    ensures
        !has_orf(s),
{
    assert forall|a2: int, b: int| !orf_at(s, a2, b) by {
        if orf_at(s, a2, b) {
            if a2 < a {
                assert(!is_start_codon(s, a2));
            } else if a < a2 {
                assert(!is_start_codon(s, a));
            }
        }
    }
}

impl AminoAcid {
    /// The residue an upper-case letter names.
    pub fn from_upper(c: char) -> (r: Option<AminoAcid>)
        ensures
            r == amino_of_upper(c),
    {
        match c {
            'A' => Some(AminoAcid::A),
            'C' => Some(AminoAcid::C),
            'D' => Some(AminoAcid::D),
            'E' => Some(AminoAcid::E),
            'F' => Some(AminoAcid::F),
            'G' => Some(AminoAcid::G),
            'H' => Some(AminoAcid::H),
            'I' => Some(AminoAcid::I),
            'K' => Some(AminoAcid::K),
            'L' => Some(AminoAcid::L),
            'M' => Some(AminoAcid::M),
            'N' => Some(AminoAcid::N),
            'P' => Some(AminoAcid::P),
            'Q' => Some(AminoAcid::Q),
            'R' => Some(AminoAcid::R),
            'S' => Some(AminoAcid::S),
            'T' => Some(AminoAcid::T),
            'V' => Some(AminoAcid::V),
            'W' => Some(AminoAcid::W),
            'Y' => Some(AminoAcid::Y),
            _ => None,
        }
    }

    /// The residue a letter names, in either case.
    pub fn from_char(c: char) -> (r: Option<AminoAcid>)
        ensures
            r == amino_of_char(c),
    {
        if 'a' <= c && c <= 'z' {
            AminoAcid::from_upper(((c as u8) - 32) as char)
        } else {
            AminoAcid::from_upper(c)
        }
    }

    /// The upper-case letter of a residue; `None` for `Stop`.
    pub fn letter(&self) -> (r: Option<char>)
        ensures
            r is None <==> amino_text(*self).len() == 0,
            r is Some ==> amino_text(*self) == seq![r->Some_0],
    {
        match self {
            AminoAcid::A => Some('A'),
            AminoAcid::C => Some('C'),
            AminoAcid::D => Some('D'),
            AminoAcid::E => Some('E'),
            AminoAcid::F => Some('F'),
            AminoAcid::G => Some('G'),
            AminoAcid::H => Some('H'),
            AminoAcid::I => Some('I'),
            AminoAcid::K => Some('K'),
            AminoAcid::L => Some('L'),
            AminoAcid::M => Some('M'),
            AminoAcid::N => Some('N'),
            AminoAcid::P => Some('P'),
            AminoAcid::Q => Some('Q'),
            AminoAcid::R => Some('R'),
            AminoAcid::S => Some('S'),
            AminoAcid::T => Some('T'),
            AminoAcid::V => Some('V'),
            AminoAcid::W => Some('W'),
            AminoAcid::Y => Some('Y'),
            AminoAcid::Stop => None,
        }
    }

    /// The residue a codon of DNA letters encodes.
    pub fn from_codon(b1: DnaBase, b2: DnaBase, b3: DnaBase) -> (r: AminoAcid)
        ensures
            r == codon(b1, b2, b3),
    {
        match (b2, b1, b3) {
            (DnaBase::T, DnaBase::T, DnaBase::T) | (DnaBase::T, DnaBase::T, DnaBase::C) => AminoAcid::F,
            (DnaBase::T, DnaBase::T, _) | (DnaBase::T, DnaBase::C, _) => AminoAcid::L,
            (DnaBase::T, DnaBase::A, DnaBase::G) => AminoAcid::M,
            (DnaBase::T, DnaBase::A, _) => AminoAcid::I,
            (DnaBase::T, DnaBase::G, _) => AminoAcid::V,
            (DnaBase::C, DnaBase::T, _) => AminoAcid::S,
            (DnaBase::C, DnaBase::C, _) => AminoAcid::P,
            (DnaBase::C, DnaBase::A, _) => AminoAcid::T,
            (DnaBase::C, DnaBase::G, _) => AminoAcid::A,
            (DnaBase::A, DnaBase::T, DnaBase::T) | (DnaBase::A, DnaBase::T, DnaBase::C) => AminoAcid::Y,
            (DnaBase::A, DnaBase::T, _) => AminoAcid::Stop,
            (DnaBase::A, DnaBase::C, DnaBase::T) | (DnaBase::A, DnaBase::C, DnaBase::C) => AminoAcid::H,
            (DnaBase::A, DnaBase::C, _) => AminoAcid::Q,
            (DnaBase::A, DnaBase::A, DnaBase::T) | (DnaBase::A, DnaBase::A, DnaBase::C) => AminoAcid::N,
            (DnaBase::A, DnaBase::A, _) => AminoAcid::K,
            (DnaBase::A, DnaBase::G, DnaBase::T) | (DnaBase::A, DnaBase::G, DnaBase::C) => AminoAcid::D,
            (DnaBase::A, DnaBase::G, _) => AminoAcid::E,
            (DnaBase::G, DnaBase::T, DnaBase::T) | (DnaBase::G, DnaBase::T, DnaBase::C) => AminoAcid::C,
            (DnaBase::G, DnaBase::T, DnaBase::A) => AminoAcid::Stop,
            (DnaBase::G, DnaBase::T, DnaBase::G) => AminoAcid::W,
            (DnaBase::G, DnaBase::C, _) => AminoAcid::R,
            (DnaBase::G, DnaBase::A, DnaBase::T) | (DnaBase::G, DnaBase::A, DnaBase::C) => AminoAcid::S,
            (DnaBase::G, DnaBase::A, _) => AminoAcid::R,
            (DnaBase::G, DnaBase::G, _) => AminoAcid::G,
        }
    }

    /// Number of codons that encode this residue.
    pub fn codon_count(&self) -> (r: u64)
        ensures
            r == codon_count(*self),
    {
        match self {
            AminoAcid::A | AminoAcid::G | AminoAcid::P | AminoAcid::T | AminoAcid::V => 4,
            AminoAcid::C | AminoAcid::D | AminoAcid::E | AminoAcid::F | AminoAcid::H
            | AminoAcid::K | AminoAcid::N | AminoAcid::Q | AminoAcid::Y => 2,
            AminoAcid::I | AminoAcid::Stop => 3,
            AminoAcid::L | AminoAcid::R | AminoAcid::S => 6,
            AminoAcid::M | AminoAcid::W => 1,
        }
    }
}

/// A protein: an ordered list of residues, normally closed by `Stop`.
#[derive(Debug)]
pub struct Protein {
    sequence: Vec<AminoAcid>,
}

impl View for Protein {
    type V = Seq<AminoAcid>;

    closed spec fn view(&self) -> Seq<AminoAcid> {
        self.sequence@
    }
}

impl Protein {
    /// The residues, `Stop` included.
    pub fn residues(&self) -> (r: &[AminoAcid])
        ensures
            r@ == self@,
    {
        self.sequence.as_slice()
    }

    /// Parses protein text, in either case; the protein gets a closing `Stop`.
    pub fn parse_chars(text: &[char]) -> (r: Result<Protein, String>)
        ensures
            r is Ok <==> is_protein_text(text@),
            r is Ok ==> r->Ok_0@ == protein_of_text(text@),
            r is Err ==> protein_rejection(text@, r->Err_0@),
    {
        let mut sequence: Vec<AminoAcid> = Vec::with_capacity(text.len());
        let ghost residues = text@.map_values(|c: char| amino_of_char(c)->Some_0);
        let mut i: usize = 0;
        while i < text.len()
            invariant
                i <= text.len(),
                residues == text@.map_values(|c: char| amino_of_char(c)->Some_0),
                sequence@ == residues.take(i as int),
                forall|j: int| 0 <= j < i ==> (#[trigger] amino_of_char(text@[j])) is Some,
            decreases text.len() - i,
        {
            match AminoAcid::from_char(text[i]) {
                Some(a) => sequence.push(a),
                None => {
                    let mut e = String::from_str("Invalid amino acid char: ");
                    push_char(&mut e, to_ascii_lower(text[i]));
                    assert(e@ =~= "Invalid amino acid char: "@ + seq![ascii_lower(text@[i as int])]);
                    assert(protein_rejection_at(text@, e@, i as int));
                    return Err(e);
                },
            }
            i += 1;
            assert(sequence@ =~= residues.take(i as int));
        }
        assert(residues.take(i as int) =~= residues);
        sequence.push(AminoAcid::Stop);
        Ok(Protein { sequence })
    }

    /// Parses protein text, in either case; the protein gets a closing `Stop`.
    pub fn parse(text: &str) -> (r: Result<Protein, String>)
        ensures
            r is Ok <==> is_protein_text(text@),
            r is Ok ==> r->Ok_0@ == protein_of_text(text@),
            r is Err ==> protein_rejection(text@, r->Err_0@),
    {
        let chars = chars_of(text);
        Protein::parse_chars(chars.as_slice())
    }

    /// Translates every complete codon of an RNA sequence, in order, and closes the
    /// protein with `Stop` unless its last residue already is one. Never fails.
    pub fn from_rna(rna: &Rna) -> (r: Protein)
        ensures
            r@ == rna_translation(rna@),
            r@.len() > 0 && r@.last() == AminoAcid::Stop,
            rna@.len() < 3 ==> r@ == seq![AminoAcid::Stop],
    {
        let bases = rna.sequence();
        let n = bases.len() / 3;
        let mut sequence: Vec<AminoAcid> = Vec::with_capacity(n + 1);
        let mut i: usize = 0;
        while i < n
            invariant
                i <= n == bases@.len() / 3,
                bases@ == rna@,
                sequence@ == rna_codons(rna@).take(i as int),
            decreases n - i,
        {
            assert(3 * i + 2 < bases@.len()) by (nonlinear_arith)
                requires
                    i < n,
                    n == bases@.len() / 3,
            ;
            assert(3 * i + 2 < bases.len());
            let a = AminoAcid::from_codon(
                bases[3 * i].as_dna(),
                bases[3 * i + 1].as_dna(),
                bases[3 * i + 2].as_dna(),
            );
            sequence.push(a);
            i += 1;
            assert(sequence@ =~= rna_codons(rna@).take(i as int));
        }
        assert(rna_codons(rna@).take(i as int) =~= rna_codons(rna@));
        let len = sequence.len();
        if len == 0 || sequence[len - 1] != AminoAcid::Stop {
            sequence.push(AminoAcid::Stop);
        }
        assert(rna@.len() < 3 ==> sequence@ =~= seq![AminoAcid::Stop]);
        Protein { sequence }
    }

    /// Reads DNA from its first base, codon by codon: nothing is kept before the
    /// first `ATG`, which gives `M`; the codons after it are translated until the
    /// first stop codon, whose `Stop` closes the protein. Without a start codon, or
    /// without a stop codon after it, there is no reading frame.
    pub fn from_dna(dna: &Dna) -> (r: Result<Protein, String>)
        ensures
            r is Ok <==> has_orf(dna@),
            r is Ok ==> exists|a: int, b: int|
                orf_at(dna@, a, b) && r->Ok_0@ == dna_codons(dna@, a, b + 1),
            r is Err ==> r->Err_0@ == "No start or stop codon"@,
    {
        let bases = dna.sequence();
        let n = bases.len() / 3;
        let mut sequence: Vec<AminoAcid> = Vec::new();
        let mut active = false;
        let ghost mut start: int = 0;
        let mut i: usize = 0;
        while i < n
            invariant
                i <= n == bases@.len() / 3,
                bases@ == dna@,
                !active ==> forall|j: int| 0 <= j < i ==> !is_start_codon(dna@, j),
                !active ==> sequence@.len() == 0,
                active ==> 0 <= start < i,
                active ==> is_start_codon(dna@, start),
                active ==> forall|j: int| 0 <= j < start ==> !is_start_codon(dna@, j),
                active ==> forall|j: int| start < j < i ==> dna_codon(dna@, j) != AminoAcid::Stop,
                active ==> sequence@ == dna_codons(dna@, start, i as int),
            decreases n - i,
        {
            assert(3 * i + 2 < bases@.len()) by (nonlinear_arith)
                requires
                    i < n,
                    n == bases@.len() / 3,
            ;
            assert(3 * i + 2 < bases.len());
            let b1 = bases[3 * i];
            let b2 = bases[3 * i + 1];
            let b3 = bases[3 * i + 2];
            if !active {
                if b1 == DnaBase::A && b2 == DnaBase::T && b3 == DnaBase::G {
                    active = true;
                    proof {
                        start = i as int;
                    }
                    sequence.push(AminoAcid::M);
                    assert(sequence@ =~= dna_codons(dna@, start, i + 1));
                }
            } else {
                let a = AminoAcid::from_codon(b1, b2, b3);
                sequence.push(a);
                assert(sequence@ =~= dna_codons(dna@, start, i + 1));
                if a == AminoAcid::Stop {
                    assert(orf_at(dna@, start, i as int));
                    return Ok(Protein { sequence });
                }
            }
            i += 1;
        }
        proof {
            assert forall|a: int, b: int| !orf_at(dna@, a, b) by {
                if orf_at(dna@, a, b) {
                    if active {
                        if a < start {
                        } else if start < a {
                        } else {
                            assert(start < b < i);
                        }
                    } else {
                        assert(0 <= a < i);
                    }
                }
            }
        }
        Err(String::from_str("No start or stop codon"))
    }

    /// The protein as text: one upper-case letter per residue, `Stop` left out.
    pub fn to_text(&self) -> (r: String)
        ensures
            r@ == protein_text(self@),
    {
        let mut s = String::new();
        let mut i: usize = 0;
        while i < self.sequence.len()
            invariant
                i <= self.sequence.len(),
                s@ == protein_text_before(self@, i as nat),
            decreases self.sequence.len() - i,
        {
            match self.sequence[i].letter() {
                Some(c) => push_char(&mut s, c),
                None => {},
            }
            i += 1;
            assert(s@ =~= protein_text_before(self@, i as nat));
        }
        s
    }

    /// The number of RNA strings that could encode this protein, stop included,
    /// modulo `modulo`; the product is reduced after each factor.
    pub fn calculate_potential_mrna_count(&self, modulo: u32) -> (r: u32)
        requires
            modulo > 0,
        ensures
            r == mrna_count_before(self@, modulo as nat, self@.len()),
    {
        let mut count: u64 = 1;
        let mut i: usize = 0;
        while i < self.sequence.len()
            invariant
                i <= self.sequence.len(),
                modulo > 0,
                count == mrna_count_before(self@, modulo as nat, i as nat),
                count <= u32::MAX,
            decreases self.sequence.len() - i,
        {
            let f = self.sequence[i].codon_count();
            assert(count * f <= u32::MAX * 6) by (nonlinear_arith)
                requires
                    count <= u32::MAX,
                    f <= 6,
            ;
            let next = count * f % (modulo as u64);
            assert(next < modulo) by (nonlinear_arith)
                requires
                    next == (count * f) % (modulo as int),
                    modulo > 0,
            ;
            count = next;
            i += 1;
        }
        count as u32
    }
}

/// Conversion through the trait states nothing; [`Protein::parse`] carries the contract.
impl TryFrom<&str> for Protein {
    type Error = String;

    fn try_from(value: &str) -> (r: Result<Protein, String>) {
        Protein::parse(value)
    }
}

impl vstd::std_specs::convert::TryFromSpecImpl<&str> for Protein {
    open spec fn obeys_try_from_spec() -> bool {
        false
    }

    open spec fn try_from_spec(v: &str) -> Result<Protein, String> {
        vstd::pervasive::arbitrary()
    }
}

/// Conversion through the trait states nothing; [`Protein::parse`] carries the contract.
impl TryFrom<String> for Protein {
    type Error = String;

    fn try_from(value: String) -> (r: Result<Protein, String>) {
        Protein::parse(value.as_str())
    }
}

impl vstd::std_specs::convert::TryFromSpecImpl<String> for Protein {
    open spec fn obeys_try_from_spec() -> bool {
        false
    }

    open spec fn try_from_spec(v: String) -> Result<Protein, String> {
        vstd::pervasive::arbitrary()
    }
}

/// Conversion through the trait states nothing; [`Protein::from_dna`] carries the contract.
impl TryFrom<&Dna> for Protein {
    type Error = String;

    fn try_from(value: &Dna) -> (r: Result<Protein, String>) {
        Protein::from_dna(value)
    }
}

impl vstd::std_specs::convert::TryFromSpecImpl<&Dna> for Protein {
    open spec fn obeys_try_from_spec() -> bool {
        false
    }

    open spec fn try_from_spec(v: &Dna) -> Result<Protein, String> {
        vstd::pervasive::arbitrary()
    }
}

/// Conversion through the trait states nothing; [`Protein::from_rna`] carries the contract.
impl From<Rna> for Protein {
    fn from(value: Rna) -> (r: Protein) {
        Protein::from_rna(&value)
    }
}

impl vstd::std_specs::convert::FromSpecImpl<Rna> for Protein {
    open spec fn obeys_from_spec() -> bool {
        false
    }

    open spec fn from_spec(v: Rna) -> Protein {
        vstd::pervasive::arbitrary()
    }
}

/// One position of a motif.
pub enum Match {
    /// Exactly this residue.
    Exact(AminoAcid),
    /// Any residue but this one.
    AnyExcept(AminoAcid),
    /// Any one of these residues.
    Union(Vec<AminoAcid>),
}

/// The mathematical form of one motif position.
pub enum MatchSpec {
    Exact(AminoAcid),
    AnyExcept(AminoAcid),
    Union(Seq<AminoAcid>),
}

impl View for Match {
    type V = MatchSpec;

    open spec fn view(&self) -> MatchSpec {
        match self {
            Match::Exact(a) => MatchSpec::Exact(*a),
            Match::AnyExcept(a) => MatchSpec::AnyExcept(*a),
            Match::Union(v) => MatchSpec::Union(v@),
        }
    }
}

/// Whether a residue meets a motif position.
pub open spec fn satisfies(m: MatchSpec, a: AminoAcid) -> bool {
    match m {
        MatchSpec::Exact(x) => a == x,
        MatchSpec::AnyExcept(x) => a != x,
        MatchSpec::Union(xs) => xs.contains(a),
    }
}

/// Whether the residues of `p` from `i` on meet every position of the motif.
pub open spec fn motif_matches_at(motif: Seq<MatchSpec>, p: Seq<AminoAcid>, i: int) -> bool {
    &&& 0 <= i
    &&& i + motif.len() <= p.len()
    &&& forall|k: int| 0 <= k < motif.len() ==> satisfies(#[trigger] motif[k], p[i + k])
}

/// The 1-based starts below `n` (0-based) of the windows that match, ascending.
pub open spec fn motif_hits_before(motif: Seq<MatchSpec>, p: Seq<AminoAcid>, n: nat) -> Seq<usize>
    decreases n,
{
    if n == 0 {
        seq![]
    } else {
        motif_hits_before(motif, p, (n - 1) as nat) + if motif_matches_at(motif, p, n - 1) {
            seq![n as usize]
        } else {
            seq![]
        }
    }
}

/// The 1-based starts of every window of `p` that matches a non-empty motif, ascending;
/// overlapping windows all count. An empty motif matches nowhere.
pub open spec fn motif_locations_of(motif: Seq<MatchSpec>, p: Seq<AminoAcid>) -> Seq<usize> {
    if motif.len() == 0 || motif.len() > p.len() {
        seq![]
    } else {
        motif_hits_before(motif, p, (p.len() - motif.len() + 1) as nat)
    }
}

/// The state of the motif compiler after some characters.
pub struct MotifState {
    pub in_any_except: bool,
    pub in_union: bool,
    pub union: Seq<AminoAcid>,
    pub pattern: Seq<MatchSpec>,
}

/// The compiler's step on one character: braces and brackets switch modes and a
/// closing bracket emits the letters gathered since; an upper-case residue letter
/// is an exclusion inside braces, gathered inside brackets and exact elsewhere;
/// any other character is skipped.
pub open spec fn motif_step(st: MotifState, c: char) -> MotifState {
    if c == '{' {
        MotifState { in_any_except: true, ..st }
    } else if c == '}' {
        MotifState { in_any_except: false, ..st }
    } else if c == '[' {
        MotifState { in_union: true, ..st }
    } else if c == ']' {
        MotifState {
            in_union: false,
            union: seq![],
            pattern: st.pattern.push(MatchSpec::Union(st.union)),
            ..st
        }
    } else {
        match amino_of_upper(c) {
            Some(a) => if st.in_any_except {
                MotifState { pattern: st.pattern.push(MatchSpec::AnyExcept(a)), ..st }
            } else if st.in_union {
                MotifState { union: st.union.push(a), ..st }
            } else {
                MotifState { pattern: st.pattern.push(MatchSpec::Exact(a)), ..st }
            },
            None => st,
        }
    }
}

/// The compiler's state after reading all of `s`.
pub open spec fn motif_run(s: Seq<char>) -> MotifState
    decreases s.len(),
{
    if s.len() == 0 {
        MotifState { in_any_except: false, in_union: false, union: seq![], pattern: seq![] }
    } else {
        motif_step(motif_run(s.drop_last()), s.last())
    }
}

/// The motif a pattern string compiles to.
pub open spec fn compiled_motif(s: Seq<char>) -> Seq<MatchSpec> {
    motif_run(s).pattern
}

/// A compiled protein motif: one constraint per position.
pub struct ProteinMotif {
    pattern: Vec<Match>,
}

impl View for ProteinMotif {
    type V = Seq<MatchSpec>;

    closed spec fn view(&self) -> Seq<MatchSpec> {
        self.pattern@.map_values(|m: Match| m@)
    }
}

impl ProteinMotif {
    /// Compiles a pattern: `X` is exactly residue X, `{X}` any residue but X, and
    /// `[XYZ]` any one of X, Y, Z.
    pub fn new(s: &str) -> (r: ProteinMotif)
        ensures
            r@ == compiled_motif(s@),
    {
        let chars = chars_of(s);
        let mut in_any_except = false;
        let mut in_union = false;
        let mut union: Vec<AminoAcid> = Vec::new();
        let mut pattern: Vec<Match> = Vec::new();
        let mut i: usize = 0;
        assert(s@.take(0) =~= Seq::<char>::empty());
        assert(pattern@.map_values(|m: Match| m@) =~= Seq::<MatchSpec>::empty());
        assert(union@ =~= Seq::<AminoAcid>::empty());
        while i < chars.len()
            invariant
                i <= chars.len(),
                chars@ == s@,
                motif_run(s@.take(i as int)) == (MotifState {
                    in_any_except,
                    in_union,
                    union: union@,
                    pattern: pattern@.map_values(|m: Match| m@),
                }),
            decreases chars.len() - i,
        {
            let c = chars[i];
            assert(s@.take(i + 1).drop_last() =~= s@.take(i as int));
            let ghost before = pattern@;
            if c == '{' {
                in_any_except = true;
            } else if c == '}' {
                in_any_except = false;
            } else if c == '[' {
                in_union = true;
            } else if c == ']' {
                in_union = false;
                let done = union;
                union = Vec::new();
                pattern.push(Match::Union(done));
                assert(pattern@.map_values(|m: Match| m@) =~= before.map_values(|m: Match| m@).push(
                    MatchSpec::Union(done@),
                ));
            } else {
                match AminoAcid::from_upper(c) {
                    Some(a) => {
                        if in_any_except {
                            pattern.push(Match::AnyExcept(a));
                            assert(pattern@.map_values(|m: Match| m@) =~= before.map_values(
                                |m: Match| m@,
                            ).push(MatchSpec::AnyExcept(a)));
                        } else if in_union {
                            union.push(a);
                        } else {
                            pattern.push(Match::Exact(a));
                            assert(pattern@.map_values(|m: Match| m@) =~= before.map_values(
                                |m: Match| m@,
                            ).push(MatchSpec::Exact(a)));
                        }
                    },
                    None => {},
                }
            }
            i += 1;
        }
        assert(s@.take(i as int) =~= s@);
        ProteinMotif { pattern }
    }

    /// Number of positions.
    pub fn len(&self) -> (r: usize)
        ensures
            r == self@.len(),
    {
        self.pattern.len()
    }

    /// Whether the residues of `p` from `start` on meet every position.
    fn matches(&self, p: &[AminoAcid], start: usize) -> (r: bool)
        requires
            start + self@.len() <= p@.len(),
        ensures
            r == motif_matches_at(self@, p@, start as int),
    {
        let mut k: usize = 0;
        while k < self.pattern.len()
            invariant
                k <= self.pattern.len(),
                self@.len() == self.pattern@.len(),
                start + self.pattern.len() <= p.len(),
                forall|j: int| 0 <= j < k ==> satisfies(#[trigger] self@[j], p@[start + j]),
            decreases self.pattern.len() - k,
        {
            let aa = p[start + k];
            let ok = match &self.pattern[k] {
                Match::Exact(a) => *a == aa,
                Match::AnyExcept(a) => *a != aa,
                Match::Union(aas) => contains_amino(aas, aa),
            };
            if !ok {
                assert(!satisfies(self@[k as int], p@[start + k]));
                return false;
            }
            k += 1;
        }
        true
    }
}

/// Whether `a` is one of `v`.
fn contains_amino(v: &Vec<AminoAcid>, a: AminoAcid) -> (r: bool)
    ensures
        r == v@.contains(a),
{
    let mut i: usize = 0;
    while i < v.len()
        invariant
            i <= v.len(),
            forall|j: int| 0 <= j < i ==> v@[j] != a,
        decreases v.len() - i,
    {
        if v[i] == a {
            return true;
        }
        i += 1;
    }
    false
}

/// The residues of a protein without its closing `Stop`, if it has one.
pub open spec fn residues_of(p: Seq<AminoAcid>) -> Seq<AminoAcid> {
    if p.len() > 0 && p.last() == AminoAcid::Stop {
        p.drop_last()
    } else {
        p
    }
}

impl Protein {
    /// The 1-based starts of every window of residues that matches the motif,
    /// ascending, overlapping matches included. Windows end before the closing
    /// `Stop`, which is no residue. An empty motif matches nowhere.
    pub fn find_motif_locations(&self, motif: &ProteinMotif) -> (r: Vec<usize>)
        ensures
            r@ == motif_locations_of(motif@, residues_of(self@)),
    {
        let mut locations: Vec<usize> = Vec::new();
        let len = self.sequence.len();
        let body_len = if len > 0 && self.sequence[len - 1] == AminoAcid::Stop {
            len - 1
        } else {
            len
        };
        let (body, _) = self.sequence.as_slice().split_at(body_len);
        assert(body@ =~= residues_of(self@));
        let m = motif.len();
        if m == 0 || m > body.len() {
            return locations;
        }
        let n = body.len() - m + 1;
        let mut i: usize = 0;
        while i < n
            invariant
                i <= n == body@.len() - m + 1,
                0 < m == motif@.len() <= body@.len(),
                body@ == residues_of(self@),
                locations@ == motif_hits_before(motif@, body@, i as nat),
            decreases n - i,
        {
            if motif.matches(body, i) {
                locations.push(i + 1);
            }
            i += 1;
        }
        locations
    }
}

} // verus!
