//! RNA bases and sequences, and transcription from DNA.

use crate::utils::dna::{Dna, DnaBase};
use crate::utils::text::{chars_of, invalid_symbol, invalid_symbol_message, push_char};
use vstd::prelude::*;

verus! {

/// One of the four RNA nucleotides.
#[derive(Clone, Copy, Debug, PartialEq, Eq, Structural)]
pub enum RnaBase {
    A,
    C,
    G,
    U,
}

/// The base a character stands for, in either case.
pub open spec fn rna_base_of(c: char) -> Option<RnaBase> {
    match c {
        'a' | 'A' => Some(RnaBase::A),
        'c' | 'C' => Some(RnaBase::C),
        'g' | 'G' => Some(RnaBase::G),
        'u' | 'U' => Some(RnaBase::U),
        _ => None,
    }
}

/// The canonical upper-case letter of a base.
pub open spec fn rna_letter(b: RnaBase) -> char {
    match b {
        RnaBase::A => 'A',
        RnaBase::C => 'C',
        RnaBase::G => 'G',
        RnaBase::U => 'U',
    }
}

/// The RNA base a DNA base is transcribed to (`T` becomes `U`).
pub open spec fn transcribed(b: DnaBase) -> RnaBase {
    match b {
        DnaBase::A => RnaBase::A,
        DnaBase::C => RnaBase::C,
        DnaBase::G => RnaBase::G,
        DnaBase::T => RnaBase::U,
    }
}

/// The DNA base with the same letter, `U` read as `T`.
pub open spec fn as_dna(b: RnaBase) -> DnaBase {
    match b {
        RnaBase::A => DnaBase::A,
        RnaBase::C => DnaBase::C,
        RnaBase::G => DnaBase::G,
        RnaBase::U => DnaBase::T,
    }
}

/// Whether every character of `s` is an RNA letter.
pub open spec fn is_rna_text(s: Seq<char>) -> bool {
    forall|i: int| 0 <= i < s.len() ==> (#[trigger] rna_base_of(s[i])) is Some
}

/// The bases that valid RNA text spells.
pub open spec fn rna_of_text(s: Seq<char>) -> Seq<RnaBase> {
    s.map_values(|c: char| rna_base_of(c)->Some_0)
}

/// `e` is the error for text whose first character outside the alphabet is at `i`.
pub open spec fn rna_rejection_at(s: Seq<char>, e: Seq<char>, i: int) -> bool {
    &&& 0 <= i < s.len()
    &&& forall|j: int| 0 <= j < i ==> (#[trigger] rna_base_of(s[j])) is Some
    &&& rna_base_of(s[i]) is None
    &&& e == invalid_symbol_message(s[i], "rna"@)
}

/// `e` is the error reported for text that is not RNA.
pub open spec fn rna_rejection(s: Seq<char>, e: Seq<char>) -> bool {
    exists|i: int| rna_rejection_at(s, e, i)
}

/// Upper-case text of a sequence of bases.
pub open spec fn rna_text(s: Seq<RnaBase>) -> Seq<char> {
    s.map_values(|b: RnaBase| rna_letter(b))
}

/// Transcription of a whole DNA sequence.
pub open spec fn transcription(s: Seq<DnaBase>) -> Seq<RnaBase> {
    s.map_values(|b: DnaBase| transcribed(b))
}

impl RnaBase {
    /// The base a character stands for, in either case.
    pub fn from_char(c: char) -> (r: Option<RnaBase>)
        ensures
            r == rna_base_of(c),
    {
        match c {
            'a' | 'A' => Some(RnaBase::A),
            'c' | 'C' => Some(RnaBase::C),
            'g' | 'G' => Some(RnaBase::G),
            'u' | 'U' => Some(RnaBase::U),
            _ => None,
        }
    }

    /// The upper-case letter of this base.
    pub fn letter(&self) -> (r: char)
        ensures
            r == rna_letter(*self),
    {
        match self {
            RnaBase::A => 'A',
            RnaBase::C => 'C',
            RnaBase::G => 'G',
            RnaBase::U => 'U',
        }
    }

    /// The RNA base a DNA base is transcribed to.
    pub fn transcribe(b: DnaBase) -> (r: RnaBase)
        ensures
            r == transcribed(b),
    {
        match b {
            DnaBase::A => RnaBase::A,
            DnaBase::C => RnaBase::C,
            DnaBase::G => RnaBase::G,
            DnaBase::T => RnaBase::U,
        }
    }

    /// The DNA base with the same letter, `U` read as `T`.
    pub fn as_dna(&self) -> (r: DnaBase)
        ensures
            r == as_dna(*self),
    {
        match self {
            RnaBase::A => DnaBase::A,
            RnaBase::C => DnaBase::C,
            RnaBase::G => DnaBase::G,
            RnaBase::U => DnaBase::T,
        }
    }
}

/// An RNA sequence: an ordered list of bases.
#[derive(Debug)]
pub struct Rna {
    sequence: Vec<RnaBase>,
}

impl View for Rna {
    type V = Seq<RnaBase>;

    closed spec fn view(&self) -> Seq<RnaBase> {
        self.sequence@
    }
}

impl PartialEq for Rna {
    fn eq(&self, other: &Rna) -> (r: bool) {
        self.same_bases(other)
    }
}

impl vstd::std_specs::cmp::PartialEqSpecImpl for Rna {
    open spec fn obeys_eq_spec() -> bool {
        true
    }

    open spec fn eq_spec(&self, other: &Rna) -> bool {
        self@ == other@
    }
}

/// Conversion through the trait states nothing; [`Rna::parse`] carries the contract.
impl TryFrom<&str> for Rna {
    type Error = String;

    fn try_from(value: &str) -> (r: Result<Rna, String>) {
        Rna::parse(value)
    }
}

impl vstd::std_specs::convert::TryFromSpecImpl<&str> for Rna {
    open spec fn obeys_try_from_spec() -> bool {
        false
    }

    open spec fn try_from_spec(v: &str) -> Result<Rna, String> {
        vstd::pervasive::arbitrary()
    }
}

/// Conversion through the trait states nothing; [`Rna::parse`] carries the contract.
impl TryFrom<String> for Rna {
    type Error = String;

    fn try_from(value: String) -> (r: Result<Rna, String>) {
        Rna::parse(value.as_str())
    }
}

impl vstd::std_specs::convert::TryFromSpecImpl<String> for Rna {
    open spec fn obeys_try_from_spec() -> bool {
        false
    }

    open spec fn try_from_spec(v: String) -> Result<Rna, String> {
        vstd::pervasive::arbitrary()
    }
}

impl Rna {
    /// Wraps a vector of bases.
    pub fn new(sequence: Vec<RnaBase>) -> (r: Rna)
        ensures
            r@ == sequence@,
    {
        Rna { sequence }
    }

    /// Parses RNA text, in either case.
    pub fn parse_chars(text: &[char]) -> (r: Result<Rna, String>)
        ensures
            r is Ok <==> is_rna_text(text@),
            r is Ok ==> r->Ok_0@ == rna_of_text(text@),
            r is Err ==> rna_rejection(text@, r->Err_0@),
    {
        let mut sequence: Vec<RnaBase> = Vec::with_capacity(text.len());
        let mut i: usize = 0;
        while i < text.len()
            invariant
                i <= text.len(),
                sequence@ == rna_of_text(text@.take(i as int)),
                forall|j: int| 0 <= j < i ==> (#[trigger] rna_base_of(text@[j])) is Some,
            decreases text.len() - i,
        {
            match RnaBase::from_char(text[i]) {
                Some(b) => sequence.push(b),
                None => {
                    let e = invalid_symbol(text[i], "rna");
                    assert(rna_rejection_at(text@, e@, i as int));
                    return Err(e);
                },
            }
            i += 1;
            assert(text@.take(i as int) =~= text@.take(i - 1).push(text@[i - 1]));
            assert(rna_of_text(text@.take(i as int)) =~= rna_of_text(text@.take(i - 1)).push(
                rna_base_of(text@[i - 1])->Some_0,
            ));
        }
        assert(text@.take(i as int) =~= text@);
        Ok(Rna { sequence })
    }

    /// Parses RNA text, in either case.
    pub fn parse(text: &str) -> (r: Result<Rna, String>)
        ensures
            r is Ok <==> is_rna_text(text@),
            r is Ok ==> r->Ok_0@ == rna_of_text(text@),
            r is Err ==> rna_rejection(text@, r->Err_0@),
    {
        let chars = chars_of(text);
        Rna::parse_chars(chars.as_slice())
    }

    /// Transcribes DNA: each `T` becomes `U`.
    pub fn from_dna(dna: &Dna) -> (r: Rna)
        ensures
            r@ == transcription(dna@),
    {
        let bases = dna.sequence();
        let mut sequence: Vec<RnaBase> = Vec::with_capacity(bases.len());
        let mut i: usize = 0;
        while i < bases.len()
            invariant
                i <= bases.len(),
                bases@ == dna@,
                sequence@ == transcription(dna@.take(i as int)),
            decreases bases.len() - i,
        {
            sequence.push(RnaBase::transcribe(bases[i]));
            i += 1;
            assert(sequence@ =~= transcription(dna@.take(i as int)));
        }
        assert(dna@.take(i as int) =~= dna@);
        Rna { sequence }
    }

    fn same_bases(&self, other: &Rna) -> (r: bool)
        ensures
            r == (self@ == other@),
    {
        if self.sequence.len() != other.sequence.len() {
            return false;
        }
        let mut i: usize = 0;
        while i < self.sequence.len()
            invariant
                i <= self.sequence.len() == other.sequence.len(),
                forall|j: int| 0 <= j < i ==> self.sequence@[j] == other.sequence@[j],
            decreases self.sequence.len() - i,
        {
            if self.sequence[i] != other.sequence[i] {
                return false;
            }
            i += 1;
        }
        assert(self.sequence@ =~= other.sequence@);
        true
    }

    /// Number of bases.
    pub fn len(&self) -> (r: usize)
        ensures
            r == self@.len(),
    {
        self.sequence.len()
    }

    /// The bases, as a slice.
    pub fn sequence(&self) -> (r: &[RnaBase])
        ensures
            r@ == self@,
    {
        self.sequence.as_slice()
    }

    /// Consecutive non-overlapping groups of `chunk_size` bases from the start; an
    /// incomplete group at the end is dropped.
    pub fn chunks_exact(&self, chunk_size: usize) -> (r: Vec<Vec<RnaBase>>)
        requires
            chunk_size > 0,
        ensures
            r@.len() == self@.len() / (chunk_size as nat),
            forall|i: int|
                0 <= i < r@.len() ==> (#[trigger] r@[i])@ == self@.subrange(
                    i * chunk_size,
                    i * chunk_size + chunk_size,
                ),
    {
        let n = self.sequence.len() / chunk_size;
        let mut chunks: Vec<Vec<RnaBase>> = Vec::new();
        let mut i: usize = 0;
        while i < n
            invariant
                i <= n == self@.len() / (chunk_size as nat),
                chunk_size > 0,
                chunks@.len() == i,
                forall|m: int|
                    0 <= m < i ==> (#[trigger] chunks@[m])@ == self@.subrange(
                        m * chunk_size,
                        m * chunk_size + chunk_size,
                    ),
            decreases n - i,
        {
            proof {
                assert((i + 1) * chunk_size <= self@.len()) by (nonlinear_arith)
                    requires
                        i < n,
                        n == self@.len() / (chunk_size as nat),
                        chunk_size > 0,
                ;
                assert((i + 1) * chunk_size == i * chunk_size + chunk_size) by (nonlinear_arith);
                assert(i * chunk_size + chunk_size <= self.sequence.len());
            }
            let start = i * chunk_size;
            let mut chunk: Vec<RnaBase> = Vec::with_capacity(chunk_size);
            let mut j: usize = 0;
            while j < chunk_size
                invariant
                    j <= chunk_size,
                    start + chunk_size <= self.sequence.len(),
                    chunk@ == self@.subrange(start as int, start + j),
                decreases chunk_size - j,
            {
                chunk.push(self.sequence[start + j]);
                j += 1;
                assert(chunk@ =~= self@.subrange(start as int, start + j));
            }
            chunks.push(chunk);
            i += 1;
        }
        chunks
    }

    /// The sequence as upper-case text.
    pub fn to_text(&self) -> (r: String)
        ensures
            r@ == rna_text(self@),
    {
        let mut s = String::new();
        let mut i: usize = 0;
        while i < self.sequence.len()
            invariant
                i <= self.sequence.len(),
                s@ == rna_text(self@.take(i as int)),
            decreases self.sequence.len() - i,
        {
            push_char(&mut s, self.sequence[i].letter());
            i += 1;
            assert(s@ =~= rna_text(self@.take(i as int)));
        }
        assert(self@.take(i as int) =~= self@);
        s
    }
}

/// Conversion through the trait states nothing; [`Rna::from_dna`] carries the contract.
impl From<Dna> for Rna {
    fn from(value: Dna) -> (r: Rna) {
        Rna::from_dna(&value)
    }
}

impl vstd::std_specs::convert::FromSpecImpl<Dna> for Rna {
    open spec fn obeys_from_spec() -> bool {
        false
    }

    open spec fn from_spec(v: Dna) -> Rna {
        vstd::pervasive::arbitrary()
    }
}

/// Conversion through the trait states nothing; [`Rna::from_dna`] carries the contract.
impl From<&Dna> for Rna {
    fn from(value: &Dna) -> (r: Rna) {
        Rna::from_dna(value)
    }
}

impl vstd::std_specs::convert::FromSpecImpl<&Dna> for Rna {
    open spec fn obeys_from_spec() -> bool {
        false
    }

    open spec fn from_spec(v: &Dna) -> Rna {
        vstd::pervasive::arbitrary()
    }
}

} // verus!
