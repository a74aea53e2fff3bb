//! DNA bases and sequences, with the operations the solvers build on.

use crate::utils::text::{chars_of, invalid_symbol, invalid_symbol_message, push_char};
use vstd::prelude::*;

verus! {

/// One of the four DNA nucleotides.
#[derive(Clone, Copy, Debug, PartialEq, Eq, Structural, PartialOrd, Ord, Hash)]
pub enum DnaBase {
    A,
    C,
    G,
    T,
}

/// The base a character stands for, in either case.
pub open spec fn dna_base_of(c: char) -> Option<DnaBase> {
    match c {
        'a' | 'A' => Some(DnaBase::A),
        'c' | 'C' => Some(DnaBase::C),
        'g' | 'G' => Some(DnaBase::G),
        't' | 'T' => Some(DnaBase::T),
        _ => None,
    }
}

/// The canonical upper-case letter of a base.
pub open spec fn dna_letter(b: DnaBase) -> char {
    match b {
        DnaBase::A => 'A',
        DnaBase::C => 'C',
        DnaBase::G => 'G',
        DnaBase::T => 'T',
    }
}

/// The Watson-Crick partner of a base.
pub open spec fn complement(b: DnaBase) -> DnaBase {
    match b {
        DnaBase::A => DnaBase::T,
        DnaBase::C => DnaBase::G,
        DnaBase::G => DnaBase::C,
        DnaBase::T => DnaBase::A,
    }
}

/// Whether every character of `s` is a DNA letter.
pub open spec fn is_dna_text(s: Seq<char>) -> bool {
    forall|i: int| 0 <= i < s.len() ==> (#[trigger] dna_base_of(s[i])) is Some
}

/// The bases that valid DNA text spells.
pub open spec fn dna_of_text(s: Seq<char>) -> Seq<DnaBase> {
    s.map_values(|c: char| dna_base_of(c)->Some_0)
}

/// `e` is the error for text whose first character outside the alphabet is at `i`.
pub open spec fn dna_rejection_at(s: Seq<char>, e: Seq<char>, i: int) -> bool {
    &&& 0 <= i < s.len()
    &&& forall|j: int| 0 <= j < i ==> (#[trigger] dna_base_of(s[j])) is Some
    &&& dna_base_of(s[i]) is None
    &&& e == invalid_symbol_message(s[i], "dna"@)
}

/// `e` is the error reported for text that is not DNA.
pub open spec fn dna_rejection(s: Seq<char>, e: Seq<char>) -> bool {
    exists|i: int| dna_rejection_at(s, e, i)
}

/// Upper-case text of a sequence of bases.
pub open spec fn dna_text(s: Seq<DnaBase>) -> Seq<char> {
    s.map_values(|b: DnaBase| dna_letter(b))
}

/// The reverse complement: the order reversed and each base complemented.
pub open spec fn reverse_complement_of(s: Seq<DnaBase>) -> Seq<DnaBase> {
    Seq::new(s.len(), |i: int| complement(s[s.len() - 1 - i]))
}

/// Number of positions below `n` at which `a` and `b` differ.
pub open spec fn mismatches(a: Seq<DnaBase>, b: Seq<DnaBase>, n: nat) -> nat
    decreases n,
{
    if n == 0 {
        0
    } else {
        mismatches(a, b, (n - 1) as nat) + if a[n - 1] != b[n - 1] {
            1nat
        } else {
            0nat
        }
    }
}

/// The Hamming distance of two sequences of equal length.
pub open spec fn hamming(a: Seq<DnaBase>, b: Seq<DnaBase>) -> nat {
    mismatches(a, b, a.len())
}

/// Whether `p` occurs in `s` starting at index `i`.
pub open spec fn occurs_at(s: Seq<DnaBase>, p: Seq<DnaBase>, i: int) -> bool {
    0 <= i && i + p.len() <= s.len() && s.subrange(i, i + p.len()) == p
}

/// The 1-based starts of `p` in `s` among the 0-based starts below `n`, ascending.
pub open spec fn located_before(s: Seq<DnaBase>, p: Seq<DnaBase>, n: nat) -> Seq<usize>
    decreases n,
{
    if n == 0 {
        seq![]
    } else {
        located_before(s, p, (n - 1) as nat) + if occurs_at(s, p, n - 1) {
            seq![n as usize]
        } else {
            seq![]
        }
    }
}

/// The 1-based starts reported by a substring scan: 0-based starts run below
/// `s.len() - p.len()`, and a pattern at least as long as `s` is found nowhere.
pub open spec fn substring_locations_of(s: Seq<DnaBase>, p: Seq<DnaBase>) -> Seq<usize> {
    if p.len() < s.len() {
        located_before(s, p, (s.len() - p.len()) as nat)
    } else {
        seq![]
    }
}

/// The ranges of the fragments that occur in `s` at `i`, in fragment order.
pub open spec fn hits_at(s: Seq<DnaBase>, frags: Seq<Seq<DnaBase>>, i: int) -> Seq<(usize, usize)>
    decreases frags.len(),
{
    if frags.len() == 0 {
        seq![]
    } else {
        hits_at(s, frags.drop_last(), i) + if occurs_at(s, frags.last(), i) {
            seq![(i as usize, (i + frags.last().len()) as usize)]
        } else {
            seq![]
        }
    }
}

/// The ranges of all fragment occurrences starting below `n`, by start, then fragment.
pub open spec fn hits_before(s: Seq<DnaBase>, frags: Seq<Seq<DnaBase>>, n: nat) -> Seq<(usize, usize)>
    decreases n,
{
    if n == 0 {
        seq![]
    } else {
        hits_before(s, frags, (n - 1) as nat) + hits_at(s, frags, n - 1)
    }
}

/// Every occurrence of every fragment in `s`, as (start, end-exclusive), sorted by start.
pub open spec fn intron_locations_of(s: Seq<DnaBase>, frags: Seq<Seq<DnaBase>>) -> Seq<(usize, usize)> {
    hits_before(s, frags, s.len() + 1)
}

/// Whether index `i` lies in one of the ranges.
pub open spec fn covered(locs: Seq<(usize, usize)>, i: int) -> bool {
    exists|k: int| 0 <= k < locs.len() && (#[trigger] locs[k]).0 <= i < locs[k].1
}

/// The symbols below `n` that no range covers, in order.
pub open spec fn kept_before(s: Seq<DnaBase>, locs: Seq<(usize, usize)>, n: nat) -> Seq<DnaBase>
    decreases n,
{
    if n == 0 {
        seq![]
    } else {
        kept_before(s, locs, (n - 1) as nat) + if covered(locs, n - 1) {
            seq![]
        } else {
            seq![s[n - 1]]
        }
    }
}

/// `s` with every covered position removed.
pub open spec fn spliced(s: Seq<DnaBase>, locs: Seq<(usize, usize)>) -> Seq<DnaBase> {
    kept_before(s, locs, s.len())
}

/// Number of bases below `n` that are `b`.
pub open spec fn count_before(s: Seq<DnaBase>, b: DnaBase, n: nat) -> nat
    decreases n,
{
    if n == 0 {
        0
    } else {
        count_before(s, b, (n - 1) as nat) + if s[n - 1] == b {
            1nat
        } else {
            0nat
        }
    }
}

/// Number of occurrences of `b` in `s`.
pub open spec fn base_count(s: Seq<DnaBase>, b: DnaBase) -> nat {
    count_before(s, b, s.len())
}

/// Reverse complement is an involution: applied twice it gives back the sequence.
pub proof fn reverse_complement_involution(s: Seq<DnaBase>)
    ensures
        reverse_complement_of(reverse_complement_of(s)) == s,
{
    assert(reverse_complement_of(reverse_complement_of(s)) =~= s);
}

proof fn mismatches_symmetric(a: Seq<DnaBase>, b: Seq<DnaBase>, n: nat)
    ensures
        mismatches(a, b, n) == mismatches(b, a, n),
        mismatches(a, a, n) == 0,
    decreases n,
{
    if n > 0 {
        mismatches_symmetric(a, b, (n - 1) as nat);
    }
}

/// The Hamming distance is symmetric, and zero from a sequence to itself.
pub proof fn hamming_symmetric(a: Seq<DnaBase>, b: Seq<DnaBase>)
    requires
        a.len() == b.len(),
    ensures
        hamming(a, b) == hamming(b, a),
        hamming(a, a) == 0,
{
    mismatches_symmetric(a, b, a.len());
}

proof fn mismatches_bound(a: Seq<DnaBase>, b: Seq<DnaBase>, n: nat)
    ensures
        mismatches(a, b, n) <= n,
    decreases n,
{
    if n > 0 {
        mismatches_bound(a, b, (n - 1) as nat);
    }
}

proof fn count_bound(s: Seq<DnaBase>, b: DnaBase, n: nat)
    ensures
        count_before(s, b, n) <= n,
    decreases n,
{
    if n > 0 {
        count_bound(s, b, (n - 1) as nat);
    }
}

proof fn gc_bound(s: Seq<DnaBase>, n: nat)
    ensures
        count_before(s, DnaBase::C, n) + count_before(s, DnaBase::G, n) <= n,
    decreases n,
{
    if n > 0 {
        gc_bound(s, (n - 1) as nat);
    }
}

impl DnaBase {
    /// The base a character stands for, in either case.
    pub fn from_char(c: char) -> (r: Option<DnaBase>)
        ensures
            r == dna_base_of(c),
    {
        match c {
            'a' | 'A' => Some(DnaBase::A),
            'c' | 'C' => Some(DnaBase::C),
            'g' | 'G' => Some(DnaBase::G),
            't' | 'T' => Some(DnaBase::T),
            _ => None,
        }
    }

    /// The upper-case letter of this base.
    pub fn letter(&self) -> (r: char)
        ensures
            r == dna_letter(*self),
    {
        match self {
            DnaBase::A => 'A',
            DnaBase::C => 'C',
            DnaBase::G => 'G',
            DnaBase::T => 'T',
        }
    }

    /// The complementary base.
    pub fn complement(&self) -> (r: DnaBase)
        ensures
            r == complement(*self),
    {
        match self {
            DnaBase::A => DnaBase::T,
            DnaBase::C => DnaBase::G,
            DnaBase::G => DnaBase::C,
            DnaBase::T => DnaBase::A,
        }
    }
}

/// A DNA sequence: an ordered list of bases.
#[derive(Debug, Clone, Eq, PartialOrd, Ord)]
pub struct Dna {
    sequence: Vec<DnaBase>,
}

impl View for Dna {
    type V = Seq<DnaBase>;

    closed spec fn view(&self) -> Seq<DnaBase> {
        self.sequence@
    }
}

impl PartialEq for Dna {
    fn eq(&self, other: &Dna) -> (r: bool) {
        self.same_bases(other)
    }
}

impl vstd::std_specs::cmp::PartialEqSpecImpl for Dna {
    open spec fn obeys_eq_spec() -> bool {
        true
    }

    open spec fn eq_spec(&self, other: &Dna) -> bool {
        self@ == other@
    }
}

impl From<Vec<DnaBase>> for Dna {
    fn from(value: Vec<DnaBase>) -> (r: Dna) {
        Dna { sequence: value }
    }
}

impl vstd::std_specs::convert::FromSpecImpl<Vec<DnaBase>> for Dna {
    open spec fn obeys_from_spec() -> bool {
        true
    }

    open spec fn from_spec(v: Vec<DnaBase>) -> Dna {
        Dna::with_bases(v)
    }
}

/// Conversion through the trait states nothing; [`Dna::parse`] carries the contract.
impl TryFrom<&str> for Dna {
    type Error = String;

    fn try_from(value: &str) -> (r: Result<Dna, String>) {
        Dna::parse(value)
    }
}

impl vstd::std_specs::convert::TryFromSpecImpl<&str> for Dna {
    open spec fn obeys_try_from_spec() -> bool {
        false
    }

    open spec fn try_from_spec(v: &str) -> Result<Dna, String> {
        vstd::pervasive::arbitrary()
    }
}

/// Conversion through the trait states nothing; [`Dna::parse`] carries the contract.
impl TryFrom<String> for Dna {
    type Error = String;

    fn try_from(value: String) -> (r: Result<Dna, String>) {
        Dna::parse(value.as_str())
    }
}

impl vstd::std_specs::convert::TryFromSpecImpl<String> for Dna {
    open spec fn obeys_try_from_spec() -> bool {
        false
    }

    open spec fn try_from_spec(v: String) -> Result<Dna, String> {
        vstd::pervasive::arbitrary()
    }
}

impl Dna {
    /// The sequence made of exactly these bases.
    pub closed spec fn with_bases(v: Vec<DnaBase>) -> Dna {
        Dna { sequence: v }
    }

    /// Wraps a vector of bases.
    pub fn new(sequence: Vec<DnaBase>) -> (r: Dna)
        ensures
            r@ == sequence@,
    {
        Dna { sequence }
    }

    /// Parses DNA text, in either case.
    pub fn parse_chars(text: &[char]) -> (r: Result<Dna, String>)
        ensures
            r is Ok <==> is_dna_text(text@),
            r is Ok ==> r->Ok_0@ == dna_of_text(text@),
            r is Err ==> dna_rejection(text@, r->Err_0@),
    {
        let mut sequence: Vec<DnaBase> = Vec::with_capacity(text.len());
        let mut i: usize = 0;
        while i < text.len()
            invariant
                i <= text.len(),
                sequence@ == dna_of_text(text@.take(i as int)),
                forall|j: int| 0 <= j < i ==> (#[trigger] dna_base_of(text@[j])) is Some,
            decreases text.len() - i,
        {
            match DnaBase::from_char(text[i]) {
                Some(b) => sequence.push(b),
                None => {
                    let e = invalid_symbol(text[i], "dna");
                    assert(dna_rejection_at(text@, e@, i as int));
                    return Err(e);
                },
            }
            i += 1;
            assert(text@.take(i as int) =~= text@.take(i - 1).push(text@[i - 1]));
            assert(dna_of_text(text@.take(i as int)) =~= dna_of_text(text@.take(i - 1)).push(
                dna_base_of(text@[i - 1])->Some_0,
            ));
        }
        assert(text@.take(i as int) =~= text@);
        Ok(Dna { sequence })
    }

    /// Parses DNA text, in either case.
    pub fn parse(text: &str) -> (r: Result<Dna, String>)
        ensures
            r is Ok <==> is_dna_text(text@),
            r is Ok ==> r->Ok_0@ == dna_of_text(text@),
            r is Err ==> dna_rejection(text@, r->Err_0@),
    {
        let chars = chars_of(text);
        Dna::parse_chars(chars.as_slice())
    }

    /// Number of bases.
    pub fn len(&self) -> (r: usize)
        ensures
            r == self@.len(),
    {
        self.sequence.len()
    }

    fn same_bases(&self, other: &Dna) -> (r: bool)
        ensures
            r == (self@ == other@),
    {
        if self.sequence.len() != other.sequence.len() {
            return false;
        }
        let mut i: usize = 0;
        while i < self.sequence.len()
            invariant
                i <= self.sequence.len() == other.sequence.len(),
                forall|j: int| 0 <= j < i ==> self.sequence@[j] == other.sequence@[j],
            decreases self.sequence.len() - i,
        {
            if self.sequence[i] != other.sequence[i] {
                return false;
            }
            i += 1;
        }
        assert(self.sequence@ =~= other.sequence@);
        true
    }

    /// A copy of this sequence.
    pub fn duplicate(&self) -> (r: Dna)
        ensures
            r@ == self@,
    {
        let mut sequence: Vec<DnaBase> = Vec::with_capacity(self.sequence.len());
        let mut i: usize = 0;
        while i < self.sequence.len()
            invariant
                i <= self.sequence.len(),
                sequence@ == self.sequence@.take(i as int),
            decreases self.sequence.len() - i,
        {
            sequence.push(self.sequence[i]);
            i += 1;
            assert(sequence@ =~= self.sequence@.take(i as int));
        }
        assert(self.sequence@.take(i as int) =~= self.sequence@);
        Dna { sequence }
    }

    /// The bases, as a slice.
    pub fn sequence(&self) -> (r: &[DnaBase])
        ensures
            r@ == self@,
    {
        self.sequence.as_slice()
    }

    /// An iterator over the bases, in order.
    pub fn iter(&self) -> (r: std::slice::Iter<'_, DnaBase>)
        ensures
            vstd::std_specs::slice::into_iter_elts(r) == self@,
    {
        self.sequence.as_slice().iter()
    }

    /// Whether `p` occurs in this sequence starting at `i`.
    fn occurs_at(&self, p: &Dna, i: usize) -> (r: bool)
        ensures
            r == occurs_at(self@, p@, i as int),
    {
        if i > self.sequence.len() || p.sequence.len() > self.sequence.len() - i {
            return false;
        }
        let mut j: usize = 0;
        while j < p.sequence.len()
            invariant
                j <= p.sequence.len(),
                i + p.sequence.len() <= self.sequence.len(),
                forall|k: int| 0 <= k < j ==> self.sequence@[i + k] == p.sequence@[k],
            decreases p.sequence.len() - j,
        {
            if self.sequence[i + j] != p.sequence[j] {
                assert(self@.subrange(i as int, i + p@.len())[j as int] != p@[j as int]);
                return false;
            }
            j += 1;
        }
        assert(self@.subrange(i as int, i + p@.len()) =~= p@);
        true
    }

    /// All occurrences of the fragments, as (start, end-exclusive) ranges sorted by
    /// start; occurrences at one start come in the order of the fragments.
    pub fn get_intron_locations(&self, introns: &[&Dna]) -> (r: Vec<(usize, usize)>)
        requires
            self@.len() < usize::MAX,
        ensures
            r@ == intron_locations_of(self@, introns@.map_values(|d: &Dna| d@)),
    {
        let ghost frags = introns@.map_values(|d: &Dna| d@);
        let mut locations: Vec<(usize, usize)> = Vec::new();
        let mut i: usize = 0;
        while i <= self.sequence.len()
            invariant
                i <= self.sequence.len() + 1,
                self@.len() < usize::MAX,
                frags == introns@.map_values(|d: &Dna| d@),
                locations@ == hits_before(self@, frags, i as nat),
            decreases self.sequence.len() + 1 - i,
        {
            let ghost before = locations@;
            let mut j: usize = 0;
            while j < introns.len()
                invariant
                    j <= introns.len(),
                    i <= self@.len() < usize::MAX,
                    frags == introns@.map_values(|d: &Dna| d@),
                    locations@ == before + hits_at(self@, frags.take(j as int), i as int),
                decreases introns.len() - j,
            {
                let intron = introns[j];
                assert(frags.take(j + 1).drop_last() =~= frags.take(j as int));
                if self.occurs_at(intron, i) {
                    assert(i + intron@.len() <= self@.len());
                    locations.push((i, i + intron.len()));
                }
                j += 1;
                assert(locations@ =~= before + hits_at(self@, frags.take(j as int), i as int));
            }
            assert(frags.take(j as int) =~= frags);
            i += 1;
        }
        locations
    }

    /// Whether some range covers index `i`.
    fn is_covered(locations: &[(usize, usize)], i: usize) -> (r: bool)
        ensures
            r == covered(locations@, i as int),
    {
        let mut k: usize = 0;
        while k < locations.len()
            invariant
                k <= locations.len(),
                forall|m: int| 0 <= m < k ==> !((#[trigger] locations@[m]).0 <= i < locations@[m].1),
            decreases locations.len() - k,
        {
            let (start, end) = locations[k];
            if start <= i && i < end {
                assert(locations@[k as int].0 <= i < locations@[k as int].1);
                return true;
            }
            k += 1;
        }
        false
    }

    /// Removes every position that one of the ranges covers, keeping the order
    /// of the rest. Overlapping ranges are allowed.
    pub fn remove_introns_join_exons(&mut self, intron_locations: &[(usize, usize)])
        ensures
            final(self)@ == spliced(old(self)@, intron_locations@),
    {
        let mut kept: Vec<DnaBase> = Vec::new();
        let mut i: usize = 0;
        while i < self.sequence.len()
            invariant
                i <= self.sequence.len(),
                kept@ == kept_before(self@, intron_locations@, i as nat),
            decreases self.sequence.len() - i,
        {
            if !Dna::is_covered(intron_locations, i) {
                kept.push(self.sequence[i]);
            }
            i += 1;
        }
        self.sequence = kept;
    }

    /// Replaces this sequence by its reverse complement.
    pub fn reverse_complement(&mut self)
        ensures
            final(self)@ == reverse_complement_of(old(self)@),
    {
        let n = self.sequence.len();
        let mut rev_comp: Vec<DnaBase> = Vec::with_capacity(n);
        let mut i: usize = 0;
        while i < n
            invariant
                i <= n == self.sequence.len(),
                rev_comp@.len() == i,
                forall|j: int| 0 <= j < i ==> rev_comp@[j] == complement(self.sequence@[n - 1 - j]),
            decreases n - i,
        {
            rev_comp.push(self.sequence[n - 1 - i].complement());
            i += 1;
        }
        assert(rev_comp@ =~= reverse_complement_of(self@));
        self.sequence = rev_comp;
    }

    /// The number of positions at which two sequences of equal length differ.
    pub fn hamming_distance(&self, other: &Dna) -> (r: Result<u32, String>)
        requires
            self@.len() <= u32::MAX,
        ensures
            r is Err <==> self@.len() != other@.len(),
            r is Ok ==> r->Ok_0 == hamming(self@, other@),
            r is Err ==> r->Err_0@ == "Sequences not of equal length"@,
    {
        if self.sequence.len() != other.sequence.len() {
            return Err(String::from_str("Sequences not of equal length"));
        }
        let mut distance: u32 = 0;
        let mut i: usize = 0;
        while i < self.sequence.len()
            invariant
                i <= self.sequence.len() == other.sequence.len() <= u32::MAX,
                distance == mismatches(self@, other@, i as nat),
            decreases self.sequence.len() - i,
        {
            proof {
                mismatches_bound(self@, other@, (i + 1) as nat);
            }
            if self.sequence[i] != other.sequence[i] {
                distance += 1;
            }
            i += 1;
        }
        Ok(distance)
    }

    /// The 1-based starts of `other` in this sequence, ascending. Starts are tried
    /// below `len - other.len()`; a pattern at least as long as the sequence is
    /// found nowhere.
    pub fn substring_locations(&self, other: &Dna) -> (r: Vec<usize>)
        ensures
            r@ == substring_locations_of(self@, other@),
    {
        let mut locations: Vec<usize> = Vec::new();
        if other.sequence.len() >= self.sequence.len() {
            return locations;
        }
        let n = self.sequence.len() - other.sequence.len();
        let mut i: usize = 0;
        while i < n
            invariant
                i <= n == self@.len() - other@.len(),
                other@.len() < self@.len(),
                locations@ == located_before(self@, other@, i as nat),
            decreases n - i,
        {
            if self.occurs_at(other, i) {
                locations.push(i + 1);
            }
            i += 1;
        }
        locations
    }

    /// Number of bases equal to `b`.
    pub fn count(&self, b: DnaBase) -> (r: usize)
        ensures
            r == base_count(self@, b),
    {
        let mut count: usize = 0;
        let mut i: usize = 0;
        while i < self.sequence.len()
            invariant
                i <= self.sequence.len(),
                count == count_before(self@, b, i as nat),
            decreases self.sequence.len() - i,
        {
            proof {
                count_bound(self@, b, (i + 1) as nat);
            }
            if self.sequence[i] == b {
                count += 1;
            }
            i += 1;
        }
        count
    }

    /// Number of bases that are `C` or `G`.
    pub fn gc_count(&self) -> (r: usize)
        ensures
            r == base_count(self@, DnaBase::C) + base_count(self@, DnaBase::G),
    {
        let mut count: usize = 0;
        let mut i: usize = 0;
        while i < self.sequence.len()
            invariant
                i <= self.sequence.len(),
                count == count_before(self@, DnaBase::C, i as nat) + count_before(self@, DnaBase::G, i as nat),
            decreases self.sequence.len() - i,
        {
            proof {
                gc_bound(self@, (i + 1) as nat);
            }
            match self.sequence[i] {
                DnaBase::C | DnaBase::G => count += 1,
                _ => {},
            }
            i += 1;
        }
        count
    }

    /// The first `k` bases; `None` when the sequence is shorter than `k`.
    pub fn prefix(&self, k: usize) -> (r: Option<&[DnaBase]>)
        ensures
            r is None <==> k > self@.len(),
            r matches Some(p) ==> p@ == self@.take(k as int),
    {
        if k > self.sequence.len() {
            return None;
        }
        Some(slice_prefix(self.sequence.as_slice(), k))
    }

    /// The last `k` bases; `None` when the sequence is shorter than `k`.
    pub fn suffix(&self, k: usize) -> (r: Option<&[DnaBase]>)
        ensures
            r is None <==> k > self@.len(),
            r matches Some(s) ==> s@ == self@.skip(self@.len() - k),
    {
        let len = self.sequence.len();
        if k > len {
            return None;
        }
        Some(slice_suffix(self.sequence.as_slice(), len - k))
    }

    /// Consecutive non-overlapping groups of `chunk_size` bases from the start; an
    /// incomplete group at the end is dropped.
    pub fn chunks_exact(&self, chunk_size: usize) -> (r: Vec<Vec<DnaBase>>)
        requires
            chunk_size > 0,
        ensures
            r@.len() == self@.len() / (chunk_size as nat),
            forall|i: int|
                0 <= i < r@.len() ==> (#[trigger] r@[i])@ == self@.subrange(
                    i * chunk_size,
                    i * chunk_size + chunk_size,
                ),
    {
        let n = self.sequence.len() / chunk_size;
        let mut chunks: Vec<Vec<DnaBase>> = Vec::new();
        let mut i: usize = 0;
        while i < n
            invariant
                i <= n == self@.len() / (chunk_size as nat),
                chunk_size > 0,
                chunks@.len() == i,
                forall|m: int|
                    0 <= m < i ==> (#[trigger] chunks@[m])@ == self@.subrange(
                        m * chunk_size,
                        m * chunk_size + chunk_size,
                    ),
            decreases n - i,
        {
            proof {
                assert((i + 1) * chunk_size <= self@.len()) by (nonlinear_arith)
                    requires
                        i < n,
                        n == self@.len() / (chunk_size as nat),
                        chunk_size > 0,
                ;
                assert((i + 1) * chunk_size == i * chunk_size + chunk_size) by (nonlinear_arith);
                assert(i * chunk_size + chunk_size <= self.sequence.len());
            }
            let start = i * chunk_size;
            let mut chunk: Vec<DnaBase> = Vec::with_capacity(chunk_size);
            let mut j: usize = 0;
            while j < chunk_size
                invariant
                    j <= chunk_size,
                    start + chunk_size <= self.sequence.len(),
                    chunk@ == self@.subrange(start as int, start + j),
                decreases chunk_size - j,
            {
                chunk.push(self.sequence[start + j]);
                j += 1;
                assert(chunk@ =~= self@.subrange(start as int, start + j));
            }
            chunks.push(chunk);
            i += 1;
        }
        chunks
    }

    /// The sequence as upper-case text.
    pub fn to_text(&self) -> (r: String)
        ensures
            r@ == dna_text(self@),
    {
        let mut s = String::new();
        let mut i: usize = 0;
        while i < self.sequence.len()
            invariant
                i <= self.sequence.len(),
                s@ == dna_text(self@.take(i as int)),
            decreases self.sequence.len() - i,
        {
            push_char(&mut s, self.sequence[i].letter());
            i += 1;
            assert(s@ =~= dna_text(self@.take(i as int)));
        }
        assert(self@.take(i as int) =~= self@);
        s
    }
}

/// The first `k` items of a slice.
fn slice_prefix<T>(s: &[T], k: usize) -> (r: &[T])
    requires
        k <= s@.len(),
    ensures
        r@ == s@.take(k as int),
{
    let (front, _) = s.split_at(k);
    front
}

/// The items of a slice from index `k` on.
fn slice_suffix<T>(s: &[T], k: usize) -> (r: &[T])
    requires
        k <= s@.len(),
    ensures
        r@ == s@.skip(k as int),
{
    let (_, back) = s.split_at(k);
    back
}

} // verus!
