//! The FASTA format: records made of a `>` header line holding the identifier,
//! then lines of sequence text.

use crate::utils::dna::{dna_base_of, dna_letter, dna_of_text, dna_rejection, dna_text, is_dna_text, Dna, DnaBase};
use crate::utils::protein::{is_protein_text, protein_of_text, protein_rejection, Protein};
use crate::utils::rna::{is_rna_text, rna_of_text, rna_rejection, Rna};
use crate::utils::text::{chars_of, is_white, is_white_char, push_char};
use vstd::prelude::*;

verus! {

/// A sequence type that can be read from the text of a FASTA record.
pub trait Sequence: Sized + View {
    /// Whether the text is valid for this alphabet.
    spec fn accepts(text: Seq<char>) -> bool;

    /// The sequence that valid text denotes.
    spec fn parsed(text: Seq<char>) -> Self::V;

    /// `e` is the error reported for invalid text.
    spec fn rejects_with(text: Seq<char>, e: Seq<char>) -> bool;

    /// The text a sequence is written as.
    spec fn text_of(v: Self::V) -> Seq<char>;

    /// Parses sequence text.
    fn parse_chars(text: &[char]) -> (r: Result<Self, String>)
        ensures
            r is Ok <==> Self::accepts(text@),
            r is Ok ==> r->Ok_0@ == Self::parsed(text@),
            r is Err ==> Self::rejects_with(text@, r->Err_0@),
    ;

    /// Writes the sequence as text.
    fn sequence_text(&self) -> (r: String)
        ensures
            r@ == Self::text_of(self@),
    ;
}

impl Sequence for Dna {
    open spec fn accepts(text: Seq<char>) -> bool {
        is_dna_text(text)
    }

    open spec fn parsed(text: Seq<char>) -> Seq<crate::utils::dna::DnaBase> {
        dna_of_text(text)
    }

    open spec fn rejects_with(text: Seq<char>, e: Seq<char>) -> bool {
        dna_rejection(text, e)
    }

    open spec fn text_of(v: Self::V) -> Seq<char> {
        crate::utils::dna::dna_text(v)
    }

    fn parse_chars(text: &[char]) -> (r: Result<Dna, String>) {
        Dna::parse_chars(text)
    }

    fn sequence_text(&self) -> (r: String) {
        self.to_text()
    }
}

impl Sequence for Rna {
    open spec fn accepts(text: Seq<char>) -> bool {
        is_rna_text(text)
    }

    open spec fn parsed(text: Seq<char>) -> Seq<crate::utils::rna::RnaBase> {
        rna_of_text(text)
    }

    open spec fn rejects_with(text: Seq<char>, e: Seq<char>) -> bool {
        rna_rejection(text, e)
    }

    open spec fn text_of(v: Self::V) -> Seq<char> {
        crate::utils::rna::rna_text(v)
    }

    fn parse_chars(text: &[char]) -> (r: Result<Rna, String>) {
        Rna::parse_chars(text)
    }

    fn sequence_text(&self) -> (r: String) {
        self.to_text()
    }
}

impl Sequence for Protein {
    open spec fn accepts(text: Seq<char>) -> bool {
        is_protein_text(text)
    }

    open spec fn parsed(text: Seq<char>) -> Seq<crate::utils::protein::AminoAcid> {
        protein_of_text(text)
    }

    open spec fn rejects_with(text: Seq<char>, e: Seq<char>) -> bool {
        protein_rejection(text, e)
    }

    open spec fn text_of(v: Self::V) -> Seq<char> {
        crate::utils::protein::protein_text(v)
    }

    fn parse_chars(text: &[char]) -> (r: Result<Protein, String>) {
        Protein::parse_chars(text)
    }

    fn sequence_text(&self) -> (r: String) {
        self.to_text()
    }
}

/// Lines read so far: the finished ones, and the one in progress.
pub struct LineState {
    pub done: Seq<Seq<char>>,
    pub cur: Seq<char>,
}

/// A line without the carriage return that ended it, if any.
pub open spec fn strip_cr(l: Seq<char>) -> Seq<char> {
    if l.len() > 0 && l.last() == '\r' {
        l.drop_last()
    } else {
        l
    }
}

/// The line splitter's step on one character: a line feed finishes the line.
pub open spec fn line_step(st: LineState, c: char) -> LineState {
    if c == '\n' {
        LineState { done: st.done.push(strip_cr(st.cur)), cur: seq![] }
    } else {
        LineState { done: st.done, cur: st.cur.push(c) }
    }
}

/// The splitter's state after reading all of `s`.
pub open spec fn line_run(s: Seq<char>) -> LineState
    decreases s.len(),
{
    if s.len() == 0 {
        LineState { done: seq![], cur: seq![] }
    } else {
        line_step(line_run(s.drop_last()), s.last())
    }
}

/// The lines of a text: split at `\n` or `\r\n`; the last line needs no ending,
/// and an ending at the very end starts no empty line.
pub open spec fn lines(s: Seq<char>) -> Seq<Seq<char>> {
    let st = line_run(s);
    if st.cur.len() > 0 {
        st.done.push(st.cur)
    } else {
        st.done
    }
}

/// `s` without leading white space.
pub open spec fn trim_front(s: Seq<char>) -> Seq<char>
    decreases s.len(),
{
    if s.len() > 0 && is_white(s[0]) {
        trim_front(s.drop_first())
    } else {
        s
    }
}

/// `s` without trailing white space.
pub open spec fn trim_back(s: Seq<char>) -> Seq<char>
    decreases s.len(),
{
    if s.len() > 0 && is_white(s.last()) {
        trim_back(s.drop_last())
    } else {
        s
    }
}

/// `s` without white space at either end.
pub open spec fn trimmed(s: Seq<char>) -> Seq<char> {
    trim_back(trim_front(s))
}

/// Records read so far, the identifier of the one in progress, and its text.
pub struct RecordState {
    pub records: Seq<(Seq<char>, Seq<char>)>,
    pub id: Option<Seq<char>>,
    pub text: Seq<char>,
}

/// The reader's step on one line: a `>` line opens a record, closing the one in
/// progress; any other line, trimmed, is added to the text of the record in
/// progress. Lines before the first header belong to no record and are dropped.
pub open spec fn record_step(st: RecordState, line: Seq<char>) -> RecordState {
    if line.len() > 0 && line[0] == '>' {
        match st.id {
            Some(id) => RecordState {
                records: st.records.push((id, st.text)),
                id: Some(line.drop_first()),
                text: seq![],
            },
            None => RecordState { id: Some(line.drop_first()), ..st },
        }
    } else if st.id is Some {
        RecordState { text: st.text + trimmed(line), ..st }
    } else {
        st
    }
}

/// The reader's state after the given lines.
pub open spec fn record_run(ls: Seq<Seq<char>>) -> RecordState
    decreases ls.len(),
{
    if ls.len() == 0 {
        RecordState { records: seq![], id: None, text: seq![] }
    } else {
        record_step(record_run(ls.drop_last()), ls.last())
    }
}

/// The (identifier, sequence text) pairs of a FASTA document, in order.
pub open spec fn fasta_records(s: Seq<char>) -> Seq<(Seq<char>, Seq<char>)> {
    let st = record_run(lines(s));
    match st.id {
        Some(id) => st.records.push((id, st.text)),
        None => st.records,
    }
}

/// FASTA text for (identifier, sequence text) records: a `>` header line and one
/// line of sequence for each.
pub open spec fn fasta_text(recs: Seq<(Seq<char>, Seq<char>)>) -> Seq<char>
    decreases recs.len(),
{
    if recs.len() == 0 {
        seq![]
    } else {
        fasta_text(recs.drop_last()) + seq!['>'] + recs.last().0 + seq!['\n'] + recs.last().1 + seq!['\n']
    }
}

/// The splitter's state after reading `s`, starting from `st`.
pub open spec fn line_fold(st: LineState, s: Seq<char>) -> LineState
    decreases s.len(),
{
    if s.len() == 0 {
        st
    } else {
        line_step(line_fold(st, s.drop_last()), s.last())
    }
}

proof fn line_run_is_fold(s: Seq<char>)
    ensures
        line_run(s) == line_fold(LineState { done: seq![], cur: seq![] }, s),
    decreases s.len(),
{
    if s.len() > 0 {
        line_run_is_fold(s.drop_last());
    }
}

proof fn line_fold_concat(st: LineState, a: Seq<char>, b: Seq<char>)
    ensures
        line_fold(st, a + b) == line_fold(line_fold(st, a), b),
    decreases b.len(),
{
    if b.len() == 0 {
        assert(a + b =~= a);
    } else {
        line_fold_concat(st, a, b.drop_last());
        assert((a + b).drop_last() =~= a + b.drop_last());
        assert((a + b).last() == b.last());
    }
}

proof fn line_fold_plain(st: LineState, l: Seq<char>)
    requires
        forall|i: int| 0 <= i < l.len() ==> l[i] != '\n',
    ensures
        line_fold(st, l) == (LineState { done: st.done, cur: st.cur + l }),
    decreases l.len(),
{
    if l.len() == 0 {
        assert(st.cur + l =~= st.cur);
    } else {
        line_fold_plain(st, l.drop_last());
        assert(st.cur + l =~= (st.cur + l.drop_last()).push(l.last()));
    }
}

/// `l` can stand as a line of its own: it holds no line feed and does not end
/// with a carriage return.
pub open spec fn fits_line(l: Seq<char>) -> bool {
    &&& forall|i: int| 0 <= i < l.len() ==> l[i] != '\n'
    &&& (l.len() == 0 || l.last() != '\r')
}

proof fn line_fold_line(st: LineState, l: Seq<char>)
    requires
        st.cur.len() == 0,
        fits_line(l),
    ensures
        line_fold(st, l + seq!['\n']) == (LineState { done: st.done.push(l), cur: seq![] }),
{
    line_fold_concat(st, l, seq!['\n']);
    line_fold_plain(st, l);
    assert(st.cur + l =~= l);
    let l1 = LineState { done: st.done, cur: l };
    assert(line_fold(st, l) == l1);
    assert(seq!['\n'].drop_last() =~= Seq::<char>::empty());
    assert(line_fold(l1, Seq::<char>::empty()) == l1);
    assert(seq!['\n'].last() == '\n');
    assert(line_fold(l1, seq!['\n']) == line_step(line_fold(l1, seq!['\n'].drop_last()), '\n'));
    assert(strip_cr(l) == l);
}

/// The lines of the FASTA text of some records: a header line, then a sequence line, for each.
pub open spec fn record_lines(recs: Seq<(Seq<char>, Seq<char>)>) -> Seq<Seq<char>>
    decreases recs.len(),
{
    if recs.len() == 0 {
        seq![]
    } else {
        record_lines(recs.drop_last()).push(seq!['>'] + recs.last().0).push(recs.last().1)
    }
}

proof fn fasta_text_lines(recs: Seq<(Seq<char>, Seq<char>)>)
    requires
        forall|j: int| 0 <= j < recs.len() ==> fits_line(#[trigger] recs[j].0) && fits_line(recs[j].1),
    ensures
        line_run(fasta_text(recs)) == (LineState { done: record_lines(recs), cur: seq![] }),
    decreases recs.len(),
{
    let init = LineState { done: seq![], cur: seq![] };
    line_run_is_fold(fasta_text(recs));
    if recs.len() > 0 {
        let prev = recs.drop_last();
        fasta_text_lines(prev);
        line_run_is_fold(fasta_text(prev));
        let (id, text) = recs.last();
        assert(fits_line(recs[recs.len() - 1].0) && fits_line(recs[recs.len() - 1].1));
        let header = seq!['>'] + id;
        let x = header + seq!['\n'];
        let y = text + seq!['\n'];
        assert(fasta_text(recs) =~= fasta_text(prev) + x + y);
        line_fold_concat(init, fasta_text(prev) + x, y);
        line_fold_concat(init, fasta_text(prev), x);
        assert(fits_line(header)) by {
            assert forall|i: int| 0 <= i < header.len() implies header[i] != '\n' by {
                if i > 0 {
                    assert(header[i] == id[i - 1]);
                }
            }
            if id.len() > 0 {
                assert(header.last() == id.last());
            }
        }
        let st1 = LineState { done: record_lines(prev), cur: seq![] };
        line_fold_line(st1, header);
        line_fold_line(LineState { done: record_lines(prev).push(header), cur: seq![] }, text);
    } else {
        assert(fasta_text(recs) =~= Seq::<char>::empty());
    }
}

/// `t` has no white space, no line break and does not start with `>`.
pub open spec fn plain_text(t: Seq<char>) -> bool {
    &&& forall|i: int| 0 <= i < t.len() ==> !is_white(#[trigger] t[i])
    &&& (t.len() == 0 || t[0] != '>')
}

proof fn plain_text_trimmed(t: Seq<char>)
    requires
        plain_text(t),
    ensures
        trimmed(t) == t,
{
    if t.len() > 0 {
        assert(!is_white(t[0]));
        assert(!is_white(t[t.len() - 1]));
    }
}

proof fn record_lines_read(recs: Seq<(Seq<char>, Seq<char>)>)
    requires
        recs.len() > 0,
        forall|j: int| 0 <= j < recs.len() ==> plain_text(#[trigger] recs[j].1),
    ensures
        record_run(record_lines(recs)) == (RecordState {
            records: recs.drop_last(),
            id: Some(recs.last().0),
            text: recs.last().1,
        }),
    decreases recs.len(),
{
    let prev = recs.drop_last();
    let (id, text) = recs.last();
    let header = seq!['>'] + id;
    let ls = record_lines(recs);
    assert(ls == record_lines(prev).push(header).push(text));
    assert(ls.drop_last() =~= record_lines(prev).push(header));
    assert(ls.last() == text);
    assert(ls.drop_last().drop_last() =~= record_lines(prev));
    assert(ls.drop_last().last() == header);
    assert(header[0] == '>' && header.drop_first() =~= id);
    assert(plain_text(recs[recs.len() - 1].1));
    plain_text_trimmed(text);
    let s0 = record_run(record_lines(prev));
    let s1 = record_step(s0, header);
    if prev.len() > 0 {
        record_lines_read(prev);
        assert(prev.drop_last().push(prev.last()) =~= prev);
        assert(s1.records == prev);
    } else {
        assert(record_lines(prev) =~= Seq::<Seq<char>>::empty());
        assert(s0 == (RecordState { records: seq![], id: None, text: seq![] }));
        assert(s1.records =~= prev);
        assert(s1.text =~= Seq::<char>::empty());
    }
    assert(s1.id == Some(id));
    assert(s1.text =~= Seq::<char>::empty());
    assert(record_run(ls.drop_last()) == s1);
    if text.len() > 0 {
        assert(text[0] != '>');
    }
    let s2 = record_step(s1, text);
    assert(s2.text =~= text);
    assert(record_run(ls) == s2);
    assert(s2.records =~= recs.drop_last());
}

/// Reading the FASTA text of some records gives back those records, when each
/// identifier fits on a line and each sequence text is plain.
pub proof fn fasta_text_read_back(recs: Seq<(Seq<char>, Seq<char>)>)
    requires
        forall|j: int| 0 <= j < recs.len() ==> fits_line(#[trigger] recs[j].0),
        forall|j: int| 0 <= j < recs.len() ==> plain_text(#[trigger] recs[j].1),
    ensures
        fasta_records(fasta_text(recs)) == recs,
{
    assert forall|j: int| 0 <= j < recs.len() implies fits_line(#[trigger] recs[j].0) && fits_line(recs[j].1) by {
        let t = recs[j].1;
        assert(plain_text(t));
        if t.len() > 0 {
            assert(!is_white(t[t.len() - 1]));
        }
        assert forall|i: int| 0 <= i < t.len() implies t[i] != '\n' by {
            assert(!is_white(t[i]));
        }
    }
    fasta_text_lines(recs);
    assert(lines(fasta_text(recs)) == record_lines(recs));
    if recs.len() > 0 {
        record_lines_read(recs);
        assert(recs.drop_last().push(recs.last()) =~= recs);
    } else {
        assert(record_lines(recs) =~= Seq::<Seq<char>>::empty());
    }
}

/// Writing DNA records as FASTA text and reading the text again gives the same
/// records: the same identifiers, in order, each with valid text for the same
/// bases. It holds when no identifier holds a line feed or ends with a carriage return.
pub proof fn fasta_round_trip(doc: Seq<(Seq<char>, Seq<DnaBase>)>)
    requires
        forall|j: int| 0 <= j < doc.len() ==> fits_line(#[trigger] doc[j].0),
    ensures
        ({
            let recs = fasta_records(
                fasta_text(doc.map_values(|p: (Seq<char>, Seq<DnaBase>)| (p.0, dna_text(p.1)))),
            );
            &&& recs.len() == doc.len()
            &&& forall|j: int|
                0 <= j < doc.len() ==> (#[trigger] recs[j]).0 == doc[j].0 && is_dna_text(recs[j].1)
                    && dna_of_text(recs[j].1) == doc[j].1
        }),
{
    let written = doc.map_values(|p: (Seq<char>, Seq<DnaBase>)| (p.0, dna_text(p.1)));
    assert forall|j: int| 0 <= j < written.len() implies plain_text(#[trigger] written[j].1) by {
        let t = written[j].1;
        assert(t == dna_text(doc[j].1));
        assert forall|i: int| 0 <= i < t.len() implies !is_white(#[trigger] t[i]) by {
            assert(t[i] == dna_letter(doc[j].1[i]));
        }
        if t.len() > 0 {
            assert(t[0] == dna_letter(doc[j].1[0]));
        }
    }
    assert forall|j: int| 0 <= j < written.len() implies fits_line(#[trigger] written[j].0) by {
        assert(written[j].0 == doc[j].0);
    }
    fasta_text_read_back(written);
    assert forall|j: int| 0 <= j < doc.len() implies is_dna_text(written[j].1) && dna_of_text(written[j].1)
        == doc[j].1 by {
        let t = written[j].1;
        assert forall|i: int| 0 <= i < t.len() implies (#[trigger] dna_base_of(t[i])) is Some by {
            assert(t[i] == dna_letter(doc[j].1[i]));
        }
        assert(dna_of_text(t) =~= doc[j].1);
    }
}

/// A FASTA document: (identifier, sequence) records in input order; identifiers
/// need not be unique.
#[derive(Debug)]
pub struct Fasta<T> {
    data: Vec<(String, T)>,
}

impl<T: View> View for Fasta<T> {
    type V = Seq<(Seq<char>, T::V)>;

    closed spec fn view(&self) -> Seq<(Seq<char>, T::V)> {
        self.data@.map_values(|p: (String, T)| (p.0@, p.1@))
    }
}

/// The characters of `s` as a string.
pub fn string_of(s: &[char]) -> (r: String)
    ensures
        r@ == s@,
{
    let mut r = String::new();
    let mut i: usize = 0;
    while i < s.len()
        invariant
            i <= s.len(),
            r@ == s@.take(i as int),
        decreases s.len() - i,
    {
        push_char(&mut r, s[i]);
        i += 1;
        assert(r@ =~= s@.take(i as int));
    }
    assert(s@.take(i as int) =~= s@);
    r
}

proof fn trim_front_step(s: Seq<char>, i: int)
    requires
        0 <= i < s.len(),
        is_white(s[i]),
    ensures
        trim_front(s.subrange(i, s.len() as int)) == trim_front(s.subrange(i + 1, s.len() as int)),
{
    assert(s.subrange(i, s.len() as int).drop_first() =~= s.subrange(i + 1, s.len() as int));
}

/// `line` without white space at either end, appended to `out`.
pub fn push_trimmed(out: &mut Vec<char>, line: &[char])
    ensures
        final(out)@ == old(out)@ + trimmed(line@),
{
    let n = line.len();
    let mut i: usize = 0;
    assert(line@.subrange(0, n as int) =~= line@);
    while i < n && is_white_char(line[i])
        invariant
            i <= n == line@.len(),
            trim_front(line@) == trim_front(line@.subrange(i as int, n as int)),
        decreases n - i,
    {
        proof {
            trim_front_step(line@, i as int);
        }
        i += 1;
    }
    let ghost front = line@.subrange(i as int, n as int);
    proof {
        if i < n {
            assert(!is_white(front[0]));
        }
    }
    assert(trim_front(line@) == front);
    let mut j: usize = n;
    while j > i && is_white_char(line[j - 1])
        invariant
            i <= j <= n == line@.len(),
            front == line@.subrange(i as int, n as int),
            trim_back(front) == trim_back(line@.subrange(i as int, j as int)),
        decreases j,
    {
        proof {
            let t = line@.subrange(i as int, j as int);
            assert(t.drop_last() =~= line@.subrange(i as int, j - 1));
        }
        j -= 1;
    }
    proof {
        let t = line@.subrange(i as int, j as int);
        if j > i {
            assert(t.last() == line@[j - 1]);
        }
    }
    let mut k: usize = i;
    while k < j
        invariant
            i <= k <= j <= n == line@.len(),
            out@ == old(out)@ + line@.subrange(i as int, k as int),
        decreases j - k,
    {
        out.push(line[k]);
        k += 1;
        assert(out@ =~= old(out)@ + line@.subrange(i as int, k as int));
    }
}

/// The lines of a text, split as `lines` describes.
pub fn split_lines(text: &[char]) -> (r: Vec<Vec<char>>)
    ensures
        r@.map_values(|l: Vec<char>| l@) == lines(text@),
{
    let mut done: Vec<Vec<char>> = Vec::new();
    let mut cur: Vec<char> = Vec::new();
    let mut i: usize = 0;
    assert(text@.take(0) =~= Seq::<char>::empty());
    assert(done@.map_values(|l: Vec<char>| l@) =~= Seq::<Seq<char>>::empty());
    while i < text.len()
        invariant
            i <= text.len(),
            line_run(text@.take(i as int)) == (LineState {
                done: done@.map_values(|l: Vec<char>| l@),
                cur: cur@,
            }),
        decreases text.len() - i,
    {
        let c = text[i];
        assert(text@.take(i + 1).drop_last() =~= text@.take(i as int));
        let ghost before = done@;
        let ghost cur_before = cur@;
        if c == '\n' {
            let len = cur.len();
            if len > 0 && cur[len - 1] == '\r' {
                cur.pop();
            }
            assert(cur@ =~= strip_cr(cur_before));
            let line = cur;
            cur = Vec::new();
            done.push(line);
            assert(done@.map_values(|l: Vec<char>| l@) =~= before.map_values(|l: Vec<char>| l@).push(
                strip_cr(cur_before),
            ));
            assert(cur@ =~= Seq::<char>::empty());
        } else {
            cur.push(c);
        }
        i += 1;
    }
    assert(text@.take(i as int) =~= text@);
    if cur.len() > 0 {
        let ghost before = done@;
        done.push(cur);
        assert(done@.map_values(|l: Vec<char>| l@) =~= before.map_values(|l: Vec<char>| l@).push(
            line_run(text@).cur,
        ));
    }
    done
}

/// The (identifier, sequence text) pairs of a document, as `fasta_records` describes.
fn raw_records(text: &[char]) -> (r: Vec<(Vec<char>, Vec<char>)>)
    ensures
        r@.map_values(|p: (Vec<char>, Vec<char>)| (p.0@, p.1@)) == fasta_records(text@),
{
    let lines = split_lines(text);
    let ghost ls = lines@.map_values(|l: Vec<char>| l@);
    let mut records: Vec<(Vec<char>, Vec<char>)> = Vec::new();
    let mut id: Option<Vec<char>> = None;
    let mut seq_text: Vec<char> = Vec::new();
    let mut i: usize = 0;
    assert(ls.take(0) =~= Seq::<Seq<char>>::empty());
    assert(records@.map_values(|p: (Vec<char>, Vec<char>)| (p.0@, p.1@)) =~= Seq::<
        (Seq<char>, Seq<char>),
    >::empty());
    while i < lines.len()
        invariant
            i <= lines.len(),
            ls == lines@.map_values(|l: Vec<char>| l@),
            record_run(ls.take(i as int)) == (RecordState {
                records: records@.map_values(|p: (Vec<char>, Vec<char>)| (p.0@, p.1@)),
                id: match id {
                    Some(v) => Some(v@),
                    None => None,
                },
                text: seq_text@,
            }),
        decreases lines.len() - i,
    {
        let line = &lines[i];
        assert(ls.take(i + 1).drop_last() =~= ls.take(i as int));
        assert(ls.take(i + 1).last() == line@);
        let ghost before = records@;
        if line.len() > 0 && line[0] == '>' {
            let mut name: Vec<char> = Vec::new();
            let mut k: usize = 1;
            while k < line.len()
                invariant
                    1 <= k <= line.len(),
                    name@ == line@.subrange(1, k as int),
                decreases line.len() - k,
            {
                name.push(line[k]);
                k += 1;
                assert(name@ =~= line@.subrange(1, k as int));
            }
            assert(name@ =~= line@.drop_first());
            match id {
                Some(prev) => {
                    let done_text = seq_text;
                    seq_text = Vec::new();
                    records.push((prev, done_text));
                    assert(records@.map_values(|p: (Vec<char>, Vec<char>)| (p.0@, p.1@)) =~= before.map_values(
                        |p: (Vec<char>, Vec<char>)| (p.0@, p.1@),
                    ).push((prev@, done_text@)));
                    assert(seq_text@ =~= Seq::<char>::empty());
                },
                None => {},
            }
            id = Some(name);
        } else if id.is_some() {
            push_trimmed(&mut seq_text, line.as_slice());
        }
        i += 1;
    }
    assert(ls.take(i as int) =~= ls);
    match id {
        Some(last) => {
            let ghost before = records@;
            records.push((last, seq_text));
            assert(records@.map_values(|p: (Vec<char>, Vec<char>)| (p.0@, p.1@)) =~= before.map_values(
                |p: (Vec<char>, Vec<char>)| (p.0@, p.1@),
            ).push((last@, seq_text@)));
        },
        None => {},
    }
    records
}

impl<T: Sequence> Fasta<T> {
    /// Reads a FASTA document. Each record's text is read with the alphabet of `T`;
    /// the first record whose text is invalid gives the error. Text without a
    /// header line gives an empty document.
    pub fn parse(text: &str) -> (r: Result<Fasta<T>, String>)
        ensures
            r is Ok <==> forall|i: int|
                0 <= i < fasta_records(text@).len() ==> T::accepts(
                    (#[trigger] fasta_records(text@)[i]).1,
                ),
            r is Ok ==> r->Ok_0@.len() == fasta_records(text@).len(),
            r is Ok ==> forall|i: int|
                0 <= i < fasta_records(text@).len() ==> (#[trigger] r->Ok_0@[i]).0 == fasta_records(
                    text@,
                )[i].0 && r->Ok_0@[i].1 == T::parsed(fasta_records(text@)[i].1),
            r is Err ==> exists|i: int|
                0 <= i < fasta_records(text@).len() && (forall|j: int|
                    0 <= j < i ==> T::accepts((#[trigger] fasta_records(text@)[j]).1)) && !T::accepts(
                    fasta_records(text@)[i].1,
                ) && T::rejects_with(fasta_records(text@)[i].1, r->Err_0@),
    {
        let chars = chars_of(text);
        let raw = raw_records(chars.as_slice());
        let ghost recs = fasta_records(text@);
        let mut data: Vec<(String, T)> = Vec::new();
        let mut i: usize = 0;
        while i < raw.len()
            invariant
                i <= raw.len(),
                chars@ == text@,
                recs == fasta_records(text@),
                raw@.map_values(|p: (Vec<char>, Vec<char>)| (p.0@, p.1@)) == recs,
                data@.len() == i,
                forall|j: int| 0 <= j < i ==> T::accepts((#[trigger] recs[j]).1),
                forall|j: int|
                    0 <= j < i ==> (#[trigger] data@[j]).0@ == recs[j].0 && data@[j].1@ == T::parsed(
                        recs[j].1,
                    ),
            decreases raw.len() - i,
        {
            let (id_chars, seq_chars) = &raw[i];
            assert(recs[i as int] == (id_chars@, seq_chars@));
            match T::parse_chars(seq_chars.as_slice()) {
                Ok(t) => {
                    let id = string_of(id_chars.as_slice());
                    data.push((id, t));
                },
                Err(e) => {
                    return Err(e);
                },
            }
            i += 1;
        }
        let r = Fasta { data };
        assert(r@.len() == recs.len());
        Ok(r)
    }

    /// The document as FASTA text: for each record a `>` line with its identifier,
    /// then its whole sequence on one line.
    pub fn to_text(&self) -> (r: String)
        ensures
            r@ == fasta_text(self@.map_values(|p: (Seq<char>, T::V)| (p.0, T::text_of(p.1)))),
    {
        let ghost recs = self@.map_values(|p: (Seq<char>, T::V)| (p.0, T::text_of(p.1)));
        let mut out = String::new();
        let mut i: usize = 0;
        while i < self.data.len()
            invariant
                i <= self.data@.len() == recs.len(),
                recs == self@.map_values(|p: (Seq<char>, T::V)| (p.0, T::text_of(p.1))),
                out@ == fasta_text(recs.take(i as int)),
            decreases self.data.len() - i,
        {
            let (id, t) = &self.data[i];
            assert(recs[i as int] == (id@, T::text_of(t@)));
            push_char(&mut out, '>');
            out.append(id.as_str());
            push_char(&mut out, '\n');
            let body = t.sequence_text();
            out.append(body.as_str());
            push_char(&mut out, '\n');
            i += 1;
            assert(recs.take(i as int).drop_last() =~= recs.take(i - 1));
            assert(out@ =~= fasta_text(recs.take(i as int)));
        }
        assert(recs.take(i as int) =~= recs);
        out
    }

    /// The records, in order.
    pub fn records(&self) -> (r: &[(String, T)])
        ensures
            r@.map_values(|p: (String, T)| (p.0@, p.1@)) == self@,
    {
        self.data.as_slice()
    }

    /// Number of records.
    pub fn len(&self) -> (r: usize)
        ensures
            r == self@.len(),
    {
        self.data.len()
    }

    /// The records, in order, open to change in place.
    pub fn iter_mut(&mut self) -> (r: &mut [(String, T)])
        ensures
            r@.map_values(|p: (String, T)| (p.0@, p.1@)) == old(self)@,
            final(self)@ == final(r)@.map_values(|p: (String, T)| (p.0@, p.1@)),
    {
        self.data.as_mut_slice()
    }

    /// An iterator over the records, in order.
    pub fn iter(&self) -> (r: std::slice::Iter<'_, (String, T)>)
        ensures
            vstd::std_specs::slice::into_iter_elts(r).map_values(|p: (String, T)| (p.0@, p.1@))
                == self@,
    {
        self.data.as_slice().iter()
    }
}

} // verus!
