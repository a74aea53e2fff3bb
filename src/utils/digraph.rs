//! Overlap graphs over the records of a FASTA document.

use crate::utils::dna::{Dna, DnaBase};
use crate::utils::fasta::Fasta;
use crate::utils::text::chars_of;
use vstd::prelude::*;

verus! {

/// Three-way lexicographic comparison of `a` and `b` from index `i` on: `-1` when
/// `a` comes first, `1` when `b` does, `0` when they agree; a proper prefix comes first.
pub open spec fn lex_cmp(a: Seq<int>, b: Seq<int>, i: int) -> int
    decreases a.len() - i,
{
    if i >= a.len() && i >= b.len() {
        0
    } else if i >= a.len() {
        -1
    } else if i >= b.len() {
        1
    } else if a[i] < b[i] {
        -1
    } else if a[i] > b[i] {
        1
    } else {
        lex_cmp(a, b, i + 1)
    }
}

/// The code points of a text.
pub open spec fn char_codes(s: Seq<char>) -> Seq<int> {
    s.map_values(|c: char| c as int)
}

/// The place of a base in the order `A < C < G < T`.
pub open spec fn base_rank(b: DnaBase) -> int {
    match b {
        DnaBase::A => 0,
        DnaBase::C => 1,
        DnaBase::G => 2,
        DnaBase::T => 3,
    }
}

/// The ranks of the bases of a sequence.
pub open spec fn base_ranks(s: Seq<DnaBase>) -> Seq<int> {
    s.map_values(|b: DnaBase| base_rank(b))
}

/// Record `i` comes before record `j`: by identifier, then by sequence, then by
/// position in the document.
pub open spec fn record_lt(doc: Seq<(Seq<char>, Seq<DnaBase>)>, i: int, j: int) -> bool {
    let by_name = lex_cmp(char_codes(doc[i].0), char_codes(doc[j].0), 0);
    let by_seq = lex_cmp(base_ranks(doc[i].1), base_ranks(doc[j].1), 0);
    by_name < 0 || (by_name == 0 && (by_seq < 0 || (by_seq == 0 && i < j)))
}

/// Edge `(a, b)` of record positions comes before edge `(c, d)`: by source, then
/// by destination, each in record order.
pub open spec fn edge_lt(doc: Seq<(Seq<char>, Seq<DnaBase>)>, a: int, b: int, c: int, d: int) -> bool {
    record_lt(doc, a, c) || (a == c && record_lt(doc, b, d))
}

/// Distinct records `i` and `j` overlap by `k`: the last `k` bases of `i` are the
/// first `k` bases of `j`.
pub open spec fn overlaps(doc: Seq<(Seq<char>, Seq<DnaBase>)>, k: int, i: int, j: int) -> bool {
    &&& 0 <= i < doc.len()
    &&& 0 <= j < doc.len()
    &&& i != j
    &&& k <= doc[i].1.len()
    &&& k <= doc[j].1.len()
    &&& doc[i].1.skip(doc[i].1.len() - k) == doc[j].1.take(k)
}

/// Swapping the operands negates a comparison.
pub proof fn lex_antisymmetric(a: Seq<int>, b: Seq<int>, i: int)
    requires
        0 <= i,
    ensures
        lex_cmp(a, b, i) == -lex_cmp(b, a, i),
    decreases a.len() - i,
{
    if i < a.len() && i < b.len() {
        lex_antisymmetric(a, b, i + 1);
    }
}

/// Lexicographic order is transitive.
pub proof fn lex_transitive(a: Seq<int>, b: Seq<int>, c: Seq<int>, i: int)
    requires
        0 <= i,
    ensures
        lex_cmp(a, b, i) <= 0 && lex_cmp(b, c, i) <= 0 ==> lex_cmp(a, c, i) <= 0,
        lex_cmp(a, b, i) < 0 && lex_cmp(b, c, i) <= 0 ==> lex_cmp(a, c, i) < 0,
        lex_cmp(a, b, i) <= 0 && lex_cmp(b, c, i) < 0 ==> lex_cmp(a, c, i) < 0,
    decreases a.len() - i,
{
    if i < a.len() && i < b.len() && i < c.len() {
        lex_transitive(a, b, c, i + 1);
    }
}

/// Texts that compare equal by code point are equal.
pub proof fn lex_equal(a: Seq<char>, b: Seq<char>)
    requires
        lex_cmp(char_codes(a), char_codes(b), 0) == 0,
    ensures
        a == b,
{
    lex_zero(char_codes(a), char_codes(b), 0);
    assert(char_codes(a).len() == a.len() && char_codes(b).len() == b.len());
    assert forall|k: int| 0 <= k < a.len() implies a[k] == b[k] by {
        assert(char_codes(a)[k] == char_codes(b)[k]);
    }
    assert(a =~= b);
}

proof fn lex_zero(a: Seq<int>, b: Seq<int>, i: int)
    requires
        0 <= i,
        lex_cmp(a, b, i) == 0,
    ensures
        a.len() == b.len() || (i >= a.len() && i >= b.len()),
        forall|k: int| i <= k < a.len() ==> a[k] == b[k],
    decreases a.len() - i,
{
    if i < a.len() && i < b.len() {
        lex_zero(a, b, i + 1);
    }
}

proof fn record_lt_total(doc: Seq<(Seq<char>, Seq<DnaBase>)>, i: int, j: int)
    ensures
        i != j ==> record_lt(doc, i, j) || record_lt(doc, j, i),
        !(record_lt(doc, i, j) && record_lt(doc, j, i)),
        !record_lt(doc, i, i),
{
    lex_antisymmetric(char_codes(doc[i].0), char_codes(doc[j].0), 0);
    lex_antisymmetric(base_ranks(doc[i].1), base_ranks(doc[j].1), 0);
    lex_antisymmetric(char_codes(doc[i].0), char_codes(doc[i].0), 0);
    lex_antisymmetric(base_ranks(doc[i].1), base_ranks(doc[i].1), 0);
}

proof fn record_lt_transitive(doc: Seq<(Seq<char>, Seq<DnaBase>)>, i: int, j: int, m: int)
    requires
        record_lt(doc, i, j),
        record_lt(doc, j, m),
    ensures
        record_lt(doc, i, m),
{
    lex_transitive(char_codes(doc[i].0), char_codes(doc[j].0), char_codes(doc[m].0), 0);
    lex_transitive(base_ranks(doc[i].1), base_ranks(doc[j].1), base_ranks(doc[m].1), 0);
    lex_antisymmetric(char_codes(doc[i].0), char_codes(doc[j].0), 0);
    lex_antisymmetric(char_codes(doc[j].0), char_codes(doc[m].0), 0);
    lex_antisymmetric(char_codes(doc[i].0), char_codes(doc[m].0), 0);
    lex_antisymmetric(base_ranks(doc[i].1), base_ranks(doc[j].1), 0);
    lex_antisymmetric(base_ranks(doc[j].1), base_ranks(doc[m].1), 0);
    lex_antisymmetric(base_ranks(doc[i].1), base_ranks(doc[m].1), 0);
}

/// Three-way lexicographic comparison of two texts by code point.
pub fn compare_chars(a: &[char], b: &[char]) -> (r: i8)
    ensures
        r as int == lex_cmp(char_codes(a@), char_codes(b@), 0),
{
    let ghost ca = char_codes(a@);
    let ghost cb = char_codes(b@);
    let mut i: usize = 0;
    loop
        invariant
            i <= a.len(),
            i <= b.len(),
            ca == char_codes(a@),
            cb == char_codes(b@),
            lex_cmp(ca, cb, 0) == lex_cmp(ca, cb, i as int),
        decreases a.len() - i,
    {
        if i == a.len() && i == b.len() {
            return 0;
        } else if i == a.len() {
            return -1;
        } else if i == b.len() {
            return 1;
        } else if a[i] < b[i] {
            return -1;
        } else if a[i] > b[i] {
            return 1;
        }
        i += 1;
    }
}

/// The place of a base in the order `A < C < G < T`.
fn rank(b: DnaBase) -> (r: u8)
    ensures
        r as int == base_rank(b),
{
    match b {
        DnaBase::A => 0,
        DnaBase::C => 1,
        DnaBase::G => 2,
        DnaBase::T => 3,
    }
}

/// Three-way lexicographic comparison of two base sequences.
fn compare_bases(a: &[DnaBase], b: &[DnaBase]) -> (r: i8)
    ensures
        r as int == lex_cmp(base_ranks(a@), base_ranks(b@), 0),
{
    let ghost ca = base_ranks(a@);
    let ghost cb = base_ranks(b@);
    let mut i: usize = 0;
    loop
        invariant
            i <= a.len(),
            i <= b.len(),
            ca == base_ranks(a@),
            cb == base_ranks(b@),
            lex_cmp(ca, cb, 0) == lex_cmp(ca, cb, i as int),
        decreases a.len() - i,
    {
        if i == a.len() && i == b.len() {
            return 0;
        } else if i == a.len() {
            return -1;
        } else if i == b.len() {
            return 1;
        } else if rank(a[i]) < rank(b[i]) {
            return -1;
        } else if rank(a[i]) > rank(b[i]) {
            return 1;
        }
        i += 1;
    }
}

/// A record of the document, as a node of the graph.
#[derive(Debug)]
pub struct Node {
    name: String,
    record: usize,
}

impl View for Node {
    type V = (Seq<char>, usize);

    closed spec fn view(&self) -> (Seq<char>, usize) {
        (self.name@, self.record)
    }
}

impl Node {
    /// The record's identifier.
    pub fn name(&self) -> (r: String)
        ensures
            r@ == self@.0,
    {
        self.name.clone()
    }

    /// The record's position in the document.
    pub fn record(&self) -> (r: usize)
        ensures
            r == self@.1,
    {
        self.record
    }
}

/// A directed graph over the records of a document, its edges in order.
pub struct Digraph {
    edges: Vec<(Node, Node)>,
}

impl View for Digraph {
    type V = Seq<((Seq<char>, usize), (Seq<char>, usize))>;

    closed spec fn view(&self) -> Seq<((Seq<char>, usize), (Seq<char>, usize))> {
        self.edges@.map_values(|e: (Node, Node)| (e.0@, e.1@))
    }
}

/// The nodes of `doc` that overlap by `k` are exactly the edges of `g`, each
/// once, from source to destination, sorted by source and then destination.
pub open spec fn is_overlap_graph(
    g: Seq<((Seq<char>, usize), (Seq<char>, usize))>,
    doc: Seq<(Seq<char>, Seq<DnaBase>)>,
    k: int,
) -> bool {
    &&& forall|x: int|
        0 <= x < g.len() ==> {
            let e = #[trigger] g[x];
            &&& overlaps(doc, k, e.0.1 as int, e.1.1 as int)
            &&& e.0.0 == doc[e.0.1 as int].0
            &&& e.1.0 == doc[e.1.1 as int].0
        }
    &&& forall|i: int, j: int|
        #![trigger overlaps(doc, k, i, j)]
        overlaps(doc, k, i, j) ==> exists|x: int|
            0 <= x < g.len() && (#[trigger] g[x]).0.1 == i && g[x].1.1 == j
    &&& forall|x: int, y: int|
        0 <= x < y < g.len() ==> edge_lt(
            doc,
            (#[trigger] g[x]).0.1 as int,
            g[x].1.1 as int,
            (#[trigger] g[y]).0.1 as int,
            g[y].1.1 as int,
        )
}

/// Whether the last `k` bases of `a` are the first `k` bases of `b`.
fn suffix_is_prefix(a: &Dna, b: &Dna, k: usize) -> (r: bool)
    ensures
        r == (k <= a@.len() && k <= b@.len() && a@.skip(a@.len() - k) == b@.take(k as int)),
{
    if k > a.len() || k > b.len() {
        return false;
    }
    let s = match a.suffix(k) {
        Some(s) => s,
        None => {
            return false;
        },
    };
    let p = match b.prefix(k) {
        Some(p) => p,
        None => {
            return false;
        },
    };
    let mut i: usize = 0;
    while i < k
        invariant
            i <= k == s@.len() == p@.len(),
            k <= a@.len() && k <= b@.len(),
            s@ == a@.skip(a@.len() - k),
            p@ == b@.take(k as int),
            forall|j: int| 0 <= j < i ==> s@[j] == p@[j],
        decreases k - i,
    {
        if s[i] != p[i] {
            assert(s@[i as int] != p@[i as int]);
            return false;
        }
        i += 1;
    }
    assert(s@ =~= p@);
    true
}

impl Digraph {
    /// The edges, as (source, destination) pairs in order.
    pub fn adjacency_list(&self) -> (r: Vec<(&Node, &Node)>)
        ensures
            r@.len() == self@.len(),
            forall|x: int|
                0 <= x < r@.len() ==> (#[trigger] r@[x]).0@ == self@[x].0 && r@[x].1@ == self@[x].1,
    {
        let mut list: Vec<(&Node, &Node)> = Vec::new();
        let mut x: usize = 0;
        while x < self.edges.len()
            invariant
                x <= self.edges.len(),
                list@.len() == x,
                forall|y: int|
                    0 <= y < x ==> (#[trigger] list@[y]).0@ == self@[y].0 && list@[y].1@ == self@[y].1,
            decreases self.edges.len() - x,
        {
            let e = &self.edges[x];
            list.push((&e.0, &e.1));
            x += 1;
        }
        list
    }

    /// The overlap graph of a document: an edge from each record to each other
    /// record whose first `k` bases are its last `k`. A record shorter than `k`
    /// has no edges. Edges are ordered by source, then destination, records being
    /// ordered by identifier, then sequence, then position.
    pub fn overlap_graph_from_fasta_dna(fasta: &Fasta<Dna>, k: usize) -> (r: Digraph)
        ensures
            is_overlap_graph(r@, fasta@, k as int),
    {
        let ghost doc = fasta@;
        let records = fasta.records();
        let n = records.len();
        assert(records@.len() == doc.len());
        let mut names: Vec<Vec<char>> = Vec::new();
        let mut i: usize = 0;
        while i < n
            invariant
                i <= n == records@.len() == doc.len(),
                records@.map_values(|p: (String, Dna)| (p.0@, p.1@)) == doc,
                names@.len() == i,
                forall|j: int| 0 <= j < i ==> (#[trigger] names@[j])@ == doc[j].0,
            decreases n - i,
        {
            assert(records@[i as int].0@ == doc[i as int].0);
            names.push(chars_of(records[i].0.as_str()));
            i += 1;
        }
        // Record positions sorted by record order (insertion sort).
        let mut order: Vec<usize> = Vec::new();
        let mut r: usize = 0;
        while r < n
            invariant
                r <= n == records@.len() == doc.len() == names@.len(),
                records@.map_values(|p: (String, Dna)| (p.0@, p.1@)) == doc,
                forall|j: int| 0 <= j < n ==> (#[trigger] names@[j])@ == doc[j].0,
                order@.len() == r,
                forall|a: int| 0 <= a < order@.len() ==> (#[trigger] order@[a]) < r,
                forall|x: int| 0 <= x < r ==> #[trigger] holds(order@, x),
                forall|a: int, b: int|
                    0 <= a < b < order@.len() ==> record_lt(doc, #[trigger] order@[a] as int, #[trigger] order@[b] as int),
            decreases n - r,
        {
            let mut p: usize = 0;
            while p < order.len()
                invariant
                    p <= order@.len() == r < n,
                    n == records@.len() == doc.len() == names@.len(),
                    records@.map_values(|q: (String, Dna)| (q.0@, q.1@)) == doc,
                    forall|j: int| 0 <= j < n ==> (#[trigger] names@[j])@ == doc[j].0,
                    forall|a: int| 0 <= a < order@.len() ==> (#[trigger] order@[a]) < r,
                    forall|a: int| 0 <= a < p ==> !record_lt(doc, r as int, #[trigger] order@[a] as int),
                ensures
                    p <= order@.len(),
                    forall|a: int| 0 <= a < p ==> !record_lt(doc, r as int, #[trigger] order@[a] as int),
                    p < order@.len() ==> record_lt(doc, r as int, order@[p as int] as int),
                decreases order@.len() - p,
            {
                let o = order[p];
                assert(records@[r as int].1@ == doc[r as int].1);
                assert(records@[o as int].1@ == doc[o as int].1);
                let by_name = compare_chars(names[r].as_slice(), names[o].as_slice());
                let by_seq = compare_bases(records[r].1.sequence(), records[o].1.sequence());
                if by_name < 0 || (by_name == 0 && (by_seq < 0 || (by_seq == 0 && r < o))) {
                    assert(record_lt(doc, r as int, o as int));
                    break;
                }
                p += 1;
            }
            let ghost old_order = order@;
            proof {
                assert forall|a: int| 0 <= a < p implies record_lt(doc, #[trigger] old_order[a] as int, r as int) by {
                    record_lt_total(doc, old_order[a] as int, r as int);
                }
                if p < old_order.len() {
                    assert forall|b: int| p < b < old_order.len() implies record_lt(doc, r as int, #[trigger] old_order[b] as int) by {
                        record_lt_transitive(doc, r as int, old_order[p as int] as int, old_order[b] as int);
                    }
                }
            }
            order.insert(p, r);
            proof {
                assert forall|a: int, b: int|
                    0 <= a < b < order@.len() implies record_lt(doc, #[trigger] order@[a] as int, #[trigger] order@[b] as int) by {
                    if a < p && b < p {
                        assert(order@[a] == old_order[a] && order@[b] == old_order[b]);
                    } else if a < p && b == p {
                        assert(order@[a] == old_order[a]);
                    } else if a < p && b > p {
                        assert(order@[a] == old_order[a]);
                        assert(order@[b] == old_order[b - 1]);
                        if b - 1 > p {
                            record_lt_transitive(doc, order@[a] as int, r as int, order@[b] as int);
                        } else {
                            record_lt_transitive(doc, order@[a] as int, r as int, order@[b] as int);
                        }
                    } else if a == p {
                        assert(order@[b] == old_order[b - 1]);
                    } else {
                        assert(order@[a] == old_order[a - 1] && order@[b] == old_order[b - 1]);
                    }
                }
                assert forall|x: int| 0 <= x < r + 1 implies #[trigger] holds(order@, x) by {
                    if x == r {
                        assert(order@[p as int] == x);
                    } else {
                        assert(holds(old_order, x));
                        let a0 = choose|a: int| 0 <= a < old_order.len() && old_order[a] == x;
                        if a0 < p {
                            assert(order@[a0] == x);
                        } else {
                            assert(order@[a0 + 1] == x);
                        }
                    }
                }
                assert forall|a: int| 0 <= a < order@.len() implies (#[trigger] order@[a]) < r + 1 by {
                    if a < p {
                        assert(order@[a] == old_order[a]);
                    } else if a > p {
                        assert(order@[a] == old_order[a - 1]);
                    }
                }
            }
            r += 1;
        }
        // Edges, by source position in `order`, then destination position.
        let mut edges: Vec<(Node, Node)> = Vec::new();
        let ghost mut pos: Seq<(int, int)> = seq![];
        let mut a: usize = 0;
        while a < n
            invariant
                a <= n == records@.len() == doc.len() == names@.len() == order@.len(),
                records@.map_values(|q: (String, Dna)| (q.0@, q.1@)) == doc,
                forall|j: int| 0 <= j < n ==> (#[trigger] names@[j])@ == doc[j].0,
                forall|x: int| 0 <= x < order@.len() ==> (#[trigger] order@[x]) < n,
                forall|x: int| 0 <= x < n ==> #[trigger] holds(order@, x),
                forall|c: int, d: int|
                    0 <= c < d < order@.len() ==> record_lt(doc, #[trigger] order@[c] as int, #[trigger] order@[d] as int),
                pos.len() == edges@.len(),
                forall|x: int|
                    0 <= x < pos.len() ==> 0 <= (#[trigger] pos[x]).0 < a && 0 <= pos[x].1 < n,
                forall|x: int|
                    0 <= x < pos.len() ==> (#[trigger] edges@[x]).0@.1 == order@[pos[x].0] && edges@[x].1@.1
                        == order@[pos[x].1],
                is_partial_graph(edges@.map_values(|e: (Node, Node)| (e.0@, e.1@)), doc, k as int),
                forall|x: int, y: int|
                    0 <= x < y < pos.len() ==> edge_lt(
                        doc,
                        order@[(#[trigger] pos[x]).0] as int,
                        order@[pos[x].1] as int,
                        order@[(#[trigger] pos[y]).0] as int,
                        order@[pos[y].1] as int,
                    ),
                forall|c: int, d: int|
                    0 <= c < a && 0 <= d < n && overlaps(doc, k as int, #[trigger] order@[c] as int, #[trigger] order@[d] as int)
                        ==> exists|x: int| 0 <= x < pos.len() && #[trigger] pos[x] == (c, d),
            decreases n - a,
        {
            let mut b: usize = 0;
            while b < n
                invariant
                    a < n,
                    b <= n == records@.len() == doc.len() == names@.len() == order@.len(),
                    records@.map_values(|q: (String, Dna)| (q.0@, q.1@)) == doc,
                    forall|j: int| 0 <= j < n ==> (#[trigger] names@[j])@ == doc[j].0,
                    forall|x: int| 0 <= x < order@.len() ==> (#[trigger] order@[x]) < n,
                    forall|c: int, d: int|
                        0 <= c < d < order@.len() ==> record_lt(doc, #[trigger] order@[c] as int, #[trigger] order@[d] as int),
                    pos.len() == edges@.len(),
                    forall|x: int|
                        0 <= x < pos.len() ==> 0 <= (#[trigger] pos[x]).0 <= a && 0 <= pos[x].1 < n
                            && (pos[x].0 < a || pos[x].1 < b),
                    forall|x: int|
                        0 <= x < pos.len() ==> (#[trigger] edges@[x]).0@.1 == order@[pos[x].0]
                            && edges@[x].1@.1 == order@[pos[x].1],
                    is_partial_graph(edges@.map_values(|e: (Node, Node)| (e.0@, e.1@)), doc, k as int),
                    forall|x: int, y: int|
                        0 <= x < y < pos.len() ==> edge_lt(
                            doc,
                            order@[(#[trigger] pos[x]).0] as int,
                            order@[pos[x].1] as int,
                            order@[(#[trigger] pos[y]).0] as int,
                            order@[pos[y].1] as int,
                        ),
                    forall|c: int, d: int|
                        ((0 <= c < a && 0 <= d < n) || (c == a && 0 <= d < b)) && overlaps(
                            doc,
                            k as int,
                            #[trigger] order@[c] as int,
                            #[trigger] order@[d] as int,
                        ) ==> exists|x: int| 0 <= x < pos.len() && #[trigger] pos[x] == (c, d),
                decreases n - b,
            {
                let s = order[a];
                let d = order[b];
                assert(records@[s as int].1@ == doc[s as int].1);
                assert(records@[d as int].1@ == doc[d as int].1);
                if s != d && suffix_is_prefix(&records[s].1, &records[d].1, k) {
                    let ghost before = edges@.map_values(|e: (Node, Node)| (e.0@, e.1@));
                    let ghost old_pos = pos;
                    let src = Node { name: string_from(&names[s]), record: s };
                    let dst = Node { name: string_from(&names[d]), record: d };
                    edges.push((src, dst));
                    proof {
                        pos = pos.push((a as int, b as int));
                        let g = edges@.map_values(|e: (Node, Node)| (e.0@, e.1@));
                        assert(g =~= before.push((src@, dst@)));
                        assert forall|x: int, y: int|
                            0 <= x < y < pos.len() implies edge_lt(
                                doc,
                                order@[(#[trigger] pos[x]).0] as int,
                                order@[pos[x].1] as int,
                                order@[(#[trigger] pos[y]).0] as int,
                                order@[pos[y].1] as int,
                            ) by {
                            if y == pos.len() - 1 {
                                assert(pos[x] == old_pos[x]);
                                if pos[x].0 < a {
                                    assert(record_lt(doc, order@[pos[x].0] as int, order@[a as int] as int));
                                } else {
                                    assert(record_lt(doc, order@[pos[x].1] as int, order@[b as int] as int));
                                }
                            } else {
                                assert(pos[x] == old_pos[x] && pos[y] == old_pos[y]);
                            }
                        }
                        assert forall|x: int| 0 <= x < pos.len() implies (#[trigger] edges@[x]).0@.1
                            == order@[pos[x].0] && edges@[x].1@.1 == order@[pos[x].1] by {
                            if x < old_pos.len() {
                                assert(pos[x] == old_pos[x]);
                            }
                        }
                        assert forall|c: int, d2: int|
                            ((0 <= c < a && 0 <= d2 < n) || (c == a && 0 <= d2 < b + 1)) && overlaps(
                                doc,
                                k as int,
                                #[trigger] order@[c] as int,
                                #[trigger] order@[d2] as int,
                            ) implies exists|x: int| 0 <= x < pos.len() && #[trigger] pos[x] == (c, d2) by {
                            if c == a && d2 == b {
                                assert(pos[pos.len() - 1] == (c, d2));
                            } else {
                                let x0 = choose|x: int| 0 <= x < old_pos.len() && #[trigger] old_pos[x] == (c, d2);
                                assert(pos[x0] == (c, d2));
                            }
                        }
                    }
                } else {
                    proof {
                        assert forall|c: int, d2: int|
                            ((0 <= c < a && 0 <= d2 < n) || (c == a && 0 <= d2 < b + 1)) && overlaps(
                                doc,
                                k as int,
                                #[trigger] order@[c] as int,
                                #[trigger] order@[d2] as int,
                            ) implies exists|x: int| 0 <= x < pos.len() && #[trigger] pos[x] == (c, d2) by {
                            if c == a && d2 == b {
                                assert(false);
                            }
                        }
                    }
                }
                b += 1;
            }
            a += 1;
        }
        let g = Digraph { edges };
        proof {
            let gv = g@;
            assert forall|i: int, j: int|
                #![trigger overlaps(doc, k as int, i, j)]
                overlaps(doc, k as int, i, j) implies exists|x: int|
                    0 <= x < gv.len() && (#[trigger] gv[x]).0.1 == i && gv[x].1.1 == j by {
                assert(holds(order@, i) && holds(order@, j));
                let c = choose|c: int| 0 <= c < order@.len() && #[trigger] order@[c] == i;
                let d = choose|d: int| 0 <= d < order@.len() && #[trigger] order@[d] == j;
                let x = choose|x: int| 0 <= x < pos.len() && #[trigger] pos[x] == (c, d);
                assert(gv[x].0.1 == i && gv[x].1.1 == j);
            }
            assert forall|x: int, y: int|
                0 <= x < y < gv.len() implies edge_lt(
                    doc,
                    (#[trigger] gv[x]).0.1 as int,
                    gv[x].1.1 as int,
                    (#[trigger] gv[y]).0.1 as int,
                    gv[y].1.1 as int,
                ) by {
                assert(pos[x] == pos[x] && pos[y] == pos[y]);
            }
        }
        g
    }
}

/// The edges of `g` are overlaps of `doc`, named after their records.
pub open spec fn is_partial_graph(
    g: Seq<((Seq<char>, usize), (Seq<char>, usize))>,
    doc: Seq<(Seq<char>, Seq<DnaBase>)>,
    k: int,
) -> bool {
    forall|x: int|
        0 <= x < g.len() ==> {
            let e = #[trigger] g[x];
            &&& overlaps(doc, k, e.0.1 as int, e.1.1 as int)
            &&& e.0.0 == doc[e.0.1 as int].0
            &&& e.1.0 == doc[e.1.1 as int].0
        }
}

/// Whether `x` is one of the positions in `order`.
pub open spec fn holds(order: Seq<usize>, x: int) -> bool {
    exists|a: int| 0 <= a < order.len() && order[a] == x
}

/// The characters of a vector as a string.
fn string_from(v: &Vec<char>) -> (r: String)
    ensures
        r@ == v@,
{
    crate::utils::fasta::string_of(v.as_slice())
}

} // verus!
