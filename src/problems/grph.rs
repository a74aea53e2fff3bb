//! Overlap graphs of FASTA records.

use crate::utils::digraph::{is_overlap_graph, Digraph};
use crate::utils::dna::{Dna, DnaBase};
use crate::utils::fasta::{push_trimmed, string_of, trimmed, Fasta};
use crate::utils::text::chars_of;
use vstd::prelude::*;

verus! {

/// The overlap length.
pub const OVERLAP: usize = 3;

/// One line per edge, `source destination`, for the edges below `n`.
pub open spec fn edge_lines(g: Seq<((Seq<char>, usize), (Seq<char>, usize))>, n: nat) -> Seq<char>
    decreases n,
{
    if n == 0 {
        seq![]
    } else {
        edge_lines(g, (n - 1) as nat) + g[n - 1].0.0 + seq![' '] + g[n - 1].1.0 + seq!['\n']
    }
}

/// The edges of the overlap graph with overlap three, one `source destination`
/// line each, in graph order; white space at either end is trimmed.
pub fn solve(input: Fasta<Dna>) -> (r: String)
    ensures
        exists|g: Seq<((Seq<char>, usize), (Seq<char>, usize))>|
            is_overlap_graph(g, input@, OVERLAP as int) && r@ == trimmed(edge_lines(g, g.len())),
{
    let graph = Digraph::overlap_graph_from_fasta_dna(&input, OVERLAP);
    let list = graph.adjacency_list();
    let ghost g = graph@;
    let mut text: Vec<char> = Vec::new();
    let mut x: usize = 0;
    while x < list.len()
        invariant
            x <= list@.len() == g.len(),
            g == graph@,
            forall|y: int| 0 <= y < list@.len() ==> (#[trigger] list@[y]).0@ == g[y].0 && list@[y].1@ == g[y].1,
            text@ == edge_lines(g, x as nat),
        decreases list.len() - x,
    {
        let (from, to) = list[x];
        let a = chars_of(from.name().as_str());
        let b = chars_of(to.name().as_str());
        let mut k: usize = 0;
        while k < a.len()
            invariant
                k <= a.len(),
                text@ == edge_lines(g, x as nat) + a@.take(k as int),
            decreases a.len() - k,
        {
            text.push(a[k]);
            k += 1;
            assert(text@ =~= edge_lines(g, x as nat) + a@.take(k as int));
        }
        assert(a@.take(k as int) =~= a@);
        text.push(' ');
        let ghost mid = text@;
        let mut k: usize = 0;
        while k < b.len()
            invariant
                k <= b.len(),
                text@ == mid + b@.take(k as int),
            decreases b.len() - k,
        {
            text.push(b[k]);
            k += 1;
            assert(text@ =~= mid + b@.take(k as int));
        }
        assert(b@.take(k as int) =~= b@);
        text.push('\n');
        x += 1;
        assert(text@ =~= edge_lines(g, x as nat));
    }
    let mut out: Vec<char> = Vec::new();
    push_trimmed(&mut out, text.as_slice());
    assert(out@ =~= trimmed(text@));
    string_of(out.as_slice())
}

} // verus!
