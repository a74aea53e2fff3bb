//! Open reading frames: every protein that some frame of either strand encodes.

use crate::utils::digraph::{char_codes, compare_chars, lex_antisymmetric, lex_cmp, lex_equal, lex_transitive};
use crate::utils::dna::{reverse_complement_of, Dna, DnaBase};
use crate::utils::fasta::{string_of, Fasta};
use crate::utils::protein::{dna_codons, has_orf, orf_at, protein_text, Protein};
use crate::utils::text::{chars_of, join, joined};
use vstd::prelude::*;

verus! {

/// Strand `st` of record `j`: `0` is the sequence as given, `1` its reverse complement.
pub open spec fn strand(doc: Seq<(Seq<char>, Seq<DnaBase>)>, j: int, st: int) -> Seq<DnaBase> {
    if st == 0 {
        doc[j].1
    } else {
        reverse_complement_of(doc[j].1)
    }
}

/// The text of the protein that the reading frame of `s` encodes.
pub open spec fn orf_text(s: Seq<DnaBase>) -> Seq<char> {
    let (a, b) = choose|a: int, b: int| orf_at(s, a, b);
    protein_text(dna_codons(s, a, b + 1))
}

/// `t` is the protein read from base `i` of strand `st` of record `j`.
pub open spec fn frame(doc: Seq<(Seq<char>, Seq<DnaBase>)>, j: int, st: int, i: int, t: Seq<char>) -> bool {
    &&& 0 <= j < doc.len()
    &&& 0 <= st <= 1
    &&& 0 <= i < strand(doc, j, st).len()
    &&& has_orf(strand(doc, j, st).skip(i))
    &&& t == orf_text(strand(doc, j, st).skip(i))
    &&& t.len() > 0
}

/// `t` is read from a frame that comes before record `j`, strand `st`, base `i`.
pub open spec fn found_before(doc: Seq<(Seq<char>, Seq<DnaBase>)>, j: int, st: int, i: int, t: Seq<char>) -> bool {
    exists|j2: int, st2: int, i2: int|
        #[trigger] frame(doc, j2, st2, i2, t) && (j2 < j || (j2 == j && (st2 < st || (st2 == st && i2 < i))))
}

/// The texts held by a list of character vectors.
pub open spec fn texts(v: Seq<Vec<char>>) -> Seq<Seq<char>> {
    v.map_values(|x: Vec<char>| x@)
}

/// Texts strictly increasing by code point.
pub open spec fn strictly_sorted(v: Seq<Seq<char>>) -> bool {
    forall|x: int, y: int|
        0 <= x < y < v.len() ==> lex_cmp(char_codes(#[trigger] v[x]), char_codes(#[trigger] v[y]), 0) < 0
}

proof fn orf_unique(s: Seq<DnaBase>, a: int, b: int, a2: int, b2: int)
    requires
        orf_at(s, a, b),
        orf_at(s, a2, b2),
    ensures
        a == a2 && b == b2,
{
    if a < a2 {
        assert(!crate::utils::protein::is_start_codon(s, a));
    } else if a2 < a {
        assert(!crate::utils::protein::is_start_codon(s, a2));
    }
    if b < b2 {
        assert(crate::utils::protein::dna_codon(s, b) != crate::utils::protein::AminoAcid::Stop);
    } else if b2 < b {
        assert(crate::utils::protein::dna_codon(s, b2) != crate::utils::protein::AminoAcid::Stop);
    }
}

/// Adds `t` to a strictly sorted list unless it is there already.
fn insert_sorted(found: &mut Vec<Vec<char>>, t: Vec<char>)
    requires
        strictly_sorted(texts(old(found)@)),
    ensures
        strictly_sorted(texts(final(found)@)),
        forall|u: Seq<char>|
            #[trigger] texts(final(found)@).contains(u) <==> (texts(old(found)@).contains(u) || u == t@),
{
    let ghost old_v = texts(found@);
    let mut p: usize = 0;
    let mut last: i8 = 1;
    while p < found.len()
        invariant
            p <= found@.len() == old_v.len(),
            old_v == texts(found@),
            forall|x: int| 0 <= x < p ==> lex_cmp(char_codes(t@), char_codes(#[trigger] old_v[x]), 0) > 0,
        ensures
            p <= found@.len() == old_v.len(),
            old_v == texts(found@),
            forall|x: int| 0 <= x < p ==> lex_cmp(char_codes(t@), char_codes(#[trigger] old_v[x]), 0) > 0,
            p < found@.len() ==> last as int == lex_cmp(char_codes(t@), char_codes(old_v[p as int]), 0)
                && last <= 0,
        decreases found@.len() - p,
    {
        assert(found@[p as int]@ == old_v[p as int]);
        last = compare_chars(t.as_slice(), found[p].as_slice());
        if last <= 0 {
            break;
        }
        p += 1;
    }
    if p < found.len() && last == 0 {
        proof {
            lex_equal(t@, old_v[p as int]);
            assert(old_v[p as int] == t@);
            assert forall|u: Seq<char>|
                old_v.contains(u) <==> (old_v.contains(u) || u == t@) by {
                if u == t@ {
                    assert(old_v[p as int] == u);
                }
            }
        }
        return;
    }
    let ghost tv = t@;
    found.insert(p, t);
    proof {
        let nv = texts(found@);
        assert(nv =~= old_v.insert(p as int, tv));
        assert forall|x: int, y: int|
            0 <= x < y < nv.len() implies lex_cmp(char_codes(#[trigger] nv[x]), char_codes(#[trigger] nv[y]), 0) < 0 by {
            if x < p && y < p {
            } else if x < p && y == p {
                lex_antisymmetric(char_codes(tv), char_codes(old_v[x]), 0);
            } else if x < p && y > p {
                lex_antisymmetric(char_codes(tv), char_codes(old_v[x]), 0);
                lex_transitive(char_codes(old_v[x]), char_codes(tv), char_codes(old_v[y - 1]), 0);
                if y - 1 > p {
                    lex_transitive(char_codes(tv), char_codes(old_v[p as int]), char_codes(old_v[y - 1]), 0);
                }
            } else if x == p {
                if y - 1 > p {
                    lex_transitive(char_codes(tv), char_codes(old_v[p as int]), char_codes(old_v[y - 1]), 0);
                }
            } else {
            }
        }
        assert forall|u: Seq<char>| nv.contains(u) <==> (old_v.contains(u) || u == tv) by {
            if old_v.contains(u) {
                let x = choose|x: int| 0 <= x < old_v.len() && old_v[x] == u;
                if x < p {
                    assert(nv[x] == u);
                } else {
                    assert(nv[x + 1] == u);
                }
            }
            if u == tv {
                assert(nv[p as int] == u);
            }
            if nv.contains(u) {
                let x = choose|x: int| 0 <= x < nv.len() && nv[x] == u;
                if x < p {
                    assert(old_v[x] == u);
                } else if x > p {
                    assert(old_v[x - 1] == u);
                }
            }
        }
    }
}

/// The distinct proteins that the reading frames of every record encode, on both
/// strands and from every base, sorted by code point and one per line.
pub fn solve(input: Fasta<Dna>) -> (r: String)
    ensures
        exists|v: Seq<Seq<char>>|
            strictly_sorted(v) && (forall|t: Seq<char>|
                v.contains(t) <==> found_before(input@, input@.len() as int, 0, 0, t)) && r@ == joined(
                v,
                "\n"@,
            ),
{
    let ghost doc = input@;
    let records = input.records();
    let mut found: Vec<Vec<char>> = Vec::new();
    let mut j: usize = 0;
    assert(texts(found@) =~= Seq::<Seq<char>>::empty());
    while j < records.len()
        invariant
            j <= records@.len() == doc.len(),
            doc == records@.map_values(|p: (String, Dna)| (p.0@, p.1@)),
            strictly_sorted(texts(found@)),
            forall|t: Seq<char>|
                texts(found@).contains(t) <==> found_before(doc, j as int, 0, 0, t),
        decreases records.len() - j,
    {
        assert(records@[j as int].1@ == doc[j as int].1);
        let mut dna = records[j].1.duplicate();
        let mut st: usize = 0;
        while st < 2
            invariant
                j < records@.len() == doc.len(),
                st <= 2,
                st < 2 ==> dna@ == strand(doc, j as int, st as int),
                strictly_sorted(texts(found@)),
                forall|t: Seq<char>|
                    texts(found@).contains(t) <==> found_before(doc, j as int, st as int, 0, t),
            decreases 2 - st,
        {
            let n = dna.len();
            let mut i: usize = 0;
            while i < n
                invariant
                    j < doc.len(),
                    st < 2,
                    i <= n == dna@.len(),
                    dna@ == strand(doc, j as int, st as int),
                    strictly_sorted(texts(found@)),
                    forall|t: Seq<char>|
                        texts(found@).contains(t) <==> found_before(
                            doc,
                            j as int,
                            st as int,
                            i as int,
                            t,
                        ),
                decreases n - i,
            {
                let ghost s = dna@.skip(i as int);
                let (_, back) = dna.sequence().split_at(i);
                let tail = Dna::new(vstd::slice::slice_to_vec(back));
                assert(tail@ == s);
                let ghost before = texts(found@);
                match Protein::from_dna(&tail) {
                    Ok(p) => {
                        let text = p.to_text();
                        let chars = chars_of(text.as_str());
                        proof {
                            let (a, b) = choose|a: int, b: int| orf_at(s, a, b) && p@ == dna_codons(s, a, b + 1);
                            let (a2, b2) = choose|a2: int, b2: int| orf_at(s, a2, b2);
                            orf_unique(s, a, b, a2, b2);
                            assert(chars@ == orf_text(s));
                        }
                        if chars.len() > 0 {
                            let ghost tv = chars@;
                            insert_sorted(&mut found, chars);
                            proof {
                                assert(frame(doc, j as int, st as int, i as int, tv));
                                assert forall|t: Seq<char>|
                                    texts(found@).contains(t) <==> found_before(
                                        doc,
                                        j as int,
                                        st as int,
                                        i + 1,
                                        t,
                                    ) by {
                                    if found_before(doc, j as int, st as int, i + 1, t) {
                                        let (j2, st2, i2) = choose|j2: int, st2: int, i2: int|
                                            #[trigger] frame(doc, j2, st2, i2, t) && (j2 < j || (j2 == j && (
                                            st2 < st || (st2 == st && i2 < i + 1))));
                                        if !(j2 == j && st2 == st && i2 == i) {
                                            assert(found_before(doc, j as int, st as int, i as int, t));
                                        }
                                    }
                                    if before.contains(t) {
                                        assert(found_before(doc, j as int, st as int, i as int, t));
                                    }
                                }
                            }
                        } else {
                            proof {
                                assert forall|t: Seq<char>|
                                    texts(found@).contains(t) <==> found_before(
                                        doc,
                                        j as int,
                                        st as int,
                                        i + 1,
                                        t,
                                    ) by {
                                    if found_before(doc, j as int, st as int, i + 1, t) {
                                        let (j2, st2, i2) = choose|j2: int, st2: int, i2: int|
                                            #[trigger] frame(doc, j2, st2, i2, t) && (j2 < j || (j2 == j && (
                                            st2 < st || (st2 == st && i2 < i + 1))));
                                        if !(j2 == j && st2 == st && i2 == i) {
                                            assert(found_before(doc, j as int, st as int, i as int, t));
                                        }
                                    }
                                }
                            }
                        }
                    },
                    Err(_) => {
                        proof {
                            assert forall|t: Seq<char>|
                                texts(found@).contains(t) <==> found_before(
                                    doc,
                                    j as int,
                                    st as int,
                                    i + 1,
                                    t,
                                ) by {
                                if found_before(doc, j as int, st as int, i + 1, t) {
                                    let (j2, st2, i2) = choose|j2: int, st2: int, i2: int|
                                        #[trigger] frame(doc, j2, st2, i2, t) && (j2 < j || (j2 == j && (st2
                                        < st || (st2 == st && i2 < i + 1))));
                                    if !(j2 == j && st2 == st && i2 == i) {
                                        assert(found_before(doc, j as int, st as int, i as int, t));
                                    }
                                }
                            }
                        }
                    },
                }
                i += 1;
            }
            proof {
                assert forall|t: Seq<char>|
                    texts(found@).contains(t) <==> found_before(
                        doc,
                        j as int,
                        st + 1,
                        0,
                        t,
                    ) by {
                    if found_before(doc, j as int, st + 1, 0, t) {
                        let (j2, st2, i2) = choose|j2: int, st2: int, i2: int|
                            #[trigger] frame(doc, j2, st2, i2, t) && (j2 < j || (j2 == j && (st2 < st + 1 || (
                            st2 == st + 1 && i2 < 0))));
                        assert(found_before(doc, j as int, st as int, n as int, t));
                    }
                    if found_before(doc, j as int, st as int, n as int, t) {
                        let (j2, st2, i2) = choose|j2: int, st2: int, i2: int|
                            #[trigger] frame(doc, j2, st2, i2, t) && (j2 < j || (j2 == j && (st2 < st || (
                            st2 == st && i2 < n))));
                        assert(found_before(doc, j as int, st + 1, 0, t));
                    }
                }
            }
            dna.reverse_complement();
            st += 1;
        }
        proof {
            assert forall|t: Seq<char>|
                texts(found@).contains(t) <==> found_before(doc, j + 1, 0, 0, t) by {
                if found_before(doc, j + 1, 0, 0, t) {
                    let (j2, st2, i2) = choose|j2: int, st2: int, i2: int|
                        #[trigger] frame(doc, j2, st2, i2, t) && (j2 < j + 1 || (j2 == j + 1 && (st2 < 0 || (
                        st2 == 0 && i2 < 0))));
                    assert(found_before(doc, j as int, 2, 0, t));
                }
                if found_before(doc, j as int, 2, 0, t) {
                    let (j2, st2, i2) = choose|j2: int, st2: int, i2: int|
                        #[trigger] frame(doc, j2, st2, i2, t) && (j2 < j || (j2 == j && (st2 < 2 || (st2
                        == 2 && i2 < 0))));
                    assert(found_before(doc, j + 1, 0, 0, t));
                }
            }
        }
        j += 1;
    }
    let mut lines: Vec<String> = Vec::new();
    let mut x: usize = 0;
    while x < found.len()
        invariant
            x <= found@.len(),
            lines@.map_values(|s: String| s@) == texts(found@).take(x as int),
        decreases found.len() - x,
    {
        let ghost prev = lines@.map_values(|s: String| s@);
        lines.push(string_of(found[x].as_slice()));
        assert(lines@.map_values(|s: String| s@) =~= prev.push(found@[x as int]@));
        x += 1;
        assert(texts(found@).take(x as int) =~= texts(found@).take(x - 1).push(found@[x - 1]@));
    }
    assert(texts(found@).take(x as int) =~= texts(found@));
    join(lines.as_slice(), "\n")
}

} // verus!
