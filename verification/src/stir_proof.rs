//! The wire-format proof object: one entry per fold-and-query round
//! except the last, each holding the round's authentication paths and
//! the opened coset values. Final-round data (the in-the-clear
//! polynomial) and every absorbed root and nonce travel through the
//! transcript string instead, which the size helper accounts for
//! separately.

use vstd::prelude::*;

verus! {

/// One round's openings: an authentication path and the opened coset
/// values for each queried coset, in query order.
pub struct RoundEntry {
    pub paths: Vec<Vec<Vec<u8>>>,
    pub leaves: Vec<Vec<u64>>,
}

/// An ordered sequence of round openings; the entry count is the number
/// of rounds minus one.
pub struct StirProof {
    pub merkle_proofs: Vec<RoundEntry>,
}

/// Serialized bytes of one batch of authentication paths: an eight-byte
/// count per path plus 32 bytes per node.
pub open spec fn paths_size(ps: Seq<Vec<Vec<u8>>>) -> nat
    decreases ps.len(),
{
    if ps.len() == 0 {
        0
    } else {
        paths_size(ps.drop_last()) + 8 + 32 * ps.last()@.len()
    }
}

/// Serialized bytes of one batch of opened cosets: an eight-byte count
/// per coset plus eight bytes per value.
pub open spec fn leaves_size(ls: Seq<Vec<u64>>) -> nat
    decreases ls.len(),
{
    if ls.len() == 0 {
        0
    } else {
        leaves_size(ls.drop_last()) + 8 + 8 * ls.last()@.len()
    }
}

pub open spec fn entry_size(e: &RoundEntry) -> nat {
    16 + paths_size(e.paths@) + leaves_size(e.leaves@)
}

pub open spec fn entries_size(es: Seq<RoundEntry>) -> nat
    decreases es.len(),
{
    if es.len() == 0 {
        0
    } else {
        entries_size(es.drop_last()) + entry_size(&es.last())
    }
}

/// The serialized size of a proof: an eight-byte entry count plus each
/// entry's bytes.
pub open spec fn proof_size_spec(p: &StirProof) -> nat {
    8 + entries_size(p.merkle_proofs@)
}

proof fn lemma_paths_prefix(ps: Seq<Vec<Vec<u8>>>, i: int)
    requires
        0 <= i <= ps.len(),
    ensures
        paths_size(ps.subrange(0, i)) <= paths_size(ps),
        i < ps.len() ==> paths_size(ps.subrange(0, i + 1)) == paths_size(ps.subrange(0, i)) + 8
            + 32 * ps[i]@.len(),
    decreases ps.len() - i,
{
    if i < ps.len() {
        assert(ps.subrange(0, i + 1).drop_last() =~= ps.subrange(0, i));
        assert(ps.subrange(0, i + 1).last() == ps[i]);
        lemma_paths_prefix(ps, i + 1);
    } else {
        assert(ps.subrange(0, i) =~= ps);
    }
}

proof fn lemma_leaves_prefix(ls: Seq<Vec<u64>>, i: int)
    requires
        0 <= i <= ls.len(),
    ensures
        leaves_size(ls.subrange(0, i)) <= leaves_size(ls),
        i < ls.len() ==> leaves_size(ls.subrange(0, i + 1)) == leaves_size(ls.subrange(0, i)) + 8
            + 8 * ls[i]@.len(),
    decreases ls.len() - i,
{
    if i < ls.len() {
        assert(ls.subrange(0, i + 1).drop_last() =~= ls.subrange(0, i));
        assert(ls.subrange(0, i + 1).last() == ls[i]);
        lemma_leaves_prefix(ls, i + 1);
    } else {
        assert(ls.subrange(0, i) =~= ls);
    }
}

proof fn lemma_entries_prefix(es: Seq<RoundEntry>, i: int)
    requires
        0 <= i <= es.len(),
    ensures
        entries_size(es.subrange(0, i)) <= entries_size(es),
        i < es.len() ==> entries_size(es.subrange(0, i + 1)) == entries_size(es.subrange(0, i))
            + entry_size(&es[i]),
    decreases es.len() - i,
{
    if i < es.len() {
        assert(es.subrange(0, i + 1).drop_last() =~= es.subrange(0, i));
        assert(es.subrange(0, i + 1).last() == es[i]);
        lemma_entries_prefix(es, i + 1);
    } else {
        assert(es.subrange(0, i) =~= es);
    }
}

fn paths_size_exec(ps: &Vec<Vec<Vec<u8>>>, bound: Ghost<nat>) -> (r: usize)
    requires
        paths_size(ps@) <= bound@ <= usize::MAX,
    ensures
        r == paths_size(ps@),
{
    let mut acc: usize = 0;
    let mut i: usize = 0;
    proof {
        assert(ps@.subrange(0, 0) =~= Seq::<Vec<Vec<u8>>>::empty());
    }
    while i < ps.len()
        invariant
            i <= ps@.len(),
            acc == paths_size(ps@.subrange(0, i as int)),
            paths_size(ps@) <= bound@ <= usize::MAX,
        decreases ps@.len() - i,
    {
        proof {
            lemma_paths_prefix(ps@, i as int);
            lemma_paths_prefix(ps@, i as int + 1);
        }
        let plen = ps[i].len();
        acc = acc + 8 + 32 * plen;
        i = i + 1;
    }
    proof {
        assert(ps@.subrange(0, ps@.len() as int) =~= ps@);
    }
    acc
}

fn leaves_size_exec(ls: &Vec<Vec<u64>>, bound: Ghost<nat>) -> (r: usize)
    requires
        leaves_size(ls@) <= bound@ <= usize::MAX,
    ensures
        r == leaves_size(ls@),
{
    let mut acc: usize = 0;
    let mut i: usize = 0;
    proof {
        assert(ls@.subrange(0, 0) =~= Seq::<Vec<u64>>::empty());
    }
    while i < ls.len()
        invariant
            i <= ls@.len(),
            acc == leaves_size(ls@.subrange(0, i as int)),
            leaves_size(ls@) <= bound@ <= usize::MAX,
        decreases ls@.len() - i,
    {
        proof {
            lemma_leaves_prefix(ls@, i as int);
            lemma_leaves_prefix(ls@, i as int + 1);
        }
        let llen = ls[i].len();
        acc = acc + 8 + 8 * llen;
        i = i + 1;
    }
    proof {
        assert(ls@.subrange(0, ls@.len() as int) =~= ls@);
    }
    acc
}

/// The total wire cost of a proof exchange: the transcript string's
/// length plus the proof object's serialized size.
pub fn stir_proof_size(transcript: &[u8], stir_proof: &StirProof) -> (r: usize)
    requires
        transcript@.len() + proof_size_spec(stir_proof) <= usize::MAX,
    ensures
        r == transcript@.len() + proof_size_spec(stir_proof),
{
    let mut acc: usize = 8;
    let mut i: usize = 0;
    let es = &stir_proof.merkle_proofs;
    proof {
        assert(es@.subrange(0, 0) =~= Seq::<RoundEntry>::empty());
    }
    while i < es.len()
        invariant
            i <= es@.len(),
            acc == 8 + entries_size(es@.subrange(0, i as int)),
            8 + entries_size(es@) <= usize::MAX,
        decreases es@.len() - i,
    {
        proof {
            lemma_entries_prefix(es@, i as int);
            lemma_entries_prefix(es@, i as int + 1);
        }
        let ghost b = (usize::MAX) as nat;
        let psz = paths_size_exec(&es[i].paths, Ghost(b));
        let lsz = leaves_size_exec(&es[i].leaves, Ghost(b));
        acc = acc + 16 + psz + lsz;
        i = i + 1;
    }
    proof {
        assert(es@.subrange(0, es@.len() as int) =~= es@);
    }
    transcript.len() + acc
}

} // verus!
