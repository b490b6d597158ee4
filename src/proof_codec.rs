//! Conversion between the consensus engine's commit proof and the proof
//! carried in a block header.
//!
//! The header proof is tagged with its kind and holds the commit proof as
//! bytes: the block hash as a length-prefixed field, the height and the
//! round as eight little-endian bytes each, the number of precommit votes
//! as eight little-endian bytes, then for each vote the voter address and
//! the signature as length-prefixed fields. A length prefix is eight
//! little-endian bytes.

use vstd::prelude::*;
use crate::authority::bytes_equal;

verus! {

/// The engine's commit certificate for a height: the committed block hash,
/// the height and round, and the precommit votes as (address, signature)
/// pairs.
#[derive(Clone, Debug)]
pub struct Proof {
    pub block_hash: Vec<u8>,
    pub height: u64,
    pub round: u64,
    pub precommit_votes: Vec<(Vec<u8>, Vec<u8>)>,
}

/// What a [`Proof`] stands for.
pub struct ProofModel {
    pub block_hash: Seq<u8>,
    pub height: u64,
    pub round: u64,
    pub votes: Seq<(Seq<u8>, Seq<u8>)>,
}

pub open spec fn votes_view(v: Seq<(Vec<u8>, Vec<u8>)>) -> Seq<(Seq<u8>, Seq<u8>)> {
    v.map_values(|x: (Vec<u8>, Vec<u8>)| (x.0@, x.1@))
}

impl View for Proof {
    type V = ProofModel;

    open spec fn view(&self) -> ProofModel {
        ProofModel {
            block_hash: self.block_hash@,
            height: self.height,
            round: self.round,
            votes: votes_view(self.precommit_votes@),
        }
    }
}

/// The kind of consensus that produced a header proof.
#[derive(Clone, Copy, Debug, PartialEq, Eq, Structural)]
pub enum ProofKind {
    Authority,
    Raft,
    Tendermint,
    Bft,
}

/// The proof as a block header carries it.
#[derive(Clone, Debug)]
pub struct WireProof {
    pub kind: ProofKind,
    pub content: Vec<u8>,
}

/// No voter has two votes in the list: the precommit votes map each voter
/// to one signature.
pub open spec fn distinct_voters(votes: Seq<(Seq<u8>, Seq<u8>)>) -> bool {
    forall|i: int, j: int| 0 <= i < j < votes.len() ==> votes[i].0 != votes[j].0
}

/// Eight little-endian bytes of `v`.
pub open spec fn le64(v: u64) -> Seq<u8> {
    seq![
        v as u8,
        (v >> 8u64) as u8,
        (v >> 16u64) as u8,
        (v >> 24u64) as u8,
        (v >> 32u64) as u8,
        (v >> 40u64) as u8,
        (v >> 48u64) as u8,
        (v >> 56u64) as u8,
    ]
}

/// The number whose little-endian bytes are the first eight of `s`.
pub open spec fn from_le64(s: Seq<u8>) -> u64 {
    le_value(s[0], s[1], s[2], s[3], s[4], s[5], s[6], s[7])
}

pub open spec fn le_value(b0: u8, b1: u8, b2: u8, b3: u8, b4: u8, b5: u8, b6: u8, b7: u8) -> u64 {
    (b0 as u64) | ((b1 as u64) << 8u64) | ((b2 as u64) << 16u64) | ((b3 as u64) << 24u64)
        | ((b4 as u64) << 32u64) | ((b5 as u64) << 40u64) | ((b6 as u64) << 48u64) | ((b7 as u64)
        << 56u64)
}

/// A length-prefixed field.
pub open spec fn field(b: Seq<u8>) -> Seq<u8> {
    le64(b.len() as u64) + b
}

/// The bytes of a list of precommit votes, without their count.
pub open spec fn votes_bytes(votes: Seq<(Seq<u8>, Seq<u8>)>) -> Seq<u8>
    decreases votes.len(),
{
    if votes.len() == 0 {
        Seq::empty()
    } else {
        votes_bytes(votes.drop_last()) + field(votes.last().0) + field(votes.last().1)
    }
}

/// The encoding of a commit proof.
pub open spec fn proof_bytes(p: ProofModel) -> Seq<u8> {
    field(p.block_hash) + le64(p.height) + le64(p.round) + le64(p.votes.len() as u64)
        + votes_bytes(p.votes)
}

proof fn lemma_le64_round_trip(v: u64)
    ensures
        from_le64(le64(v)) == v,
{
    assert(le_value(
        v as u8,
        (v >> 8u64) as u8,
        (v >> 16u64) as u8,
        (v >> 24u64) as u8,
        (v >> 32u64) as u8,
        (v >> 40u64) as u8,
        (v >> 48u64) as u8,
        (v >> 56u64) as u8,
    ) == v) by (bit_vector);
}

proof fn lemma_le64_onto(s: Seq<u8>)
    requires
        s.len() == 8,
    ensures
        le64(from_le64(s)) == s,
{
    let (b0, b1, b2, b3, b4, b5, b6, b7) = (s[0], s[1], s[2], s[3], s[4], s[5], s[6], s[7]);
    let v = le_value(b0, b1, b2, b3, b4, b5, b6, b7);
    assert(v as u8 == b0 && (v >> 8u64) as u8 == b1 && (v >> 16u64) as u8 == b2 && (v >> 24u64)
        as u8 == b3 && (v >> 32u64) as u8 == b4 && (v >> 40u64) as u8 == b5 && (v >> 48u64) as u8
        == b6 && (v >> 56u64) as u8 == b7) by (bit_vector)
        requires
            v == (b0 as u64) | ((b1 as u64) << 8u64) | ((b2 as u64) << 16u64) | ((b3 as u64)
                << 24u64) | ((b4 as u64) << 32u64) | ((b5 as u64) << 40u64) | ((b6 as u64)
                << 48u64) | ((b7 as u64) << 56u64),
    ;
    assert(le64(v) =~= s);
}

/// Relies on bincode::serialize (0.9) with no size limit, which writes
/// little-endian: a `u64` as its eight bytes, a byte vector as its length
/// as a `u64` followed by its bytes, a vector of pairs as its length as a
/// `u64` followed by each pair, and a tuple as its fields in order. Writing
/// into a vector without a size limit does not fail.
#[verifier::external_body]
fn serialize_proof(
    block_hash: &Vec<u8>,
    height: u64,
    round: u64,
    votes: &Vec<(Vec<u8>, Vec<u8>)>,
) -> (r: Option<Vec<u8>>)
    ensures
        r is Some,
        r.unwrap()@ == field(block_hash@) + le64(height) + le64(round) + le64(votes.len() as u64)
            + votes_bytes(votes_view(votes@)),
{
    bincode::serialize(&(block_hash, height, round, votes), bincode::Infinite).ok()
}

/// Encodes a commit proof as the content of a header proof.
pub fn encode_proof(proof: &Proof) -> (r: Vec<u8>)
    ensures
        r@ == proof_bytes(proof@),
{
    match serialize_proof(&proof.block_hash, proof.height, proof.round, &proof.precommit_votes) {
        Some(bytes) => bytes,
        None => Vec::new(),
    }
}

/// Wraps a commit proof in a header proof of the BFT kind.
pub fn to_bft_proof(proof: &Proof) -> (r: WireProof)
    ensures
        r.kind == ProofKind::Bft,
        r.content@ == proof_bytes(proof@),
{
    WireProof { kind: ProofKind::Bft, content: encode_proof(proof) }
}

/// The encoding of a commit proof up to its votes.
pub open spec fn header_bytes(p: ProofModel) -> Seq<u8> {
    field(p.block_hash) + le64(p.height) + le64(p.round) + le64(p.votes.len() as u64)
}

proof fn lemma_votes_prefix(v: Seq<(Seq<u8>, Seq<u8>)>, j: int)
    requires
        0 <= j <= v.len(),
    ensures
        votes_bytes(v.take(j)).len() <= votes_bytes(v).len(),
        votes_bytes(v).subrange(0, votes_bytes(v.take(j)).len() as int) == votes_bytes(v.take(j)),
    decreases v.len(),
{
    if j == v.len() {
        assert(v.take(j) =~= v);
        assert(votes_bytes(v).subrange(0, votes_bytes(v).len() as int) =~= votes_bytes(v));
    } else {
        assert(v.drop_last().take(j) =~= v.take(j));
        lemma_votes_prefix(v.drop_last(), j);
        let a = votes_bytes(v.drop_last());
        let k = votes_bytes(v.take(j)).len() as int;
        assert(votes_bytes(v).subrange(0, k) =~= a.subrange(0, k));
    }
}

proof fn lemma_votes_length(v: Seq<(Seq<u8>, Seq<u8>)>)
    ensures
        votes_bytes(v).len() >= 16 * v.len(),
    decreases v.len(),
{
    if v.len() > 0 {
        lemma_votes_length(v.drop_last());
    }
}

/// Where the `i`-th vote of an encoded proof lies in its encoding.
proof fn lemma_vote_at(bytes: Seq<u8>, p: ProofModel, i: int, pos: int)
    requires
        proof_bytes(p) == bytes,
        0 <= i < p.votes.len(),
        pos == header_bytes(p).len() + votes_bytes(p.votes.take(i)).len(),
    ensures
        ({
            let fx = field(p.votes[i].0);
            let fy = field(p.votes[i].1);
            &&& pos + fx.len() + fy.len() <= bytes.len()
            &&& bytes.subrange(pos, pos + fx.len()) == fx
            &&& bytes.subrange(pos + fx.len(), pos + fx.len() + fy.len()) == fy
        }),
{
    let head = header_bytes(p);
    let fx = field(p.votes[i].0);
    let fy = field(p.votes[i].1);
    let t = p.votes.take(i + 1);
    let vs = p.votes.take(i);
    assert(t.drop_last() =~= vs);
    assert(votes_bytes(t) == votes_bytes(vs) + fx + fy);
    lemma_votes_prefix(p.votes, i + 1);
    assert(bytes =~= head + votes_bytes(p.votes));
    let k = votes_bytes(t).len() as int;
    assert(bytes.subrange(head.len() as int, head.len() + k) =~= votes_bytes(t));
    assert(bytes.subrange(pos, pos + fx.len()) =~= votes_bytes(t).subrange(
        votes_bytes(vs).len() as int,
        (votes_bytes(vs).len() + fx.len()) as int,
    ));
    assert(bytes.subrange(pos + fx.len(), pos + fx.len() + fy.len()) =~= votes_bytes(t).subrange(
        (votes_bytes(vs).len() + fx.len()) as int,
        (votes_bytes(vs).len() + fx.len() + fy.len()) as int,
    ));
}

/// Reads eight little-endian bytes at `pos`.
fn read_u64(bytes: &[u8], pos: usize) -> (r: Option<u64>)
    ensures
        r is Some <==> pos + 8 <= bytes.len(),
        r matches Some(v) ==> v == from_le64(bytes@.subrange(pos as int, pos + 8)),
{
    if bytes.len() < 8 || pos > bytes.len() - 8 {
        return None;
    }
    let v = (bytes[pos] as u64) | ((bytes[pos + 1] as u64) << 8u64) | ((bytes[pos + 2] as u64)
        << 16u64) | ((bytes[pos + 3] as u64) << 24u64) | ((bytes[pos + 4] as u64) << 32u64) | ((
    bytes[pos + 5] as u64) << 40u64) | ((bytes[pos + 6] as u64) << 48u64) | ((bytes[pos + 7] as u64)
        << 56u64);
    Some(v)
}

/// Reads a length-prefixed field at `pos`; returns it with the position
/// that follows it.
fn read_field(bytes: &[u8], pos: usize) -> (r: Option<(Vec<u8>, usize)>)
    ensures
        r matches Some((f, end)) ==> pos <= end <= bytes.len() && end - pos == field(f@).len()
            && bytes@.subrange(pos as int, end as int) == field(f@),
        forall|x: Seq<u8>|
            pos + #[trigger] field(x).len() <= bytes.len() && bytes@.subrange(
                pos as int,
                pos + field(x).len(),
            ) == field(x) ==> (r matches Some((f, end)) && f@ == x && end == pos + field(x).len()),
{
    let n = match read_u64(bytes, pos) {
        Some(n) => n,
        None => {
            return None;
        },
    };
    let start = pos + 8;
    if n > (bytes.len() - start) as u64 {
        proof {
            assert forall|x: Seq<u8>|
                pos + #[trigger] field(x).len() <= bytes.len() && bytes@.subrange(
                    pos as int,
                    pos + field(x).len(),
                ) == field(x) implies false by {
                let s = bytes@.subrange(pos as int, pos + field(x).len());
                assert(s.subrange(0, 8) =~= le64(x.len() as u64));
                assert(s.subrange(0, 8) =~= bytes@.subrange(pos as int, start as int));
                lemma_le64_round_trip(x.len() as u64);
            }
        }
        return None;
    }
    let end = start + n as usize;
    let mut f: Vec<u8> = Vec::with_capacity(n as usize);
    let mut i: usize = start;
    while i < end
        invariant
            start <= i <= end <= bytes.len(),
            f@ == bytes@.subrange(start as int, i as int),
        decreases end - i,
    {
        f.push(bytes[i]);
        i = i + 1;
        assert(f@ =~= bytes@.subrange(start as int, i as int));
    }
    proof {
        lemma_le64_onto(bytes@.subrange(pos as int, start as int));
        assert(bytes@.subrange(pos as int, end as int) =~= field(f@));
        assert forall|x: Seq<u8>|
            pos + #[trigger] field(x).len() <= bytes.len() && bytes@.subrange(
                pos as int,
                pos + field(x).len(),
            ) == field(x) implies f@ == x && end == pos + field(x).len() by {
            let s = bytes@.subrange(pos as int, pos + field(x).len());
            assert(s.subrange(0, 8) =~= le64(x.len() as u64));
            assert(s.subrange(0, 8) =~= bytes@.subrange(pos as int, start as int));
            lemma_le64_round_trip(x.len() as u64);
            assert(x.len() < 0x1_0000_0000_0000_0000);
            assert(s.subrange(8, s.len() as int) =~= x);
            assert(f@ =~= x);
        }
    }
    Some((f, end))
}

/// Decodes the part of an encoded proof that comes before its votes;
/// returns the block hash, height, round, vote count and the position of
/// the first vote.
#[verifier::rlimit(60)]
fn decode_header(bytes: &[u8]) -> (r: Option<(Vec<u8>, u64, u64, u64, usize)>)
    ensures
        r matches Some((h, height, round, count, pos)) ==> pos <= bytes.len() && bytes@.subrange(
            0,
            pos as int,
        ) == field(h@) + le64(height) + le64(round) + le64(count),
        forall|p: ProofModel| #[trigger]
            proof_bytes(p) == bytes@ ==> (r matches Some((h, height, round, count, pos))
                && p.block_hash == h@ && p.height == height && p.round == round && p.votes.len() as u64
                == count && pos == header_bytes(p).len() && bytes@.subrange(0, pos as int) == header_bytes(p)
                && p.votes.len() < 0x1_0000_0000_0000_0000),
{
    assert forall|p: ProofModel| #[trigger] proof_bytes(p) == bytes@ implies bytes@.subrange(
        0,
        field(p.block_hash).len() as int,
    ) == field(p.block_hash) && field(p.block_hash).len() <= bytes.len() by {
        assert(proof_bytes(p).subrange(0, field(p.block_hash).len() as int) =~= field(p.block_hash));
    }
    let (block_hash, pos) = match read_field(bytes, 0) {
        Some(x) => x,
        None => {
            return None;
        },
    };
    let ghost hl = pos as int;
    let height = match read_u64(bytes, pos) {
        Some(v) => v,
        None => {
            return None;
        },
    };
    let round = match read_u64(bytes, pos + 8) {
        Some(v) => v,
        None => {
            return None;
        },
    };
    let count = match read_u64(bytes, pos + 16) {
        Some(v) => v,
        None => {
            return None;
        },
    };
    let pos = pos + 24;
    proof {
        assert forall|p: ProofModel| #[trigger] proof_bytes(p) == bytes@ implies p.block_hash
            == block_hash@ && p.height == height && p.round == round && p.votes.len() as u64
            == count && pos == header_bytes(p).len() && bytes@.subrange(0, pos as int)
            == header_bytes(p) && p.votes.len() < 0x1_0000_0000_0000_0000 by {
            let pb = proof_bytes(p);
            lemma_votes_length(p.votes);
            assert(pb.subrange(hl, hl + 8) =~= le64(p.height));
            assert(pb.subrange(hl + 8, hl + 16) =~= le64(p.round));
            assert(pb.subrange(hl + 16, hl + 24) =~= le64(p.votes.len() as u64));
            lemma_le64_round_trip(p.height);
            lemma_le64_round_trip(p.round);
            lemma_le64_round_trip(p.votes.len() as u64);
            assert(pb.subrange(0, pos as int) =~= header_bytes(p));
        }
        lemma_le64_onto(bytes@.subrange(hl, hl + 8));
        lemma_le64_onto(bytes@.subrange(hl + 8, hl + 16));
        lemma_le64_onto(bytes@.subrange(hl + 16, hl + 24));
        assert(bytes@.subrange(0, pos as int) =~= field(block_hash@) + le64(height) + le64(round)
            + le64(count));
    }
    Some((block_hash, height, round, count, pos))
}

/// Whether no voter has two votes.
pub fn voters_distinct(votes: &Vec<(Vec<u8>, Vec<u8>)>) -> (r: bool)
    ensures
        r == distinct_voters(votes_view(votes@)),
{
    let ghost vs = votes_view(votes@);
    let mut j: usize = 0;
    while j < votes.len()
        invariant
            0 <= j <= votes.len(),
            vs == votes_view(votes@),
            forall|a: int, b: int| 0 <= a < b < j ==> vs[a].0 != vs[b].0,
        decreases votes.len() - j,
    {
        let mut i: usize = 0;
        while i < j
            invariant
                0 <= i <= j < votes.len(),
                vs == votes_view(votes@),
                forall|a: int| 0 <= a < i ==> vs[a].0 != vs[j as int].0,
            decreases j - i,
        {
            if bytes_equal(&votes[i].0, &votes[j].0) {
                assert(vs[i as int] == (votes@[i as int].0@, votes@[i as int].1@));
                assert(vs[j as int] == (votes@[j as int].0@, votes@[j as int].1@));
                assert(!distinct_voters(vs));
                return false;
            }
            i = i + 1;
        }
        j = j + 1;
    }
    true
}

/// Decodes the content of a header proof. Succeeds exactly on the encodings
/// of commit proofs in which no voter has two votes, and gives back the
/// proof that was encoded.
#[verifier::rlimit(40)]
pub fn decode_proof(bytes: &[u8]) -> (r: Option<Proof>)
    ensures
        r matches Some(q) ==> proof_bytes(q@) == bytes@ && distinct_voters(q@.votes),
        forall|p: ProofModel| #[trigger]
            proof_bytes(p) == bytes@ && distinct_voters(p.votes) ==> (r matches Some(q) && q@ == p),
{
    let (block_hash, height, round, count, pos) = match decode_header(bytes) {
        Some(x) => x,
        None => {
            return None;
        },
    };
    let mut pos = pos;
    let ghost head = bytes@.subrange(0, pos as int);
    let mut votes: Vec<(Vec<u8>, Vec<u8>)> = Vec::new();
    let mut i: u64 = 0;
    while i < count
        invariant
            0 <= i <= count,
            votes.len() == i,
            head.len() <= pos <= bytes.len(),
            pos == head.len() + votes_bytes(votes_view(votes@)).len(),
            head == field(block_hash@) + le64(height) + le64(round) + le64(count),
            bytes@.subrange(0, pos as int) == head + votes_bytes(
                votes_view(votes@),
            ),
            forall|p: ProofModel| #[trigger]
                proof_bytes(p) == bytes@ ==> p.block_hash == block_hash@ && p.height == height
                    && p.round == round && p.votes.len() as u64 == count && head == header_bytes(p)
                    && p.votes.len() < 0x1_0000_0000_0000_0000 && votes_view(votes@) == p.votes.take(
                    i as int,
                ),
        decreases count - i,
    {
        let ghost vs = votes_view(votes@);
        proof {
            assert forall|p: ProofModel| #[trigger] proof_bytes(p) == bytes@ implies ({
                let x = p.votes[i as int].0;
                pos + field(x).len() <= bytes.len() && bytes@.subrange(
                    pos as int,
                    pos + field(x).len(),
                ) == field(x)
            }) by {
                lemma_vote_at(bytes@, p, i as int, pos as int);
            }
        }
        let (addr, mid) = match read_field(bytes, pos) {
            Some(x) => x,
            None => {
                return None;
            },
        };
        proof {
            assert forall|p: ProofModel| #[trigger] proof_bytes(p) == bytes@ implies ({
                let y = p.votes[i as int].1;
                mid + field(y).len() <= bytes.len() && bytes@.subrange(
                    mid as int,
                    mid + field(y).len(),
                ) == field(y)
            }) by {
                lemma_vote_at(bytes@, p, i as int, pos as int);
            }
        }
        let (sig, end) = match read_field(bytes, mid) {
            Some(x) => x,
            None => {
                return None;
            },
        };
        let ghost before = votes@;
        votes.push((addr, sig));
        proof {
            let nv = votes_view(votes@);
            assert(nv =~= vs.push((addr@, sig@)));
            assert(nv.drop_last() =~= vs);
            assert(bytes@.subrange(0, end as int) =~= bytes@.subrange(0, pos as int)
                + bytes@.subrange(pos as int, mid as int) + bytes@.subrange(mid as int, end as int));
            assert(bytes@.subrange(0, end as int) =~= head + votes_bytes(nv));
            assert forall|p: ProofModel| #[trigger] proof_bytes(p) == bytes@ implies nv
                == p.votes.take(i as int + 1) by {
                assert(p.votes.take(i as int + 1) =~= p.votes.take(i as int).push(p.votes[i as int]));
            }
        }
        pos = end;
        i = i + 1;
    }
    if pos != bytes.len() {
        proof {
            assert forall|p: ProofModel| #[trigger] proof_bytes(p) == bytes@ implies false by {
                assert(p.votes.take(p.votes.len() as int) =~= p.votes);
                assert(proof_bytes(p) =~= header_bytes(p) + votes_bytes(p.votes));
            }
        }
        return None;
    }
    let q = Proof { block_hash, height, round, precommit_votes: votes };
    proof {
        assert forall|p: ProofModel| #[trigger] proof_bytes(p) == bytes@ implies q@ == p by {
            assert(p.votes.take(p.votes.len() as int) =~= p.votes);
            assert(q@.votes =~= p.votes);
        }
    }
    if !voters_distinct(&q.precommit_votes) {
        return None;
    }
    proof {
        assert(bytes@.subrange(0, pos as int) =~= bytes@);
        assert(q@.votes.len() == count);
        assert(proof_bytes(q@) =~= bytes@);
        assert forall|p: ProofModel| #[trigger] proof_bytes(p) == bytes@ implies q@ == p by {
            assert(p.votes.take(p.votes.len() as int) =~= p.votes);
            assert(q@.votes =~= p.votes);
        }
    }
    Some(q)
}

/// Reads the commit proof out of a header proof: only a proof of the BFT
/// kind whose content is the encoding of a commit proof without repeated
/// voters gives one.
pub fn from_bft_proof(wire: &WireProof) -> (r: Option<Proof>)
    ensures
        wire.kind != ProofKind::Bft ==> r is None,
        r matches Some(q) ==> proof_bytes(q@) == wire.content@ && distinct_voters(q@.votes),
        forall|p: ProofModel|
            wire.kind == ProofKind::Bft && #[trigger] proof_bytes(p) == wire.content@
                && distinct_voters(p.votes) ==> (r matches Some(q) && q@ == p),
{
    if wire.kind != ProofKind::Bft {
        return None;
    }
    decode_proof(&wire.content)
}

} // verus!
