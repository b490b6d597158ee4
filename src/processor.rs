//! The processor: sole owner of the per-height state, and the decisions it
//! takes on each message from the bus or request from the consensus engine.
//!
//! The loop that waits on the two sources and carries out the actions stands
//! outside the library; each step here takes one message and says what is to
//! be done with it.

use vstd::prelude::*;
use std::collections::HashMap;
use crate::authority::{
    copy_bytes, derive_authority_list, is_authority_list_of, total_proposal_weight, Node,
};
use crate::proof_codec::{proof_bytes, to_bft_proof, Proof, ProofKind, ProofModel, WireProof};

verus! {

broadcast use vstd::std_specs::hash::group_hash_axioms;

/// A chain status report as it comes from the chain.
#[derive(Clone, Debug)]
pub struct RichStatus {
    pub height: u64,
    pub hash: Vec<u8>,
    pub version: u32,
    pub interval: u64,
    pub nodes: Vec<Vec<u8>>,
}

/// The view of the latest finalized height that the engine is given.
#[derive(Clone, Debug)]
pub struct Status {
    pub height: u64,
    pub interval: Option<u64>,
    pub authority_list: Vec<Node>,
}

/// The transactions of a height, as delivered by the bus.
#[derive(Clone, Debug)]
pub struct BlockTxs {
    pub height: u64,
    pub body: Vec<u8>,
}

/// What the engine hands over when a height is committed.
#[derive(Clone, Debug)]
pub struct Commit {
    pub height: u64,
    pub block: Vec<u8>,
    pub proof: Proof,
}

/// A block assembled from the state of a height.
#[derive(Clone, Debug)]
pub struct Block {
    pub version: u32,
    pub body: Vec<u8>,
    pub prev_hash: Vec<u8>,
    pub proof: WireProof,
    pub timestamp: u64,
    pub height: u64,
    pub proposer: Vec<u8>,
}

/// Events exchanged with the consensus engine.
#[derive(Clone, Debug)]
pub enum BftMsg {
    Proposal(Vec<u8>),
    Vote(Vec<u8>),
    Status(Status),
    Commit(Commit),
}

/// Requests from the capability adapter and the processor's responses.
#[derive(Clone, Debug)]
pub enum BridgeMsg {
    CheckBlockReq(Vec<u8>, u64),
    CheckBlockResp(bool),
    CheckTxReq(Vec<u8>, u64, u64),
    CheckTxResp(bool),
    Transmit(BftMsg),
    Commit(Commit),
    GetBlockReq(u64),
    GetBlockResp(Option<Block>),
    SignReq(Vec<u8>),
    SignResp(Option<Vec<u8>>),
}

/// Messages that the bus delivers to the processor, by topic.
#[derive(Clone, Debug)]
pub enum BusMsg {
    Proposal(Vec<u8>),
    Vote(Vec<u8>),
    ChainStatus(RichStatus),
    BlockTxs(BlockTxs),
    VerifyBlockResp(Vec<u8>),
    SnapshotReq(Vec<u8>),
    Other,
}

/// Topics that the processor publishes on.
#[derive(Clone, Copy, Debug, PartialEq, Eq, Structural)]
pub enum Topic {
    SignedProposal,
    RawVote,
}

/// A request to the verification subsystem for the transactions of a block.
#[derive(Clone, Debug)]
pub struct VerifyBlockReq {
    pub height: u64,
    pub round: u64,
    pub block: Vec<u8>,
}

/// What the event loop is to do after one step of the processor.
#[derive(Clone, Debug)]
pub enum Action {
    /// Send an event to the consensus engine.
    Forward(BftMsg),
    /// Answer the adapter on the channel of the response's kind.
    Respond(BridgeMsg),
    /// Publish bytes on the bus under a topic.
    Publish(Topic, Vec<u8>),
    /// Publish a transaction verification request on the bus.
    RequestVerification(VerifyBlockReq),
    /// Sign the hash with the node's key and answer with a `SignResp`.
    Sign(Vec<u8>),
    /// Nothing to do.
    Nothing,
}

/// What the processor holds.
pub struct ProcessorView {
    pub address: Seq<u8>,
    pub proofs: Map<u64, ProofModel>,
    pub pre_hashes: Map<u64, Seq<u8>>,
    pub versions: Map<u64, u32>,
    pub pending_blocks: Seq<u64>,
    pub pending_checks: Seq<(u64, u64)>,
    pub batches: Map<u64, Seq<u8>>,
}

/// The per-height state and the queues of outstanding requests.
pub struct Processor {
    address: Vec<u8>,
    proof: HashMap<u64, Proof>,
    pre_hash: HashMap<u64, Vec<u8>>,
    version: HashMap<u64, u32>,
    get_block_reqs: Vec<u64>,
    check_tx_reqs: Vec<(u64, u64)>,
    get_block_resps: HashMap<u64, BlockTxs>,
}

pub open spec fn proof_map_view(m: Map<u64, Proof>) -> Map<u64, ProofModel> {
    m.map_values(|p: Proof| p@)
}

pub open spec fn bytes_map_view(m: Map<u64, Vec<u8>>) -> Map<u64, Seq<u8>> {
    m.map_values(|b: Vec<u8>| b@)
}

pub open spec fn batch_map_view(m: Map<u64, BlockTxs>) -> Map<u64, Seq<u8>> {
    m.map_values(|t: BlockTxs| t.body@)
}

impl View for Processor {
    type V = ProcessorView;

    closed spec fn view(&self) -> ProcessorView {
        ProcessorView {
            address: self.address@,
            proofs: proof_map_view(self.proof@),
            pre_hashes: bytes_map_view(self.pre_hash@),
            versions: self.version@,
            pending_blocks: self.get_block_reqs@,
            pending_checks: self.check_tx_reqs@,
            batches: batch_map_view(self.get_block_resps@),
        }
    }
}

/// A block can be assembled for `h`: its version, previous hash and commit
/// proof are all known.
pub open spec fn block_ready(v: ProcessorView, h: u64) -> bool {
    &&& v.versions.contains_key(h)
    &&& v.pre_hashes.contains_key(h)
    &&& v.proofs.contains_key(h)
}

/// `b` is the block of height `h` assembled from the state `v`, the body
/// `body` and the time `now_ms`.
pub open spec fn is_block_for(b: Block, v: ProcessorView, h: u64, body: Seq<u8>, now_ms: u64) -> bool {
    &&& b.version == v.versions[h]
    &&& b.body@ == body
    &&& b.prev_hash@ == v.pre_hashes[h]
    &&& b.proof.kind == ProofKind::Bft
    &&& b.proof.content@ == proof_bytes(v.proofs[h])
    &&& b.timestamp == now_ms
    &&& b.height == h
    &&& b.proposer@ == v.address
}

/// The state after a status report for `h` with `hash` and `version`:
/// both are kept only where nothing was cached for `h` yet.
pub open spec fn after_status(v: ProcessorView, h: u64, hash: Seq<u8>, version: u32) -> ProcessorView {
    ProcessorView {
        pre_hashes: if v.pre_hashes.contains_key(h) { v.pre_hashes } else { v.pre_hashes.insert(h, hash) },
        versions: if v.versions.contains_key(h) { v.versions } else { v.versions.insert(h, version) },
        ..v
    }
}

/// The previous hash and version cached for a height are those of the first
/// status report for it: a later report for the same height leaves them be.
pub proof fn lemma_first_status_wins(
    v: ProcessorView,
    h: u64,
    first_hash: Seq<u8>,
    first_version: u32,
    later_hash: Seq<u8>,
    later_version: u32,
)
    requires
        !v.pre_hashes.contains_key(h),
        !v.versions.contains_key(h),
    ensures
        ({
            let w = after_status(after_status(v, h, first_hash, first_version), h, later_hash, later_version);
            &&& w.pre_hashes[h] == first_hash
            &&& w.versions[h] == first_version
        }),
{
}

impl Processor {
    /// A processor for the node with address `address`, with nothing cached
    /// and nothing pending.
    pub fn new(address: Vec<u8>) -> (r: Processor)
        ensures
            r@.address == address@,
            r@.proofs.is_empty(),
            r@.pre_hashes.is_empty(),
            r@.versions.is_empty(),
            r@.pending_blocks.len() == 0,
            r@.pending_checks.len() == 0,
            r@.batches.is_empty(),
    {
        let r = Processor {
            address,
            proof: HashMap::new(),
            pre_hash: HashMap::new(),
            version: HashMap::new(),
            get_block_reqs: Vec::new(),
            check_tx_reqs: Vec::new(),
            get_block_resps: HashMap::new(),
        };
        proof {
            assert(r@.proofs =~= Map::empty());
            assert(r@.pre_hashes =~= Map::empty());
            assert(r@.batches =~= Map::empty());
        }
        r
    }

    /// Takes in a chain status report: caches its previous hash and version
    /// for its height unless some earlier report did, and derives the
    /// status for the engine.
    pub fn extract_status(&mut self, status: &RichStatus) -> (r: Status)
        requires
            status.nodes.len() <= u32::MAX,
        ensures
            final(self)@ == after_status(old(self)@, status.height, status.hash@, status.version),
            r.height == status.height,
            r.interval == Some(status.interval),
            is_authority_list_of(r.authority_list@, status.nodes@.map_values(|n: Vec<u8>| n@)),
            total_proposal_weight(r.authority_list@) == status.nodes.len(),
    {
        let height = status.height;
        if !self.pre_hash.contains_key(&height) {
            self.pre_hash.insert(height, copy_bytes(&status.hash));
        }
        if !self.version.contains_key(&height) {
            self.version.insert(height, status.version);
        }
        proof {
            assert(self@.pre_hashes =~= after_status(old(self)@, height, status.hash@, status.version).pre_hashes);
            assert(self@ == after_status(old(self)@, height, status.hash@, status.version));
        }
        let authority_list = derive_authority_list(&status.nodes);
        Status { height, interval: Some(status.interval), authority_list }
    }

    /// Records the commit proof of a committed height; a later commit of
    /// the same height replaces it.
    pub fn commit(&mut self, commit: Commit)
        ensures
            final(self)@ == (ProcessorView {
                proofs: old(self)@.proofs.insert(commit.height, commit.proof@),
                ..old(self)@
            }),
    {
        let ghost p = commit.proof@;
        self.proof.insert(commit.height, commit.proof);
        proof {
            assert(self@.proofs =~= old(self)@.proofs.insert(commit.height, p));
        }
    }

    /// Assembles the block of `height` from the cached state, the body of
    /// `block_txs` and the time `now_ms`; there is none until the version,
    /// previous hash and commit proof of `height` are all known.
    pub fn get_block(&self, height: u64, block_txs: &BlockTxs, now_ms: u64) -> (r: Option<Block>)
        ensures
            r is Some <==> block_ready(self@, height),
            r matches Some(b) ==> is_block_for(b, self@, height, block_txs.body@, now_ms),
    {
        let version = self.version.get(&height);
        let pre_hash = self.pre_hash.get(&height);
        let proof = self.proof.get(&height);
        match (version, pre_hash, proof) {
            (Some(version), Some(pre_hash), Some(proof)) => {
                let wire = to_bft_proof(proof);
                Some(
                    Block {
                        version: *version,
                        body: copy_bytes(&block_txs.body),
                        prev_hash: copy_bytes(pre_hash),
                        proof: wire,
                        timestamp: now_ms,
                        height,
                        proposer: copy_bytes(&self.address),
                    },
                )
            },
            _ => None,
        }
    }

    /// Queues a request for the block of `height`; it is answered when the
    /// block can be assembled and every earlier request has been answered.
    pub fn request_block(&mut self, height: u64)
        ensures
            final(self)@ == (ProcessorView {
                pending_blocks: old(self)@.pending_blocks.push(height),
                ..old(self)@
            }),
    {
        self.get_block_reqs.push(height);
    }

    /// Takes in the transactions of a height, replacing any earlier ones of
    /// that height. If the oldest pending block request can now be
    /// answered, it is removed and its block returned.
    pub fn receive_block_txs(&mut self, block_txs: BlockTxs, now_ms: u64) -> (r: Option<Block>)
        ensures
            ({
                let v = old(self)@;
                let stored = ProcessorView {
                    batches: v.batches.insert(block_txs.height, block_txs.body@),
                    ..v
                };
                let served = v.pending_blocks.len() > 0 && block_ready(v, v.pending_blocks[0])
                    && stored.batches.contains_key(v.pending_blocks[0]);
                &&& served ==> final(self)@ == (ProcessorView {
                    pending_blocks: v.pending_blocks.drop_first(),
                    ..stored
                })
                &&& !served ==> final(self)@ == stored
                &&& r is Some <==> served
                &&& r matches Some(b) ==> is_block_for(
                    b,
                    v,
                    v.pending_blocks[0],
                    stored.batches[v.pending_blocks[0]],
                    now_ms,
                )
            }),
    {
        let ghost body = block_txs.body@;
        self.get_block_resps.insert(block_txs.height, block_txs);
        proof {
            assert(self@.batches =~= old(self)@.batches.insert(block_txs.height, body));
        }
        if self.get_block_reqs.len() == 0 {
            return None;
        }
        let front = self.get_block_reqs[0];
        let block = match self.get_block_resps.get(&front) {
            Some(txs) => self.get_block(front, txs, now_ms),
            None => None,
        };
        match block {
            Some(b) => {
                self.get_block_reqs.remove(0);
                proof {
                    assert(self@.pending_blocks =~= old(self)@.pending_blocks.drop_first());
                }
                Some(b)
            },
            None => None,
        }
    }

    /// The validity of a proposed block. Every block is accepted: structural
    /// validation is left to the engine.
    pub fn check_block(&self, _block: &[u8], _height: u64) -> (r: bool)
        ensures
            r,
    {
        true
    }

    /// The outcome of a transaction check that is answered on the spot: the
    /// verification subsystem answers asynchronously, so none passes here.
    pub fn check_transaction(&mut self, _block: &[u8], _height: u64, _round: u64) -> (r: bool)
        ensures
            !r,
            final(self)@ == old(self)@,
    {
        false
    }

    /// Queues a transaction check of `block` at `height` and `round`, and
    /// gives the request to publish to the verification subsystem.
    pub fn request_tx_check(&mut self, block: Vec<u8>, height: u64, round: u64) -> (r: VerifyBlockReq)
        ensures
            final(self)@ == (ProcessorView {
                pending_checks: old(self)@.pending_checks.push((height, round)),
                ..old(self)@
            }),
            r.height == height,
            r.round == round,
            r.block@ == block@,
    {
        self.check_tx_reqs.push((height, round));
        VerifyBlockReq { height, round, block }
    }

    /// Where an outbound engine event goes on the bus: proposals and votes
    /// are published under their topics, any other event is dropped.
    pub fn transmit(&self, msg: BftMsg) -> (r: Option<(Topic, Vec<u8>)>)
        ensures
            ({
                match msg {
                    BftMsg::Proposal(b) => r matches Some((t, c)) && t == Topic::SignedProposal
                        && c@ == b@,
                    BftMsg::Vote(b) => r matches Some((t, c)) && t == Topic::RawVote && c@ == b@,
                    _ => r is None,
                }
            }),
    {
        match msg {
            BftMsg::Proposal(b) => Some((Topic::SignedProposal, b)),
            BftMsg::Vote(b) => Some((Topic::RawVote, b)),
            _ => None,
        }
    }

    /// One step on a message from the bus. Proposals and votes go on to the
    /// engine, a status report is taken in and its status goes on to the
    /// engine, transactions may answer the oldest block request; other
    /// messages change nothing.
    pub fn handle_bus(&mut self, msg: BusMsg, now_ms: u64) -> (r: Action)
        requires
            msg matches BusMsg::ChainStatus(s) ==> s.nodes.len() <= u32::MAX,
        ensures
            ({
                match msg {
                    BusMsg::Proposal(b) => final(self)@ == old(self)@ && (r matches Action::Forward(
                        BftMsg::Proposal(c),
                    ) && c@ == b@),
                    BusMsg::Vote(b) => final(self)@ == old(self)@ && (r matches Action::Forward(
                        BftMsg::Vote(c),
                    ) && c@ == b@),
                    BusMsg::ChainStatus(s) => final(self)@ == after_status(
                        old(self)@,
                        s.height,
                        s.hash@,
                        s.version,
                    ) && (r matches Action::Forward(BftMsg::Status(st)) && st.height == s.height
                        && st.interval == Some(s.interval) && is_authority_list_of(
                        st.authority_list@,
                        s.nodes@.map_values(|n: Vec<u8>| n@),
                    )),
                    BusMsg::BlockTxs(t) => {
                        let v = old(self)@;
                        let batches = v.batches.insert(t.height, t.body@);
                        let served = v.pending_blocks.len() > 0 && block_ready(
                            v,
                            v.pending_blocks[0],
                        ) && batches.contains_key(v.pending_blocks[0]);
                        &&& final(self)@.batches == batches
                        &&& final(self)@.pending_blocks == if served {
                            v.pending_blocks.drop_first()
                        } else {
                            v.pending_blocks
                        }
                        &&& served ==> (r matches Action::Respond(BridgeMsg::GetBlockResp(Some(b)))
                            && is_block_for(b, v, v.pending_blocks[0], batches[v.pending_blocks[0]], now_ms))
                        &&& !served ==> r is Nothing
                    },
                    _ => final(self)@ == old(self)@ && r is Nothing,
                }
            }),
    {
        match msg {
            BusMsg::Proposal(b) => Action::Forward(BftMsg::Proposal(b)),
            BusMsg::Vote(b) => Action::Forward(BftMsg::Vote(b)),
            BusMsg::ChainStatus(s) => {
                let status = self.extract_status(&s);
                Action::Forward(BftMsg::Status(status))
            },
            BusMsg::BlockTxs(t) => match self.receive_block_txs(t, now_ms) {
                Some(b) => Action::Respond(BridgeMsg::GetBlockResp(Some(b))),
                None => Action::Nothing,
            },
            _ => Action::Nothing,
        }
    }

    /// One step on a request of the capability adapter. A block request is
    /// queued; a block check is answered at once; a transaction check is
    /// queued and handed to the verification subsystem; a hash is to be
    /// signed; an outbound event is published; a commit is recorded.
    /// Responses sent the wrong way change nothing.
    pub fn handle_bridge(&mut self, msg: BridgeMsg) -> (r: Action)
        ensures
            ({
                match msg {
                    BridgeMsg::GetBlockReq(h) => final(self)@ == (ProcessorView {
                        pending_blocks: old(self)@.pending_blocks.push(h),
                        ..old(self)@
                    }) && r is Nothing,
                    BridgeMsg::CheckBlockReq(_, _) => final(self)@ == old(self)@ && (r matches Action::Respond(
                        BridgeMsg::CheckBlockResp(ok),
                    ) && ok),
                    BridgeMsg::CheckTxReq(b, h, rd) => final(self)@ == (ProcessorView {
                        pending_checks: old(self)@.pending_checks.push((h, rd)),
                        ..old(self)@
                    }) && (r matches Action::RequestVerification(q) && q.height == h && q.round
                        == rd && q.block@ == b@),
                    BridgeMsg::SignReq(hash) => final(self)@ == old(self)@ && (r matches Action::Sign(
                        x,
                    ) && x@ == hash@),
                    BridgeMsg::Transmit(m) => final(self)@ == old(self)@ && match m {
                        BftMsg::Proposal(b) => r matches Action::Publish(t, c) && t
                            == Topic::SignedProposal && c@ == b@,
                        BftMsg::Vote(b) => r matches Action::Publish(t, c) && t == Topic::RawVote
                            && c@ == b@,
                        _ => r is Nothing,
                    },
                    BridgeMsg::Commit(c) => final(self)@ == (ProcessorView {
                        proofs: old(self)@.proofs.insert(c.height, c.proof@),
                        ..old(self)@
                    }) && r is Nothing,
                    _ => final(self)@ == old(self)@ && r is Nothing,
                }
            }),
    {
        match msg {
            BridgeMsg::GetBlockReq(h) => {
                self.request_block(h);
                Action::Nothing
            },
            BridgeMsg::CheckBlockReq(block, h) => Action::Respond(
                BridgeMsg::CheckBlockResp(self.check_block(&block, h)),
            ),
            BridgeMsg::CheckTxReq(block, h, rd) => Action::RequestVerification(
                self.request_tx_check(block, h, rd),
            ),
            BridgeMsg::SignReq(hash) => Action::Sign(hash),
            BridgeMsg::Transmit(m) => match self.transmit(m) {
                Some((t, c)) => Action::Publish(t, c),
                None => Action::Nothing,
            },
            BridgeMsg::Commit(c) => {
                self.commit(c);
                Action::Nothing
            },
            _ => Action::Nothing,
        }
    }
}

} // verus!
