use bft_bridge::adapter::{check_sig, SIGNATURE_BYTES_LEN};
use bft_bridge::authority::{derive_authority_list, Node};
use bft_bridge::processor::{
    Action, BftMsg, BlockTxs, BridgeMsg, BusMsg, Commit, Processor, RichStatus, Status, Topic,
};
use bft_bridge::proof_codec::{
    decode_proof, encode_proof, from_bft_proof, to_bft_proof, Proof, ProofKind, WireProof,
};

fn weight_of(list: &[Node], address: &[u8]) -> Option<u32> {
    list.iter()
        .find(|n| n.address.as_slice() == address)
        .map(|n| n.proposal_weight)
}

fn sample_proof() -> Proof {
    Proof {
        block_hash: vec![7u8; 32],
        height: 10,
        round: 3,
        precommit_votes: vec![
            (vec![1u8; 20], vec![0xaau8; 65]),
            (vec![2u8; 20], vec![0xbbu8; 65]),
        ],
    }
}

fn status_report(height: u64, hash: Vec<u8>, version: u32, nodes: Vec<Vec<u8>>) -> RichStatus {
    RichStatus { height, hash, version, interval: 3000, nodes }
}

#[test]
fn test_extract_status() {
    let rich_status = vec![vec![5u8], vec![4u8], vec![4u8], vec![7u8], vec![9u8],
                           vec![9u8], vec![4u8], vec![1u8], vec![9u8], vec![7u8],
                           vec![9u8], vec![8u8], vec![7u8], vec![9u8], vec![9u8],];
    let mut processor = Processor::new(vec![0xeeu8; 20]);
    let status = processor.extract_status(&status_report(3, vec![1u8; 32], 0, rich_status.clone()));
    let authority_list = status.authority_list;
    println!("{:?}", authority_list);
    assert_eq!(status.height, 3);
    assert_eq!(status.interval, Some(3000));
    assert_eq!(authority_list.len(), 6);
    assert_eq!(weight_of(&authority_list, &[9u8]), Some(6));
    assert_eq!(weight_of(&authority_list, &[4u8]), Some(3));
    assert_eq!(weight_of(&authority_list, &[7u8]), Some(3));
    assert_eq!(weight_of(&authority_list, &[5u8]), Some(1));
    assert_eq!(weight_of(&authority_list, &[1u8]), Some(1));
    assert_eq!(weight_of(&authority_list, &[8u8]), Some(1));
    assert!(authority_list.iter().all(|n| n.vote_weight == 1));
}

#[test]
fn authority_weights_sum_to_reports() {
    let reports = vec![b"A".to_vec(), b"A".to_vec(), b"B".to_vec()];
    let list = derive_authority_list(&reports);
    assert_eq!(list.len(), 2);
    assert_eq!(list[0].address, b"A".to_vec());
    assert_eq!(list[0].proposal_weight, 2);
    assert_eq!(list[1].address, b"B".to_vec());
    assert_eq!(list[1].proposal_weight, 1);
    let total: u32 = list.iter().map(|n| n.proposal_weight).sum();
    assert_eq!(total as usize, reports.len());
}

#[test]
fn authority_list_of_no_reports_is_empty() {
    assert!(derive_authority_list(&Vec::new()).is_empty());
}

#[test]
fn first_status_for_a_height_is_kept() {
    let mut processor = Processor::new(vec![0xeeu8; 20]);
    processor.extract_status(&status_report(5, vec![1u8; 32], 1, vec![b"A".to_vec()]));
    processor.extract_status(&status_report(5, vec![2u8; 32], 2, vec![b"A".to_vec()]));
    processor.commit(Commit { height: 5, block: vec![], proof: sample_proof() });
    let block = processor
        .get_block(5, &BlockTxs { height: 5, body: vec![9u8] }, 1000)
        .expect("all height state is present");
    assert_eq!(block.prev_hash, vec![1u8; 32]);
    assert_eq!(block.version, 1);
}

#[test]
fn block_waits_for_height_state() {
    let address = vec![0xeeu8; 20];
    let mut processor = Processor::new(address.clone());
    let action = processor.handle_bus(
        BusMsg::ChainStatus(status_report(10, vec![3u8; 32], 0, vec![b"A".to_vec(), b"A".to_vec(), b"B".to_vec()])),
        0,
    );
    match action {
        Action::Forward(BftMsg::Status(Status { height, authority_list, .. })) => {
            assert_eq!(height, 10);
            assert_eq!(weight_of(&authority_list, b"A"), Some(2));
            assert_eq!(weight_of(&authority_list, b"B"), Some(1));
            assert_eq!(authority_list.len(), 2);
        }
        other => panic!("unexpected action {:?}", other),
    }
    assert!(matches!(processor.handle_bridge(BridgeMsg::GetBlockReq(10)), Action::Nothing));
    // No commit proof yet: the request stays queued.
    let action = processor.handle_bus(BusMsg::BlockTxs(BlockTxs { height: 10, body: vec![4u8, 5u8] }), 1_500);
    assert!(matches!(action, Action::Nothing));
    assert!(matches!(
        processor.handle_bridge(BridgeMsg::Commit(Commit { height: 10, block: vec![], proof: sample_proof() })),
        Action::Nothing
    ));
    let action = processor.handle_bus(BusMsg::BlockTxs(BlockTxs { height: 10, body: vec![4u8, 5u8] }), 2_000);
    match action {
        Action::Respond(BridgeMsg::GetBlockResp(Some(block))) => {
            assert_eq!(block.height, 10);
            assert_eq!(block.proposer, address);
            assert_eq!(block.body, vec![4u8, 5u8]);
            assert_eq!(block.prev_hash, vec![3u8; 32]);
            assert_eq!(block.timestamp, 2_000);
            assert_eq!(block.proof.kind, ProofKind::Bft);
            assert_eq!(block.proof.content, encode_proof(&sample_proof()));
        }
        other => panic!("unexpected action {:?}", other),
    }
    // The request was answered: further transactions answer nothing.
    let action = processor.handle_bus(BusMsg::BlockTxs(BlockTxs { height: 10, body: vec![6u8] }), 3_000);
    assert!(matches!(action, Action::Nothing));
}

#[test]
fn block_requests_are_answered_in_order() {
    let mut processor = Processor::new(vec![1u8]);
    for h in [1u64, 2u64] {
        processor.extract_status(&status_report(h, vec![h as u8; 32], 0, vec![b"A".to_vec()]));
        processor.commit(Commit { height: h, block: vec![], proof: sample_proof() });
        processor.request_block(h);
    }
    // Transactions of height 2 cannot answer while height 1 waits in front.
    assert!(processor.receive_block_txs(BlockTxs { height: 2, body: vec![2u8] }, 0).is_none());
    let first = processor.receive_block_txs(BlockTxs { height: 1, body: vec![1u8] }, 0).unwrap();
    assert_eq!(first.height, 1);
    let second = processor.receive_block_txs(BlockTxs { height: 2, body: vec![22u8] }, 0).unwrap();
    assert_eq!(second.height, 2);
    assert_eq!(second.body, vec![22u8]);
}

#[test]
fn get_block_needs_every_piece() {
    let mut processor = Processor::new(vec![1u8]);
    let txs = BlockTxs { height: 4, body: vec![] };
    assert!(processor.get_block(4, &txs, 0).is_none());
    processor.extract_status(&status_report(4, vec![0u8; 32], 2, vec![]));
    assert!(processor.get_block(4, &txs, 0).is_none());
    processor.commit(Commit { height: 4, block: vec![], proof: sample_proof() });
    assert!(processor.get_block(4, &txs, 0).is_some());
}

#[test]
fn check_block_requests_are_both_accepted() {
    let mut processor = Processor::new(vec![1u8]);
    for _ in 0..2 {
        match processor.handle_bridge(BridgeMsg::CheckBlockReq(vec![1u8, 2u8], 7)) {
            Action::Respond(resp) => assert!(resp.check_block_answer()),
            other => panic!("unexpected action {:?}", other),
        }
    }
}

#[test]
fn transaction_check_is_queued_and_published() {
    let mut processor = Processor::new(vec![1u8]);
    assert!(!processor.check_transaction(&[1u8], 3, 1));
    match processor.handle_bridge(BridgeMsg::CheckTxReq(vec![8u8, 9u8], 3, 1)) {
        Action::RequestVerification(req) => {
            assert_eq!(req.height, 3);
            assert_eq!(req.round, 1);
            assert_eq!(req.block, vec![8u8, 9u8]);
        }
        other => panic!("unexpected action {:?}", other),
    }
}

#[test]
fn transmit_publishes_proposals_and_votes() {
    let mut processor = Processor::new(vec![1u8]);
    match processor.handle_bridge(BridgeMsg::Transmit(BftMsg::Proposal(vec![1u8]))) {
        Action::Publish(topic, body) => {
            assert_eq!(topic, Topic::SignedProposal);
            assert_eq!(body, vec![1u8]);
        }
        other => panic!("unexpected action {:?}", other),
    }
    match processor.handle_bridge(BridgeMsg::Transmit(BftMsg::Vote(vec![2u8]))) {
        Action::Publish(topic, body) => {
            assert_eq!(topic, Topic::RawVote);
            assert_eq!(body, vec![2u8]);
        }
        other => panic!("unexpected action {:?}", other),
    }
    let status = Status { height: 1, interval: None, authority_list: vec![] };
    assert!(processor.transmit(BftMsg::Status(status)).is_none());
}

#[test]
fn bus_forwards_proposals_and_votes_and_ignores_the_rest() {
    let mut processor = Processor::new(vec![1u8]);
    assert!(matches!(processor.handle_bus(BusMsg::Proposal(vec![3u8]), 0), Action::Forward(BftMsg::Proposal(b)) if b == vec![3u8]));
    assert!(matches!(processor.handle_bus(BusMsg::Vote(vec![4u8]), 0), Action::Forward(BftMsg::Vote(b)) if b == vec![4u8]));
    assert!(matches!(processor.handle_bus(BusMsg::SnapshotReq(vec![]), 0), Action::Nothing));
    assert!(matches!(processor.handle_bus(BusMsg::VerifyBlockResp(vec![]), 0), Action::Nothing));
    assert!(matches!(processor.handle_bus(BusMsg::Other, 0), Action::Nothing));
}

#[test]
fn sign_request_is_handed_out() {
    let mut processor = Processor::new(vec![1u8]);
    assert!(matches!(processor.handle_bridge(BridgeMsg::SignReq(vec![5u8; 32])), Action::Sign(h) if h == vec![5u8; 32]));
    assert_eq!(BridgeMsg::SignResp(Some(vec![1u8])).sign_answer(), Some(vec![1u8]));
    assert_eq!(BridgeMsg::CheckBlockResp(true).sign_answer(), None);
}

#[test]
fn answers_of_the_wrong_kind_are_refusals() {
    assert!(!BridgeMsg::CheckTxResp(true).check_block_answer());
    assert!(BridgeMsg::CheckTxResp(true).check_tx_answer());
    assert!(!BridgeMsg::CheckBlockResp(true).check_tx_answer());
    assert!(BridgeMsg::GetBlockResp(None).block_answer().is_none());
    assert!(BridgeMsg::SignResp(None).block_answer().is_none());
}

#[test]
fn check_sig_rejects_wrong_length() {
    let address = Some(vec![9u8; 20]);
    assert_eq!(SIGNATURE_BYTES_LEN, 65);
    assert_eq!(check_sig(&[0u8; 64], address.clone()), None);
    assert_eq!(check_sig(&[0u8; 66], address.clone()), None);
    assert_eq!(check_sig(&[], address.clone()), None);
    assert_eq!(check_sig(&[0u8; 65], address.clone()), address);
    assert_eq!(check_sig(&[0u8; 65], None), None);
}

#[test]
fn proof_round_trip() {
    let proof = sample_proof();
    let wire = to_bft_proof(&proof);
    assert_eq!(wire.kind, ProofKind::Bft);
    let back = from_bft_proof(&wire).expect("decodes");
    assert_eq!(back.block_hash, proof.block_hash);
    assert_eq!(back.height, proof.height);
    assert_eq!(back.round, proof.round);
    assert_eq!(back.precommit_votes, proof.precommit_votes);
}

#[test]
fn proof_encoding_layout() {
    let proof = Proof { block_hash: vec![1u8, 2u8], height: 0x0102, round: 2, precommit_votes: vec![(vec![5u8], vec![6u8, 7u8])] };
    let mut expected = vec![2u8, 0, 0, 0, 0, 0, 0, 0, 1, 2];
    expected.extend_from_slice(&[0x02, 0x01, 0, 0, 0, 0, 0, 0]);
    expected.extend_from_slice(&[2, 0, 0, 0, 0, 0, 0, 0]);
    expected.extend_from_slice(&[1, 0, 0, 0, 0, 0, 0, 0]);
    expected.extend_from_slice(&[1, 0, 0, 0, 0, 0, 0, 0, 5]);
    expected.extend_from_slice(&[2, 0, 0, 0, 0, 0, 0, 0, 6, 7]);
    assert_eq!(encode_proof(&proof), expected);
}

#[test]
fn malformed_proofs_do_not_decode() {
    let bytes = encode_proof(&sample_proof());
    assert!(decode_proof(&bytes[..bytes.len() - 1]).is_none());
    let mut longer = bytes.clone();
    longer.push(0);
    assert!(decode_proof(&longer).is_none());
    assert!(decode_proof(&[]).is_none());
    let wire = WireProof { kind: ProofKind::Tendermint, content: bytes.clone() };
    assert!(from_bft_proof(&wire).is_none());
}

#[test]
fn empty_proof_round_trip() {
    let proof = Proof { block_hash: vec![], height: u64::MAX, round: 0, precommit_votes: vec![] };
    let back = decode_proof(&encode_proof(&proof)).unwrap();
    assert_eq!(back.height, u64::MAX);
    assert!(back.block_hash.is_empty());
    assert!(back.precommit_votes.is_empty());
}

#[test]
fn proof_with_repeated_voter_does_not_decode() {
    let proof = Proof {
        block_hash: vec![1u8; 32],
        height: 2,
        round: 0,
        precommit_votes: vec![(vec![3u8; 20], vec![1u8; 65]), (vec![3u8; 20], vec![2u8; 65])],
    };
    let bytes = encode_proof(&proof);
    assert!(decode_proof(&bytes).is_none());
    let wire = to_bft_proof(&proof);
    assert!(from_bft_proof(&wire).is_none());
}
