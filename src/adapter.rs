//! The capability adapter's own decisions: which answers it takes from the
//! processor, and which signatures it hands on for recovery.

use vstd::prelude::*;
use crate::processor::{Block, BridgeMsg};

verus! {

/// The length of a recoverable signature: 32 bytes of r, 32 of s and the
/// recovery id.
pub const SIGNATURE_BYTES_LEN: usize = 65;

/// The signer address of `signature`: none where the signature is not
/// `SIGNATURE_BYTES_LEN` bytes long, else the address `recovered` from it,
/// if recovery succeeded.
pub fn check_sig(signature: &[u8], recovered: Option<Vec<u8>>) -> (r: Option<Vec<u8>>)
    ensures
        signature.len() != SIGNATURE_BYTES_LEN ==> r is None,
        signature.len() == SIGNATURE_BYTES_LEN ==> r == recovered,
{
    if signature.len() != SIGNATURE_BYTES_LEN {
        return None;
    }
    recovered
}

impl BridgeMsg {
    /// The verdict of a block check answer; any other message is a refusal.
    pub fn check_block_answer(self) -> (r: bool)
        ensures
            r == (self matches BridgeMsg::CheckBlockResp(ok) && ok),
    {
        match self {
            BridgeMsg::CheckBlockResp(ok) => ok,
            _ => false,
        }
    }

    /// The verdict of a transaction check answer; any other message is a
    /// refusal.
    pub fn check_tx_answer(self) -> (r: bool)
        ensures
            r == (self matches BridgeMsg::CheckTxResp(ok) && ok),
    {
        match self {
            BridgeMsg::CheckTxResp(ok) => ok,
            _ => false,
        }
    }

    /// The block of a block answer; any other message gives none.
    pub fn block_answer(self) -> (r: Option<Block>)
        ensures
            self matches BridgeMsg::GetBlockResp(b) ==> r == b,
            !(self is GetBlockResp) ==> r is None,
    {
        match self {
            BridgeMsg::GetBlockResp(b) => b,
            _ => None,
        }
    }

    /// The signature of a signing answer; any other message gives none.
    pub fn sign_answer(self) -> (r: Option<Vec<u8>>)
        ensures
            self matches BridgeMsg::SignResp(s) ==> r == s,
            !(self is SignResp) ==> r is None,
    {
        match self {
            BridgeMsg::SignResp(s) => s,
            _ => None,
        }
    }
}

} // verus!
