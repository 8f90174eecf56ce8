//! The taproot committer: a one-leaf script tree, the commitment output
//! derived from it, and the script-path signing primitives.
//!
//! The ephemeral key pair is single-use per commit/reveal pair; reusing
//! it across distinct reveals would allow linkage, so a fresh pair is
//! generated for every call into the assembly flows.

use vstd::prelude::*;

use bitcoin::consensus::deserialize;
use bitcoin::key::XOnlyPublicKey;
use bitcoin::secp256k1::Secp256k1;
use bitcoin::sighash::{Prevouts, SighashCache};
use bitcoin::taproot::{LeafVersion, TaprootBuilder};
use bitcoin::{Script, ScriptBuf, TapLeafHash, TapSighashType};

use crate::errors::WalletError;

verus! {

#[verifier::external_type_specification]
#[verifier::external_body]
pub struct ExKeypair(bitcoin::key::Keypair);

/// The tapscript leaf hash of a script under the tapscript leaf version,
/// as the bitcoin library computes it: a function of the script bytes
/// alone. For a tree of one leaf it is also the tree's merkle root.
pub uninterp spec fn tap_leaf_hash(script: Seq<u8>) -> Seq<u8>;

/// The default-type script-path signature hash of input zero of a
/// serialized transaction over its single previous output: a function of
/// the transaction bytes, the previous output, and the tapscript leaf
/// alone.
pub uninterp spec fn tap_sighash(
    tx: Seq<u8>,
    prevout_value: u64,
    prevout_spk: Seq<u8>,
    leaf: Seq<u8>,
) -> Seq<u8>;

/// A taproot commitment to a single leaf script: the untweaked internal
/// key, the tree's merkle root, the committed leaf script, and the
/// control block proving script-path membership.
#[derive(Debug, PartialEq, Eq)]
pub struct TaprootCommitment {
    pub internal_key: Vec<u8>,
    pub merkle_root: Vec<u8>,
    pub leaf_script: Vec<u8>,
    pub control_block: Vec<u8>,
}

/// Well-formedness of a single-leaf commitment to `leaf`: a 32-byte
/// internal key, the merkle root equal to the leaf hash, and a 33-byte
/// control block made of the tapscript leaf-version byte (with the output
/// key's parity bit) followed by the internal key.
pub open spec fn taproot_commitment_wf(c: TaprootCommitment, leaf: Seq<u8>) -> bool {
    &&& c.internal_key@.len() == 32
    &&& c.merkle_root@ == tap_leaf_hash(leaf)
    &&& c.merkle_root@.len() == 32
    &&& c.leaf_script@ == leaf
    &&& c.control_block@.len() == 33
    &&& (c.control_block@[0] == 0xc0 || c.control_block@[0] == 0xc1)
    &&& c.control_block@.subrange(1, 33) == c.internal_key@
}

/// Generate the fresh single-use ephemeral key pair for one
/// commit/reveal pair. Relies on secp256k1's Keypair::new with the
/// thread's cryptographically secure random number generator; nothing is
/// promised of the value drawn.
#[verifier::external_body]
pub fn generate_keypair() -> bitcoin::key::Keypair {
    let secp = Secp256k1::new();
    bitcoin::key::Keypair::new(&secp, &mut bitcoin::secp256k1::rand::thread_rng())
}

/// Build the one-leaf script tree (tapscript leaf version) and extract
/// the commitment pieces. Relies on bitcoin's TaprootBuilder::finalize
/// and TaprootSpendInfo: for a single leaf at depth zero the merkle root
/// is the leaf hash, and the control block serializes to the
/// leaf-version/parity byte followed by the 32-byte internal key with an
/// empty path. Fails only on cryptographic library errors.
#[verifier::external_body]
fn single_leaf_commitment(
    key_pair: &bitcoin::key::Keypair,
    reveal_script: &Vec<u8>,
) -> (r: Result<TaprootCommitment, WalletError>)
    ensures
        match r {
            Ok(c) => taproot_commitment_wf(c, reveal_script@) && c.merkle_root@ == tap_leaf_hash(
                reveal_script@,
            ),
            Err(e) => e == WalletError::SigningFailed,
        },
{
    let err = WalletError::SigningFailed;
    let secp = Secp256k1::new();
    let (xonly, _) = XOnlyPublicKey::from_keypair(key_pair);
    let script = ScriptBuf::from_bytes(reveal_script.clone());
    let info = TaprootBuilder::new().add_leaf(0, script.clone()).map_err(|_| err)?.finalize(&secp, xonly).map_err(|_| err)?;
    let root = info.merkle_root().ok_or(err)?;
    let cb = info.control_block(&(script, LeafVersion::TapScript)).ok_or(err)?;
    let rb: &[u8] = root.as_ref();
    Ok(TaprootCommitment { internal_key: xonly.serialize().to_vec(), merkle_root: rb.to_vec(), leaf_script: reveal_script.clone(), control_block: cb.serialize() })
}

/// The commitment output script. Relies on bitcoin's
/// ScriptBuf::new_p2tr: the pay-to-taproot script paying the internal
/// key tweaked with the merkle root is a 34-byte witness-v1 program.
#[verifier::external_body]
fn p2tr_commit_script(
    internal_key: &Vec<u8>,
    merkle_root: &Vec<u8>,
) -> (r: Result<Vec<u8>, WalletError>)
    ensures
        match r {
            Ok(s) => s@.len() == 34 && s@[0] == 0x51 && s@[1] == 0x20,
            Err(e) => e == WalletError::SigningFailed,
        },
{
    let err = WalletError::SigningFailed;
    let secp = Secp256k1::new();
    let key = XOnlyPublicKey::from_slice(internal_key.as_slice()).map_err(|_| err)?;
    let root: bitcoin::TapNodeHash = bitcoin::hashes::Hash::from_slice(merkle_root.as_slice()).map_err(|_| err)?;
    Ok(ScriptBuf::new_p2tr(&secp, key, Some(root)).into_bytes())
}

/// Build a one-leaf script tree for the reveal script, tweak the
/// internal key with the tree's merkle root, and return the commitment
/// and the pay-to-taproot commitment script. Fails only on cryptographic
/// library errors, which are fatal, not retryable.
pub fn create_taproot_info(
    key_pair: &bitcoin::key::Keypair,
    reveal_script: &Vec<u8>,
) -> (r: Result<(TaprootCommitment, Vec<u8>), WalletError>)
    ensures
        r matches Ok(p) ==> taproot_commitment_wf(p.0, reveal_script@),
        r matches Ok(p) ==> p.0.merkle_root@ == tap_leaf_hash(reveal_script@),
        r matches Ok(p) ==> p.1@.len() == 34 && p.1@[0] == 0x51 && p.1@[1] == 0x20,
        r is Err ==> r == Err::<(TaprootCommitment, Vec<u8>), WalletError>(
            WalletError::SigningFailed,
        ),
{
    let commitment = match single_leaf_commitment(key_pair, reveal_script) {
        Ok(c) => c,
        Err(e) => {
            return Err(e);
        },
    };
    let spk = match p2tr_commit_script(&commitment.internal_key, &commitment.merkle_root) {
        Ok(s) => s,
        Err(e) => {
            return Err(e);
        },
    };
    Ok((commitment, spk))
}

/// Compute the default-type taproot script-path signature hash of input
/// zero over the single previous output. Relies on bitcoin's
/// SighashCache::taproot_script_spend_signature_hash with the tapscript
/// leaf version; the result depends on the arguments alone.
#[verifier::external_body]
pub(crate) fn compute_taproot_sighash(
    tx_bytes: &Vec<u8>,
    prevout_value: u64,
    prevout_spk: &Vec<u8>,
    leaf_script: &Vec<u8>,
) -> (r: Result<Vec<u8>, WalletError>)
    ensures
        match r {
            Ok(h) => h@ == tap_sighash(tx_bytes@, prevout_value, prevout_spk@, leaf_script@)
                && h@.len() == 32,
            Err(e) => e == WalletError::SigningFailed,
        },
{
    let tx: bitcoin::Transaction = deserialize(tx_bytes.as_slice()).map_err(|_| WalletError::SigningFailed)?;
    let prev = bitcoin::TxOut { value: bitcoin::Amount::from_sat(prevout_value), script_pubkey: ScriptBuf::from_bytes(prevout_spk.clone()) };
    let leaf = TapLeafHash::from_script(Script::from_bytes(leaf_script.as_slice()), LeafVersion::TapScript);
    let mut cache = SighashCache::new(&tx);
    let hash = cache.taproot_script_spend_signature_hash(0, &Prevouts::All(&[prev]), leaf, TapSighashType::Default).map_err(|_| WalletError::SigningFailed)?;
    let hb: &[u8] = hash.as_ref();
    Ok(hb.to_vec())
}

/// Sign a 32-byte digest with the untweaked ephemeral key (script-path
/// spends sign with the internal key, not the tweaked output key). Relies
/// on secp256k1's sign_schnorr, which draws auxiliary randomness from the
/// thread's random number generator; of every outcome only the 64-byte
/// signature length holds. A digest of any other length is refused by
/// Message::from_digest_slice and reported as a signing failure.
#[verifier::external_body]
pub(crate) fn schnorr_sign(
    key_pair: &bitcoin::key::Keypair,
    msg: &Vec<u8>,
) -> (r: Result<Vec<u8>, WalletError>)
    ensures
        match r {
            Ok(sig) => sig@.len() == 64,
            Err(e) => e == WalletError::SigningFailed,
        },
{
    let secp = Secp256k1::new();
    let m = bitcoin::secp256k1::Message::from_digest_slice(msg.as_slice()).map_err(|_| WalletError::SigningFailed)?;
    Ok(secp.sign_schnorr(&m, key_pair).as_ref().to_vec())
}

} // verus!
