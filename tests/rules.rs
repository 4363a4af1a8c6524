use xelis_core::codec::{hex_decode_bytes, hex_encode_bytes};
use xelis_core::config::{MINIMUM_DIFFICULTY, PRUNE_SAFETY_LIMIT};
use xelis_core::crypto;
use xelis_core::crypto::PublicKey;
use xelis_core::difficulty::check_difficulty;
use xelis_core::mempool::{Mempool, MempoolError};
use xelis_core::peer_list::{encode_peer_disconnected, IpAddress, PeerAddress};
use xelis_core::reference::{
    choose_balance_for_reference, pre_verify_tx, reference_block_topoheight,
    verify_stable_reference, BalanceChoice,
};
use xelis_core::rules::BlockchainError;
use xelis_core::transaction::{Transaction, TransactionData};

fn hash_of(bytes: [u8; 32]) -> crypto::Hash {
    crypto::Hash { bytes: bytes.to_vec() }
}

#[test]
fn difficulty_threshold() {
    let mut top = [0u8; 32];
    top[0] = 0x0f;
    for b in top.iter_mut().skip(1) {
        *b = 0xff;
    }
    assert_eq!(check_difficulty(&hash_of(top), 16), Ok(true));
    let mut over = [0u8; 32];
    over[0] = 0x10;
    assert_eq!(check_difficulty(&hash_of(over), 16), Ok(false));
    assert_eq!(check_difficulty(&hash_of([0xff; 32]), 1), Ok(true));
    assert_eq!(check_difficulty(&hash_of([0xff; 32]), 2), Ok(false));
    assert_eq!(check_difficulty(&hash_of([0; 32]), 0), Err(()));
    assert_eq!(check_difficulty(&crypto::Hash { bytes: vec![0; 31] }, MINIMUM_DIFFICULTY), Err(()));
}

#[test]
fn hashes_are_blake3() {
    let tx = Transaction::new(0, TransactionData::Registration, PublicKey { bytes: vec![7; 32] });
    let h = tx.hash();
    assert_eq!(h.bytes, blake3::hash(&tx.unsigned_bytes()).as_bytes().to_vec());
    assert_ne!(h.bytes, tx.unsigned_bytes());
    assert_eq!(crypto::Hash::zero().bytes, vec![0u8; 32]);
}

#[test]
fn hex_codec() {
    let bytes = vec![0x00, 0x0f, 0xa5, 0xff];
    let hex = hex_encode_bytes(&bytes);
    assert_eq!(hex, b"000fa5ff".to_vec());
    assert_eq!(hex_decode_bytes(b"000FA5ff"), Some(bytes));
    assert_eq!(hex_decode_bytes(b"0"), None);
    assert_eq!(hex_decode_bytes(b"0g"), None);
    assert_eq!(hex_decode_bytes(b""), Some(vec![]));
}

#[test]
fn peer_disconnected_payload() {
    let v4 = PeerAddress { ip: IpAddress::V4(0xC0A8_0102), port: 2125 };
    assert_eq!(encode_peer_disconnected(&v4), vec![4, 192, 168, 1, 2, 0x4d, 0x08]);
    let v6 = PeerAddress { ip: IpAddress::V6(1), port: 1 };
    let mut expected = vec![6];
    expected.extend_from_slice(&[0; 15]);
    expected.extend_from_slice(&[1, 1, 0]);
    assert_eq!(encode_peer_disconnected(&v6), expected);
}

#[test]
fn mempool_orders_by_fee() {
    let mut pool = Mempool::new();
    let mk = |nonce: u64, fee: u64| {
        let mut tx = Transaction::new(nonce, TransactionData::Burn(1), PublicKey { bytes: vec![1; 32] });
        tx.fee = fee;
        tx
    };
    for (n, fee) in [(0, 10), (1, 30), (2, 20), (3, 30)] {
        let tx = mk(n, fee);
        pool.add_tx(tx.hash(), tx).unwrap();
    }
    let fees: Vec<u64> = pool.get_sorted_txs().iter().map(|e| e.fee).collect();
    assert_eq!(fees, vec![30, 30, 20, 10]);
    let nonces: Vec<u64> = pool.get_sorted_txs().iter().map(|e| e.tx.nonce).collect();
    assert_eq!(nonces, vec![1, 3, 2, 0]);
    let dup = mk(2, 20);
    assert_eq!(pool.add_tx(dup.hash(), dup.clone()), Err(MempoolError::TxAlreadyInMempool));
    assert!(pool.contains_tx(&dup.hash()));
    assert!(pool.remove_tx(&dup.hash()).is_ok());
    assert!(!pool.contains_tx(&dup.hash()));
    assert_eq!(pool.remove_tx(&dup.hash()).unwrap_err(), MempoolError::TxNotFound);
    assert_eq!(pool.size(), 3);
}

#[test]
fn pre_verification_rules() {
    assert_eq!(pre_verify_tx(1, 0, 0, 0, 10, 0, true), Err(BlockchainError::InvalidTxVersion));
    assert_eq!(pre_verify_tx(0, 10, 5, 0, 10, 0, true), Err(BlockchainError::InvalidTxFee(10, 5)));
    assert_eq!(pre_verify_tx(0, 5, 5, 11, 10, 0, true), Err(BlockchainError::InvalidReferenceTopoheight));
    assert_eq!(pre_verify_tx(0, 5, 5, 5, 10, 1000, true), Ok(None));
    let stable = 1000;
    let safety = stable - PRUNE_SAFETY_LIMIT;
    assert_eq!(pre_verify_tx(0, 5, 5, safety, 1010, stable, false), Ok(Some(safety)));
    assert_eq!(pre_verify_tx(0, 5, 5, safety + 1, 1010, stable, false), Ok(None));
    assert_eq!(pre_verify_tx(0, 5, 5, 0, 10, PRUNE_SAFETY_LIMIT - 1, false), Ok(None));
}

#[test]
fn stable_reference_rules() {
    assert_eq!(verify_stable_reference(900, &vec![Some(800), Some(900)]), Ok(()));
    assert_eq!(
        verify_stable_reference(900, &vec![Some(800), None, Some(950)]),
        Err(BlockchainError::NoStableReferenceFound)
    );
    assert_eq!(
        verify_stable_reference(900, &vec![Some(950), None]),
        Err(BlockchainError::InvalidReferenceTopoheight)
    );
    assert_eq!(verify_stable_reference(900, &vec![]), Ok(()));
}

#[test]
fn reference_balance_choice() {
    assert_eq!(reference_block_topoheight(Some(1000), 1000, 1005), 1000);
    assert_eq!(reference_block_topoheight(Some(999), 1000, 1005), 1000);
    assert_eq!(reference_block_topoheight(Some(999), 1010, 1005), 1005);
    assert_eq!(reference_block_topoheight(None, 1000, 1005), 1005);
    assert_eq!(choose_balance_for_reference(Some(1001), 1000, 1000), BalanceChoice::OutputBalance);
    assert_eq!(
        choose_balance_for_reference(Some(990), 1000, 1000),
        BalanceChoice::FinalBalanceAt(1000)
    );
    assert_eq!(choose_balance_for_reference(Some(1000), 1000, 1000), BalanceChoice::LatestOutputVersion);
    assert_eq!(choose_balance_for_reference(None, 1000, 998), BalanceChoice::FinalBalanceAt(998));
}
