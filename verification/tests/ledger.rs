use netsec::chain::{
    address_of, Amount, Block, Blockchain, Message, Transaction, DIFFICULTY, ERR_AMOUNT, ERR_BLOCK_HASH,
    ERR_PREVIOUS_HASH, ERR_SIGNATURE,
};
use netsec::hex::{decode, encode};

fn amount(value: f64, display: &str, json: &str) -> Amount {
    Amount { bits: value.to_bits(), display: display.to_string(), json: json.to_string(), above_zero: value > 0.0 }
}

#[test]
fn hex_encode_is_lower_case_two_digits_per_byte() {
    assert_eq!(encode(&[0x00, 0xab, 0xff, 0x10]), "00abff10");
    assert_eq!(encode(&[]), "");
}

#[test]
fn hex_decode_reads_pairs() {
    assert_eq!(decode("00abFF10").unwrap(), vec![0x00, 0xab, 0xff, 0x10]);
    assert_eq!(decode("").unwrap(), Vec::<u8>::new());
}

#[test]
fn hex_decode_rejects_non_hex_pairs() {
    assert!(decode("zz").is_err());
    assert!(decode("0g").is_err());
    // The bad first group ends the reading before the odd tail is reached.
    assert!(decode("zz1").is_err());
}

#[test]
fn hex_encode_of_decode_is_lower_case_text() {
    assert_eq!(encode(&decode("00ABff7E").unwrap()), "00abff7e");
}

#[test]
fn hex_decode_inverts_encode() {
    let bytes: Vec<u8> = (0..=255u8).collect();
    assert_eq!(decode(&encode(&bytes)).unwrap(), bytes);
}

#[test]
fn transaction_hash_is_sha256_of_sender_receiver_amount() {
    let tx = Transaction::new("a".to_string(), "b".to_string(), amount(1.0, "1", "1.0"));
    assert_eq!(encode(&tx.calculate_hash()), "ca5ba87c93d42f8a45c1e0f569bba8bac92c80f4ce6c864bd44d136572411b7e");
}

#[test]
fn block_hash_covers_index_time_transactions_previous_and_nonce() {
    let block = Block::new(0, vec![], "0".to_string(), 0);
    assert_eq!(block.hash, "67e2d1cc783d76216088a467bd13ca99a316c7892d8ee169ccc0894e2de19953");
    assert_eq!(block.calculate_hash(), block.hash);
    assert_eq!(block.nonce, 0);
}

#[test]
fn mining_finds_hash_with_leading_zeros() {
    let mut block = Block::new(1, vec![], "abc".to_string(), 42);
    block.mine(DIFFICULTY);
    assert!(block.hash.starts_with("0000"));
    assert_eq!(block.calculate_hash(), block.hash);
}

#[test]
fn signed_transaction_verifies() {
    let secret = [7u8; 32];
    let sender = address_of(&secret);
    assert_eq!(sender.len(), 64);
    let mut tx = Transaction::new(sender, "receiver".to_string(), amount(100.0, "100", "100.0"));
    assert!(!tx.verify_signature());
    tx.sign(&secret);
    assert_eq!(tx.signature.as_ref().unwrap().len(), 64);
    assert!(tx.verify_signature());
}

#[test]
fn tampered_transaction_fails_verification() {
    let secret = [9u8; 32];
    let mut tx = Transaction::new(address_of(&secret), "receiver".to_string(), amount(5.0, "5", "5.0"));
    tx.sign(&secret);
    tx.receiver = "somebody else".to_string();
    assert!(!tx.verify_signature());
}

#[test]
fn system_transactions_need_no_signature() {
    let tx = Transaction::new("SYSTEM".to_string(), "miner".to_string(), Amount::mining_reward());
    assert!(tx.verify_signature());
}

#[test]
fn transaction_signed_by_another_key_fails() {
    let mut tx = Transaction::new(address_of(&[1u8; 32]), "r".to_string(), amount(2.0, "2", "2.0"));
    tx.sign(&[2u8; 32]);
    assert!(!tx.verify_signature());
}

#[test]
fn new_chain_holds_mined_genesis() {
    let bc = Blockchain::try_new(1_700_000_000).unwrap();
    assert_eq!(bc.chain.len(), 1);
    let genesis = bc.get_latest_block();
    assert_eq!(genesis.index, 0);
    assert_eq!(genesis.previous_hash, "0");
    assert!(genesis.hash.starts_with("0000"));
    assert_eq!(genesis.calculate_hash(), genesis.hash);
    assert_eq!(genesis.transactions.len(), 1);
    assert_eq!(genesis.transactions[0].sender, "SYSTEM");
    assert_eq!(genesis.transactions[0].receiver, "Genesis_Receiver");
    assert!(bc.pending_transactions.is_empty());
}

#[test]
fn transaction_with_zero_amount_is_rejected() {
    let mut bc = Blockchain::try_new(1).unwrap();
    let tx = Transaction::new("SYSTEM".to_string(), "x".to_string(), amount(0.0, "0", "0.0"));
    assert_eq!(bc.add_transaction(tx), Err(ERR_AMOUNT));
    assert!(bc.pending_transactions.is_empty());
}

#[test]
fn transaction_with_nan_amount_is_rejected() {
    let mut bc = Blockchain::try_new(1).unwrap();
    let tx = Transaction::new("SYSTEM".to_string(), "bob".to_string(), amount(f64::NAN, "NaN", "null"));
    assert_eq!(bc.add_transaction(tx), Err(ERR_AMOUNT));
    assert!(bc.pending_transactions.is_empty());
}

#[test]
fn unsigned_transaction_is_rejected() {
    let mut bc = Blockchain::try_new(1).unwrap();
    let tx = Transaction::new(address_of(&[3u8; 32]), "x".to_string(), amount(1.5, "1.5", "1.5"));
    assert_eq!(bc.add_transaction(tx), Err(ERR_SIGNATURE));
    assert!(bc.pending_transactions.is_empty());
}

#[test]
fn mining_appends_linked_block_with_reward_first() {
    let secret = [4u8; 32];
    let me = address_of(&secret);
    let mut bc = Blockchain::try_new(10).unwrap();
    let mut tx = Transaction::new(me.clone(), "friend".to_string(), amount(100.0, "100", "100.0"));
    tx.sign(&secret);
    assert_eq!(bc.add_transaction(tx), Ok(()));
    assert_eq!(bc.pending_transactions.len(), 1);
    let genesis_hash = bc.chain[0].hash.clone();
    let block = bc.try_mine_pending_transactions(me.clone(), 20).unwrap();
    assert_eq!(block.index, 1);
    assert_eq!(block.previous_hash, genesis_hash);
    assert_eq!(block.timestamp, 20);
    assert!(block.hash.starts_with("0000"));
    assert_eq!(block.calculate_hash(), block.hash);
    assert_eq!(block.transactions.len(), 2);
    assert_eq!(block.transactions[0].sender, "SYSTEM");
    assert_eq!(block.transactions[0].receiver, me);
    assert_eq!(block.transactions[0].amount.display, "50");
    assert_eq!(block.transactions[1].receiver, "friend");
    assert_eq!(bc.chain.len(), 2);
    assert_eq!(bc.chain[1].hash, block.hash);
    assert!(bc.pending_transactions.is_empty());
}

#[test]
fn block_from_network_must_link_to_latest() {
    let mut a = Blockchain::try_new(5).unwrap();
    let mut b = Blockchain::try_new(5).unwrap();
    let block = b.try_mine_pending_transactions("miner".to_string(), 6).unwrap();
    let mut wrong = block.clone();
    wrong.previous_hash = "ffff".to_string();
    assert_eq!(a.add_block_from_network(wrong), Err(ERR_PREVIOUS_HASH));
    assert_eq!(a.chain.len(), 1);
    assert_eq!(a.add_block_from_network(block.clone()), Ok(()));
    assert_eq!(a.chain.len(), 2);
    assert_eq!(a.chain[1].hash, block.hash);
}

#[test]
fn block_from_network_with_corrupted_hash_is_rejected() {
    let mut a = Blockchain::try_new(7).unwrap();
    let mut b = Blockchain::try_new(7).unwrap();
    let mut block = b.try_mine_pending_transactions("miner".to_string(), 8).unwrap();
    block.nonce = block.nonce + 1;
    assert_eq!(a.add_block_from_network(block), Err(ERR_BLOCK_HASH));
    assert_eq!(a.chain.len(), 1);
}

#[test]
fn accepted_block_drops_pending_transactions() {
    let secret = [6u8; 32];
    let mut a = Blockchain::try_new(3).unwrap();
    let mut tx = Transaction::new(address_of(&secret), "r".to_string(), amount(1.0, "1", "1.0"));
    tx.sign(&secret);
    assert_eq!(a.apply_message(Message::NewTransaction(tx)), Ok(()));
    assert_eq!(a.pending_transactions.len(), 1);
    let mut b = Blockchain::try_new(3).unwrap();
    let block = b.try_mine_pending_transactions("m".to_string(), 4).unwrap();
    assert_eq!(a.apply_message(Message::NewBlock(block)), Ok(()));
    assert!(a.pending_transactions.is_empty());
}
