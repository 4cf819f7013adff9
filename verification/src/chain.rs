//! A small proof-of-work ledger: signed transactions, blocks whose hash is
//! the SHA-256 of their contents, and a chain that accepts new transactions
//! and blocks only when they check out.
use vstd::prelude::*;
use vstd::utf8::*;
use vstd::string::StringSliceAdditionalSpecFns;
use crate::crypto::{ed25519_key_accepted, ed25519_public, ed25519_public_key, ed25519_public_key_ok, ed25519_sign, ed25519_signature, ed25519_verifies, ed25519_verify, key_pair, sha256, sha256_digest};
use crate::hex::{decode, encode, hex_decode, hex_groups_sliceable, hex_lower, law_decode_inverts_encode};
use crate::json::{dec_ascii, json_string, json_u8_array, push_bytes, push_dec, push_json_string, push_u8_array};
use crate::text::str_eq;

verus! {

/// A transaction amount. The ledger's amounts are binary floating-point
/// numbers; the library keeps the number's bit pattern together with the
/// three things its rules read of it: the `Display` text (hashed for
/// signatures), the JSON number text (hashed into blocks) and whether
/// `amount > 0.0` holds (the positivity check: an amount must be greater
/// than zero, so zero, negative amounts and NaN are all refused).
#[derive(Clone, Debug)]
pub struct Amount {
    pub bits: u64,
    pub display: String,
    pub json: String,
    pub above_zero: bool,
}

pub struct AmountView {
    pub bits: u64,
    pub display: Seq<char>,
    pub json: Seq<char>,
    pub above_zero: bool,
}

impl View for Amount {
    type V = AmountView;

    open spec fn view(&self) -> AmountView {
        AmountView {
            bits: self.bits,
            display: self.display@,
            json: self.json@,
            above_zero: self.above_zero,
        }
    }
}

impl Amount {
    /// A copy with the same contents.
    pub fn copy(&self) -> (r: Amount)
        ensures
            r@ == self@,
    {
        Amount {
            bits: self.bits,
            display: self.display.clone(),
            json: self.json.clone(),
            above_zero: self.above_zero,
        }
    }
}

/// A transfer from `sender` to `receiver` (hex Ed25519 public keys, or
/// `SYSTEM` for rewards), with an optional signature over its hash.
#[derive(Clone, Debug)]
pub struct Transaction {
    pub sender: String,
    pub receiver: String,
    pub amount: Amount,
    pub signature: Option<Vec<u8>>,
}

pub struct TxView {
    pub sender: Seq<char>,
    pub receiver: Seq<char>,
    pub amount: AmountView,
    pub signature: Option<Seq<u8>>,
}

impl View for Transaction {
    type V = TxView;

    open spec fn view(&self) -> TxView {
        TxView {
            sender: self.sender@,
            receiver: self.receiver@,
            amount: self.amount@,
            signature: match self.signature {
                Some(v) => Some(v@),
                None => None,
            },
        }
    }
}

/// The sender name of reward transactions, which carry no signature.
pub open spec fn system_sender() -> Seq<char> {
    "SYSTEM"@
}

/// The bytes hashed for a transaction's signature: sender, receiver and
/// amount text, one after the other.
pub open spec fn tx_preimage(t: TxView) -> Seq<u8> {
    encode_utf8(t.sender) + encode_utf8(t.receiver) + encode_utf8(t.amount.display)
}

/// The hash that a transaction's signature covers.
pub open spec fn tx_hash(t: TxView) -> Seq<u8> {
    sha256_digest(tx_preimage(t))
}

pub open spec fn lit_sender_key() -> Seq<u8> {
    seq![123u8, 34u8, 115u8, 101u8, 110u8, 100u8, 101u8, 114u8, 34u8, 58u8]
}

pub open spec fn lit_receiver_key() -> Seq<u8> {
    seq![44u8, 34u8, 114u8, 101u8, 99u8, 101u8, 105u8, 118u8, 101u8, 114u8, 34u8, 58u8]
}

pub open spec fn lit_amount_key() -> Seq<u8> {
    seq![44u8, 34u8, 97u8, 109u8, 111u8, 117u8, 110u8, 116u8, 34u8, 58u8]
}

pub open spec fn lit_signature_key() -> Seq<u8> {
    seq![44u8, 34u8, 115u8, 105u8, 103u8, 110u8, 97u8, 116u8, 117u8, 114u8, 101u8, 34u8, 58u8]
}

pub open spec fn lit_null() -> Seq<u8> {
    seq![110u8, 117u8, 108u8, 108u8]
}

/// JSON of a transaction, fields in declaration order, compact form.
pub open spec fn tx_json(t: TxView) -> Seq<u8> {
    lit_sender_key() + json_string(encode_utf8(t.sender)) + lit_receiver_key() + json_string(
        encode_utf8(t.receiver),
    ) + lit_amount_key() + encode_utf8(t.amount.json) + lit_signature_key() + match t.signature {
        Some(s) => json_u8_array(s),
        None => lit_null(),
    } + seq![125u8]
}

/// Comma-separated JSON of the transactions.
pub open spec fn tx_json_list(ts: Seq<TxView>) -> Seq<u8>
    decreases ts.len(),
{
    if ts.len() == 0 {
        Seq::empty()
    } else if ts.len() == 1 {
        tx_json(ts[0])
    } else {
        tx_json_list(ts.drop_last()) + seq![44u8] + tx_json(ts.last())
    }
}

/// JSON array of transactions.
pub open spec fn txs_json(ts: Seq<TxView>) -> Seq<u8> {
    seq![91u8] + tx_json_list(ts) + seq![93u8]
}

/// Views of a sequence of transactions.
pub open spec fn txs_view(ts: Seq<Transaction>) -> Seq<TxView> {
    ts.map_values(|t: Transaction| t@)
}

proof fn lemma_txs_view_push(s: Seq<Transaction>, t: Transaction)
    ensures
        txs_view(s.push(t)) == txs_view(s).push(t@),
{
    assert(txs_view(s.push(t)) =~= txs_view(s).push(t@));
}

proof fn lemma_txs_view_take_next(s: Seq<Transaction>, i: int)
    requires
        0 <= i < s.len(),
    ensures
        txs_view(s.take(i + 1)) == txs_view(s.take(i)).push(s[i]@),
{
    assert(s.take(i + 1) =~= s.take(i).push(s[i]));
    lemma_txs_view_push(s.take(i), s[i]);
}

/// Appends the JSON of one transaction.
pub fn push_tx_json(out: &mut Vec<u8>, t: &Transaction)
    ensures
        final(out)@ == old(out)@ + tx_json(t@),
{
    push_bytes(out, &[123u8, 34u8, 115u8, 101u8, 110u8, 100u8, 101u8, 114u8, 34u8, 58u8]);
    push_json_string(out, t.sender.as_str());
    push_bytes(out, &[44u8, 34u8, 114u8, 101u8, 99u8, 101u8, 105u8, 118u8, 101u8, 114u8, 34u8, 58u8]);
    push_json_string(out, t.receiver.as_str());
    push_bytes(out, &[44u8, 34u8, 97u8, 109u8, 111u8, 117u8, 110u8, 116u8, 34u8, 58u8]);
    push_bytes(out, t.amount.json.as_str().as_bytes());
    push_bytes(out, &[44u8, 34u8, 115u8, 105u8, 103u8, 110u8, 97u8, 116u8, 117u8, 114u8, 101u8, 34u8, 58u8]);
    match &t.signature {
        Some(s) => push_u8_array(out, s.as_slice()),
        None => push_bytes(out, &[110u8, 117u8, 108u8, 108u8]),
    }
    out.push(125u8);
    assert(final(out)@ =~= old(out)@ + tx_json(t@));
}


/// Whether a transaction's signature checks out: rewards from `SYSTEM` need
/// none; otherwise the signature must be present, the sender must decode from
/// hex, and the signature must verify under the decoded key (a key that is not
/// 32 bytes long is taken as 32 zero bytes, a signature that is not 64 bytes
/// long as 64 zero bytes).
pub open spec fn signature_ok(t: TxView) -> bool {
    if t.sender == system_sender() {
        true
    } else {
        match t.signature {
            None => false,
            Some(sig) => match hex_decode(encode_utf8(t.sender)) {
                None => false,
                Some(pk) => {
                    let key = if pk.len() == 32 { pk } else { Seq::new(32, |i: int| 0u8) };
                    let sig64 = if sig.len() == 64 { sig } else { Seq::new(64, |i: int| 0u8) };
                    ed25519_public_key_ok(key) && ed25519_verifies(key, sig64, tx_hash(t))
                },
            },
        }
    }
}

/// Whether checking the signature can read the sender as hex, which cuts
/// its bytes two at a time until a group fails to parse: every group cut
/// must be whole and end on a character boundary.
pub open spec fn sender_decodable(t: TxView) -> bool {
    t.sender != system_sender() && t.signature is Some ==> hex_groups_sliceable(encode_utf8(t.sender), 0)
}

fn copy_bytes(v: &[u8]) -> (r: Vec<u8>)
    ensures
        r@ == v@,
{
    let mut r: Vec<u8> = Vec::new();
    push_bytes(&mut r, v);
    assert(r@ =~= v@);
    r
}

fn array32(v: &[u8]) -> (r: [u8; 32])
    requires
        v@.len() == 32,
    ensures
        r@ == v@,
{
    let mut r = [0u8; 32];
    let mut i: usize = 0;
    while i < 32
        invariant
            v@.len() == 32,
            i <= 32,
            forall|j: int| 0 <= j < i ==> r@[j] == v@[j],
        decreases 32 - i,
    {
        r[i] = v[i];
        i = i + 1;
    }
    assert(r@ =~= v@);
    r
}

fn array64(v: &[u8]) -> (r: [u8; 64])
    requires
        v@.len() == 64,
    ensures
        r@ == v@,
{
    let mut r = [0u8; 64];
    let mut i: usize = 0;
    while i < 64
        invariant
            v@.len() == 64,
            i <= 64,
            forall|j: int| 0 <= j < i ==> r@[j] == v@[j],
        decreases 64 - i,
    {
        r[i] = v[i];
        i = i + 1;
    }
    assert(r@ =~= v@);
    r
}

impl Transaction {
    /// An unsigned transaction.
    pub fn new(sender: String, receiver: String, amount: Amount) -> (r: Transaction)
        ensures
            r@ == (TxView { sender: sender@, receiver: receiver@, amount: amount@, signature: None }),
    {
        Transaction { sender, receiver, amount, signature: None }
    }

    /// A copy with the same contents.
    pub fn copy(&self) -> (r: Transaction)
        ensures
            r@ == self@,
    {
        let signature = match &self.signature {
            Some(s) => Some(copy_bytes(s.as_slice())),
            None => None,
        };
        Transaction {
            sender: self.sender.clone(),
            receiver: self.receiver.clone(),
            amount: self.amount.copy(),
            signature,
        }
    }

    /// SHA-256 of sender, receiver and amount text.
    pub fn calculate_hash(&self) -> (r: Vec<u8>)
        ensures
            r@ == tx_hash(self@),
    {
        let mut input: Vec<u8> = Vec::new();
        push_bytes(&mut input, self.sender.as_str().as_bytes());
        push_bytes(&mut input, self.receiver.as_str().as_bytes());
        push_bytes(&mut input, self.amount.display.as_str().as_bytes());
        assert(input@ =~= tx_preimage(self@));
        sha256(input.as_slice())
    }

    /// Signs the transaction's hash with an Ed25519 secret key.
    pub fn sign(&mut self, secret_key: &[u8; 32])
        ensures
            final(self)@ == (TxView {
                signature: Some(ed25519_signature(secret_key@, tx_hash(old(self)@))),
                ..old(self)@
            }),
    {
        let msg = self.calculate_hash();
        let signature = ed25519_sign(secret_key, msg.as_slice());
        self.signature = Some(copy_bytes(&signature));
    }

    /// Checks the signature against the sender's public key.
    pub fn verify_signature(&self) -> (r: bool)
        requires
            sender_decodable(self@),
        ensures
            r == signature_ok(self@),
    {
        if str_eq(self.sender.as_str(), "SYSTEM") {
            return true;
        }
        let sig_bytes = match &self.signature {
            Some(bytes) => bytes,
            None => return false,
        };
        let public_key_bytes = match decode(self.sender.as_str()) {
            Ok(bytes) => bytes,
            Err(_) => return false,
        };
        let key: [u8; 32] = if public_key_bytes.len() == 32 {
            array32(public_key_bytes.as_slice())
        } else {
            [0u8; 32]
        };
        proof {
            if public_key_bytes@.len() != 32 {
                assert(key@ =~= Seq::new(32, |i: int| 0u8));
            }
        }
        if !ed25519_key_accepted(&key) {
            return false;
        }
        let sig: [u8; 64] = if sig_bytes.len() == 64 {
            array64(sig_bytes.as_slice())
        } else {
            [0u8; 64]
        };
        proof {
            if sig_bytes@.len() != 64 {
                assert(sig@ =~= Seq::new(64, |i: int| 0u8));
            }
        }
        let msg = self.calculate_hash();
        ed25519_verify(&key, &sig, msg.as_slice())
    }
}


/// A block of transactions, linked to its predecessor by `previous_hash`.
#[derive(Clone, Debug)]
pub struct Block {
    pub index: u32,
    pub timestamp: u64,
    pub transactions: Vec<Transaction>,
    pub previous_hash: String,
    pub hash: String,
    pub nonce: u64,
}

pub struct BlockView {
    pub index: u32,
    pub timestamp: u64,
    pub transactions: Seq<TxView>,
    pub previous_hash: Seq<char>,
    pub hash: Seq<char>,
    pub nonce: u64,
}

impl View for Block {
    type V = BlockView;

    open spec fn view(&self) -> BlockView {
        BlockView {
            index: self.index,
            timestamp: self.timestamp,
            transactions: txs_view(self.transactions@),
            previous_hash: self.previous_hash@,
            hash: self.hash@,
            nonce: self.nonce,
        }
    }
}

/// The bytes hashed for a block: index, timestamp, transactions as JSON,
/// previous hash and nonce, one after the other.
pub open spec fn block_preimage(b: BlockView) -> Seq<u8> {
    dec_ascii(b.index as nat) + dec_ascii(b.timestamp as nat) + txs_json(b.transactions)
        + encode_utf8(b.previous_hash) + dec_ascii(b.nonce as nat)
}

/// A block's hash: lower-case hex of the SHA-256 of its preimage.
pub open spec fn block_hash(b: BlockView) -> Seq<char> {
    hex_lower(sha256_digest(block_preimage(b)))
}

/// Whether a hash string starts with `d` zero characters.
pub open spec fn hash_has_zeros(h: Seq<char>, d: nat) -> bool {
    d <= h.len() && forall|i: int| 0 <= i < d ==> h[i] == '0'
}

/// The block with another nonce.
pub open spec fn with_nonce(b: BlockView, n: u64) -> BlockView {
    BlockView { nonce: n, ..b }
}

/// Whether nonce `n` makes the block's hash start with `d` zeros.
pub open spec fn solves(b: BlockView, d: nat, n: u64) -> bool {
    hash_has_zeros(block_hash(with_nonce(b, n)), d)
}

/// Whether mining can finish: the stored hash already has the zeros, or a
/// larger nonce that fits in 64 bits gives them.
pub open spec fn minable(b: BlockView, d: nat) -> bool {
    hash_has_zeros(b.hash, d) || exists|n: u64| b.nonce < n && #[trigger] solves(b, d, n)
}

/// The block that mining leaves: unchanged when the stored hash already has
/// the zeros; otherwise the smallest larger nonce that gives them, with its hash.
pub open spec fn mined_from(old: BlockView, new: BlockView, d: nat) -> bool {
    if hash_has_zeros(old.hash, d) {
        new == old
    } else {
        &&& old.nonce < new.nonce
        &&& solves(old, d, new.nonce)
        &&& forall|m: u64| old.nonce < m < new.nonce ==> !#[trigger] solves(old, d, m)
        &&& new == BlockView { nonce: new.nonce, hash: block_hash(with_nonce(old, new.nonce)), ..old }
    }
}

/// Appends the JSON array of the transactions.
pub fn push_txs_json(out: &mut Vec<u8>, txs: &Vec<Transaction>)
    ensures
        final(out)@ == old(out)@ + txs_json(txs_view(txs@)),
{
    out.push(91u8);
    let ghost start = out@;
    let mut i: usize = 0;
    while i < txs.len()
        invariant
            i <= txs@.len(),
            out@ == start + tx_json_list(txs_view(txs@.take(i as int))),
        decreases txs@.len() - i,
    {
        if i > 0 {
            out.push(44u8);
        }
        push_tx_json(out, &txs[i]);
        proof {
            let t = txs_view(txs@.take(i + 1));
            assert(t.drop_last() =~= txs_view(txs@.take(i as int)));
            assert(t.last() == txs@[i as int]@);
            if i == 0 {
                assert(out@ =~= start + tx_json_list(t));
            } else {
                assert(out@ =~= start + tx_json_list(t));
            }
        }
        i = i + 1;
    }
    assert(txs@.take(i as int) =~= txs@);
    out.push(93u8);
    assert(out@ =~= old(out)@ + txs_json(txs_view(txs@)));
}

/// Whether `s` starts with `d` zero characters.
pub fn has_leading_zeros(s: &str, d: usize) -> (r: bool)
    ensures
        r == hash_has_zeros(s@, d as nat),
{
    broadcast use vstd::string::axiom_spec_iter;
    let mut k: usize = 0;
    let mut ok = true;
    for c in it: s.chars()
        invariant
            it.seq() == s@,
            k as int == if it.index() < d { it.index() as int } else { d as int },
            ok == (forall|i: int| 0 <= i < k ==> s@[i] == '0'),
    {
        if k < d {
            if c != '0' {
                ok = false;
            }
            k = k + 1;
        }
    }
    ok && k == d
}

impl Block {
    /// A block with nonce 0 and its hash computed.
    pub fn new(index: u32, transactions: Vec<Transaction>, previous_hash: String, timestamp: u64) -> (r: Block)
        ensures
            r@ == (BlockView {
                index,
                timestamp,
                transactions: txs_view(transactions@),
                previous_hash: previous_hash@,
                hash: r@.hash,
                nonce: 0,
            }),
            r@.hash == block_hash(r@),
    {
        let mut block = Block {
            index,
            timestamp,
            transactions,
            previous_hash,
            hash: String::new(),
            nonce: 0,
        };
        block.hash = block.calculate_hash();
        block
    }

    /// A copy with the same contents.
    pub fn copy(&self) -> (r: Block)
        ensures
            r@ == self@,
    {
        let mut txs: Vec<Transaction> = Vec::new();
        let mut i: usize = 0;
        while i < self.transactions.len()
            invariant
                i <= self.transactions@.len(),
                txs_view(txs@) == txs_view(self.transactions@.take(i as int)),
            decreases self.transactions@.len() - i,
        {
            let t = self.transactions[i].copy();
            let ghost prev = txs@;
            txs.push(t);
            proof {
                lemma_txs_view_push(prev, t);
                lemma_txs_view_take_next(self.transactions@, i as int);
            }
            i = i + 1;
        }
        assert(self.transactions@.take(i as int) =~= self.transactions@);
        Block {
            index: self.index,
            timestamp: self.timestamp,
            transactions: txs,
            previous_hash: self.previous_hash.clone(),
            hash: self.hash.clone(),
            nonce: self.nonce,
        }
    }

    /// Hex SHA-256 of the block's preimage.
    pub fn calculate_hash(&self) -> (r: String)
        ensures
            r@ == block_hash(self@),
    {
        let mut input: Vec<u8> = Vec::new();
        push_dec(&mut input, self.index as u64);
        push_dec(&mut input, self.timestamp);
        push_txs_json(&mut input, &self.transactions);
        push_bytes(&mut input, self.previous_hash.as_str().as_bytes());
        push_dec(&mut input, self.nonce);
        assert(input@ =~= block_preimage(self@));
        let digest = sha256(input.as_slice());
        encode(digest.as_slice())
    }

    /// Searches nonces upwards until the hash starts with `difficulty` zeros;
    /// returns `false`, having tried every nonce up to `u64::MAX`, when none does.
    pub fn mine_checked(&mut self, difficulty: usize) -> (r: bool)
        ensures
            r == minable(old(self)@, difficulty as nat),
            r ==> mined_from(old(self)@, final(self)@, difficulty as nat),
            !r && old(self)@.nonce == u64::MAX ==> final(self)@ == old(self)@,
            !r && old(self)@.nonce < u64::MAX ==> final(self)@ == (BlockView {
                nonce: u64::MAX,
                hash: block_hash(with_nonce(old(self)@, u64::MAX)),
                ..old(self)@
            }),
    {
        let ghost start = self@;
        let ghost d = difficulty as nat;
        while !has_leading_zeros(self.hash.as_str(), difficulty)
            invariant
                self@ == (BlockView { nonce: self.nonce, hash: self.hash@, ..start }),
                start == old(self)@,
                start.nonce <= self.nonce,
                d == difficulty as nat,
                self.nonce == start.nonce ==> self.hash@ == start.hash,
                self.nonce > start.nonce ==> !hash_has_zeros(start.hash, d),
                self.nonce > start.nonce ==> self.hash@ == block_hash(with_nonce(start, self.nonce)),
                forall|m: u64| start.nonce < m < self.nonce ==> !#[trigger] solves(start, d, m),
            decreases u64::MAX - self.nonce,
        {
            if self.nonce == u64::MAX {
                proof {
                    assert forall|n: u64| start.nonce < n implies !#[trigger] solves(start, d, n) by {
                        if n < self.nonce {
                        } else {
                            assert(n == self.nonce);
                        }
                    }
                    if start.nonce == u64::MAX {
                        assert(self@ =~= start);
                    }
                }
                return false;
            }
            self.nonce = self.nonce + 1;
            self.hash = self.calculate_hash();
            proof {
                assert(block_hash(self@) == block_hash(with_nonce(start, self.nonce)));
            }
        }
        proof {
            if self.nonce > start.nonce {
                assert(solves(start, d, self.nonce));
                assert(self@ =~= BlockView { nonce: self.nonce, hash: block_hash(with_nonce(start, self.nonce)), ..start });
            }
        }
        true
    }

    /// Searches nonces upwards until the hash starts with `difficulty` zeros.
    pub fn mine(&mut self, difficulty: usize)
        requires
            minable(old(self)@, difficulty as nat),
        ensures
            mined_from(old(self)@, final(self)@, difficulty as nat),
    {
        let found = self.mine_checked(difficulty);
        assert(found);
    }
}


/// Number of leading zero hex digits a mined block's hash must have.
pub const DIFFICULTY: usize = 4;

/// Error when a transaction's amount is not above zero.
pub const ERR_AMOUNT: &'static str = "The transaction amount must be greater than 0";
/// Error when a transaction's signature does not verify.
pub const ERR_SIGNATURE: &'static str = "Critical error: Transaction digital signature is invalid!";
/// Error when a block does not link to the latest block.
pub const ERR_PREVIOUS_HASH: &'static str = "The previous hash does not match ..";
/// Error when a block's stored hash is not the hash of its contents.
pub const ERR_BLOCK_HASH: &'static str = "Block hash is corrupted ..";

/// Views of a sequence of blocks.
pub open spec fn blocks_view(bs: Seq<Block>) -> Seq<BlockView> {
    bs.map_values(|b: Block| b@)
}

impl Amount {
    /// The grant of 1000000.0 carried by the genesis block.
    pub fn genesis_grant() -> (r: Amount)
        ensures
            r@ == (AmountView {
                bits: 0x412E848000000000u64,
                display: "1000000"@,
                json: "1000000.0"@,
                above_zero: true,
            }),
    {
        Amount {
            bits: 0x412E848000000000u64,
            display: String::from_str("1000000"),
            json: String::from_str("1000000.0"),
            above_zero: true,
        }
    }

    /// The reward of 50.0 paid to whoever mines a block.
    pub fn mining_reward() -> (r: Amount)
        ensures
            r@ == (AmountView { bits: 0x4049000000000000u64, display: "50"@, json: "50.0"@, above_zero: true }),
    {
        Amount {
            bits: 0x4049000000000000u64,
            display: String::from_str("50"),
            json: String::from_str("50.0"),
            above_zero: true,
        }
    }
}

/// The transaction paying the mining reward to `miner`.
pub open spec fn reward_tx(miner: Seq<char>) -> TxView {
    TxView {
        sender: "SYSTEM"@,
        receiver: miner,
        amount: AmountView { bits: 0x4049000000000000u64, display: "50"@, json: "50.0"@, above_zero: true },
        signature: None,
    }
}

/// A block as `Block::new` makes it: nonce 0, hash of the contents.
pub open spec fn fresh_block(index: u32, timestamp: u64, txs: Seq<TxView>, previous_hash: Seq<char>) -> BlockView {
    let b = BlockView { index, timestamp, transactions: txs, previous_hash, hash: Seq::empty(), nonce: 0 };
    BlockView { hash: block_hash(b), ..b }
}

/// The genesis block before mining: one grant from `SYSTEM`, previous hash `0`.
pub open spec fn genesis_block(timestamp: u64) -> BlockView {
    fresh_block(
        0,
        timestamp,
        seq![TxView {
            sender: "SYSTEM"@,
            receiver: "Genesis_Receiver"@,
            amount: AmountView { bits: 0x412E848000000000u64, display: "1000000"@, json: "1000000.0"@, above_zero: true },
            signature: None,
        }],
        "0"@,
    )
}

/// A chain: the mined blocks, oldest first, and the transactions waiting
/// for the next block.
#[derive(Clone)]
pub struct Blockchain {
    pub chain: Vec<Block>,
    pub pending_transactions: Vec<Transaction>,
}

/// Messages nodes exchange.
#[derive(Clone, Debug)]
pub enum Message {
    NewTransaction(Transaction),
    NewBlock(Block),
}

/// The block that mining pending transactions starts from: the reward
/// first, then the pending transactions, linked to the latest block.
pub open spec fn next_block(chain: Seq<BlockView>, pending: Seq<TxView>, miner: Seq<char>, timestamp: u64) -> BlockView {
    fresh_block(
        (chain.last().index + 1) as u32,
        timestamp,
        seq![reward_tx(miner)] + pending,
        chain.last().hash,
    )
}

fn genesis_unmined(genesis_timestamp: u64) -> (r: Block)
    ensures
        r@ == genesis_block(genesis_timestamp),
{
    let genesis_tx = Transaction::new(
        String::from_str("SYSTEM"),
        String::from_str("Genesis_Receiver"),
        Amount::genesis_grant(),
    );
    let mut txs: Vec<Transaction> = Vec::new();
    txs.push(genesis_tx);
    let r = Block::new(0, txs, String::from_str("0"), genesis_timestamp);
    assert(txs_view(txs@) =~= genesis_block(genesis_timestamp).transactions);
    assert(r@ =~= genesis_block(genesis_timestamp));
    r
}

impl Blockchain {
    /// A chain holding only the mined genesis block stamped with `genesis_timestamp`.
    pub fn new(genesis_timestamp: u64) -> (r: Blockchain)
        requires
            minable(genesis_block(genesis_timestamp), DIFFICULTY as nat),
        ensures
            r.chain@.len() == 1,
            mined_from(genesis_block(genesis_timestamp), r.chain@[0]@, DIFFICULTY as nat),
            r.pending_transactions@.len() == 0,
            chain_sound(blocks_view(r.chain@)),
    {
        let mut bc = Blockchain { chain: Vec::new(), pending_transactions: Vec::new() };
        bc.create_genesis_block(genesis_timestamp);
        assert(bc.chain@.len() == 1);
        proof {
            law_new_chain_sound(genesis_timestamp, bc.chain@[0]@);
            assert(blocks_view(bc.chain@) =~= seq![bc.chain@[0]@]);
        }
        bc
    }

    /// Mines the genesis block stamped with `genesis_timestamp` and appends it.
    pub fn create_genesis_block(&mut self, genesis_timestamp: u64)
        requires
            minable(genesis_block(genesis_timestamp), DIFFICULTY as nat),
        ensures
            final(self).chain@.len() == old(self).chain@.len() + 1,
            blocks_view(final(self).chain@).drop_last() == blocks_view(old(self).chain@),
            mined_from(genesis_block(genesis_timestamp), final(self).chain@.last()@, DIFFICULTY as nat),
            final(self).pending_transactions@ == old(self).pending_transactions@,
    {
        let mut genesis = genesis_unmined(genesis_timestamp);
        genesis.mine(DIFFICULTY);
        let ghost before = blocks_view(self.chain@);
        self.chain.push(genesis);
        assert(blocks_view(self.chain@).drop_last() =~= before);
    }

    /// The chain of `new`, or `None` when no nonce mines the genesis block.
    pub fn try_new(genesis_timestamp: u64) -> (r: Option<Blockchain>)
        ensures
            r is Some <==> minable(genesis_block(genesis_timestamp), DIFFICULTY as nat),
            r matches Some(bc) ==> {
                &&& bc.chain@.len() == 1
                &&& mined_from(genesis_block(genesis_timestamp), bc.chain@[0]@, DIFFICULTY as nat)
                &&& bc.pending_transactions@.len() == 0
            },
    {
        let mut genesis = genesis_unmined(genesis_timestamp);
        if genesis.mine_checked(DIFFICULTY) {
            Some(Blockchain::new(genesis_timestamp))
        } else {
            None
        }
    }

    /// The most recent block.
    pub fn get_latest_block(&self) -> (r: &Block)
        requires
            self.chain@.len() > 0,
        ensures
            r@ == self.chain@.last()@,
    {
        &self.chain[self.chain.len() - 1]
    }

    /// Queues a transaction whose amount is above zero and whose signature verifies.
    pub fn add_transaction(&mut self, transaction: Transaction) -> (r: Result<(), &'static str>)
        requires
            transaction.amount.above_zero ==> sender_decodable(transaction@),
        ensures
            !transaction.amount.above_zero ==> r == Err::<(), &str>(ERR_AMOUNT),
            transaction.amount.above_zero && !signature_ok(transaction@) ==> r == Err::<(), &str>(ERR_SIGNATURE),
            r is Err ==> blocks_view(final(self).chain@) == blocks_view(old(self).chain@)
                && txs_view(final(self).pending_transactions@) == txs_view(old(self).pending_transactions@),
            transaction.amount.above_zero && signature_ok(transaction@) ==> {
                &&& r is Ok
                &&& blocks_view(final(self).chain@) == blocks_view(old(self).chain@)
                &&& txs_view(final(self).pending_transactions@) == txs_view(old(self).pending_transactions@).push(transaction@)
            },
            chain_sound(blocks_view(old(self).chain@)) ==> chain_sound(blocks_view(final(self).chain@)),
    {
        if !transaction.amount.above_zero {
            return Err(ERR_AMOUNT);
        }
        if !transaction.verify_signature() {
            return Err(ERR_SIGNATURE);
        }
        let ghost tv = transaction@;
        self.pending_transactions.push(transaction);
        assert(txs_view(self.pending_transactions@) =~= txs_view(old(self).pending_transactions@).push(tv));
        Ok(())
    }

    /// The unmined block of the reward to `miner_address` and the pending transactions.
    fn candidate_block(&self, miner_address: String, timestamp: u64) -> (r: Block)
        requires
            self.chain@.len() > 0,
            self.chain@.last().index < u32::MAX,
        ensures
            r@ == next_block(blocks_view(self.chain@), txs_view(self.pending_transactions@), miner_address@, timestamp),
    {
        let ghost miner = miner_address@;
        let reward = Transaction::new(String::from_str("SYSTEM"), miner_address, Amount::mining_reward());
        let mut block_txs: Vec<Transaction> = Vec::new();
        block_txs.push(reward);
        let mut i: usize = 0;
        while i < self.pending_transactions.len()
            invariant
                i <= self.pending_transactions@.len(),
                txs_view(block_txs@) == seq![reward_tx(miner)] + txs_view(self.pending_transactions@.take(i as int)),
            decreases self.pending_transactions@.len() - i,
        {
            let t = self.pending_transactions[i].copy();
            let ghost prev = block_txs@;
            block_txs.push(t);
            proof {
                lemma_txs_view_push(prev, t);
                lemma_txs_view_take_next(self.pending_transactions@, i as int);
                assert(txs_view(block_txs@) =~= seq![reward_tx(miner)] + txs_view(self.pending_transactions@.take(i + 1)));
            }
            i = i + 1;
        }
        assert(self.pending_transactions@.take(i as int) =~= self.pending_transactions@);
        let last_block = self.get_latest_block();
        let r = Block::new(last_block.index + 1, block_txs, last_block.hash.clone(), timestamp);
        assert(r@ =~= next_block(blocks_view(self.chain@), txs_view(self.pending_transactions@), miner, timestamp));
        r
    }

    /// Mines a block of the reward to `miner_address` followed by the pending
    /// transactions, appends it and empties the queue.
    pub fn mine_pending_transactions(&mut self, miner_address: String, timestamp: u64) -> (r: Block)
        requires
            old(self).chain@.len() > 0,
            old(self).chain@.last().index < u32::MAX,
            minable(
                next_block(blocks_view(old(self).chain@), txs_view(old(self).pending_transactions@), miner_address@, timestamp),
                DIFFICULTY as nat,
            ),
        ensures
            mined_from(
                next_block(blocks_view(old(self).chain@), txs_view(old(self).pending_transactions@), miner_address@, timestamp),
                r@,
                DIFFICULTY as nat,
            ),
            blocks_view(final(self).chain@) == blocks_view(old(self).chain@).push(r@),
            final(self).pending_transactions@.len() == 0,
            chain_sound(blocks_view(old(self).chain@)) ==> chain_sound(blocks_view(final(self).chain@)),
    {
        let ghost pend = txs_view(self.pending_transactions@);
        let ghost miner = miner_address@;
        let mut new_block = self.candidate_block(miner_address, timestamp);
        new_block.mine(DIFFICULTY);
        let ghost before = blocks_view(self.chain@);
        self.chain.push(new_block.copy());
        self.pending_transactions.clear();
        assert(blocks_view(self.chain@) =~= before.push(new_block@));
        proof {
            if chain_sound(before) {
                law_mining_keeps_chain_sound(before, pend, miner, timestamp, new_block@);
            }
        }
        new_block
    }

    /// `mine_pending_transactions`, or `None` with the chain unchanged when
    /// no nonce mines the block.
    pub fn try_mine_pending_transactions(&mut self, miner_address: String, timestamp: u64) -> (r: Option<Block>)
        requires
            old(self).chain@.len() > 0,
            old(self).chain@.last().index < u32::MAX,
        ensures
            r is Some <==> minable(
                next_block(blocks_view(old(self).chain@), txs_view(old(self).pending_transactions@), miner_address@, timestamp),
                DIFFICULTY as nat,
            ),
            r matches Some(b) ==> {
                &&& mined_from(
                    next_block(blocks_view(old(self).chain@), txs_view(old(self).pending_transactions@), miner_address@, timestamp),
                    b@,
                    DIFFICULTY as nat,
                )
                &&& blocks_view(final(self).chain@) == blocks_view(old(self).chain@).push(b@)
                &&& final(self).pending_transactions@.len() == 0
            },
            r is None ==> *final(self) == *old(self),
            chain_sound(blocks_view(old(self).chain@)) ==> chain_sound(blocks_view(final(self).chain@)),
    {
        let mut trial = self.candidate_block(miner_address.clone(), timestamp);
        if !trial.mine_checked(DIFFICULTY) {
            return None;
        }
        Some(self.mine_pending_transactions(miner_address, timestamp))
    }

    /// Appends a block received from another node when it links to the
    /// latest block and its stored hash is the hash of its contents; the
    /// pending transactions are then dropped.
    pub fn add_block_from_network(&mut self, block: Block) -> (r: Result<(), &'static str>)
        requires
            old(self).chain@.len() > 0,
        ensures
            block@.previous_hash != old(self).chain@.last()@.hash ==> r == Err::<(), &str>(ERR_PREVIOUS_HASH),
            block@.previous_hash == old(self).chain@.last()@.hash && block@.hash != block_hash(block@)
                ==> r == Err::<(), &str>(ERR_BLOCK_HASH),
            r is Err ==> *final(self) == *old(self),
            block@.previous_hash == old(self).chain@.last()@.hash && block@.hash == block_hash(block@) ==> {
                &&& r is Ok
                &&& blocks_view(final(self).chain@) == blocks_view(old(self).chain@).push(block@)
                &&& final(self).pending_transactions@.len() == 0
            },
            chain_sound(blocks_view(old(self).chain@)) ==> chain_sound(blocks_view(final(self).chain@)),
    {
        let last_block = self.get_latest_block();
        if block.previous_hash != last_block.hash {
            return Err(ERR_PREVIOUS_HASH);
        }
        if block.hash != block.calculate_hash() {
            return Err(ERR_BLOCK_HASH);
        }
        let ghost before = blocks_view(self.chain@);
        let ghost bv = block@;
        self.chain.push(block);
        self.pending_transactions.clear();
        assert(blocks_view(self.chain@) =~= before.push(bv));
        proof {
            if chain_sound(before) {
                law_accepted_block_keeps_chain_sound(before, bv);
            }
        }
        Ok(())
    }

    /// Handles a message from another node: a transaction is queued as by
    /// `add_transaction`, a block appended as by `add_block_from_network`.
    pub fn apply_message(&mut self, msg: Message) -> (r: Result<(), &'static str>)
        requires
            old(self).chain@.len() > 0,
            msg matches Message::NewTransaction(tx) ==> (tx.amount.above_zero ==> sender_decodable(tx@)),
        ensures
            match msg {
                Message::NewTransaction(tx) => {
                    &&& !tx.amount.above_zero ==> r == Err::<(), &str>(ERR_AMOUNT)
                    &&& tx.amount.above_zero && !signature_ok(tx@) ==> r == Err::<(), &str>(ERR_SIGNATURE)
                    &&& r is Err ==> blocks_view(final(self).chain@) == blocks_view(old(self).chain@)
                        && txs_view(final(self).pending_transactions@) == txs_view(old(self).pending_transactions@)
                    &&& tx.amount.above_zero && signature_ok(tx@) ==> {
                        &&& r is Ok
                        &&& blocks_view(final(self).chain@) == blocks_view(old(self).chain@)
                        &&& txs_view(final(self).pending_transactions@) == txs_view(old(self).pending_transactions@).push(tx@)
                    }
                },
                Message::NewBlock(block) => {
                    &&& block@.previous_hash != old(self).chain@.last()@.hash ==> r == Err::<(), &str>(ERR_PREVIOUS_HASH)
                    &&& block@.previous_hash == old(self).chain@.last()@.hash && block@.hash != block_hash(block@)
                        ==> r == Err::<(), &str>(ERR_BLOCK_HASH)
                    &&& r is Err ==> *final(self) == *old(self)
                    &&& block@.previous_hash == old(self).chain@.last()@.hash && block@.hash == block_hash(block@) ==> {
                        &&& r is Ok
                        &&& blocks_view(final(self).chain@) == blocks_view(old(self).chain@).push(block@)
                        &&& final(self).pending_transactions@.len() == 0
                    }
                },
            },
            chain_sound(blocks_view(old(self).chain@)) ==> chain_sound(blocks_view(final(self).chain@)),
    {
        match msg {
            Message::NewTransaction(tx) => self.add_transaction(tx),
            Message::NewBlock(block) => self.add_block_from_network(block),
        }
    }
}

/// A chain is sound when every block's stored hash is the hash of its
/// contents and every block after the first names its predecessor's hash.
pub open spec fn chain_sound(c: Seq<BlockView>) -> bool {
    &&& forall|i: int| 0 <= i < c.len() ==> (#[trigger] c[i]).hash == block_hash(c[i])
    &&& forall|i: int| 0 < i < c.len() ==> (#[trigger] c[i]).previous_hash == c[i - 1].hash
}

proof fn lemma_mined_hash(old: BlockView, new: BlockView, d: nat)
    requires
        old.hash == block_hash(old),
        mined_from(old, new, d),
    ensures
        new.hash == block_hash(new),
        hash_has_zeros(new.hash, d),
        new.index == old.index,
        new.timestamp == old.timestamp,
        new.transactions == old.transactions,
        new.previous_hash == old.previous_hash,
{
    if !hash_has_zeros(old.hash, d) {
        assert(block_preimage(new) == block_preimage(with_nonce(old, new.nonce)));
    }
}

/// A new chain is sound, and its genesis block carries the required zeros.
pub proof fn law_new_chain_sound(genesis_timestamp: u64, genesis: BlockView)
    requires
        mined_from(genesis_block(genesis_timestamp), genesis, DIFFICULTY as nat),
    ensures
        chain_sound(seq![genesis]),
        hash_has_zeros(genesis.hash, DIFFICULTY as nat),
{
    let g0 = genesis_block(genesis_timestamp);
    assert(block_preimage(g0) == block_preimage(BlockView { hash: Seq::empty(), ..g0 }));
    lemma_mined_hash(g0, genesis, DIFFICULTY as nat);
}

/// Mining the pending transactions keeps a sound chain sound: the new
/// block links to the latest one and its hash carries the required zeros.
pub proof fn law_mining_keeps_chain_sound(
    chain: Seq<BlockView>,
    pending: Seq<TxView>,
    miner: Seq<char>,
    timestamp: u64,
    mined: BlockView,
)
    requires
        chain.len() > 0,
        chain_sound(chain),
        mined_from(next_block(chain, pending, miner, timestamp), mined, DIFFICULTY as nat),
    ensures
        chain_sound(chain.push(mined)),
        mined.previous_hash == chain.last().hash,
        hash_has_zeros(mined.hash, DIFFICULTY as nat),
{
    let nb = next_block(chain, pending, miner, timestamp);
    assert(block_preimage(nb) == block_preimage(BlockView { hash: Seq::empty(), ..nb }));
    lemma_mined_hash(nb, mined, DIFFICULTY as nat);
    let c = chain.push(mined);
    assert forall|i: int| 0 <= i < c.len() implies (#[trigger] c[i]).hash == block_hash(c[i]) by {
        if i < chain.len() {
            assert(c[i] == chain[i]);
        }
    }
    assert forall|i: int| 0 < i < c.len() implies (#[trigger] c[i]).previous_hash == c[i - 1].hash by {
        if i < chain.len() {
            assert(c[i] == chain[i]);
            assert(c[i - 1] == chain[i - 1]);
        } else {
            assert(c[i - 1] == chain.last());
        }
    }
}

/// A block that `add_block_from_network` accepts keeps a sound chain sound.
pub proof fn law_accepted_block_keeps_chain_sound(chain: Seq<BlockView>, block: BlockView)
    requires
        chain.len() > 0,
        chain_sound(chain),
        block.previous_hash == chain.last().hash,
        block.hash == block_hash(block),
    ensures
        chain_sound(chain.push(block)),
{
    let c = chain.push(block);
    assert forall|i: int| 0 <= i < c.len() implies (#[trigger] c[i]).hash == block_hash(c[i]) by {
        if i < chain.len() {
            assert(c[i] == chain[i]);
        }
    }
    assert forall|i: int| 0 < i < c.len() implies (#[trigger] c[i]).previous_hash == c[i - 1].hash by {
        if i < chain.len() {
            assert(c[i] == chain[i]);
            assert(c[i - 1] == chain[i - 1]);
        } else {
            assert(c[i - 1] == chain.last());
        }
    }
}

/// Whether `b` may follow `chain`: it names the latest block's hash and
/// its stored hash is the hash of its contents. Mined blocks and blocks that
/// `add_block_from_network` accepts are such blocks.
pub open spec fn extends(chain: Seq<BlockView>, b: BlockView) -> bool {
    b.previous_hash == chain.last().hash && b.hash == block_hash(b)
}

/// A block mined on top of a chain extends it.
pub proof fn law_mined_block_extends(
    chain: Seq<BlockView>,
    pending: Seq<TxView>,
    miner: Seq<char>,
    timestamp: u64,
    mined: BlockView,
)
    requires
        chain.len() > 0,
        mined_from(next_block(chain, pending, miner, timestamp), mined, DIFFICULTY as nat),
    ensures
        extends(chain, mined),
{
    let nb = next_block(chain, pending, miner, timestamp);
    assert(block_preimage(nb) == block_preimage(BlockView { hash: Seq::empty(), ..nb }));
    lemma_mined_hash(nb, mined, DIFFICULTY as nat);
}

/// A chain stays sound over any run of appended blocks, each of which
/// extends the chain built so far (as every block mined or accepted from the
/// network does).
pub proof fn law_chain_sound_over_any_run(chain: Seq<BlockView>, added: Seq<BlockView>)
    requires
        chain.len() > 0,
        chain_sound(chain),
        forall|i: int| 0 <= i < added.len() ==> #[trigger] extends(chain + added.take(i), added[i]),
    ensures
        chain_sound(chain + added),
    decreases added.len(),
{
    if added.len() > 0 {
        let front = added.drop_last();
        assert forall|i: int| 0 <= i < front.len() implies #[trigger] extends(chain + front.take(i), front[i]) by {
            assert(front.take(i) =~= added.take(i));
            assert(extends(chain + added.take(i), added[i]));
        }
        law_chain_sound_over_any_run(chain, front);
        let k = added.len() - 1;
        assert(added.take(k) =~= front);
        assert(extends(chain + front, added[k]));
        assert((chain + front).len() > 0);
        law_accepted_block_keeps_chain_sound(chain + front, added[k]);
        assert((chain + front).push(added[k]) =~= chain + added);
    } else {
        assert(chain + added =~= chain);
    }
}

/// The address of a key pair: the hex text of its public key.
pub fn address_of(secret_key: &[u8; 32]) -> (r: String)
    ensures
        r@ == hex_lower(ed25519_public_key(secret_key@)),
        key_pair(secret_key@, ed25519_public_key(secret_key@)),
{
    let public = ed25519_public(secret_key);
    encode(public.as_slice())
}

/// A transaction sent from the address of a key pair and signed with that
/// pair's secret key passes the signature check.
pub proof fn law_signed_transaction_verifies(secret: Seq<u8>, public: Seq<u8>, t: TxView)
    requires
        key_pair(secret, public),
        t.sender == hex_lower(public),
    ensures
        ({
            let signed = TxView { signature: Some(ed25519_signature(secret, tx_hash(t))), ..t };
            sender_decodable(signed) && signature_ok(signed)
        }),
{
    let signed = TxView { signature: Some(ed25519_signature(secret, tx_hash(t))), ..t };
    law_decode_inverts_encode(public);
    reveal_strlit("SYSTEM");
    assert(hex_lower(public).len() == 64) by {
        lemma_hex_len(public);
    }
    assert(signed.sender != system_sender());
    assert(tx_hash(signed) == tx_hash(t));
    let sig = ed25519_signature(secret, tx_hash(t));
    assert(sig.len() == 64 && ed25519_verifies(public, sig, tx_hash(t)));
}

proof fn lemma_hex_len(b: Seq<u8>)
    ensures
        hex_lower(b).len() == 2 * b.len(),
    decreases b.len(),
{
    if b.len() > 0 {
        lemma_hex_len(b.drop_last());
    }
}

} // verus!
