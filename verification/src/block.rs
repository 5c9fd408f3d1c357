//! Blocks and the chain that links them by their hashes.

use vstd::prelude::*;

use crate::digest::{sha256_hex, spec_sha256_hex};
use crate::error::BlockRejection;
use crate::json::{batch_json, spec_batch_json};
use crate::text::{decimal, decimal_signed, spec_decimal, spec_decimal_signed, str_eq};
use crate::transaction::{spec_utf8, Transaction};

verus! {

/// The text that is hashed for a block: the index in decimal, the instant in
/// decimal, the data and the hash of the block before.
pub open spec fn spec_block_preimage(
    index: u64,
    timestamp: i64,
    data: Seq<char>,
    prev_hash: Seq<char>,
) -> Seq<char> {
    spec_decimal(index as nat) + spec_decimal_signed(timestamp as int) + data + prev_hash
}

/// The hash of a block: the SHA-256 digest of its preimage in UTF-8, in
/// hexadecimal.
pub open spec fn spec_block_hash(
    index: u64,
    timestamp: i64,
    data: Seq<char>,
    prev_hash: Seq<char>,
) -> Seq<char> {
    spec_sha256_hex(spec_utf8(spec_block_preimage(index, timestamp, data, prev_hash)))
}

/// Writes the text that is hashed for a block.
pub fn block_preimage(index: u64, timestamp: i64, data: &str, prev_hash: &str) -> (text: String)
    ensures
        text@ == spec_block_preimage(index, timestamp, data@, prev_hash@),
{
    let mut text = decimal(index);
    text.append(decimal_signed(timestamp).as_str());
    text.append(data);
    text.append(prev_hash);
    text
}

/// Computes the hash of a block from its index, instant, data and the hash
/// of the block before. Equal arguments give equal hashes.
pub fn calculate_block_hash(index: u64, timestamp: i64, data: &str, prev_hash: &str) -> (hash:
    String)
    ensures
        hash@ == spec_block_hash(index, timestamp, data@, prev_hash@),
        hash@.len() == 64,
{
    let text = block_preimage(index, timestamp, data, prev_hash);
    sha256_hex(text.as_str().as_bytes())
}

/// An ordered batch of transactions, linked to the block before it.
#[derive(Debug)]
pub struct Block {
    pub index: u64,
    /// Milliseconds since the Unix epoch.
    pub timestamp: i64,
    /// The batch as a JSON array.
    pub data: String,
    pub prev_hash: String,
    pub hash: String,
    pub verifiable_credential: String,
    pub signature: String,
}

impl Clone for Block {
    fn clone(&self) -> (copy: Self)
        ensures
            copy == *self,
    {
        Block {
            index: self.index,
            timestamp: self.timestamp,
            data: self.data.clone(),
            prev_hash: self.prev_hash.clone(),
            hash: self.hash.clone(),
            verifiable_credential: self.verifiable_credential.clone(),
            signature: self.signature.clone(),
        }
    }
}

impl Block {
    /// Whether the stored hash is the hash of the other fields.
    pub open spec fn spec_sealed(&self) -> bool {
        self.hash@ == spec_block_hash(self.index, self.timestamp, self.data@, self.prev_hash@)
    }

    /// Recomputes the hash and compares it with the stored one.
    pub fn verify_hash(&self) -> (sealed: bool)
        ensures
            sealed == self.spec_sealed(),
    {
        let expected = calculate_block_hash(
            self.index,
            self.timestamp,
            self.data.as_str(),
            self.prev_hash.as_str(),
        );
        self.hash == expected
    }

    /// Makes the block with the given index and instant that holds
    /// `transactions` and follows the block with the hash `prev_hash`.
    pub fn create_new_block(
        index: u64,
        timestamp: i64,
        transactions: &Vec<Transaction>,
        prev_hash: &str,
    ) -> (block: Block)
        ensures
            block.index == index,
            block.timestamp == timestamp,
            block.data@ == spec_batch_json(transactions@),
            block.prev_hash@ == prev_hash@,
            block.spec_sealed(),
            block.hash@.len() == 64,
            block.verifiable_credential@ == "credential"@,
            block.signature@.len() == 0,
    {
        let data = batch_json(transactions);
        let hash = calculate_block_hash(index, timestamp, data.as_str(), prev_hash);
        Block {
            index,
            timestamp,
            data,
            prev_hash: String::from_str(prev_hash),
            hash,
            verifiable_credential: String::from_str("credential"),
            signature: String::new(),
        }
    }
}

/// What the first block of a chain names as the hash before it.
pub open spec fn spec_genesis() -> Seq<char> {
    "genesis"@
}

/// The hash that the next block of `chain` must name as `prev_hash`.
pub open spec fn spec_tip_hash(chain: Seq<Block>) -> Seq<char> {
    if chain.len() == 0 {
        spec_genesis()
    } else {
        chain.last().hash@
    }
}

/// Whether `chain` is a chain: each block has its place as index, its hash
/// is the hash of its other fields, and it names the hash of the block
/// before it, the first one `genesis`.
pub open spec fn spec_chain_valid(chain: Seq<Block>) -> bool {
    &&& forall|i: int|
        0 <= i < chain.len() ==> (#[trigger] chain[i]).index == i && chain[i].spec_sealed()
    &&& chain.len() > 0 ==> chain[0].prev_hash@ == spec_genesis()
    &&& forall|i: int, j: int|
        0 <= i && j == i + 1 && j < chain.len() ==> (#[trigger] chain[j]).prev_hash@ == (
        #[trigger] chain[i]).hash@
}

/// Whether some block of `chain` has the hash `hash`.
pub open spec fn spec_has_hash(chain: Seq<Block>, hash: Seq<char>) -> bool {
    exists|i: int| 0 <= i < chain.len() && (#[trigger] chain[i]).hash@ == hash
}

/// Why `block` cannot follow `chain`, or `None` where it can. A block that
/// the chain already holds is a duplicate; otherwise it must name the hash
/// of the last block, have the next index and carry its own hash.
pub open spec fn spec_rejection(chain: Seq<Block>, block: Block) -> Option<BlockRejection> {
    if spec_has_hash(chain, block.hash@) {
        Some(BlockRejection::Duplicate)
    } else if block.prev_hash@ != spec_tip_hash(chain) {
        Some(BlockRejection::PrevHashMismatch)
    } else if block.index != chain.len() {
        Some(BlockRejection::IndexMismatch)
    } else if !block.spec_sealed() {
        Some(BlockRejection::HashMismatch)
    } else {
        None
    }
}

/// The hash of the block that follows `chain` with `batch` at the instant
/// `timestamp`.
pub open spec fn spec_next_hash(chain: Seq<Block>, timestamp: i64, batch: Seq<Transaction>) -> Seq<
    char,
> {
    spec_block_hash(chain.len() as u64, timestamp, spec_batch_json(batch), spec_tip_hash(chain))
}

/// Whether `block` is the next block of `chain`: it has the next index,
/// names the hash of the last block and carries its own hash.
pub open spec fn spec_follows(chain: Seq<Block>, block: Block) -> bool {
    block.index == chain.len() && block.prev_hash@ == spec_tip_hash(chain) && block.spec_sealed()
}

/// A chain with its next block is a chain.
pub proof fn lemma_push_valid(chain: Seq<Block>, block: Block)
    requires
        spec_chain_valid(chain),
        spec_follows(chain, block),
    ensures
        spec_chain_valid(chain.push(block)),
{
    let next = chain.push(block);
    assert forall|i: int| 0 <= i < next.len() implies (#[trigger] next[i]).index == i
        && next[i].spec_sealed() by {
        if i < chain.len() {
            assert(next[i] == chain[i]);
        }
    }
    assert forall|i: int, j: int| 0 <= i && j == i + 1 && j < next.len() implies (
    #[trigger] next[j]).prev_hash@ == (#[trigger] next[i]).hash@ by {
        assert(next[i] == chain[i]);
        if j < chain.len() {
            assert(next[j] == chain[j]);
        }
    }
    if chain.len() > 0 {
        assert(next[0] == chain[0]);
    }
}

/// `chain` after `block` was offered to it.
pub open spec fn spec_receive(chain: Seq<Block>, block: Block) -> Seq<Block> {
    if spec_rejection(chain, block) is None {
        chain.push(block)
    } else {
        chain
    }
}

/// `chain` after each block of `offered` was offered to it in turn.
pub open spec fn spec_receive_all(chain: Seq<Block>, offered: Seq<Block>) -> Seq<Block>
    decreases offered.len(),
{
    if offered.len() == 0 {
        chain
    } else {
        spec_receive(spec_receive_all(chain, offered.drop_last()), offered.last())
    }
}

/// A block that is not rejected extends a chain to a chain.
pub proof fn lemma_receive_valid(chain: Seq<Block>, block: Block)
    requires
        spec_chain_valid(chain),
    ensures
        spec_chain_valid(spec_receive(chain, block)),
{
    if spec_rejection(chain, block) is None {
        lemma_push_valid(chain, block);
    }
}

/// In a chain, the hash of every block is the hash of its index, instant,
/// data and `prev_hash`.
pub proof fn lemma_chain_hashes(chain: Seq<Block>, i: int)
    requires
        spec_chain_valid(chain),
        0 <= i < chain.len(),
    ensures
        chain[i].hash@ == spec_block_hash(
            chain[i].index,
            chain[i].timestamp,
            chain[i].data@,
            chain[i].prev_hash@,
        ),
{
}

/// In a chain, every block but the first names the hash of the block before
/// it, and the first names `genesis`.
pub proof fn lemma_chain_links(chain: Seq<Block>, i: int)
    requires
        spec_chain_valid(chain),
        0 <= i < chain.len(),
    ensures
        i == 0 ==> chain[i].prev_hash@ == "genesis"@,
        i > 0 ==> chain[i].prev_hash@ == chain[i - 1].hash@,
        chain[i].index == i,
{
    if i > 0 {
        assert(chain[i].prev_hash@ == chain[i - 1].hash@);
    }
}

/// Whether no two blocks of `chain` have the same hash.
pub open spec fn spec_distinct_hashes(chain: Seq<Block>) -> bool {
    forall|i: int, j: int|
        0 <= i < j < chain.len() ==> (#[trigger] chain[i]).hash@ != (#[trigger] chain[j]).hash@
}

/// A chain without two blocks of one hash stays so when a block with a
/// hash that it does not hold is appended.
pub proof fn lemma_push_distinct(chain: Seq<Block>, block: Block)
    requires
        spec_distinct_hashes(chain),
        !spec_has_hash(chain, block.hash@),
    ensures
        spec_distinct_hashes(chain.push(block)),
{
    let next = chain.push(block);
    assert forall|i: int, j: int| 0 <= i < j < next.len() implies (#[trigger] next[i]).hash@ != (
    #[trigger] next[j]).hash@ by {
        assert(next[i] == chain[i]);
        if j < chain.len() {
            assert(next[j] == chain[j]);
        }
    }
}

/// A chain without two blocks of one hash stays so whatever block is
/// offered to it.
pub proof fn lemma_receive_distinct(chain: Seq<Block>, block: Block)
    requires
        spec_distinct_hashes(chain),
    ensures
        spec_distinct_hashes(spec_receive(chain, block)),
{
    if spec_rejection(chain, block) is None {
        lemma_push_distinct(chain, block);
    }
}

/// Whether `a` is the beginning of `b`.
pub open spec fn spec_prefix(a: Seq<Block>, b: Seq<Block>) -> bool {
    a.len() <= b.len() && forall|i: int| 0 <= i < a.len() ==> #[trigger] a[i] == b[i]
}

proof fn lemma_chain_sync_upto(a: Seq<Block>, b: Seq<Block>, k: int)
    requires
        spec_chain_valid(a),
        spec_chain_valid(b),
        spec_prefix(a, b),
        spec_distinct_hashes(b),
        0 <= k <= b.len(),
    ensures
        spec_receive_all(a, b.take(k)) == if k <= a.len() {
            a
        } else {
            b.take(k)
        },
    decreases k,
{
    if k > 0 {
        lemma_chain_sync_upto(a, b, k - 1);
        let offered = b.take(k);
        assert(offered.drop_last() =~= b.take(k - 1));
        assert(offered.last() == b[k - 1]);
        let block = b[k - 1];
        if k - 1 < a.len() {
            assert(a[k - 1].hash@ == block.hash@);
            assert(spec_has_hash(a, block.hash@));
        } else {
            let current = b.take(k - 1);
            if k - 1 == a.len() {
                assert(a =~= current);
            }
            assert(!spec_has_hash(current, block.hash@)) by {
                if spec_has_hash(current, block.hash@) {
                    let i = choose|i: int|
                        0 <= i < current.len() && (#[trigger] current[i]).hash@ == block.hash@;
                    assert(b[i].hash@ != b[k - 1].hash@);
                }
            }
            if k - 1 > 0 {
                assert(current.last() == b[k - 2]);
                assert(b[k - 1].prev_hash@ == b[k - 2].hash@);
            }
            assert(current.push(block) =~= b.take(k));
        }
    }
}

/// Gossip converges for chains: a node whose chain is the beginning of a
/// peer's chain has the peer's chain after it was offered all of the
/// peer's blocks in their order, provided that no two of them carry the
/// same hash, as is so of the chain that a `Blockchain` holds.
pub proof fn lemma_chain_sync(a: Seq<Block>, b: Seq<Block>)
    requires
        spec_chain_valid(a),
        spec_chain_valid(b),
        spec_prefix(a, b),
        spec_distinct_hashes(b),
    ensures
        spec_receive_all(a, b) == b,
        spec_receive_all(b, a) == b,
{
    lemma_chain_sync_upto(a, b, b.len() as int);
    assert(b.take(b.len() as int) =~= b);
    if a.len() == b.len() {
        assert(a =~= b);
    }
    lemma_offer_known(b, a, a.len() as int);
    assert(a.take(a.len() as int) =~= a);
}

proof fn lemma_offer_known(b: Seq<Block>, a: Seq<Block>, k: int)
    requires
        spec_prefix(a, b),
        0 <= k <= a.len(),
    ensures
        spec_receive_all(b, a.take(k)) == b,
    decreases k,
{
    if k > 0 {
        lemma_offer_known(b, a, k - 1);
        let offered = a.take(k);
        assert(offered.drop_last() =~= a.take(k - 1));
        assert(offered.last() == a[k - 1]);
        assert(b[k - 1].hash@ == a[k - 1].hash@);
        assert(spec_has_hash(b, a[k - 1].hash@));
    }
}

/// The chain of one node.
pub struct Blockchain {
    blocks: Vec<Block>,
}

impl View for Blockchain {
    type V = Seq<Block>;

    closed spec fn view(&self) -> Seq<Block> {
        self.blocks@
    }
}

impl Blockchain {
    #[verifier::type_invariant]
    spec fn linked(&self) -> bool {
        spec_chain_valid(self.blocks@) && spec_distinct_hashes(self.blocks@)
    }

    /// The empty chain.
    pub fn new() -> (chain: Self)
        ensures
            chain@ == Seq::<Block>::empty(),
    {
        Blockchain { blocks: Vec::new() }
    }

    /// The number of blocks.
    pub fn len(&self) -> (n: usize)
        ensures
            n == self@.len(),
            spec_chain_valid(self@),
            spec_distinct_hashes(self@),
    {
        proof {
            use_type_invariant(&*self);
        }
        self.blocks.len()
    }

    /// Copies of all blocks, in their order.
    pub fn get_chain(&self) -> (all: Vec<Block>)
        ensures
            all@ == self@,
            spec_chain_valid(all@),
            spec_distinct_hashes(all@),
    {
        proof {
            use_type_invariant(&*self);
        }
        let mut all: Vec<Block> = Vec::new();
        let mut i: usize = 0;
        while i < self.blocks.len()
            invariant
                i <= self.blocks.len(),
                all@ == self.blocks@.take(i as int),
            decreases self.blocks.len() - i,
        {
            all.push(self.blocks[i].clone());
            assert(self.blocks@.take(i + 1) =~= self.blocks@.take(i as int).push(
                self.blocks@[i as int],
            ));
            i += 1;
        }
        assert(self.blocks@.take(i as int) =~= self.blocks@);
        all
    }

    /// A copy of the last block.
    pub fn latest(&self) -> (last: Option<Block>)
        ensures
            match last {
                Some(block) => self@.len() > 0 && block == self@.last(),
                None => self@.len() == 0,
            },
    {
        let n = self.blocks.len();
        if n == 0 {
            None
        } else {
            Some(self.blocks[n - 1].clone())
        }
    }

    /// The hash that the next block must name: the hash of the last block,
    /// or `genesis` for the first.
    pub fn tip_hash(&self) -> (hash: String)
        ensures
            hash@ == spec_tip_hash(self@),
    {
        let n = self.blocks.len();
        if n == 0 {
            String::from_str("genesis")
        } else {
            self.blocks[n - 1].hash.clone()
        }
    }

    /// Whether the chain holds a block with the hash `hash`.
    pub fn contains_hash(&self, hash: &str) -> (present: bool)
        ensures
            present == spec_has_hash(self@, hash@),
    {
        let mut i: usize = 0;
        while i < self.blocks.len()
            invariant
                i <= self.blocks.len(),
                forall|j: int| 0 <= j < i ==> (#[trigger] self.blocks@[j]).hash@ != hash@,
            decreases self.blocks.len() - i,
        {
            if str_eq(self.blocks[i].hash.as_str(), hash) {
                assert(self.blocks@[i as int].hash@ == hash@);
                return true;
            }
            i += 1;
        }
        false
    }

    /// Tells why `block` cannot follow this chain, or `None` where it can.
    pub fn check(&self, block: &Block) -> (verdict: Option<BlockRejection>)
        ensures
            verdict == spec_rejection(self@, *block),
    {
        if self.contains_hash(block.hash.as_str()) {
            return Some(BlockRejection::Duplicate);
        }
        let tip = self.tip_hash();
        if !str_eq(block.prev_hash.as_str(), tip.as_str()) {
            return Some(BlockRejection::PrevHashMismatch);
        }
        if block.index != self.blocks.len() as u64 {
            return Some(BlockRejection::IndexMismatch);
        }
        if !block.verify_hash() {
            return Some(BlockRejection::HashMismatch);
        }
        None
    }

    /// Appends a block that a peer offers, or says why not. The chain is
    /// unchanged where the block is rejected.
    pub fn receive_block(&mut self, block: Block) -> (outcome: Result<(), BlockRejection>)
        ensures
            final(self)@ == spec_receive(old(self)@, block),
            spec_chain_valid(final(self)@),
            spec_distinct_hashes(final(self)@),
            match outcome {
                Ok(()) => spec_rejection(old(self)@, block) is None,
                Err(why) => spec_rejection(old(self)@, block) == Some(why),
            },
    {
        proof {
            use_type_invariant(&*self);
            lemma_receive_valid(self@, block);
            lemma_receive_distinct(self@, block);
        }
        match self.check(&block) {
            Some(why) => Err(why),
            None => {
                let mut blocks = Vec::new();
                std::mem::swap(&mut blocks, &mut self.blocks);
                blocks.push(block);
                self.blocks = blocks;
                Ok(())
            },
        }
    }

    /// Offers each block of `offered` in turn and tells how many were
    /// appended.
    pub fn receive_blocks(&mut self, offered: &Vec<Block>) -> (appended: usize)
        ensures
            final(self)@ == spec_receive_all(old(self)@, offered@),
            spec_chain_valid(final(self)@),
            spec_distinct_hashes(final(self)@),
            final(self)@.len() == old(self)@.len() + appended,
            appended <= offered@.len(),
    {
        proof {
            use_type_invariant(&*self);
        }
        let mut appended: usize = 0;
        let mut i: usize = 0;
        while i < offered.len()
            invariant
                i <= offered.len(),
                appended <= i,
                self@ == spec_receive_all(old(self)@, offered@.take(i as int)),
                self@.len() == old(self)@.len() + appended,
                spec_chain_valid(self@),
                spec_distinct_hashes(self@),
            decreases offered.len() - i,
        {
            assert(offered@.take(i + 1).drop_last() =~= offered@.take(i as int));
            if self.receive_block(offered[i].clone()).is_ok() {
                appended += 1;
            }
            i += 1;
        }
        assert(offered@.take(i as int) =~= offered@);
        appended
    }

    /// Makes the block that would follow this chain with `transactions` at
    /// the instant `timestamp`. The chain is not changed.
    pub fn next_block(&self, timestamp: i64, transactions: &Vec<Transaction>) -> (block: Block)
        ensures
            spec_follows(self@, block),
            block.timestamp == timestamp,
            block.data@ == spec_batch_json(transactions@),
            block.hash@.len() == 64,
            block.verifiable_credential@ == "credential"@,
            block.signature@.len() == 0,
    {
        let tip = self.tip_hash();
        Block::create_new_block(self.blocks.len() as u64, timestamp, transactions, tip.as_str())
    }

    /// Appends `block` if it is the next block of this chain and the chain
    /// holds no block with its hash, and tells whether it did.
    pub fn push_block(&mut self, block: Block) -> (pushed: bool)
        ensures
            pushed == (spec_follows(old(self)@, block) && !spec_has_hash(old(self)@, block.hash@)),
            final(self)@ == if pushed {
                old(self)@.push(block)
            } else {
                old(self)@
            },
            spec_chain_valid(final(self)@),
            spec_distinct_hashes(final(self)@),
    {
        proof {
            use_type_invariant(&*self);
        }
        let tip = self.tip_hash();
        if block.index != self.blocks.len() as u64 || !str_eq(
            block.prev_hash.as_str(),
            tip.as_str(),
        ) || !block.verify_hash() || self.contains_hash(block.hash.as_str()) {
            return false;
        }
        proof {
            lemma_push_valid(self@, block);
            lemma_push_distinct(self@, block);
        }
        let mut blocks = Vec::new();
        std::mem::swap(&mut blocks, &mut self.blocks);
        blocks.push(block);
        self.blocks = blocks;
        true
    }

    /// Makes the next block from `transactions` at the instant `timestamp`
    /// and appends it: its index is the length of the chain and it names
    /// the hash of the last block, or `genesis`. Where the chain holds a
    /// block with the hash of that block already, nothing is appended and
    /// the result is `None`.
    pub fn append_batch(&mut self, timestamp: i64, transactions: &Vec<Transaction>) -> (appended:
        Option<Block>)
        ensures
            spec_chain_valid(final(self)@),
            spec_distinct_hashes(final(self)@),
            appended is None <==> spec_has_hash(
                old(self)@,
                spec_next_hash(old(self)@, timestamp, transactions@),
            ),
            match appended {
                Some(block) => {
                    &&& final(self)@ == old(self)@.push(block)
                    &&& block.index == old(self)@.len()
                    &&& block.timestamp == timestamp
                    &&& block.data@ == spec_batch_json(transactions@)
                    &&& block.prev_hash@ == spec_tip_hash(old(self)@)
                    &&& block.spec_sealed()
                    &&& block.hash@.len() == 64
                },
                None => final(self)@ == old(self)@,
            },
    {
        let block = self.next_block(timestamp, transactions);
        let copy = block.clone();
        if self.push_block(block) {
            Some(copy)
        } else {
            None
        }
    }
}

} // verus!
