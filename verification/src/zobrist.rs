use vstd::prelude::*;

use rand::TryRngCore;

use crate::board::BoardSize;

verus! {

/// rand's `OsError`: the operating system's random source failed; carried as it is.
#[verifier::external_type_specification]
#[verifier::external_body]
pub struct ExOsError(rand::rand_core::OsError);

/// A fresh number from the operating system's random source (`OsRng::try_next_u64` of
/// rand). Nothing is promised of the number, nor of when the source fails.
#[verifier::external_body]
pub(crate) fn os_random_u64() -> (r: Result<u64, rand::rand_core::OsError>) {
    rand::rngs::OsRng.try_next_u64()
}

/// The operating system's random source could not be read.
#[derive(Clone, Copy, Debug, PartialEq, Eq, Structural)]
pub struct RandomSourceError;

/// Zobrist hashing of positions: one random key for each kind of piece on each square, and
/// the hash of a position is the exclusive or of the keys of the pieces on it.
#[derive(Clone, Debug)]
pub struct ZobristHasher {
    /// The keys of the attackers, the defenders and the king on each square.
    pub table: Vec<[u64; 3]>,
    /// The hash of the last position written.
    pub hash: u64,
    /// The size of the boards hashed.
    pub size: BoardSize,
}

/// Which key of a square a byte of a compact board selects: attackers 0, defenders 1 and the
/// king 3 take keys 0, 1 and 2; an empty square (2) takes none.
pub open spec fn key_index(byte: u8) -> Option<int> {
    if byte == 0 {
        Some(0)
    } else if byte == 1 {
        Some(1)
    } else if byte == 3 {
        Some(2)
    } else {
        None
    }
}

/// The key that the `i`-th square of a compact board adds to the hash, zero when it is empty.
pub open spec fn square_key(table: Seq<[u64; 3]>, board: Seq<u8>, i: int) -> u64 {
    match key_index(board[i]) {
        Some(j) => table[i][j],
        None => 0,
    }
}

/// The exclusive or of the keys of the first `k` squares of a compact board.
pub open spec fn zobrist_hash(table: Seq<[u64; 3]>, board: Seq<u8>, k: nat) -> u64
    decreases k,
{
    if k == 0 {
        0
    } else {
        zobrist_hash(table, board, (k - 1) as nat) ^ square_key(table, board, k - 1)
    }
}

impl ZobristHasher {
    /// A hasher for 11 by 11 boards with no keys yet and a zero hash.
    pub fn default() -> (h: ZobristHasher)
        ensures
            h.table@.len() == 0,
            h.hash == 0,
            h.size == BoardSize::_11,
    {
        ZobristHasher { table: Vec::new(), hash: 0, size: BoardSize::default() }
    }

    /// A hasher for boards of this size, with a fresh random key for each piece on each
    /// square and a zero hash; an error when the random source fails.
    pub fn build_hasher(&self) -> (r: Result<ZobristHasher, RandomSourceError>)
        ensures
            r matches Ok(h) ==> h.size == self.size && h.hash == 0 && h.table@.len()
                == self.size.n() * self.size.n(),
    {
        let size = self.size.to_usize();
        let size_2 = size * size;
        let mut table: Vec<[u64; 3]> = Vec::new();
        let mut i: usize = 0;
        while i < size_2
            invariant
                i <= size_2,
                size_2 == self.size.n() * self.size.n(),
                table@.len() == i,
            decreases size_2 - i,
        {
            let a = match os_random_u64() {
                Ok(a) => a,
                Err(_) => return Err(RandomSourceError),
            };
            let b = match os_random_u64() {
                Ok(b) => b,
                Err(_) => return Err(RandomSourceError),
            };
            let c = match os_random_u64() {
                Ok(c) => c,
                Err(_) => return Err(RandomSourceError),
            };
            table.push([a, b, c]);
            i = i + 1;
        }
        Ok(ZobristHasher { table, hash: 0, size: self.size })
    }

    /// The hash of the last position written.
    pub fn finish(&self) -> (r: u64)
        ensures
            r == self.hash,
    {
        self.hash
    }

    /// Hashes a compact board, one byte per square row by row (attacker 0, defender 1, empty
    /// 2, king 3): the hash becomes the exclusive or of the keys of its pieces.
    pub fn write(&mut self, board: &[u8])
        requires
            board@.len() == 121 || board@.len() == 169,
            board@.len() <= old(self).table@.len(),
            forall|i: int| 0 <= i < board@.len() ==> #[trigger] board@[i] < 4,
        ensures
            final(self).hash == zobrist_hash(old(self).table@, board@, board@.len()),
            final(self).table@ == old(self).table@,
            final(self).size == old(self).size,
    {
        let mut hash: u64 = 0;
        let mut i: usize = 0;
        while i < board.len()
            invariant
                i <= board@.len(),
                board@.len() <= self.table@.len(),
                hash == zobrist_hash(self.table@, board@, i as nat),
            decreases board@.len() - i,
        {
            let byte = board[i];
            if byte == 0 {
                hash = hash ^ self.table[i][0];
            } else if byte == 1 {
                hash = hash ^ self.table[i][1];
            } else if byte == 3 {
                hash = hash ^ self.table[i][2];
            } else {
                assert(hash ^ 0u64 == hash) by (bit_vector);
            }
            i = i + 1;
        }
        self.hash = hash;
    }
}

/// Hashing is an exclusive or of keys: putting a piece on an empty square, or taking it off,
/// changes the hash by exactly that piece's key on that square.
pub proof fn lemma_hash_toggles_key(table: Seq<[u64; 3]>, board: Seq<u8>, i: int, byte: u8)
    requires
        0 <= i < board.len(),
        board[i] == 2,
        key_index(byte) is Some,
    ensures
        zobrist_hash(table, board.update(i, byte), board.len()) == zobrist_hash(
            table,
            board,
            board.len(),
        ) ^ table[i][key_index(byte)->0],
    decreases board.len(),
{
    lemma_hash_toggles_upto(table, board, i, byte, board.len());
}

/// The keys of the first `k` squares, once the `i`-th square gains a piece.
proof fn lemma_hash_toggles_upto(table: Seq<[u64; 3]>, board: Seq<u8>, i: int, byte: u8, k: nat)
    requires
        0 <= i < board.len(),
        k <= board.len(),
        board[i] == 2,
        key_index(byte) is Some,
    ensures
        zobrist_hash(table, board.update(i, byte), k) == if k > i {
            zobrist_hash(table, board, k) ^ table[i][key_index(byte)->0]
        } else {
            zobrist_hash(table, board, k)
        },
    decreases k,
{
    let b2 = board.update(i, byte);
    if k > 0 {
        lemma_hash_toggles_upto(table, board, i, byte, (k - 1) as nat);
        let h1 = zobrist_hash(table, board, (k - 1) as nat);
        let key = table[i][key_index(byte)->0];
        if k - 1 == i {
            assert(square_key(table, board, k - 1) == 0);
            assert(square_key(table, b2, k - 1) == key);
            assert(h1 ^ key == (h1 ^ 0u64) ^ key) by (bit_vector);
        } else {
            assert(square_key(table, b2, k - 1) == square_key(table, board, k - 1));
            if k - 1 > i {
                let s = square_key(table, board, k - 1);
                assert((h1 ^ key) ^ s == (h1 ^ s) ^ key) by (bit_vector);
            }
        }
    }
}

} // verus!
