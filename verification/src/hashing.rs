//! Content hashing by blocks: a file's bytes are handed over piece by piece,
//! so that no file is ever held in memory as a whole.

use vstd::prelude::*;

verus! {

/// The size of the buffer a file is read through, in bytes.
pub const BLOCK_SIZE: usize = 4096;

/// Makes `blake3::Hasher` known to the verifier, as a value of which nothing
/// can be seen but what the functions below say.
#[verifier::external_type_specification]
#[verifier::external_body]
pub struct ExHasher(blake3::Hasher);

/// The bytes written into a hasher since it was made, in order.
pub uninterp spec fn absorbed(hasher: blake3::Hasher) -> Seq<u8>;

/// Whether a hasher takes its input as a whole message from the first byte
/// on. `Hasher::new` makes such hashers, and only they can be finalized.
pub uninterp spec fn hashes_whole_input(hasher: blake3::Hasher) -> bool;

/// The BLAKE3 hash of `input`, written as 64 lower-case hexadecimal digits.
pub uninterp spec fn blake3_hex(input: Seq<u8>) -> Seq<char>;

/// Calls `blake3::Hasher::new`. Trusted: nothing has been written into a new
/// hasher, and it hashes its input as a whole.
#[verifier::external_body]
fn hasher_new() -> (hasher: blake3::Hasher)
    ensures
        absorbed(hasher) == Seq::<u8>::empty(),
        hashes_whole_input(hasher),
{
    blake3::Hasher::new()
}

/// Calls `blake3::Hasher::update`. Trusted: the call returns, the bytes of
/// `input` are added behind those written before, and nothing else about the
/// hasher changes.
#[verifier::external_body]
fn hasher_update(hasher: &mut blake3::Hasher, input: &[u8])
    requires
        hashes_whole_input(*old(hasher)),
    ensures
        absorbed(*final(hasher)) == absorbed(*old(hasher)) + input@,
        hashes_whole_input(*final(hasher)),
    no_unwind
{
    hasher.update(input);
}

/// Calls `blake3::Hasher::finalize` and writes the hash out with
/// `blake3::Hash::to_hex`. Trusted: the result depends only on the bytes
/// written, however they were cut into blocks.
#[verifier::external_body]
fn hasher_hex(hasher: &blake3::Hasher) -> (hex: String)
    requires
        hashes_whole_input(*hasher),
    ensures
        hex@ == blake3_hex(absorbed(*hasher)),
{
    hasher.finalize().to_hex().to_string()
}

/// A content hash in the making.
pub struct ContentHasher {
    state: blake3::Hasher,
}

impl ContentHasher {
    #[verifier::type_invariant]
    spec fn well_formed(&self) -> bool {
        hashes_whole_input(self.state)
    }

    /// The bytes absorbed so far.
    pub closed spec fn input(&self) -> Seq<u8> {
        absorbed(self.state)
    }

    /// A hasher that has absorbed nothing.
    pub fn new() -> (hasher: ContentHasher)
        ensures
            hasher.input() == Seq::<u8>::empty(),
    {
        ContentHasher { state: hasher_new() }
    }

    /// Takes in the next block read from a file and tells whether to read on:
    /// an empty block marks the end of the file.
    pub fn absorb(&mut self, block: &[u8]) -> (more: bool)
        ensures
            final(self).input() == old(self).input() + block@,
            more == (block@.len() > 0),
    {
        proof {
            use_type_invariant(&*self);
        }
        if block.len() == 0 {
            assert(self.input() + block@ =~= self.input());
            false
        } else {
            hasher_update(&mut self.state, block);
            true
        }
    }

    /// The hash of everything absorbed, as 64 hexadecimal digits.
    pub fn finish(&self) -> (hex: String)
        ensures
            hex@ == blake3_hex(self.input()),
    {
        proof {
            use_type_invariant(self);
        }
        hasher_hex(&self.state)
    }
}

} // verus!
