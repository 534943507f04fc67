//! The content-addressing digest.
//!
//! Every structural key, parent path and kind name is addressed by a fixed
//! 64-bit digest of its text: a wrapping polynomial over the characters'
//! code points.
//! The mapping from text to digest is part of the wire format and must stay
//! stable forever, so it is defined here once, as a spec function, and the
//! executable constructor is proved to compute exactly that function.

use vstd::prelude::*;

verus! {

/// Offset basis of the digest.
pub const HASH_OFFSET_BASIS: u64 = 0xcbf2_9ce4_8422_2325;

/// Multiplier of the digest.
pub const HASH_PRIME: u64 = 0x0000_0100_0000_01b3;

/// The digest of a text: a wrapping polynomial over the characters'
/// code points, one character at a time.
pub open spec fn hash_chars(s: Seq<char>) -> u64
    decreases s.len(),
{
    if s.len() == 0 {
        HASH_OFFSET_BASIS
    } else {
        vstd::wrapping::u64_specs::wrapping_add(
            vstd::wrapping::u64_specs::wrapping_mul(hash_chars(s.drop_last()), HASH_PRIME),
            s.last() as u64,
        )
    }
}

/// A content hash: the digest under which records, kinds and parent paths
/// are addressed.  Two hashes are equal exactly when their bits are equal.
#[derive(Clone, Copy, Debug, PartialEq, Eq, Structural)]
pub struct Hash {
    pub bits: u64,
}

impl Hash {
    /// The hash a given text must map to.
    pub open spec fn spec_of(s: Seq<char>) -> Hash {
        Hash { bits: hash_chars(s) }
    }

    /// Digest a text into its content hash.
    pub fn with_str(s: &str) -> (h: Hash)
        ensures
            h == Hash::spec_of(s@),
    {
        let len: usize = s.unicode_len();
        let mut bits: u64 = HASH_OFFSET_BASIS;
        let mut i: usize = 0;
        while i < len
            invariant
                i <= len,
                len == s@.len(),
                bits == hash_chars(s@.take(i as int)),
            decreases len - i,
        {
            let c = s.get_char(i);
            bits = bits.wrapping_mul(HASH_PRIME).wrapping_add(c as u64);
            proof {
                assert(s@.take(i + 1 as int).drop_last() =~= s@.take(i as int));
                assert(s@.take(i + 1 as int).last() == s@[i as int]);
            }
            i = i + 1;
        }
        proof {
            assert(s@.take(len as int) =~= s@);
        }
        Hash { bits }
    }
}

/// Unfolding step of the digest: appending one character multiplies the
/// digest by the prime and adds the character's code point, wrapping.
pub proof fn lemma_hash_push(s: Seq<char>, c: char)
    ensures
        hash_chars(s.push(c)) == vstd::wrapping::u64_specs::wrapping_add(
            vstd::wrapping::u64_specs::wrapping_mul(hash_chars(s), HASH_PRIME),
            c as u64,
        ),
{
    assert(s.push(c).drop_last() =~= s);
    assert(s.push(c).last() == c);
}

} // verus!
