//! Deterministic seed material for a host-side random number generator: a
//! transaction hash and a timestamp are woven into exactly 32 seed bytes.
//! Drawing the numbers themselves is the host's business; only the seed
//! derivation is value logic.

use vstd::prelude::*;
use vstd::string::StrSliceExecFns;
use vstd::string::StringExecFns;
use vstd::utf8::is_ascii_chars;

verus! {

/// At most the first `max_chars` characters of a string slice.
pub fn truncate<'a>(s: &'a str, max_chars: usize) -> (r: &'a str)
    ensures
        r@ == if s@.len() <= max_chars {
            s@
        } else {
            s@.subrange(0, max_chars as int)
        },
{
    let n = s.unicode_len();
    if n <= max_chars {
        s
    } else {
        s.substring_char(0, max_chars)
    }
}

/// The character stream a seed is cut from: the hash twice, then the
/// timestamp three times.
pub open spec fn spec_seed_chars(hash: Seq<char>, timestamp: Seq<char>) -> Seq<char> {
    hash + hash + timestamp + timestamp + timestamp
}

/// Derives a 32-byte seed from a hash and a timestamp: their concatenation
/// (hash twice, timestamp three times), truncated to 32 characters, taken as
/// bytes. Both inputs must be ASCII and long enough to fill the seed.
pub fn get_seed_array(hash: String, timestamp: String) -> (r: [u8; 32])
    requires
        is_ascii_chars(hash@),
        is_ascii_chars(timestamp@),
        2 * hash@.len() + 3 * timestamp@.len() >= 32,
    ensures
        forall|i: int|
            0 <= i < 32 ==> r@[i] == spec_seed_chars(hash@, timestamp@)[i] as u8,
{
    let mut concatenated: String = String::new();
    concatenated.append(hash.as_str());
    concatenated.append(hash.as_str());
    concatenated.append(timestamp.as_str());
    concatenated.append(timestamp.as_str());
    concatenated.append(timestamp.as_str());
    let seed_str = truncate(concatenated.as_str(), 32);
    proof {
        assert(seed_str@ =~= spec_seed_chars(hash@, timestamp@).subrange(0, 32));
        assert(is_ascii_chars(seed_str@)) by {
            assert(forall|i: int|
                0 <= i < seed_str@.len() ==> seed_str@[i] == spec_seed_chars(hash@, timestamp@)[i]);
        }
    }
    let mut r: [u8; 32] = [0u8; 32];
    let mut i: usize = 0;
    while i < 32
        invariant
            i <= 32,
            seed_str@ == spec_seed_chars(hash@, timestamp@).subrange(0, 32),
            seed_str@.len() == 32,
            spec_seed_chars(hash@, timestamp@).len() >= 32,
            is_ascii_chars(seed_str@),
            forall|j: int| 0 <= j < i ==> r@[j] == spec_seed_chars(hash@, timestamp@)[j] as u8,
        decreases 32 - i,
    {
        let b = seed_str.get_ascii(i);
        proof {
            let chars32 = spec_seed_chars(hash@, timestamp@).subrange(0, 32);
            assert(seed_str@[i as int] == chars32[i as int]);
        }
        r[i] = b;
        proof {
            assert(r@[i as int] == spec_seed_chars(hash@, timestamp@)[i as int] as u8);
        }
        i = i + 1;
    }
    r
}

} // verus!
