//! Lock file locations.
use vstd::prelude::*;
use vstd::string::StringSliceAdditionalSpecFns;

use crate::paths::{join_path, joined_path};
use crate::text::{decimal_string, decimal_text};

verus! {

/// The lock that serialises dependency resolution under the cache root.
pub fn resolver_lock_path(root: &str) -> (r: String)
    ensures
        r@ == joined_path(joined_path(root@, "locks"@), "resolver.lock"@),
{
    let locks = join_path(root, "locks");
    join_path(locks.as_str(), "resolver.lock")
}

/// The 64-bit FNV-1a hash of `bytes`, from the offset basis.
pub open spec fn fnv1a(bytes: Seq<u8>) -> u64
    decreases bytes.len(),
{
    if bytes.len() == 0 {
        0xcbf29ce484222325u64
    } else {
        fnv1a_step(fnv1a(bytes.drop_last()), bytes.last())
    }
}

/// One FNV-1a round: xor the byte in, multiply by the FNV prime, modulo
/// 2^64.
pub open spec fn fnv1a_step(hash: u64, byte: u8) -> u64 {
    (((hash ^ (byte as u64)) as nat * 0x100000001b3nat) % 0x1_0000_0000_0000_0000nat) as u64
}

/// A hash of a path's text that stays the same from run to run: FNV-1a
/// over its UTF-8 bytes.
pub fn stable_hash(path: &str) -> (r: u64)
    ensures
        r == fnv1a(path.spec_bytes()),
{
    let bytes = path.as_bytes();
    let mut hash: u64 = 0xcbf29ce484222325u64;
    let mut i: usize = 0;
    assert(bytes@.take(0) == Seq::<u8>::empty());
    while i < bytes.len()
        invariant
            i <= bytes@.len(),
            bytes@ == path.spec_bytes(),
            hash == fnv1a(bytes@.take(i as int)),
        decreases bytes.len() - i,
    {
        let ghost t = bytes@.take(i as int + 1);
        assert(t.drop_last() == bytes@.take(i as int));
        assert(t.last() == bytes@[i as int]);
        hash = hash ^ (bytes[i] as u64);
        hash = hash.wrapping_mul(0x100000001b3u64);
        i = i + 1;
    }
    assert(bytes@.take(bytes@.len() as int) == bytes@);
    hash
}

/// The name of the lock of the package cache under `root`.
pub open spec fn package_cache_lock_name(root: &str) -> Seq<char> {
    "r-user-cache-"@ + decimal_text(stable_hash_spec(root) as nat) + ".lock"@
}

/// `stable_hash` of a path, as a spec.
pub open spec fn stable_hash_spec(root: &str) -> u64 {
    fnv1a(root.spec_bytes())
}

/// The lock that serialises use of the package cache under `root`: in the
/// system's temporary directory `temp_dir`, named by a hash of `root`.
pub fn package_cache_lock_path(temp_dir: &str, root: &str) -> (r: String)
    ensures
        r@ == joined_path(joined_path(temp_dir@, "ir-resolver-locks"@), package_cache_lock_name(root)),
{
    let dir = join_path(temp_dir, "ir-resolver-locks");
    let hash = stable_hash(root);
    let mut name = String::from_str("r-user-cache-");
    let digits = decimal_string(hash as u128);
    name.append(digits.as_str());
    name.append(".lock");
    join_path(dir.as_str(), name.as_str())
}

} // verus!
