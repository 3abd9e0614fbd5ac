//! Small helpers shared by the code generator and the virtual machine.
use vstd::prelude::*;

pub mod stack;
pub mod table;
pub mod text;

verus! {

/// The digest that a fresh `std::collections::hash_map::DefaultHasher`
/// yields for a string, as a function of the string's characters.
pub uninterp spec fn default_hash(s: Seq<char>) -> u64;

/// The integer that encodes a truth value: 1 for true, 0 for false.
pub open spec fn spec_bool_to_i64(cond: bool) -> i64 {
    if cond {
        1
    } else {
        0
    }
}

/// The truth value that an integer stands for: only 1 is true.
pub open spec fn spec_i64_to_bool(v: i64) -> bool {
    v == 1
}

/// The 32-bit field hash of a name: the default hash reduced modulo 2^32.
pub open spec fn spec_string_hash32(s: Seq<char>) -> u64 {
    default_hash(s) % 0x1_0000_0000u64
}

/// The integer that encodes a truth value.
pub fn bool_to_i64(cond: bool) -> (r: i64)
    ensures
        r == spec_bool_to_i64(cond),
{
    if cond {
        1
    } else {
        0
    }
}

/// The truth value that an integer stands for.
pub fn i64_to_bool(cond: i64) -> (r: bool)
    ensures
        r == spec_i64_to_bool(cond),
{
    cond == 1
}

/// Calls `std::hash::BuildHasher::hash_one` on the builder
/// `BuildHasherDefault<DefaultHasher>`, which hashes `s` with a fresh
/// `std::collections::hash_map::DefaultHasher`. Such a hasher uses fixed
/// keys, so the digest depends on the characters of `s` alone; the contract
/// names that digest and claims nothing else about it.
#[verifier::external_body]
fn hash_str(s: &str) -> (r: u64)
    ensures
        r == default_hash(s@),
{
    let builder = std::hash::BuildHasherDefault::<std::collections::hash_map::DefaultHasher>::default();
    std::hash::BuildHasher::hash_one(&builder, s)
}

/// Hashes a field name to a 32-bit unsigned value carried in a `u64`.
pub fn string_hash32(s: String) -> (r: u64)
    ensures
        r == spec_string_hash32(s@),
        r < 0x1_0000_0000u64,
{
    hash_str(s.as_str()) % 0x1_0000_0000u64
}

/// Whether two strings hold the same characters.
pub fn same_text(a: &str, b: &str) -> (r: bool)
    ensures
        r == (a@ == b@),
{
    let x = a.to_owned();
    let y = b.to_owned();
    x == y
}

} // verus!
