//! The partition key of the sharded index: one shard per ASCII letter of the
//! alphabet plus a single sentinel shard for every other first character.

use vstd::prelude::*;

verus! {

/// Name of the sentinel shard for names that do not start with a letter.
pub const NON_ALPHA: &'static str = "non_alpha";

/// Number of shards: the 26 letters and the sentinel bucket.
pub const SHARD_COUNT: usize = 27;

/// True when `c` is an ASCII letter.
pub open spec fn is_ascii_letter(c: char) -> bool {
    (97 <= c as u32 && c as u32 <= 122) || (65 <= c as u32 && c as u32 <= 90)
}

/// ASCII lowercasing of a single character; everything else is unchanged.
pub open spec fn lower_ascii_char(c: char) -> char {
    if 65 <= c as u32 && c as u32 <= 90 {
        ((c as u8) + 32) as char
    } else {
        c
    }
}

/// Shard index derived from a first character: 0..=25 for a letter,
/// 26 for the sentinel bucket.
pub open spec fn char_key_index(c: char) -> int {
    if 97 <= c as u32 && c as u32 <= 122 {
        c as u32 - 97
    } else if 65 <= c as u32 && c as u32 <= 90 {
        c as u32 - 65
    } else {
        26
    }
}

/// Shard index of a package name: decided by its first character alone.
pub open spec fn spec_key_index(name: Seq<char>) -> int
    recommends
        name.len() > 0,
{
    char_key_index(name[0])
}

/// Textual shard key of a package name: the lowercased first letter,
/// or the sentinel key for a non-letter first character.
pub open spec fn spec_name_to_key(name: Seq<char>) -> Seq<char>
    recommends
        name.len() > 0,
{
    if char_key_index(name[0]) < 26 {
        seq![lower_ascii_char(name[0])]
    } else {
        NON_ALPHA@
    }
}

/// Every shard index is in range.
pub proof fn lemma_char_key_index_in_range(c: char)
    ensures
        0 <= char_key_index(c) < SHARD_COUNT,
{
}

/// Re-deriving the key from the same name always lands in the same shard:
/// the partition function is deterministic, a pure function of the name.
pub proof fn lemma_key_index_deterministic(a: Seq<char>, b: Seq<char>)
    requires
        a.len() > 0,
        a == b,
    ensures
        spec_key_index(a) == spec_key_index(b),
        spec_name_to_key(a) == spec_name_to_key(b),
{
}

/// Shard index of a non-empty package name.
pub fn key_index(name: &str) -> (i: usize)
    requires
        name@.len() > 0,
    ensures
        i == spec_key_index(name@),
        i < SHARD_COUNT,
{
    let c = name.get_char(0);
    let u = c as u32;
    if 97 <= u && u <= 122 {
        (u - 97) as usize
    } else if 65 <= u && u <= 90 {
        (u - 65) as usize
    } else {
        26
    }
}

/// Textual shard key of a non-empty package name, as stored in the
/// persisted cache: "a".."z" or the sentinel key.
pub fn name_to_key(package_name: &str) -> (key: String)
    requires
        package_name@.len() > 0,
    ensures
        key@ == spec_name_to_key(package_name@),
{
    let c = package_name.get_char(0);
    let u = c as u32;
    if (97 <= u && u <= 122) || (65 <= u && u <= 90) {
        let b = c as u8;
        let lb: u8 = if 65 <= b && b <= 90 {
            b + 32
        } else {
            b
        };
        let mut key = String::new();
        crate::text::push_char(&mut key, lb as char);
        key
    } else {
        String::from_str(NON_ALPHA)
    }
}

} // verus!
