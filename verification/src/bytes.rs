//! Little-endian numbers in a block of bytes.

use vstd::prelude::*;

verus! {

/// The 16-bit number at byte `at` of `s`.
pub open spec fn le16_at(s: Seq<u8>, at: int) -> int {
    s[at] + 0x100 * s[at + 1]
}

/// The 32-bit number at byte `at` of `s`.
pub open spec fn le32_at(s: Seq<u8>, at: int) -> int {
    le16_at(s, at) + 0x1_0000 * le16_at(s, at + 2)
}

/// The 64-bit number at byte `at` of `s`.
pub open spec fn le64_at(s: Seq<u8>, at: int) -> int {
    le32_at(s, at) + 0x1_0000_0000 * le32_at(s, at + 4)
}

/// Reads the 16-bit number at byte `at`.
pub fn le16(s: &[u8], at: usize) -> (v: u16)
    requires
        at + 2 <= s@.len(),
    ensures
        v == le16_at(s@, at as int),
{
    s[at] as u16 + 0x100 * s[at + 1] as u16
}

/// Reads the 32-bit number at byte `at`.
pub fn le32(s: &[u8], at: usize) -> (v: u32)
    requires
        at + 4 <= s@.len(),
    ensures
        v == le32_at(s@, at as int),
{
    assert(s@.len() == s.len());
    le16(s, at) as u32 + 0x1_0000 * le16(s, at + 2) as u32
}

/// Reads the 64-bit number at byte `at`.
pub fn le64(s: &[u8], at: usize) -> (v: u64)
    requires
        at + 8 <= s@.len(),
    ensures
        v == le64_at(s@, at as int),
{
    assert(s@.len() == s.len());
    le32(s, at) as u64 + 0x1_0000_0000 * le32(s, at + 4) as u64
}

/// Whether the bytes of `s` from `at` on begin with `pattern`.
pub fn bytes_match(s: &[u8], at: usize, pattern: &[u8]) -> (yes: bool)
    requires
        at + pattern@.len() <= s@.len(),
    ensures
        yes == (s@.subrange(at as int, at + pattern@.len()) == pattern@),
{
    assert(s@.len() == s.len());
    let n: usize = pattern.len();
    let mut i: usize = 0;
    while i < n
        invariant
            i <= n == pattern@.len(),
            at + n <= s@.len(),
            s@.len() <= usize::MAX,
            forall|k: int| 0 <= k < i ==> s@[at + k] == #[trigger] pattern@[k],
        decreases n - i,
    {
        if s[at + i] != pattern[i] {
            assert(s@.subrange(at as int, at + pattern@.len())[i as int] != pattern@[i as int]);
            return false;
        }
        i = i + 1;
    }
    assert(s@.subrange(at as int, at + pattern@.len()) =~= pattern@);
    true
}

/// The lowest byte comes first: a number of any width is the sum of its bytes, each
/// worth 256 times the one before it.
pub proof fn numbers_are_little_endian(s: Seq<u8>, at: int)
    ensures
        le16_at(s, at) == s[at] + 0x100 * s[at + 1],
        le32_at(s, at) == s[at] + 0x100 * s[at + 1] + 0x1_0000 * s[at + 2] + 0x100_0000 * s[at + 3],
        le64_at(s, at) == s[at] + 0x100 * s[at + 1] + 0x1_0000 * s[at + 2] + 0x100_0000 * s[at + 3]
            + 0x1_0000_0000 * s[at + 4] + 0x100_0000_0000 * s[at + 5] + 0x1_0000_0000_0000 * s[at
            + 6] + 0x100_0000_0000_0000 * s[at + 7],
{
}

} // verus!
