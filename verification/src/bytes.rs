//! Words of a Wayland message: 32-bit integers in the byte order of the machine.

use vstd::prelude::*;

verus! {

/// The integer whose bytes in memory are `a`, `b`, `c`, `d`, in that order, on the
/// machine that the program runs on.
pub open spec fn ne_word(a: u8, b: u8, c: u8, d: u8) -> u32 {
    match vstd::endian::endianness() {
        vstd::endian::Endian::Little => (a + b * 0x100 + c * 0x1_0000 + d * 0x100_0000) as u32,
        vstd::endian::Endian::Big => (d + c * 0x100 + b * 0x1_0000 + a * 0x100_0000) as u32,
    }
}

/// The word whose four bytes start at index `i` of `s`.
pub open spec fn word_at(s: Seq<u8>, i: int) -> u32 {
    ne_word(s[i], s[i + 1], s[i + 2], s[i + 3])
}

/// `s` with the bytes from index `i` on replaced by those of `t`.
pub open spec fn overwrite(s: Seq<u8>, i: int, t: Seq<u8>) -> Seq<u8> {
    s.take(i) + t + s.skip(i + t.len())
}

/// `u32::from_ne_bytes` takes its argument for the memory representation of an
/// integer: least significant byte first on a little-endian machine, most
/// significant byte first on a big-endian one.
#[verifier::external_body]
fn word_from_ne_bytes(bytes: [u8; 4]) -> (word: u32)
    ensures
        word == ne_word(bytes@[0], bytes@[1], bytes@[2], bytes@[3]),
{
    u32::from_ne_bytes(bytes)
}

/// `u32::to_ne_bytes` gives the memory representation of an integer: the four
/// bytes that stand for it in the byte order of the machine.
#[verifier::external_body]
pub(crate) fn word_to_ne_bytes(word: u32) -> (bytes: [u8; 4])
    ensures
        ne_word(bytes@[0], bytes@[1], bytes@[2], bytes@[3]) == word,
{
    word.to_ne_bytes()
}

/// `core::str::from_utf8` succeeds on exactly the byte strings that are valid
/// UTF-8.
#[verifier::external_body]
pub(crate) fn is_utf8(s: &[u8]) -> (valid: bool)
    ensures
        valid == vstd::utf8::valid_utf8(s@),
{
    core::str::from_utf8(s).is_ok()
}

/// Reads the word at index `at`.
pub fn read_word(s: &[u8], at: usize) -> (word: u32)
    requires
        at + 4 <= s@.len(),
    ensures
        word == word_at(s@, at as int),
{
    word_from_ne_bytes([s[at], s[at + 1], s[at + 2], s[at + 3]])
}

/// Whether the first NUL of `s` stands at index `n`.
pub open spec fn first_nul_at(s: Seq<u8>, n: int) -> bool {
    &&& 0 <= n < s.len()
    &&& s[n] == 0
    &&& forall|i: int| 0 <= i < n ==> s[i] != 0
}

/// The bytes of `s` before its first NUL, if it has one.
pub open spec fn until_nul(s: Seq<u8>) -> Option<Seq<u8>> {
    if exists|n: int| first_nul_at(s, n) {
        Some(s.take(choose|n: int| first_nul_at(s, n)))
    } else {
        None
    }
}

/// Finds the part of `s` before the first NUL.
pub fn bytes_until_nul(s: &[u8]) -> (name: Option<&[u8]>)
    ensures
        name is Some <==> until_nul(s@) is Some,
        name matches Some(n) ==> until_nul(s@) == Some(n@),
{
    let mut i: usize = 0;
    while i < s.len()
        invariant
            i <= s@.len(),
            forall|j: int| 0 <= j < i ==> s@[j] != 0,
        decreases s@.len() - i,
    {
        if s[i] == 0 {
            let name = &s[0..i];
            proof {
                assert(first_nul_at(s@, i as int));
                assert(name@ =~= s@.take(i as int));
            }
            return Some(name);
        }
        i = i + 1;
    }
    None
}

/// Whether `s` and `t` hold the same bytes.
pub fn same_bytes(s: &[u8], t: &[u8]) -> (same: bool)
    ensures
        same == (s@ == t@),
{
    if s.len() != t.len() {
        return false;
    }
    let mut i: usize = 0;
    while i < s.len()
        invariant
            i <= s@.len(),
            s@.len() == t@.len(),
            s@.take(i as int) == t@.take(i as int),
        decreases s@.len() - i,
    {
        if s[i] != t[i] {
            return false;
        }
        proof {
            assert(s@.take(i + 1) =~= s@.take(i as int).push(s@[i as int]));
            assert(t@.take(i + 1) =~= t@.take(i as int).push(t@[i as int]));
        }
        i = i + 1;
    }
    proof {
        assert(s@.take(s@.len() as int) =~= s@);
        assert(t@.take(t@.len() as int) =~= t@);
    }
    true
}

} // verus!
