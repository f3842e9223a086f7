use vstd::prelude::*;

verus! {

/// Size in bytes of one machine word of the traced process.
pub const WORD_SIZE: usize = 8;

/// The single-byte trap instruction (`int3`) used for software breakpoints.
pub const TRAP_OPCODE: u8 = 0xcc;

/// The address of the word that contains byte address `addr`.
pub open spec fn word_base(addr: int) -> int {
    addr - addr % (WORD_SIZE as int)
}

/// The byte at bit offset `shift` of `word`.
pub open spec fn byte_at(word: u64, shift: u64) -> u8 {
    ((word >> shift) & 0xff) as u8
}

/// `word` with the byte at bit offset `shift` replaced by `val`.
pub open spec fn replace_byte(word: u64, shift: u64, val: u8) -> u64 {
    (word & !(0xffu64 << shift)) | ((val as u64) << shift)
}

/// Bit offset, inside its word, of the byte at address `addr`.
pub open spec fn byte_shift(addr: int) -> u64 {
    (8 * (addr % (WORD_SIZE as int))) as u64
}

/// Rounds `addr` down to the start of the machine word that contains it.
pub fn align_addr_to_word(addr: usize) -> (r: usize)
    ensures
        r as int == word_base(addr as int),
        r % WORD_SIZE == 0,
        r <= addr < r + WORD_SIZE,
{
    addr - addr % WORD_SIZE
}

/// Computes the word to write back when the byte at `addr` inside `word`
/// (the word read at `align_addr_to_word(addr)`) becomes `val`, together
/// with the byte that was there before.
pub fn patch_word(word: u64, addr: usize, val: u8) -> (r: (u64, u8))
    ensures
        r.0 == replace_byte(word, byte_shift(addr as int), val),
        r.1 == byte_at(word, byte_shift(addr as int)),
        byte_at(r.0, byte_shift(addr as int)) == val,
{
    let shift: u64 = (8 * (addr % WORD_SIZE)) as u64;
    assert(shift <= 56);
    let orig = ((word >> shift) & 0xff) as u8;
    let mask: u64 = !(0xffu64 << shift);
    let updated = (word & mask) | ((val as u64) << shift);
    proof {
        lemma_replace_then_read(word, shift, val);
    }
    (updated, orig)
}

/// Reading back a byte just written into a word yields that byte.
pub proof fn lemma_replace_then_read(word: u64, shift: u64, val: u8)
    requires
        shift <= 56,
    ensures
        byte_at(replace_byte(word, shift, val), shift) == val,
{
    let v = val as u64;
    assert(v <= 0xff);
    assert((((word & !(0xffu64 << shift)) | (v << shift)) >> shift) & 0xff == v) by (bit_vector)
        requires
            shift <= 56,
            v <= 0xff,
    ;
}

/// Writing a byte into a word and then writing back the byte that was saved
/// from the original word restores the original word exactly.
pub proof fn lemma_patch_restore_round_trip(word: u64, addr: usize, val: u8)
    ensures
        replace_byte(
            replace_byte(word, byte_shift(addr as int), val),
            byte_shift(addr as int),
            byte_at(word, byte_shift(addr as int)),
        ) == word,
{
    let shift = byte_shift(addr as int);
    assert(shift <= 56);
    let v = val as u64;
    assert(v <= 0xff);
    let x = (word >> shift) & 0xff;
    assert(((word >> shift) & 0xff) <= 0xff) by (bit_vector);
    assert(byte_at(word, shift) as u64 == x);
    assert((((((word & !(0xffu64 << shift)) | (v << shift)) & !(0xffu64 << shift)) | (((word
        >> shift) & 0xff) << shift))) == word) by (bit_vector)
        requires
            shift <= 56,
            v <= 0xff,
    ;
}

} // verus!
