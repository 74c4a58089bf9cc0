//! Little-endian field access, APFS Fletcher-64, and whole-block reads from
//! an in-memory image.
//!
//! Every native parser stage reads whole blocks at chosen physical
//! addresses and decodes little-endian fields out of them, so short reads,
//! offset overflow and checksum verification have one implementation here.

use vstd::prelude::*;

use crate::ScanError;

verus! {

/// The little-endian `u16` stored at `s[off..off + 2]`.
pub open spec fn le16(s: Seq<u8>, off: int) -> int {
    s[off] + s[off + 1] * 0x100
}

/// The little-endian `u32` stored at `s[off..off + 4]`.
pub open spec fn le32(s: Seq<u8>, off: int) -> int {
    le16(s, off) + le16(s, off + 2) * 0x1_0000
}

/// The little-endian `u64` stored at `s[off..off + 8]`.
pub open spec fn le64(s: Seq<u8>, off: int) -> int {
    le32(s, off) + le32(s, off + 4) * 0x1_0000_0000
}

/// Reads the little-endian `u16` at `offset`.
pub fn le_u16(block: &[u8], offset: usize) -> (r: u16)
    requires
        offset + 2 <= block@.len(),
    ensures
        r == le16(block@, offset as int),
{
    block[offset] as u16 + (block[offset + 1] as u16) * 0x100
}

/// Reads the little-endian `u32` at `offset`.
pub fn le_u32(block: &[u8], offset: usize) -> (r: u32)
    requires
        offset + 4 <= block@.len(),
    ensures
        r == le32(block@, offset as int),
{
    let n = block.len();
    assert(offset + 2 <= n);
    le_u16(block, offset) as u32 + (le_u16(block, offset + 2) as u32) * 0x1_0000
}

/// Reads the little-endian `u64` at `offset`.
pub fn le_u64(block: &[u8], offset: usize) -> (r: u64)
    requires
        offset + 8 <= block@.len(),
    ensures
        r == le64(block@, offset as int),
{
    let n = block.len();
    assert(offset + 4 <= n);
    le_u32(block, offset) as u64 + (le_u32(block, offset + 4) as u64) * 0x1_0000_0000
}

/// Bytes outside `[offset, offset + n)` are untouched and the length is kept.
pub open spec fn unchanged_outside(a: Seq<u8>, b: Seq<u8>, offset: int, n: int) -> bool {
    &&& a.len() == b.len()
    &&& forall|k: int| 0 <= k < a.len() && (k < offset || k >= offset + n) ==> #[trigger] b[k] == a[k]
}

/// Stores `value` little-endian at `offset`.
pub fn put_u16(block: &mut Vec<u8>, offset: usize, value: u16)
    requires
        offset + 2 <= old(block)@.len(),
    ensures
        le16(final(block)@, offset as int) == value,
        unchanged_outside(old(block)@, final(block)@, offset as int, 2),
{
    let n = block.len();
    assert(offset + 1 < n);
    block.set(offset, (value % 0x100) as u8);
    block.set(offset + 1, (value / 0x100) as u8);
}

/// Stores `value` little-endian at `offset`.
pub fn put_u32(block: &mut Vec<u8>, offset: usize, value: u32)
    requires
        offset + 4 <= old(block)@.len(),
    ensures
        le32(final(block)@, offset as int) == value,
        unchanged_outside(old(block)@, final(block)@, offset as int, 4),
{
    let n = block.len();
    assert(offset + 2 < n);
    put_u16(block, offset, (value % 0x1_0000) as u16);
    let ghost mid = block@;
    put_u16(block, offset + 2, (value / 0x1_0000) as u16);
    assert(block@[offset as int] == mid[offset as int]);
    assert(block@[offset + 1] == mid[offset + 1]);
}

/// Stores `value` little-endian at `offset`.
pub fn put_u64(block: &mut Vec<u8>, offset: usize, value: u64)
    requires
        offset + 8 <= old(block)@.len(),
    ensures
        le64(final(block)@, offset as int) == value,
        unchanged_outside(old(block)@, final(block)@, offset as int, 8),
{
    let n = block.len();
    assert(offset + 4 < n);
    put_u32(block, offset, (value % 0x1_0000_0000) as u32);
    let ghost mid = block@;
    put_u32(block, offset + 4, (value / 0x1_0000_0000) as u32);
    assert(block@[offset as int] == mid[offset as int]);
    assert(block@[offset + 1] == mid[offset + 1]);
    assert(block@[offset + 2] == mid[offset + 2]);
    assert(block@[offset + 3] == mid[offset + 3]);
}

// ---- Fletcher-64 ------------------------------------------------------- //

/// `s[k]`, or zero past the end (a short final word is zero-padded).
pub open spec fn padded_byte(s: Seq<u8>, k: int) -> int {
    if k < s.len() {
        s[k] as int
    } else {
        0
    }
}

/// The `i`-th little-endian 32-bit word of `s[8..]`, zero-padded.
pub open spec fn fletcher_word(s: Seq<u8>, i: int) -> int {
    let b = 8 + 4 * i;
    padded_byte(s, b) + padded_byte(s, b + 1) * 0x100 + padded_byte(s, b + 2) * 0x1_0000
        + padded_byte(s, b + 3) * 0x100_0000
}

/// Number of (possibly short) 4-byte words in `s[8..]` for `len >= 8`.
pub open spec fn fletcher_word_count(len: int) -> int {
    (len - 5) / 4
}

/// Sum of the first `n` words.
pub open spec fn word_sum(s: Seq<u8>, n: int) -> int
    decreases n,
{
    if n <= 0 {
        0
    } else {
        word_sum(s, n - 1) + fletcher_word(s, n - 1)
    }
}

/// Sum of the first `n` running word sums.
pub open spec fn running_sum(s: Seq<u8>, n: int) -> int
    decreases n,
{
    if n <= 0 {
        0
    } else {
        running_sum(s, n - 1) + word_sum(s, n)
    }
}

/// The Fletcher modulus `2^32 - 1`.
pub open spec fn fletcher_modulus() -> int {
    0xffff_ffff
}

/// APFS Fletcher-64 of an object block: the two Fletcher sums over the
/// 32-bit words after the checksum field, folded into the check value that
/// `o_cksum` stores.
pub open spec fn fletcher64_of(s: Seq<u8>) -> u64 {
    let m = fletcher_modulus();
    let n = fletcher_word_count(s.len() as int);
    let lower = word_sum(s, n) % m;
    let upper = running_sum(s, n) % m;
    let check_lower = m - (lower + upper) % m;
    let check_upper = m - (lower + check_lower) % m;
    (check_upper * 0x1_0000_0000 + check_lower) as u64
}

fn fletcher_word_at(block: &[u8], i: usize) -> (w: u64)
    requires
        8 + 4 * i < block@.len(),
    ensures
        w == fletcher_word(block@, i as int),
        w <= 0xffff_ffff,
{
    let len = block.len();
    let b = 8 + 4 * i;
    let b0 = block[b] as u64;
    let b1: u64 = if b + 1 < len { block[b + 1] as u64 } else { 0 };
    let b2: u64 = if b + 2 < len { block[b + 2] as u64 } else { 0 };
    let b3: u64 = if b + 3 < len { block[b + 3] as u64 } else { 0 };
    b0 + b1 * 0x100 + b2 * 0x1_0000 + b3 * 0x100_0000
}

proof fn lemma_mod_step(prev: int, add: int, sum: int)
    requires
        0 <= prev < fletcher_modulus(),
        0 <= add,
        prev + add < 2 * fletcher_modulus(),
    ensures
        (if prev + add >= fletcher_modulus() { prev + add - fletcher_modulus() } else { prev + add })
            == (prev + add) % fletcher_modulus(),
{
}

/// APFS Fletcher-64 over a full object block (the first 8 bytes, which hold
/// `o_cksum`, are not part of the sum).
pub fn apfs_fletcher64(block: &[u8]) -> (r: u64)
    requires
        block@.len() >= 8,
    ensures
        r == fletcher64_of(block@),
{
    let len = block.len();
    let n: usize = (len - 5) / 4;
    let m: u64 = 0xffff_ffff;
    let mut lower: u64 = 0;
    let mut upper: u64 = 0;
    let mut i: usize = 0;
    while i < n
        invariant
            i <= n,
            len == block@.len(),
            len >= 8,
            n == fletcher_word_count(len as int),
            m == fletcher_modulus(),
            lower == word_sum(block@, i as int) % fletcher_modulus(),
            upper == running_sum(block@, i as int) % fletcher_modulus(),
        decreases n - i,
    {
        assert(8 + 4 * i < len);
        let w = fletcher_word_at(block, i);
        let ghost s = block@;
        let mut next_lower = lower + w;
        if next_lower >= m {
            next_lower = next_lower - m;
        }
        proof {
            vstd::arithmetic::div_mod::lemma_add_mod_noop(word_sum(s, i as int), w as int, fletcher_modulus());
            assert(word_sum(s, i + 1) == word_sum(s, i as int) + w);
            lemma_mod_step(lower as int, w as int, 0);
        }
        let mut next_upper = upper + next_lower;
        if next_upper >= m {
            next_upper = next_upper - m;
        }
        proof {
            vstd::arithmetic::div_mod::lemma_add_mod_noop(
                running_sum(s, i as int),
                word_sum(s, i + 1),
                fletcher_modulus(),
            );
            assert(running_sum(s, i + 1) == running_sum(s, i as int) + word_sum(s, i + 1));
            lemma_mod_step(upper as int, next_lower as int, 0);
        }
        lower = next_lower;
        upper = next_upper;
        i = i + 1;
    }
    let check_lower = m - (lower + upper) % m;
    let check_upper = m - (lower + check_lower) % m;
    check_upper * 0x1_0000_0000 + check_lower
}

/// Whether the block's stored `o_cksum` equals its Fletcher-64.
pub open spec fn checksum_ok(s: Seq<u8>) -> bool {
    le64(s, 0) == fletcher64_of(s)
}

/// Whether the stored checksum in the first 8 bytes matches the block.
pub fn checksum_matches(block: &[u8]) -> (r: bool)
    requires
        block@.len() >= 8,
    ensures
        r == checksum_ok(block@),
{
    le_u64(block, 0) == apfs_fletcher64(block)
}

proof fn lemma_sums_depend_on_body(a: Seq<u8>, b: Seq<u8>, n: int)
    requires
        a.len() == b.len(),
        forall|k: int| 8 <= k < a.len() ==> a[k] == b[k],
    ensures
        word_sum(a, n) == word_sum(b, n),
        running_sum(a, n) == running_sum(b, n),
    decreases n,
{
    if n > 0 {
        lemma_sums_depend_on_body(a, b, n - 1);
        let base = 8 + 4 * (n - 1);
        assert(padded_byte(a, base) == padded_byte(b, base));
        assert(padded_byte(a, base + 1) == padded_byte(b, base + 1));
        assert(padded_byte(a, base + 2) == padded_byte(b, base + 2));
        assert(padded_byte(a, base + 3) == padded_byte(b, base + 3));
    }
}

/// The checksum ignores the checksum field itself: two blocks of equal
/// length that agree from byte 8 on have the same Fletcher-64.
pub proof fn lemma_fletcher_ignores_checksum_field(a: Seq<u8>, b: Seq<u8>)
    requires
        a.len() == b.len(),
        a.len() >= 8,
        forall|k: int| 8 <= k < a.len() ==> a[k] == b[k],
    ensures
        fletcher64_of(a) == fletcher64_of(b),
{
    lemma_sums_depend_on_body(a, b, fletcher_word_count(a.len() as int));
}

/// The weight of byte `j` (past the checksum field) within its word.
spec fn byte_weight(j: int) -> int {
    let t = (j - 8) % 4;
    if t == 0 {
        1
    } else if t == 1 {
        0x100
    } else if t == 2 {
        0x1_0000
    } else {
        0x100_0000
    }
}

/// Changing byte `j` alone moves the sum of the words that cover it by
/// the change times the byte's weight.
proof fn lemma_word_sum_one_byte(a: Seq<u8>, b: Seq<u8>, j: int, n: int)
    requires
        a.len() == b.len(),
        8 <= j < a.len(),
        forall|k: int| 0 <= k < a.len() && k != j ==> a[k] == b[k],
    ensures
        word_sum(b, n) - word_sum(a, n) == if 0 <= (j - 8) / 4 < n {
            (b[j] - a[j]) * byte_weight(j)
        } else {
            0
        },
    decreases n,
{
    if n > 0 {
        lemma_word_sum_one_byte(a, b, j, n - 1);
        let base = 8 + 4 * (n - 1);
        if (j - 8) / 4 == n - 1 {
            assert(base <= j < base + 4);
        } else {
            assert(j < base || j >= base + 4);
        }
        assert(k_eq(a, b, j, base));
        assert(k_eq(a, b, j, base + 1));
        assert(k_eq(a, b, j, base + 2));
        assert(k_eq(a, b, j, base + 3));
    }
}

spec fn k_eq(a: Seq<u8>, b: Seq<u8>, j: int, k: int) -> bool {
    k != j ==> padded_byte(a, k) == padded_byte(b, k)
}

proof fn lemma_mod_moves(x: int, d: int, m: int)
    requires
        m > 0,
        x >= 0,
        x + d >= 0,
        0 < d < m || -m < d < 0,
    ensures
        x % m != (x + d) % m,
{
    let qa = x / m;
    let qb = (x + d) / m;
    vstd::arithmetic::div_mod::lemma_fundamental_div_mod(x, m);
    vstd::arithmetic::div_mod::lemma_fundamental_div_mod(x + d, m);
    assert(x == qa * m + x % m) by (nonlinear_arith)
        requires
            x == m * qa + x % m,
    ;
    assert(x + d == qb * m + (x + d) % m) by (nonlinear_arith)
        requires
            x + d == m * qb + (x + d) % m,
    ;
    if x % m == (x + d) % m {
        assert(d == (qb - qa) * m) by (nonlinear_arith)
            requires
                x == qa * m + x % m,
                x + d == qb * m + (x + d) % m,
                x % m == (x + d) % m,
        ;
        assert(false) by (nonlinear_arith)
            requires
                d == (qb - qa) * m,
                0 < d < m || -m < d < 0,
                m > 0,
        ;
    }
}

/// Fletcher-64 catches any single changed byte past the checksum field:
/// a block that validated no longer does once one such byte changes.
pub proof fn lemma_checksum_catches_one_byte_change(a: Seq<u8>, b: Seq<u8>, j: int)
    requires
        a.len() == b.len(),
        8 <= j < a.len(),
        a[j] != b[j],
        forall|k: int| 0 <= k < a.len() && k != j ==> a[k] == b[k],
        checksum_ok(a),
    ensures
        !checksum_ok(b),
{
    let m = fletcher_modulus();
    let n = fletcher_word_count(a.len() as int);
    lemma_word_sum_one_byte(a, b, j, n);
    assert(0 <= (j - 8) / 4 < n);
    let d = (b[j] - a[j]) * byte_weight(j);
    assert(0 < d < m || -m < d < 0) by (nonlinear_arith)
        requires
            d == (b[j] - a[j]) * byte_weight(j),
            b[j] != a[j],
            0 <= a[j] <= 255,
            0 <= b[j] <= 255,
            1 <= byte_weight(j) <= 0x100_0000,
            m == 0xffff_ffff,
    ;
    lemma_word_sums_nonneg(a, n);
    lemma_word_sums_nonneg(b, n);
    let sa = word_sum(a, n);
    let sb = word_sum(b, n);
    lemma_mod_moves(sa, d, m);
    let la = sa % m;
    let lb = sb % m;
    let ua = running_sum(a, n) % m;
    let ub = running_sum(b, n) % m;
    let ca = m - (la + ua) % m;
    let cb = m - (lb + ub) % m;
    let xa = m - (la + ca) % m;
    let xb = m - (lb + cb) % m;
    assert(le64(a, 0) == le64(b, 0));
    if checksum_ok(b) {
        assert(fletcher64_of(a) == fletcher64_of(b));
        assert(1 <= ca <= m && 1 <= cb <= m && 1 <= xa <= m && 1 <= xb <= m);
        assert(xa * 0x1_0000_0000 + ca == xb * 0x1_0000_0000 + cb) by {
            assert(xa * 0x1_0000_0000 + ca <= u64::MAX) by (nonlinear_arith)
                requires
                    1 <= ca <= m,
                    1 <= xa <= m,
                    m == 0xffff_ffff,
            ;
            assert(xb * 0x1_0000_0000 + cb <= u64::MAX) by (nonlinear_arith)
                requires
                    1 <= cb <= m,
                    1 <= xb <= m,
                    m == 0xffff_ffff,
            ;
        }
        assert(ca == cb && xa == xb) by (nonlinear_arith)
            requires
                xa * 0x1_0000_0000 + ca == xb * 0x1_0000_0000 + cb,
                1 <= ca <= 0xffff_ffff,
                1 <= cb <= 0xffff_ffff,
        ;
        assert((la + ca) % m == (lb + ca) % m);
        assert(0 <= la < m && 0 <= lb < m);
        if la < lb {
            lemma_mod_moves(la + ca, lb - la, m);
        } else if lb < la {
            lemma_mod_moves(lb + ca, la - lb, m);
        }
        assert(false);
    }
}

proof fn lemma_word_sums_nonneg(s: Seq<u8>, n: int)
    ensures
        word_sum(s, n) >= 0,
    decreases n,
{
    if n > 0 {
        lemma_word_sums_nonneg(s, n - 1);
    }
}

/// Recomputes and stores the block's checksum. Afterwards the block
/// validates: `checksum_matches` returns `true` and only the checksum field
/// changed.
pub fn resign_block(block: &mut Vec<u8>)
    requires
        old(block)@.len() >= 8,
    ensures
        checksum_ok(final(block)@),
        unchanged_outside(old(block)@, final(block)@, 0, 8),
{
    let checksum = apfs_fletcher64(block.as_slice());
    put_u64(block, 0, checksum);
    proof {
        lemma_fletcher_ignores_checksum_field(old(block)@, block@);
    }
}

// ---- block reads -------------------------------------------------------- //

/// Bytes that a read of `size` bytes at byte offset `offset` finds in
/// `image` before reaching its end.
pub open spec fn available_at(image_len: int, offset: int, size: int) -> int {
    if offset >= image_len {
        0
    } else if image_len - offset < size {
        image_len - offset
    } else {
        size
    }
}

/// Reads block `block_address` of size `block_size` from `image`.
///
/// Fails with `UnsupportedDescriptorLayout` when the byte offset overflows
/// `u64`, and with `ShortRead` (carrying how many bytes were available)
/// when the block runs past the end of the image.
pub fn read_block(image: &[u8], block_address: u64, block_size: usize) -> (r: Result<
    Vec<u8>,
    ScanError,
>)
    ensures
        block_address * block_size > u64::MAX ==> r matches Err(
            ScanError::UnsupportedDescriptorLayout(_),
        ),
        block_address * block_size <= u64::MAX && block_address * block_size + block_size
            <= image@.len() ==> (r matches Ok(v) && v@ == image@.subrange(
            block_address * block_size,
            block_address * block_size + block_size,
        )),
        block_address * block_size <= u64::MAX && block_address * block_size + block_size
            > image@.len() ==> r == Err::<Vec<u8>, ScanError>(ScanError::ShortRead {
            block_address,
            expected: block_size,
            actual: available_at(
                image@.len() as int,
                block_address * block_size,
                block_size as int,
            ) as usize,
        }),
{
    let offset = match block_address.checked_mul(block_size as u64) {
        Some(o) => o,
        None => {
            return Err(ScanError::UnsupportedDescriptorLayout(crate::text::owned("block offset overflow")));
        },
    };
    let len = image.len();
    if offset >= len as u64 {
        if block_size == 0 {
            assert(block_address * block_size == 0) by (nonlinear_arith)
                requires
                    block_size == 0,
            ;
            return Ok(Vec::new());
        }
        return Err(ScanError::ShortRead { block_address, expected: block_size, actual: 0 });
    }
    let start = offset as usize;
    let available = len - start;
    if available < block_size {
        return Err(ScanError::ShortRead { block_address, expected: block_size, actual: available });
    }
    let mut out: Vec<u8> = Vec::with_capacity(block_size);
    let mut k: usize = 0;
    while k < block_size
        invariant
            k <= block_size,
            start + block_size <= image@.len(),
            len == image@.len(),
            out@ == image@.subrange(start as int, start + k),
        decreases block_size - k,
    {
        out.push(image[start + k]);
        k = k + 1;
        assert(out@ =~= image@.subrange(start as int, start + k));
    }
    Ok(out)
}

} // verus!
