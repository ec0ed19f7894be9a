//! bincode's variable-length integers (standard configuration, little endian): how they are
//! written, and how the head of an encoded tag-and-text pair is read.
use vstd::prelude::*;

verus! {

/// 256 to the power `k`.
pub open spec fn pow256(k: nat) -> nat
    decreases k,
{
    if k == 0 { 1 } else { 256 * pow256((k - 1) as nat) }
}

/// The low `k` bytes of `n`, least significant first.
pub open spec fn le_bytes(n: nat, k: nat) -> Seq<u8>
    decreases k,
{
    if k == 0 {
        seq![]
    } else {
        seq![(n % 256) as u8] + le_bytes(n / 256, (k - 1) as nat)
    }
}

/// The number that bytes give read least significant first.
pub open spec fn le_value(b: Seq<u8>) -> nat
    decreases b.len(),
{
    if b.len() == 0 { 0 } else { b[0] as nat + 256 * le_value(b.skip(1)) }
}

/// The variable-length form of `n`: one byte up to 250, else a marker (251, 252, 253)
/// followed by two, four or eight bytes.
pub open spec fn varint(n: nat) -> Seq<u8> {
    if n <= 250 {
        seq![n as u8]
    } else if n <= 0xffff {
        seq![251u8] + le_bytes(n, 2)
    } else if n <= 0xffff_ffff {
        seq![252u8] + le_bytes(n, 4)
    } else {
        seq![253u8] + le_bytes(n, 8)
    }
}

/// A variable-length integer read from the start of `b`, in any of the forms up to the
/// marker `widest` (252 for a `u32`, 253 for a `u64`): its value and its size in bytes.
/// `None` when `b` does not begin with one.
pub open spec fn read_varint(b: Seq<u8>, widest: u8) -> Option<(nat, nat)> {
    if b.len() == 0 {
        None
    } else if b[0] <= 250 {
        Some((b[0] as nat, 1))
    } else if b[0] == 251 && b.len() >= 3 {
        Some((le_value(b.subrange(1, 3)), 3))
    } else if b[0] == 252 && widest >= 252 && b.len() >= 5 {
        Some((le_value(b.subrange(1, 5)), 5))
    } else if b[0] == 253 && widest >= 253 && b.len() >= 9 {
        Some((le_value(b.subrange(1, 9)), 9))
    } else {
        None
    }
}

/// The head of an encoded `(u32, String)` pair at the start of `b`: the tag, the byte length
/// claimed for the text, and where the text starts.
pub open spec fn pair_head(b: Seq<u8>) -> Option<(nat, nat, nat)> {
    match read_varint(b, 252) {
        None => None,
        Some((t, k)) => match read_varint(b.skip(k as int), 253) {
            None => None,
            Some((n, j)) => Some((t, n, k + j)),
        },
    }
}

/// The text that the head of `b` claims lies within `b`.
pub open spec fn head_within(b: Seq<u8>) -> bool {
    match pair_head(b) {
        Some((_, n, at)) => at + n <= b.len(),
        None => true,
    }
}

proof fn lemma_pow256_le(k: nat)
    requires
        k <= 7,
    ensures
        1 <= pow256(k) <= 0x100_0000_0000_0000,
{
    reveal_with_fuel(pow256, 8);
    assert(k == 0 || k == 1 || k == 2 || k == 3 || k == 4 || k == 5 || k == 6 || k == 7);
}

/// Reading bytes written least significant first gives back the number, when it fits.
pub proof fn lemma_le_round_trip(n: nat, k: nat)
    requires
        n < pow256(k),
    ensures
        le_bytes(n, k).len() == k,
        le_value(le_bytes(n, k)) == n,
    decreases k,
{
    if k == 0 {
    } else {
        let p = pow256((k - 1) as nat);
        assert(n < 256 * p);
        assert(n / 256 < p) by (nonlinear_arith)
            requires n < 256 * p;
        lemma_le_round_trip(n / 256, (k - 1) as nat);
        let b = le_bytes(n, k);
        assert(b.skip(1) =~= le_bytes(n / 256, (k - 1) as nat));
        assert(b[0] as nat == n % 256);
        assert(n % 256 + 256 * (n / 256) == n) by (nonlinear_arith);
    }
}

/// A variable-length integer is read back from its form, whatever follows it.
pub proof fn lemma_varint_read_back(n: nat, widest: u8, rest: Seq<u8>)
    requires
        widest == 252 ==> n <= 0xffff_ffff,
        widest == 253 ==> n <= 0xffff_ffff_ffff_ffff,
        widest == 252 || widest == 253,
    ensures
        read_varint(varint(n) + rest, widest) == Some((n, varint(n).len())),
{
    reveal_with_fuel(pow256, 9);
    let b = varint(n) + rest;
    if n <= 250 {
    } else if n <= 0xffff {
        lemma_le_round_trip(n, 2);
        assert(b.subrange(1, 3) =~= le_bytes(n, 2));
    } else if n <= 0xffff_ffff {
        lemma_le_round_trip(n, 4);
        assert(b.subrange(1, 5) =~= le_bytes(n, 4));
    } else {
        lemma_le_round_trip(n, 8);
        assert(b.subrange(1, 9) =~= le_bytes(n, 8));
    }
}

/// The number given by `size` bytes of `bytes` from `from`, least significant first.
fn le_at(bytes: &[u8], from: usize, size: usize) -> (r: u64)
    requires
        from + size <= bytes@.len(),
        size <= 8,
    ensures
        r == le_value(bytes@.subrange(from as int, from + size)),
{
    let len: usize = bytes.len();
    let mut v: u64 = 0;
    let mut i: usize = size;
    while i > 0
        invariant
            len == bytes@.len(),
            i <= size <= 8,
            from + size <= bytes@.len(),
            v == le_value(bytes@.subrange(from + i, from + size)),
            v < pow256((size - i) as nat),
        decreases i,
    {
        i = i - 1;
        let ghost tail = bytes@.subrange(from + i + 1, from + size);
        let ghost whole = bytes@.subrange(from + i, from + size);
        proof {
            assert(whole.skip(1) =~= tail);
            assert(whole[0] == bytes@[from + i]);
            lemma_pow256_le((size - i - 1) as nat);
            assert(pow256((size - i) as nat) == 256 * pow256((size - i - 1) as nat));
        }
        let b: u8 = bytes[from + i];
        assert(v * 256 + b < 256 * pow256((size - i - 1) as nat)) by (nonlinear_arith)
            requires
                v < pow256((size - i - 1) as nat),
                b < 256;
        v = v * 256 + b as u64;
    }
    assert(bytes@.subrange(from as int, from + size) =~= bytes@.subrange(from + i, from + size));
    v
}

/// The variable-length integer at `start` of `bytes`, with its size.
fn read_varint_at(bytes: &[u8], start: usize, widest: u8) -> (r: Option<(u64, usize)>)
    requires
        start <= bytes@.len(),
    ensures
        match read_varint(bytes@.skip(start as int), widest) {
            None => r is None,
            Some((v, k)) => r matches Some((rv, rk)) && rv == v && rk == k && start + k <= bytes@.len(),
        },
{
    let ghost b = bytes@.skip(start as int);
    let left: usize = bytes.len() - start;
    if left == 0 {
        return None;
    }
    let m: u8 = bytes[start];
    assert(b[0] == m);
    if m <= 250 {
        return Some((m as u64, 1));
    }
    let size: usize = if m == 251 {
        2
    } else if m == 252 && widest >= 252 {
        4
    } else if m == 253 && widest >= 253 {
        8
    } else {
        return None;
    };
    if left < size + 1 {
        return None;
    }
    let v = le_at(bytes, start + 1, size);
    assert(bytes@.subrange(start + 1, start + 1 + size) =~= b.subrange(1, size + 1));
    Some((v, size + 1))
}

/// Whether the text that the head of an encoded pair claims lies within `bytes`.
pub fn claimed_text_fits(bytes: &[u8]) -> (r: bool)
    ensures
        r == head_within(bytes@),
{
    match read_varint_at(bytes, 0, 252) {
        None => true,
        Some((_, k)) => {
            assert(bytes@.skip(0) =~= bytes@);
            match read_varint_at(bytes, k, 253) {
                None => true,
                Some((n, j)) => n <= (bytes.len() - k - j) as u64,
            }
        },
    }
}

} // verus!
