use vstd::prelude::*;

verus! {

/// 256 to the power `n`.
pub open spec fn pow256(n: nat) -> nat
    decreases n,
{
    if n == 0 {
        1
    } else {
        256 * pow256((n - 1) as nat)
    }
}

/// The unsigned integer that bytes encode, most significant byte first.
pub open spec fn be_uint(s: Seq<u8>) -> nat
    decreases s.len(),
{
    if s.len() == 0 {
        0
    } else {
        be_uint(s.drop_last()) * 256 + s.last() as nat
    }
}

/// The big-endian unsigned integer in `d[off..off + n]`.
pub open spec fn be_at(d: Seq<u8>, off: int, n: int) -> nat {
    be_uint(d.subrange(off, off + n))
}

/// A 64-bit pattern read as a two's complement integer.
pub open spec fn as_i64(n: nat) -> int {
    if n < 0x8000_0000_0000_0000 {
        n as int
    } else {
        n - 0x1_0000_0000_0000_0000
    }
}

pub proof fn lemma_be_uint_bound(s: Seq<u8>)
    ensures
        be_uint(s) < pow256(s.len()),
    decreases s.len(),
{
    if s.len() > 0 {
        lemma_be_uint_bound(s.drop_last());
        let p = pow256((s.len() - 1) as nat);
        let v = be_uint(s.drop_last());
        let b = s.last() as nat;
        assert(v * 256 + b < p * 256) by (nonlinear_arith)
            requires
                v < p,
                b < 256,
        ;
    }
}

proof fn lemma_pow256_mono(a: nat, b: nat)
    requires
        a <= b,
    ensures
        pow256(a) <= pow256(b),
    decreases b,
{
    if a < b {
        lemma_pow256_mono(a, (b - 1) as nat);
    }
}

/// Reads `n` bytes at `off` as a big-endian unsigned integer.
pub fn read_be(d: &[u8], off: usize, n: usize) -> (r: u64)
    requires
        n <= 8,
        off + n <= d@.len(),
    ensures
        r as nat == be_at(d@, off as int, n as int),
{
    let len = d.len();
    let mut v: u64 = 0;
    let mut i: usize = 0;
    while i < n
        invariant
            len == d@.len(),
            n <= 8,
            off + n <= d@.len(),
            i <= n,
            v as nat == be_at(d@, off as int, i as int),
        decreases n - i,
    {
        let ghost prev = d@.subrange(off as int, off + i);
        let ghost next = d@.subrange(off as int, off + i + 1);
        proof {
            assert(next.drop_last() =~= prev);
            lemma_be_uint_bound(prev);
            lemma_pow256_mono(i as nat, 7);
            reveal_with_fuel(pow256, 8);
            assert(v as nat * 256 + 255 < 0x1_0000_0000_0000_0000) by (nonlinear_arith)
                requires
                    (v as nat) < pow256(i as nat),
                    pow256(i as nat) <= pow256(7),
                    pow256(7) == 0x100_0000_0000_0000nat,
            ;
        }
        assert(off + i < d@.len());
        let j: usize = off + i;
        let b = d[j] as u64;
        assert(v * 256 + b < 0x1_0000_0000_0000_0000);
        v = v * 256 + b;
        i = i + 1;
    }
    v
}

/// Reads 8 bytes at `off` as a big-endian two's complement integer.
pub fn read_be_i64(d: &[u8], off: usize) -> (r: i64)
    requires
        off + 8 <= d@.len(),
    ensures
        r as int == as_i64(be_at(d@, off as int, 8)),
{
    let v = read_be(d, off, 8);
    proof {
        lemma_be_uint_bound(d@.subrange(off as int, off + 8));
        reveal_with_fuel(pow256, 9);
    }
    if v < 0x8000_0000_0000_0000 {
        v as i64
    } else {
        let w: u64 = v - 0x8000_0000_0000_0000;
        (w as i64) - 0x7fff_ffff_ffff_ffff - 1
    }
}

/// A copy of `d[from..to]`.
pub fn copy_range(d: &[u8], from: usize, to: usize) -> (r: Vec<u8>)
    requires
        from <= to <= d@.len(),
    ensures
        r@ == d@.subrange(from as int, to as int),
{
    let mut r: Vec<u8> = Vec::new();
    let mut i: usize = from;
    while i < to
        invariant
            from <= i <= to <= d@.len(),
            r@ == d@.subrange(from as int, i as int),
        decreases to - i,
    {
        r.push(d[i]);
        i = i + 1;
    }
    r
}

/// A copy of all of `v`.
pub fn copy_all(v: &Vec<u8>) -> (r: Vec<u8>)
    ensures
        r@ == v@,
{
    let r = copy_range(v.as_slice(), 0, v.len());
    assert(r@ =~= v@);
    r
}

} // verus!
