use crate::bytes::{be_uint, read_be};
use crate::error::{ErrorKind, TSMError};
use crate::text::string_from_chars;
use vstd::arithmetic::div_mod::{lemma_basic_div, lemma_div_denominator, lemma_fundamental_div_mod};
use vstd::arithmetic::power2::{lemma2_to64, lemma_pow2_adds, pow2};
use vstd::bits::lemma_u64_shr_is_div;
use vstd::prelude::*;
use vstd::string::StrSliceExecFns;

verus! {

/// 16 to the power `n`.
pub open spec fn pow16(n: nat) -> nat
    decreases n,
{
    if n == 0 {
        1
    } else {
        16 * pow16((n - 1) as nat)
    }
}

/// The value of a hexadecimal digit of either case, or -1 for another character.
pub open spec fn hex_digit_value(c: char) -> int {
    if '0' <= c && c <= '9' {
        c as int - '0' as int
    } else if 'a' <= c && c <= 'f' {
        c as int - 'a' as int + 10
    } else if 'A' <= c && c <= 'F' {
        c as int - 'A' as int + 10
    } else {
        -1
    }
}

/// The number that a string of hexadecimal digits denotes.
pub open spec fn hex_value(s: Seq<char>) -> int
    decreases s.len(),
{
    if s.len() == 0 {
        0
    } else {
        hex_value(s.drop_last()) * 16 + hex_digit_value(s.last())
    }
}

/// One to sixteen hexadecimal digits.
pub open spec fn is_hex_id(s: Seq<char>) -> bool {
    1 <= s.len() <= 16 && forall|i: int| 0 <= i < s.len() ==> hex_digit_value(#[trigger] s[i]) >= 0
}

/// The lowercase hexadecimal digit for a value below 16.
pub open spec fn hex_char(d: int) -> char {
    if d < 10 {
        ('0' as int + d) as char
    } else {
        ('a' as int + d - 10) as char
    }
}

/// The sixteen lowercase hexadecimal digits of `v`, most significant first.
pub open spec fn format_hex(v: u64) -> Seq<char> {
    Seq::new(16, |i: int| hex_char((v as int / pow16((15 - i) as nat) as int) % 16))
}

/// An identifier of an organisation or a bucket.
#[derive(Clone, Copy, Debug, Hash, PartialEq, Eq, Structural, PartialOrd, Ord)]
pub struct InfluxID(pub u64);

proof fn lemma_hex_value_bound(s: Seq<char>)
    requires
        forall|i: int| 0 <= i < s.len() ==> hex_digit_value(#[trigger] s[i]) >= 0,
    ensures
        0 <= hex_value(s) < pow16(s.len()),
    decreases s.len(),
{
    if s.len() > 0 {
        let t = s.drop_last();
        assert forall|i: int| 0 <= i < t.len() implies hex_digit_value(#[trigger] t[i]) >= 0 by {
            assert(t[i] == s[i]);
        }
        lemma_hex_value_bound(t);
        let h = hex_value(t);
        let p = pow16(t.len());
        let d = hex_digit_value(s.last());
        assert(s.last() == s[s.len() - 1]);
        assert(0 <= h * 16 + d < p * 16) by (nonlinear_arith)
            requires
                0 <= h < p,
                0 <= d < 16,
        ;
    }
}

proof fn lemma_pow16_16()
    ensures
        pow16(16) == 0x1_0000_0000_0000_0000,
{
    reveal_with_fuel(pow16, 17);
}

/// Reading the sixteen digits that `format_hex` writes gives the identifier back.
pub proof fn lemma_hex_round_trip(v: u64)
    ensures
        is_hex_id(format_hex(v)),
        hex_value(format_hex(v)) == v as int,
{
    let s = format_hex(v);
    assert forall|i: int| 0 <= i < s.len() implies hex_digit_value(#[trigger] s[i]) >= 0 by {
        assert(pow16((15 - i) as nat) > 0) by {
            lemma_pow16_positive((15 - i) as nat);
        }
        let d = (v as int / pow16((15 - i) as nat) as int) % 16;
        assert(0 <= d < 16);
        assert(hex_digit_value(hex_char(d)) == d);
    }
    lemma_prefix_value(v, 16);
    assert(s.subrange(0, 16) =~= s);
    assert(pow16(0) == 1);
    assert(v as int / 1 == v as int);
}

/// An identifier is written as exactly sixteen digits from `0-9a-f`.
pub proof fn lemma_format_hex_shape(v: u64)
    ensures
        format_hex(v).len() == 16,
        forall|i: int|
            0 <= i < 16 ==> {
                let c = #[trigger] format_hex(v)[i];
                ('0' <= c && c <= '9') || ('a' <= c && c <= 'f')
            },
{
    assert forall|i: int| 0 <= i < 16 implies {
        let c = #[trigger] format_hex(v)[i];
        ('0' <= c && c <= '9') || ('a' <= c && c <= 'f')
    } by {
        lemma_pow16_positive((15 - i) as nat);
        let d = (v as int / pow16((15 - i) as nat) as int) % 16;
        assert(0 <= d < 16);
    }
}

proof fn lemma_pow16_is_pow2(k: nat)
    ensures
        pow16(k) == pow2(4 * k),
    decreases k,
{
    if k == 0 {
        lemma2_to64();
    } else {
        lemma_pow16_is_pow2((k - 1) as nat);
        lemma_pow2_adds(4, 4 * (k - 1) as nat);
        lemma2_to64();
        assert(4 * k == 4 + 4 * (k - 1) as nat);
    }
}

/// Digit `i` of an identifier's text is the `i`-th group of four bits from
/// the most significant end, taken by shift and mask.
pub proof fn lemma_format_hex_bits(v: u64, i: int)
    requires
        0 <= i < 16,
    ensures
        format_hex(v)[i] == hex_char(((v >> (4 * (15 - i)) as u64) & 0xf) as int),
{
    let k = (15 - i) as nat;
    let sh = (4 * (15 - i)) as u64;
    lemma_u64_shr_is_div(v, sh);
    lemma_pow16_is_pow2(k);
    let x = v >> sh;
    assert(x & 0xf == x % 16) by (bit_vector);
}

proof fn lemma_pow16_positive(n: nat)
    ensures
        pow16(n) > 0,
    decreases n,
{
    if n > 0 {
        lemma_pow16_positive((n - 1) as nat);
    }
}

proof fn lemma_prefix_value(v: u64, k: int)
    requires
        0 <= k <= 16,
    ensures
        hex_value(format_hex(v).subrange(0, k)) == v as int / pow16((16 - k) as nat) as int,
    decreases k,
{
    let s = format_hex(v);
    if k == 0 {
        lemma_pow16_16();
        assert(s.subrange(0, 0).len() == 0);
        lemma_basic_div(v as int, pow16(16) as int);
    } else {
        lemma_prefix_value(v, k - 1);
        let pre = s.subrange(0, k);
        assert(pre.drop_last() =~= s.subrange(0, k - 1));
        let p = pow16((16 - k) as nat) as int;
        lemma_pow16_positive((16 - k) as nat);
        let q = v as int / p;
        assert(pow16((16 - (k - 1)) as nat) as int == p * 16);
        lemma_div_denominator(v as int, p, 16);
        lemma_fundamental_div_mod(q, 16);
        let d = q % 16;
        assert(0 <= d < 16);
        assert(pre.last() == hex_char(d));
        assert(hex_digit_value(hex_char(d)) == d);
        assert(hex_value(pre) == hex_value(s.subrange(0, k - 1)) * 16 + d);
        assert(v as int / (p * 16) == q / 16);
    }
}

impl InfluxID {
    /// Reads an identifier written as one to sixteen hexadecimal digits.
    pub fn new_str(s: &str) -> (r: Result<InfluxID, TSMError>)
        ensures
            r is Ok <==> is_hex_id(s@),
            r is Ok ==> r->Ok_0.0 as int == hex_value(s@),
            r is Err ==> r->Err_0.kind == ErrorKind::Decode,
    {
        let n = s.unicode_len();
        if n == 0 || n > 16 {
            return Err(TSMError::new(ErrorKind::Decode, "identifier must have 1 to 16 hex digits"));
        }
        let mut v: u64 = 0;
        let mut i: usize = 0;
        while i < n
            invariant
                n == s@.len(),
                1 <= n <= 16,
                i <= n,
                forall|j: int| 0 <= j < i ==> hex_digit_value(#[trigger] s@[j]) >= 0,
                v as int == hex_value(s@.subrange(0, i as int)),
                v < pow16(i as nat),
            decreases n - i,
        {
            let c = s.get_char(i);
            let d: u64 = if '0' <= c && c <= '9' {
                (c as u64) - ('0' as u64)
            } else if 'a' <= c && c <= 'f' {
                (c as u64) - ('a' as u64) + 10
            } else if 'A' <= c && c <= 'F' {
                (c as u64) - ('A' as u64) + 10
            } else {
                return Err(TSMError::new(ErrorKind::Decode, "identifier holds a non-hex digit"));
            };
            let ghost pre = s@.subrange(0, i as int + 1);
            proof {
                assert(pre.drop_last() =~= s@.subrange(0, i as int));
                assert(pre.last() == c);
                assert(pow16(i as nat) <= pow16(15)) by {
                    lemma_pow16_mono(i as nat, 15);
                }
                reveal_with_fuel(pow16, 16);
                assert(v * 16 + d < pow16(i as nat) * 16) by (nonlinear_arith)
                    requires
                        v < pow16(i as nat),
                        d < 16,
                ;
                assert(pow16(i as nat) * 16 <= 0x1_0000_0000_0000_0000) by (nonlinear_arith)
                    requires
                        pow16(i as nat) <= pow16(15),
                        pow16(15) == 0x1000_0000_0000_0000nat,
                ;
            }
            v = v * 16 + d;
            i = i + 1;
        }
        assert(s@.subrange(0, n as int) =~= s@);
        Ok(InfluxID(v))
    }

    /// The identifier that eight bytes encode, most significant byte first.
    pub fn from_be_bytes(bytes: [u8; 8]) -> (r: InfluxID)
        ensures
            r.0 as nat == be_uint(bytes@),
    {
        let v = read_be(bytes.as_slice(), 0, 8);
        assert(bytes@.subrange(0, 8) =~= bytes@);
        InfluxID(v)
    }

    /// The identifier as sixteen lowercase hexadecimal digits.
    pub fn to_string(&self) -> (r: String)
        ensures
            r@ == format_hex(self.0),
    {
        let v = self.0;
        let mut out: Vec<char> = Vec::new();
        let mut p: u64 = 0x1000_0000_0000_0000;
        let mut k: usize = 0;
        proof {
            reveal_with_fuel(pow16, 16);
        }
        while k < 16
            invariant
                k <= 16,
                k < 16 ==> p as nat == pow16((15 - k) as nat),
                k < 16 ==> p > 0,
                out@.len() == k,
                forall|j: int| 0 <= j < k ==> out@[j] == #[trigger] format_hex(v)[j],
            decreases 16 - k,
        {
            let d = (v / p) % 16;
            let c = if d < 10 {
                (('0' as u8) + (d as u8)) as char
            } else {
                (('a' as u8) + (d as u8) - 10) as char
            };
            assert(c == format_hex(v)[k as int]);
            out.push(c);
            proof {
                if k < 15 {
                    let x = pow16((14 - k) as nat);
                    assert(p as nat == 16 * x);
                    lemma_pow16_positive((14 - k) as nat);
                    assert((16 * x) / 16 == x) by (nonlinear_arith);
                }
            }
            p = p / 16;
            k = k + 1;
        }
        assert(out@ =~= format_hex(v));
        string_from_chars(out)
    }
}

proof fn lemma_pow16_mono(a: nat, b: nat)
    requires
        a <= b,
    ensures
        pow16(a) <= pow16(b),
    decreases b,
{
    if a < b {
        lemma_pow16_mono(a, (b - 1) as nat);
    }
}

} // verus!
