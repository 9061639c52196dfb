use vstd::prelude::*;
use vstd::string::StringExecFns;
use vstd::utf8::{decode_utf8, valid_utf8};

verus! {

/// The character that stands for a byte taken as Latin-1.
pub open spec fn latin1(b: u8) -> char {
    b as char
}

/// Relies on `String::from_utf8`: it succeeds exactly on valid UTF-8 and then
/// holds the characters that the bytes encode.
#[verifier::external_body]
pub(crate) fn string_from_utf8(b: Vec<u8>) -> (r: Option<String>)
    ensures
        r is Some <==> valid_utf8(b@),
        r is Some ==> r->0@ == decode_utf8(b@),
{
    String::from_utf8(b).ok()
}

/// Relies on `String`'s `FromIterator<char>`: the string holds the characters
/// in the order given.
#[verifier::external_body]
pub(crate) fn string_from_chars(v: Vec<char>) -> (r: String)
    ensures
        r@ == v@,
{
    v.into_iter().collect()
}

/// The decimal digits of `n`, most significant first.
pub open spec fn decimal(n: nat) -> Seq<char>
    decreases n,
{
    if n < 10 {
        seq![('0' as nat + n) as char]
    } else {
        decimal(n / 10).push(('0' as nat + n % 10) as char)
    }
}

/// An error text followed by the byte offset that it concerns.
pub open spec fn at_offset(text: Seq<char>, off: nat) -> Seq<char> {
    text + " at offset "@ + decimal(off)
}

fn digit_char(d: u64) -> (c: char)
    requires
        d < 10,
    ensures
        c == ('0' as nat + d) as char,
{
    (('0' as u8) + (d as u8)) as char
}

fn decimal_chars(n: u64) -> (r: Vec<char>)
    ensures
        r@ == decimal(n as nat),
    decreases n,
{
    if n < 10 {
        let mut v: Vec<char> = Vec::new();
        v.push(digit_char(n));
        assert(v@ =~= decimal(n as nat));
        v
    } else {
        let mut v = decimal_chars(n / 10);
        v.push(digit_char(n % 10));
        v
    }
}

/// `n` written in decimal.
pub fn decimal_string(n: u64) -> (r: String)
    ensures
        r@ == decimal(n as nat),
{
    string_from_chars(decimal_chars(n))
}

/// `text` followed by the offset that it concerns.
pub fn describe_at(text: &str, off: u64) -> (r: String)
    ensures
        r@ == at_offset(text@, off as nat),
{
    let mut s = String::from_str(text);
    s.append(" at offset ");
    let digits = decimal_string(off);
    s.append(digits.as_str());
    s
}

} // verus!
