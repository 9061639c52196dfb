use crate::bytes::copy_range;
use crate::error::{ErrorKind, TSMError};
use crate::text::{latin1, string_from_chars, string_from_utf8};
use vstd::utf8::{decode_utf8, valid_utf8};
use vstd::prelude::*;

verus! {

/// Bytes before the measurement name: org id, bucket id, `,`, `\0` and `=`.
pub const KEY_PREFIX_LEN: usize = 19;

/// Length of the delimiter between the two copies of the field name.
pub const FIELD_DELIMITER_LEN: usize = 4;

/// The parts of a series key: measurement, tags in key order, and field.
#[derive(Clone, Debug)]
pub struct ParsedTSMKey {
    pub measurement: String,
    pub tagset: Vec<(String, String)>,
    pub field_key: String,
}

/// Tag names and values as character sequences.
pub open spec fn tags_view(t: Seq<(String, String)>) -> Seq<(Seq<char>, Seq<char>)> {
    t.map_values(|p: (String, String)| (p.0@, p.1@))
}

/// Position of the first `,` in `k` at or after `i`, or `k.len()` if none.
pub open spec fn first_comma_from(k: Seq<u8>, i: int) -> int
    decreases k.len() - i,
{
    if i >= k.len() {
        k.len() as int
    } else if k[i] == 0x2C {
        i
    } else {
        first_comma_from(k, i + 1)
    }
}

/// The state after reading tag bytes: the pairs closed by a `,`, whether a
/// name is being read, and the open name and value.
pub open spec fn scan_tags(b: Seq<u8>) -> (Seq<(Seq<char>, Seq<char>)>, bool, Seq<char>, Seq<char>)
    decreases b.len(),
{
    if b.len() == 0 {
        (seq![], true, seq![], seq![])
    } else {
        let (tags, reading_name, name, value) = scan_tags(b.drop_last());
        let c = b.last();
        if c == 0x2C {
            (tags.push((name, value)), true, seq![], seq![])
        } else if c == 0x3D {
            (tags, false, name, value)
        } else if reading_name {
            (tags, reading_name, name.push(latin1(c)), value)
        } else {
            (tags, reading_name, name, value.push(latin1(c)))
        }
    }
}

/// The bytes of the measurement name.
pub open spec fn measurement_bytes(k: Seq<u8>) -> Seq<u8> {
    k.subrange(KEY_PREFIX_LEN as int, first_comma_from(k, KEY_PREFIX_LEN as int))
}

/// The bytes after the `,` that ends the measurement name.
pub open spec fn tag_bytes(k: Seq<u8>) -> Seq<u8> {
    let m = first_comma_from(k, KEY_PREFIX_LEN as int);
    if m < k.len() {
        k.subrange(m + 1, k.len() as int)
    } else {
        seq![]
    }
}

/// The last value read: the field name, a delimiter, and the field name again.
pub open spec fn field_blob(k: Seq<u8>) -> Seq<char> {
    scan_tags(tag_bytes(k)).3
}

/// Whether a key has the shape that `parse_tsm_key` accepts.
pub open spec fn key_parses(k: Seq<u8>) -> bool {
    k.len() > KEY_PREFIX_LEN && valid_utf8(measurement_bytes(k)) && field_blob(k).len()
        >= FIELD_DELIMITER_LEN
}

/// `r` is what parsing the key `k` gives: a parse exactly where the key has
/// the expected shape, a decode error elsewhere.
pub open spec fn parsed_from(k: Seq<u8>, r: Result<ParsedTSMKey, TSMError>) -> bool {
    &&& r is Ok <==> key_parses(k)
    &&& r is Err ==> r->Err_0.kind == ErrorKind::Decode
    &&& r is Ok ==> {
        let p = r->Ok_0;
        let blob = field_blob(k);
        &&& p.measurement@ == decode_utf8(measurement_bytes(k))
        &&& tags_view(p.tagset@) == scan_tags(tag_bytes(k)).0
        &&& p.field_key@ == blob.subrange(0, (blob.len() - FIELD_DELIMITER_LEN) / 2)
    }
}

proof fn lemma_first_comma(k: Seq<u8>, i: int)
    requires
        0 <= i <= k.len(),
    ensures
        i <= first_comma_from(k, i) <= k.len(),
        forall|j: int| i <= j < first_comma_from(k, i) ==> k[j] != 0x2C,
        first_comma_from(k, i) < k.len() ==> k[first_comma_from(k, i)] == 0x2C,
    decreases k.len() - i,
{
    if i < k.len() && k[i] != 0x2C {
        lemma_first_comma(k, i + 1);
    }
}

/// Splits a series key into measurement, tag set and field name.
///
/// The measurement must be UTF-8; tag names, values and the field name take
/// each byte as one character.
pub fn parse_tsm_key(key: Vec<u8>) -> (r: Result<ParsedTSMKey, TSMError>)
    ensures
        parsed_from(key@, r),
{
    let len = key.len();
    if len <= KEY_PREFIX_LEN {
        return Err(TSMError::new(ErrorKind::Decode, "series key is too short"));
    }
    let mut m: usize = KEY_PREFIX_LEN;
    proof {
        lemma_first_comma(key@, KEY_PREFIX_LEN as int);
    }
    while m < len && key[m] != 0x2C
        invariant
            len == key@.len(),
            KEY_PREFIX_LEN <= m <= len,
            first_comma_from(key@, m as int) == first_comma_from(key@, KEY_PREFIX_LEN as int),
        decreases len - m,
    {
        m = m + 1;
    }
    let measurement = match string_from_utf8(copy_range(key.as_slice(), KEY_PREFIX_LEN, m)) {
        Some(s) => s,
        None => {
            return Err(TSMError::new(ErrorKind::Decode, "measurement is not valid UTF-8"));
        },
    };
    let start: usize = if m < len {
        m + 1
    } else {
        len
    };
    let ghost rest = key@.subrange(start as int, len as int);
    assert(rest =~= tag_bytes(key@));
    let mut tagset: Vec<(String, String)> = Vec::new();
    let mut reading_name = true;
    let mut name: Vec<char> = Vec::new();
    let mut value: Vec<char> = Vec::new();
    let mut i: usize = start;
    while i < len
        invariant
            len == key@.len(),
            start <= i <= len,
            rest == key@.subrange(start as int, len as int),
            scan_tags(key@.subrange(start as int, i as int)) == (
            tags_view(tagset@),
            reading_name,
            name@,
            value@,
            ),
        decreases len - i,
    {
        let ghost pre = key@.subrange(start as int, i as int + 1);
        assert(pre.drop_last() =~= key@.subrange(start as int, i as int));
        let b = key[i];
        if b == 0x2C {
            let n = string_from_chars(name);
            let v = string_from_chars(value);
            let ghost old_tags = tagset@;
            tagset.push((n, v));
            assert(tags_view(tagset@) =~= tags_view(old_tags).push((n@, v@)));
            reading_name = true;
            name = Vec::new();
            value = Vec::new();
        } else if b == 0x3D {
            reading_name = false;
        } else if reading_name {
            name.push(b as char);
        } else {
            value.push(b as char);
        }
        i = i + 1;
    }
    assert(key@.subrange(start as int, len as int) =~= rest);
    if value.len() < FIELD_DELIMITER_LEN {
        return Err(TSMError::new(ErrorKind::Decode, "field name is too short"));
    }
    let n = (value.len() - FIELD_DELIMITER_LEN) / 2;
    let mut field: Vec<char> = Vec::new();
    let mut j: usize = 0;
    while j < n
        invariant
            n <= value@.len(),
            j <= n,
            field@ == value@.subrange(0, j as int),
        decreases n - j,
    {
        field.push(value[j]);
        j = j + 1;
    }
    Ok(ParsedTSMKey { measurement, tagset, field_key: string_from_chars(field) })
}

} // verus!
