use vstd::prelude::*;

verus! {

/// The sixteen digits, lower case.
pub open spec fn hex_digit(n: u8) -> char
    recommends
        n < 16,
{
    if n < 10 {
        ((n + 0x30) as char)
    } else {
        ((n + 0x57) as char)
    }
}

/// The lower-case hexadecimal form of a byte string: two digits per byte,
/// high nibble first.
pub open spec fn hex_of(bytes: Seq<u8>) -> Seq<char>
    decreases bytes.len(),
{
    if bytes.len() == 0 {
        Seq::empty()
    } else {
        seq![hex_digit(bytes[0] / 16), hex_digit(bytes[0] % 16)] + hex_of(bytes.drop_first())
    }
}

/// The hexadecimal form is twice as long as the bytes.
pub proof fn lemma_hex_of_len(bytes: Seq<u8>)
    ensures
        hex_of(bytes).len() == 2 * bytes.len(),
    decreases bytes.len(),
{
    if bytes.len() > 0 {
        lemma_hex_of_len(bytes.drop_first());
    }
}

pub open spec fn is_lower_hex(c: char) -> bool {
    ('0' <= c && c <= '9') || ('a' <= c && c <= 'f')
}

pub open spec fn is_hex_char(c: char) -> bool {
    is_lower_hex(c) || ('A' <= c && c <= 'F')
}

/// Relies on hex::encode: the lower-case hexadecimal form, two digits per
/// byte, high nibble first.
#[verifier::external_body]
pub fn encode(data: &Vec<u8>) -> (r: String)
    ensures
        r@ == hex_of(data@),
{
    hex::encode(data)
}

/// Relies on hex::decode: it accepts exactly the even-length strings of
/// hexadecimal digits of either case, and returns the bytes the digits
/// spell, so on a lower-case string it is the inverse of the encoding
/// above.
#[verifier::external_body]
pub fn decode(data: &String) -> (r: Result<Vec<u8>, ()>)
    ensures
        match r {
            Ok(b) => {
                &&& data@.len() == 2 * b@.len()
                &&& (forall|i: int| 0 <= i < data@.len() ==> is_hex_char(#[trigger] data@[i]))
                &&& ((forall|i: int| 0 <= i < data@.len() ==> is_lower_hex(#[trigger] data@[i]))
                    ==> hex_of(b@) == data@)
            },
            Err(_) => !(data@.len() % 2 == 0 && (forall|i: int|
                0 <= i < data@.len() ==> is_hex_char(#[trigger] data@[i]))),
        },
{
    hex::decode(data.as_str()).map_err(|_| ())
}

} // verus!
