use vstd::prelude::*;

verus! {

/// The name-based identifier that uuid's `Uuid::new_v5` derives from `name` in the X.500
/// namespace, taken as its 128-bit number. It depends on the bytes of `name` alone.
pub uninterp spec fn uuid_v5_x500(name: Seq<char>) -> u128;

/// A fresh random identifier: uuid's `Uuid::new_v4`, taken as its 128-bit number.
/// The result is random, so nothing is stated of it.
#[verifier::external_body]
pub(crate) fn random_id() -> (r: u128) {
    uuid::Uuid::new_v4().as_u128()
}

/// uuid's `Uuid::new_v5` in the X.500 namespace over the UTF-8 bytes of `name`, taken as
/// its 128-bit number.
#[verifier::external_body]
pub(crate) fn name_based_id(name: &str) -> (r: u128)
    ensures
        r == uuid_v5_x500(name@),
{
    uuid::Uuid::new_v5(&uuid::Uuid::NAMESPACE_X500, name.as_bytes()).as_u128()
}

} // verus!

verus! {

/// The lower-case hexadecimal digit for `n`, from 0 to 15.
pub open spec fn hex_digit(n: int) -> char {
    if n < 10 {
        (48 + n) as char
    } else {
        (87 + n) as char
    }
}

/// The 32 lower-case hexadecimal digits of `id`, the most significant first.
pub open spec fn hex_digits(id: u128) -> Seq<char> {
    Seq::new(32, |i: int| hex_digit((id as int / vstd::arithmetic::power::pow(16, (31 - i) as nat)) % 16))
}

/// The text that uuid's `Display` gives for the identifier with 128-bit number `id`: its
/// hyphenated, lower-case hexadecimal form, the digits in groups of 8, 4, 4, 4 and 12.
pub open spec fn uuid_hyphenated(id: u128) -> Seq<char> {
    let h = hex_digits(id);
    h.subrange(0, 8) + seq!['-'] + h.subrange(8, 12) + seq!['-'] + h.subrange(12, 16) + seq!['-']
        + h.subrange(16, 20) + seq!['-'] + h.subrange(20, 32)
}

/// uuid's `Uuid::from_u128` followed by its `to_string`: `from_u128` takes the number's bytes
/// most significant first, and `Display` writes them as the hyphenated lower-case text above.
#[verifier::external_body]
pub(crate) fn uuid_to_string(id: u128) -> (r: String)
    ensures
        r@ == uuid_hyphenated(id),
{
    uuid::Uuid::from_u128(id).to_string()
}

} // verus!

verus! {

/// What uuid's `Uuid::from_str` reads from `text`: the identifier's 128-bit number, or the
/// text of the parse error.
pub uninterp spec fn uuid_parsed(text: Seq<char>) -> Result<u128, Seq<char>>;

/// uuid's `Uuid::from_str`, the identifier taken as its 128-bit number and an error as its
/// text.
#[verifier::external_body]
pub(crate) fn parse_uuid(text: &str) -> (r: Result<u128, String>)
    ensures
        match r {
            Ok(id) => uuid_parsed(text@) == Ok::<u128, Seq<char>>(id),
            Err(e) => uuid_parsed(text@) == Err::<u128, Seq<char>>(e@),
        },
{
    <uuid::Uuid as std::str::FromStr>::from_str(text).map(|id| id.as_u128()).map_err(|e| e.to_string())
}

} // verus!
