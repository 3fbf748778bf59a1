//! Fresh short codes.
use vstd::prelude::*;
use vstd::string::StrSliceExecFns;

verus! {

/// How many characters a short code has.
pub const CODE_LEN: usize = 8;

/// A lowercase hexadecimal digit.
pub open spec fn is_lower_hex(c: char) -> bool {
    ('0' <= c && c <= '9') || ('a' <= c && c <= 'f')
}

/// The form of every code the service makes: eight lowercase hexadecimal
/// digits.
pub open spec fn is_code_form(c: Seq<char>) -> bool {
    c.len() == CODE_LEN && forall|i: int| 0 <= i < c.len() ==> is_lower_hex(#[trigger] c[i])
}

/// Relies on uuid::Uuid::new_v4 and the Uuid's Display: a random version 4
/// UUID written in its hyphenated lowercase form, 36 characters whose first
/// eight are hexadecimal digits.
#[verifier::external_body]
fn random_uuid_text() -> (r: String)
    ensures
        r@.len() == 36,
        forall|i: int| 0 <= i < 8 ==> is_lower_hex(#[trigger] r@[i]),
{
    uuid::Uuid::new_v4().to_string()
}

/// A random candidate code: the first eight characters of a fresh UUID.
pub fn new_code() -> (r: String)
    ensures
        is_code_form(r@),
{
    let text = random_uuid_text();
    let head = text.as_str().substring_char(0, CODE_LEN);
    head.to_owned()
}

} // verus!
