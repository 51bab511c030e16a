use vstd::prelude::*;

verus! {

/// Relies on uuid's `Uuid::new_v4` and `Uuid::as_u128`: a freshly drawn
/// random identifier. Nothing is promised of the value.
#[verifier::external_body]
pub fn fresh_session_id() -> u128 {
    uuid::Uuid::new_v4().as_u128()
}

/// The 128-bit value of the version-5 UUID derived from the DNS namespace
/// and the given name bytes. It is a digest: a function of the name alone.
pub uninterp spec fn uuid_v5_dns_of(name: Seq<u8>) -> u128;

/// Relies on uuid's `Uuid::new_v5` with `Uuid::NAMESPACE_DNS`: the result
/// is SHA-1-derived from the namespace and the name bytes alone, so equal
/// names always give equal identifiers.
#[verifier::external_body]
pub fn room_id_for_code(name: &Vec<u8>) -> (r: u128)
    ensures
        r == uuid_v5_dns_of(name@),
{
    uuid::Uuid::new_v5(&uuid::Uuid::NAMESPACE_DNS, name.as_slice()).as_u128()
}

#[verifier::external_type_specification]
#[verifier::external_body]
pub struct ExThreadRng(rand::rngs::ThreadRng);

/// Relies on rand's `thread_rng`: a handle to the thread-local generator.
#[verifier::external_body]
pub fn fresh_rng() -> rand::rngs::ThreadRng {
    rand::thread_rng()
}

/// Relies on rand's `Rng::gen_range` on a half-open range, which panics on
/// an empty range and otherwise samples a value inside it.
#[verifier::external_body]
pub fn draw_in(rng: &mut rand::rngs::ThreadRng, lo: u32, hi: u32) -> (c: u32)
    requires
        lo < hi,
    ensures
        lo <= c < hi,
{
    rand::Rng::gen_range(rng, lo..hi)
}

/// Relies on std's `String::push`: appends exactly one character.
#[verifier::external_body]
pub fn push_char(s: &mut String, c: char)
    ensures
        final(s)@ == old(s)@.push(c),
{
    s.push(c);
}

} // verus!
