//! Identifiers that are the same on every run.

use uuid::Uuid;
use vstd::prelude::*;

verus! {

/// The type of identifiers, `uuid::Uuid`.
#[verifier::external_type_specification]
#[verifier::external_body]
pub struct ExUuid(Uuid);

/// The 128-bit value of a UUID, which `Uuid::as_u128` returns.
pub uninterp spec fn uuid_value(id: Uuid) -> u128;

/// `Uuid::from_u128`: the UUID with that 128-bit value.
pub assume_specification[ Uuid::from_u128 ](v: u128) -> (id: Uuid)
    ensures
        uuid_value(id) == v,
;

/// `Uuid::as_u128`: the 128-bit value of a UUID.
pub assume_specification[ Uuid::as_u128 ](id: &Uuid) -> (v: u128)
    ensures
        v == uuid_value(*id),
;

/// A hexadecimal digit, in lower case.
pub open spec fn hex_digit(d: nat) -> char
    recommends
        d < 16,
{
    if d < 10 {
        (('0' as nat) + d) as char
    } else {
        (('a' as nat) + (d - 10)) as char
    }
}

/// The number of hyphens before a position of a UUID's text.
pub open spec fn hyphens_before(i: int) -> int {
    if i <= 8 {
        0
    } else if i <= 13 {
        1
    } else if i <= 18 {
        2
    } else if i <= 23 {
        3
    } else {
        4
    }
}

/// A UUID as text: its thirty-two hexadecimal digits, the most significant one
/// first, in groups of eight, four, four, four and twelve.
pub open spec fn uuid_text(value: u128) -> Seq<char> {
    Seq::new(
        36,
        |i: int|
            if i == 8 || i == 13 || i == 18 || i == 23 {
                '-'
            } else {
                hex_digit(
                    (value as int / vstd::arithmetic::power::pow(
                        16,
                        (31 - (i - hyphens_before(i))) as nat,
                    ) % 16) as nat,
                )
            },
    )
}

/// `Uuid`'s `to_string`: the hyphenated form, in lower case.
#[verifier::external_body]
pub(crate) fn uuid_string(id: Uuid) -> (text: String)
    ensures
        text@ == uuid_text(uuid_value(id)),
{
    id.to_string()
}

/// Identifiers of components added to a simulation.
pub const UUID_DOMAIN_COMPONENT: u64 = 0x434F_4D50_4F4E_454E;

/// Identifiers of tasks scheduled by a scheduler.
pub const UUID_DOMAIN_TASK: u64 = 0x5441_534B_5F49_445F;

/// Identifiers of keys made by hand.
pub const UUID_DOMAIN_KEY: u64 = 0x4B45_595F_5F49_445F;

/// Identifiers of tasks made by hand.
pub const UUID_DOMAIN_MANUAL_TASK: u64 = 0x4D41_4E55_5441_534B;

/// The number that the SplitMix64 generator steps by.
pub const GOLDEN_GAMMA: u64 = 0x9E37_79B9_7F4A_7C15;

/// The output function of the SplitMix64 generator.
pub open spec fn scrambled(a: u64) -> u64 {
    let b = (a ^ (a >> 30)).wrapping_mul(0xBF58_476D_1CE4_E5B9);
    let c = (b ^ (b >> 27)).wrapping_mul(0x94D0_49BB_1331_11EB);
    c ^ (c >> 31)
}

pub fn scramble(a: u64) -> (z: u64)
    ensures
        z == scrambled(a),
{
    let b: u64 = (a ^ (a >> 30)).wrapping_mul(0xBF58_476D_1CE4_E5B9);
    let c: u64 = (b ^ (b >> 27)).wrapping_mul(0x94D0_49BB_1331_11EB);
    c ^ (c >> 31)
}

/// The first output of the SplitMix64 generator in a given state.
pub open spec fn mixed(x: u64) -> u64 {
    scrambled(x.wrapping_add(GOLDEN_GAMMA))
}

pub fn splitmix64(x: u64) -> (z: u64)
    ensures
        z == mixed(x),
{
    scramble(x.wrapping_add(GOLDEN_GAMMA))
}

/// The 128-bit value of the identifier number `counter` of a seed and a domain:
/// two mixed words, side by side.
pub open spec fn derived_id(seed: u64, domain: u64, counter: u64) -> u128 {
    let x = seed ^ domain ^ counter;
    let high = mixed(x.wrapping_add(0xD1B5_4A32_D192_ED03));
    ((high as u128) << 64) | (mixed(x) as u128)
}

/// Derives a UUID from a seed, a domain and a counter, so that component and
/// task identifiers are the same on every run.
pub fn deterministic_uuid(seed: u64, domain: u64, counter: u64) -> (id: Uuid)
    ensures
        uuid_value(id) == derived_id(seed, domain, counter),
{
    let x: u64 = seed ^ domain ^ counter;
    let low: u64 = splitmix64(x);
    let high: u64 = splitmix64(x.wrapping_add(0xD1B5_4A32_D192_ED03));
    Uuid::from_u128(((high as u128) << 64) | (low as u128))
}

/// Multiplication by a number that has an inverse can be undone.
pub proof fn wrapping_product_is_undone(x: u64, m: u64, inv: u64)
    requires
        (m * inv) % 0x1_0000_0000_0000_0000 == 1,
    ensures
        x.wrapping_mul(m).wrapping_mul(inv) == x,
{
    let r: int = 0x1_0000_0000_0000_0000;
    let xm: int = x * m;
    vstd::arithmetic::div_mod::lemma_mul_mod_noop_left(xm, inv as int, r);
    assert((xm % r) * inv % r == xm * inv % r);
    assert(xm * inv == x * (m * inv)) by (nonlinear_arith)
        requires
            xm == x * m,
    ;
    vstd::arithmetic::div_mod::lemma_mul_mod_noop_right(x as int, m * inv, r);
    assert(x * ((m * inv) % r) % r == x * (m * inv) % r);
    assert(x as int % r == x);
}

/// Distinct inputs are scrambled into distinct outputs.
pub proof fn scrambled_is_injective(a1: u64, a2: u64)
    requires
        scrambled(a1) == scrambled(a2),
    ensures
        a1 == a2,
{
    let p1 = a1 ^ (a1 >> 30);
    let p2 = a2 ^ (a2 >> 30);
    let b1 = p1.wrapping_mul(0xBF58_476D_1CE4_E5B9);
    let b2 = p2.wrapping_mul(0xBF58_476D_1CE4_E5B9);
    let q1 = b1 ^ (b1 >> 27);
    let q2 = b2 ^ (b2 >> 27);
    let c1 = q1.wrapping_mul(0x94D0_49BB_1331_11EB);
    let c2 = q2.wrapping_mul(0x94D0_49BB_1331_11EB);
    assert(c1 ^ (c1 >> 31) == c2 ^ (c2 >> 31) ==> c1 == c2) by (bit_vector);
    wrapping_product_is_undone(q1, 0x94D0_49BB_1331_11EB, 0x3196_42B2_D24D_8EC3);
    wrapping_product_is_undone(q2, 0x94D0_49BB_1331_11EB, 0x3196_42B2_D24D_8EC3);
    assert(q1 == q2);
    assert(b1 ^ (b1 >> 27) == b2 ^ (b2 >> 27) ==> b1 == b2) by (bit_vector);
    wrapping_product_is_undone(p1, 0xBF58_476D_1CE4_E5B9, 0x96DE_1B17_3F11_9089);
    wrapping_product_is_undone(p2, 0xBF58_476D_1CE4_E5B9, 0x96DE_1B17_3F11_9089);
    assert(p1 == p2);
    assert(a1 ^ (a1 >> 30) == a2 ^ (a2 >> 30) ==> a1 == a2) by (bit_vector);
}

/// Distinct inputs are mixed into distinct outputs.
pub proof fn mixed_is_injective(x: u64, y: u64)
    requires
        mixed(x) == mixed(y),
    ensures
        x == y,
{
    scrambled_is_injective(x.wrapping_add(GOLDEN_GAMMA), y.wrapping_add(GOLDEN_GAMMA));
}

/// Within one seed and one domain, distinct counters give distinct identifiers.
pub proof fn derived_ids_are_distinct(seed: u64, domain: u64, i: u64, j: u64)
    requires
        i != j,
    ensures
        derived_id(seed, domain, i) != derived_id(seed, domain, j),
{
    let x = seed ^ domain ^ i;
    let y = seed ^ domain ^ j;
    assert(i != j ==> seed ^ domain ^ i != seed ^ domain ^ j) by (bit_vector);
    if mixed(x) == mixed(y) {
        mixed_is_injective(x, y);
    }
    let h1 = mixed(x.wrapping_add(0xD1B5_4A32_D192_ED03));
    let h2 = mixed(y.wrapping_add(0xD1B5_4A32_D192_ED03));
    let l1 = mixed(x);
    let l2 = mixed(y);
    assert(l1 != l2 ==> ((h1 as u128) << 64) | (l1 as u128) != ((h2 as u128) << 64) | (
    l2 as u128)) by (bit_vector);
}

/// Within one counter and domain, distinct seeds give distinct identifiers.
pub proof fn derived_ids_follow_the_seed(domain: u64, counter: u64, s: u64, t: u64)
    requires
        s != t,
    ensures
        derived_id(s, domain, counter) != derived_id(t, domain, counter),
{
    assert(s ^ domain ^ counter == counter ^ domain ^ s) by (bit_vector);
    assert(t ^ domain ^ counter == counter ^ domain ^ t) by (bit_vector);
    derived_ids_are_distinct(counter, domain, s, t);
}

} // verus!
