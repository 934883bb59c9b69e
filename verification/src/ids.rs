//! Universally unique identifiers, as 128-bit numbers.

use vstd::prelude::*;

verus! {

/// A lower case hexadecimal digit.
pub open spec fn hex_digit(d: int) -> char {
    if d < 10 {
        (48 + d) as char
    } else {
        (87 + d) as char
    }
}

/// The hyphens of an identifier that stand before position `i`.
pub open spec fn hyphens_before(i: int) -> int {
    (if i > 8 { 1int } else { 0 }) + (if i > 13 { 1int } else { 0 }) + (if i > 18 { 1int } else { 0 })
        + (if i > 23 { 1int } else { 0 })
}

/// An identifier as 32 hexadecimal digits, most significant first, in groups
/// of 8, 4, 4, 4 and 12 with hyphens between them.
pub open spec fn id_text(id: u128) -> Seq<char> {
    Seq::new(
        36,
        |i: int|
            if i == 8 || i == 13 || i == 18 || i == 23 {
                '-'
            } else {
                let place = 31 - (i - hyphens_before(i));
                hex_digit(id as int / vstd::arithmetic::power::pow(16, place as nat) % 16)
            },
    )
}

/// The identifier that `uuid` reads from a text; `None` where it rejects the
/// text.
pub uninterp spec fn read_id(text: Seq<char>) -> Option<u128>;

/// `Uuid::new_v4`: a random identifier. All that is known of it is that it is
/// not all zeros, since it holds its version.
#[verifier::external_body]
pub(crate) fn new_id() -> (r: u128)
    ensures
        r != 0,
{
    uuid::Uuid::new_v4().as_u128()
}

/// `Uuid::parse_str`.
#[verifier::external_body]
pub(crate) fn parse_id(text: &str) -> (r: Option<u128>)
    ensures
        r == read_id(text@),
{
    uuid::Uuid::parse_str(text).ok().map(|id| id.as_u128())
}

/// `Uuid::to_string`. `Uuid::parse_str` reads the text back.
#[verifier::external_body]
pub(crate) fn print_id(id: u128) -> (r: String)
    ensures
        r@ == id_text(id),
        read_id(r@) == Some(id),
{
    uuid::Uuid::from_u128(id).to_string()
}

/// The identifier that a text holds, or the one that is all zeros.
pub open spec fn id_or_nil(text: Seq<char>) -> u128 {
    match read_id(text) {
        Some(id) => id,
        None => 0,
    }
}

pub fn parse_id_or_nil(text: &str) -> (r: u128)
    ensures
        r == id_or_nil(text@),
{
    match parse_id(text) {
        Some(id) => id,
        None => 0,
    }
}

/// The numbers from 1 to `n`.
spec fn counted_to(n: u128) -> Set<u128> {
    Set::new(|k: u128| 1 <= k <= n)
}

proof fn lemma_counted_to(n: u128)
    ensures
        counted_to(n).finite(),
        counted_to(n).len() == n,
    decreases n,
{
    if n == 0 {
        assert(counted_to(0) =~= Set::empty());
    } else {
        lemma_counted_to((n - 1) as u128);
        assert(counted_to(n) =~= counted_to((n - 1) as u128).insert(n));
    }
}

/// An identifier that is not taken, and not all zeros: the one that was drawn,
/// or else the least that is free.
pub(crate) fn free_id(drawn: u128, taken: &std::collections::HashSet<u128>) -> (r: u128)
    requires
        drawn != 0,
        taken@.finite(),
    ensures
        r != 0,
        !taken@.contains(r),
        !taken@.contains(drawn) ==> r == drawn,
{
    broadcast use vstd::std_specs::hash::group_hash_axioms;

    if !taken.contains(&drawn) {
        return drawn;
    }
    let n = taken.len() as u128;
    let mut k: u128 = 1;
    while k <= n
        invariant
            1 <= k <= n + 1,
            n == taken@.len(),
            n <= usize::MAX,
            taken@.finite(),
            taken@.contains(drawn),
            forall|j: u128| 1 <= j < k ==> taken@.contains(j),
        decreases n + 1 - k,
    {
        if !taken.contains(&k) {
            return k;
        }
        k = k + 1;
    }
    proof {
        lemma_counted_to(k);
        if taken@.contains(k) {
            assert(counted_to(k).subset_of(taken@)) by {
                assert forall|j: u128| counted_to(k).contains(j) implies taken@.contains(j) by {
                    if j < k {
                        assert(1 <= j < k);
                    }
                }
            }
            vstd::set_lib::lemma_len_subset(counted_to(k), taken@);
        }
    }
    k
}

} // verus!
