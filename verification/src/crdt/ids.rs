//! Identifiers of users and of annotations.

use vstd::prelude::*;

verus! {

/// Identifies the user (replica) behind an edit. Users are ordered as their
/// 128-bit values; the ordering breaks ties between edits made at the same time.
#[derive(Debug, Clone, Copy, PartialEq, Eq, PartialOrd, Hash, Structural)]
pub struct UserId(pub u128);

/// Identifies an annotation across all replicas.
#[derive(Debug, Clone, Copy, PartialEq, Eq, PartialOrd, Hash, Structural)]
pub struct AnnotationId(pub u128);

/// Bits that carry a random UUID's version (4) and variant (`10`).
pub open spec fn is_v4_uuid(u: u128) -> bool {
    u & 0xF000_C000_0000_0000_0000u128 == 0x4000_8000_0000_0000_0000u128
}

/// Calls `uuid::Uuid::new_v4` and returns the UUID as its 128-bit value
/// (`Uuid::as_u128`). The value is random; the uuid source masks in the
/// version nibble 4 and the variant bits `10`, which is all that is claimed.
#[verifier::external_body]
pub(crate) fn random_uuid() -> (r: u128)
    ensures
        is_v4_uuid(r),
{
    uuid::Uuid::new_v4().as_u128()
}

/// The lowercase hexadecimal digit of `d`, for `0 <= d < 16`.
pub open spec fn hex_char(d: int) -> char {
    if d < 10 {
        (48 + d) as char
    } else {
        (87 + d) as char
    }
}

/// The last `k` hexadecimal digits of `n`, most significant first.
pub open spec fn hex_digits(n: nat, k: nat) -> Seq<char>
    decreases k,
{
    if k == 0 {
        Seq::empty()
    } else {
        hex_digits(n / 16, (k - 1) as nat).push(hex_char(n as int % 16))
    }
}

/// Calls `uuid::Uuid::from_u128(id).simple().to_string()`: the uuid source
/// writes the 16 big-endian bytes of `id` as 32 lowercase hexadecimal digits.
#[verifier::external_body]
fn uuid_simple_string(id: u128) -> (r: String)
    ensures
        r@ == hex_digits(id as nat, 32),
{
    uuid::Uuid::from_u128(id).simple().to_string()
}

proof fn lemma_hex_digits_len(n: nat, k: nat)
    ensures
        hex_digits(n, k).len() == k,
    decreases k,
{
    if k > 0 {
        lemma_hex_digits_len(n / 16, (k - 1) as nat);
    }
}

impl UserId {
    /// A fresh random user.
    pub fn random() -> (r: UserId)
        ensures
            is_v4_uuid(r.0),
    {
        UserId(random_uuid())
    }
}

impl AnnotationId {
    /// The annotation identifier whose UUID has the 128-bit value `id`.
    pub fn new(id: u128) -> (r: AnnotationId)
        ensures
            r.0 == id,
    {
        AnnotationId(id)
    }

    /// A fresh random annotation identifier.
    pub fn random() -> (r: AnnotationId)
        ensures
            is_v4_uuid(r.0),
    {
        AnnotationId(random_uuid())
    }

    /// The short label `id-` followed by the last two hexadecimal digits of the
    /// identifier, as the command line shows it.
    pub fn to_display_string(&self) -> (r: String)
        ensures
            r@ == seq!['i', 'd', '-'] + seq![
                hex_char((self.0 as int / 16) % 16),
                hex_char(self.0 as int % 16),
            ],
    {
        let hex = uuid_simple_string(self.0);
        proof {
            let n = self.0 as nat;
            lemma_hex_digits_len(n, 32);
            lemma_hex_digits_len(n / 16, 31);
            lemma_hex_digits_len(n / 16 / 16, 30);
            assert(hex_digits(n, 32) == hex_digits(n / 16, 31).push(hex_char(n as int % 16)));
            assert(hex_digits(n / 16, 31) == hex_digits(n / 16 / 16, 30).push(
                hex_char((n / 16) as int % 16),
            ));
        }
        let tail = hex.as_str().substring_char(30, 32);
        let mut r = "id-".to_string();
        proof {
            reveal_strlit("id-");
        }
        r.append(tail);
        assert(r@ =~= seq!['i', 'd', '-'] + seq![
            hex_char((self.0 as int / 16) % 16),
            hex_char(self.0 as int % 16),
        ]);
        r
    }
}

} // verus!
