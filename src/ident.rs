//! 128-bit identifiers for commands and for items created offline.

use vstd::prelude::*;

verus! {

/// A UUID held as its 128 bits, most significant byte first, as
/// `uuid::Uuid::as_u128` gives them.
#[derive(Clone, Copy, Debug, PartialEq, Eq, Structural, Hash)]
pub struct Uuid {
    pub value: u128,
}

/// The lower-case hex digit for `d`, for `0 <= d < 16`.
pub open spec fn hex_digit(d: int) -> char {
    seq!['0', '1', '2', '3', '4', '5', '6', '7', '8', '9', 'a', 'b', 'c', 'd', 'e', 'f'][d]
}

/// The `n` lowest hex digits of `v`, most significant first.
pub open spec fn hex_digits(v: nat, n: nat) -> Seq<char>
    decreases n,
{
    if n == 0 {
        seq![]
    } else {
        hex_digits(v / 16, (n - 1) as nat).push(hex_digit((v % 16) as int))
    }
}

/// The hyphenated lower-case text of the UUID with the given bits: its 32
/// hex digits, most significant first, in groups of 8, 4, 4, 4 and 12
/// joined by `-`.
pub open spec fn uuid_text(value: u128) -> Seq<char> {
    let h = hex_digits(value as nat, 32);
    h.subrange(0, 8) + seq!['-'] + h.subrange(8, 12) + seq!['-'] + h.subrange(12, 16) + seq!['-']
        + h.subrange(16, 20) + seq!['-'] + h.subrange(20, 32)
}

/// `16` to the power `n`.
pub open spec fn pow16(n: nat) -> nat
    decreases n,
{
    if n == 0 {
        1
    } else {
        16 * pow16((n - 1) as nat)
    }
}

/// `hex_digits` gives `n` digits.
pub proof fn lemma_hex_digits_len(v: nat, n: nat)
    ensures
        hex_digits(v, n).len() == n,
    decreases n,
{
    if n > 0 {
        lemma_hex_digits_len(v / 16, (n - 1) as nat);
    }
}

/// Below `16` to the power `n`, distinct numbers have distinct `n` digits.
pub proof fn lemma_hex_digits_injective(v: nat, w: nat, n: nat)
    requires
        v < pow16(n),
        w < pow16(n),
        hex_digits(v, n) == hex_digits(w, n),
    ensures
        v == w,
    decreases n,
{
    if n > 0 {
        let hv = hex_digits(v, n);
        let hw = hex_digits(w, n);
        assert(hv.last() == hw.last());
        assert(hv.drop_last() =~= hex_digits(v / 16, (n - 1) as nat));
        assert(hw.drop_last() =~= hex_digits(w / 16, (n - 1) as nat));
        let dv = (v % 16) as int;
        let dw = (w % 16) as int;
        assert(dv == dw) by {
            assert(0 <= dv < 16 && 0 <= dw < 16);
            assert(hex_digit(dv) == hex_digit(dw));
        }
        let p = pow16((n - 1) as nat);
        assert(v / 16 < p && w / 16 < p) by (nonlinear_arith)
            requires
                v < 16 * p,
                w < 16 * p,
        ;
        lemma_hex_digits_injective(v / 16, w / 16, (n - 1) as nat);
        assert(v == 16 * (v / 16) + v % 16 && w == 16 * (w / 16) + w % 16) by (nonlinear_arith);
    }
}

/// Distinct UUIDs have distinct texts.
pub proof fn lemma_uuid_text_injective(a: u128, b: u128)
    requires
        uuid_text(a) == uuid_text(b),
    ensures
        a == b,
{
    let ha = hex_digits(a as nat, 32);
    let hb = hex_digits(b as nat, 32);
    lemma_hex_digits_len(a as nat, 32);
    lemma_hex_digits_len(b as nat, 32);
    let ta = uuid_text(a);
    let tb = uuid_text(b);
    assert(ha =~= ta.subrange(0, 8) + ta.subrange(9, 13) + ta.subrange(14, 18) + ta.subrange(19, 23)
        + ta.subrange(24, 36));
    assert(hb =~= tb.subrange(0, 8) + tb.subrange(9, 13) + tb.subrange(14, 18) + tb.subrange(19, 23)
        + tb.subrange(24, 36));
    assert(pow16(32) == 0x1_0000_0000_0000_0000_0000_0000_0000_0000nat) by {
        reveal_with_fuel(pow16, 33);
    }
    lemma_hex_digits_injective(a as nat, b as nat, 32);
}

/// Whether `value` carries the marks of a random (version 4) UUID: version
/// nibble 4 and variant bits `10`.
pub open spec fn is_v4(value: u128) -> bool {
    (value >> 76u128) & 0xfu128 == 4 && (value >> 62u128) & 0x3u128 == 2
}

/// Relies on `uuid::Uuid::from_u128` and on `Display` for `uuid::Uuid`,
/// which writes the hyphenated lower-case form of the bits.
#[verifier::external_body]
fn hyphenated(value: u128) -> (r: String)
    ensures
        r@ == uuid_text(value),
{
    uuid::Uuid::from_u128(value).to_string()
}

/// The bits of the `c`-th spare identifier: the version and variant marks
/// of a version-4 UUID, with `c` spread over the low 62 bits and bits 64
/// and 65.
pub open spec fn spare_value(c: u64) -> u128 {
    0x4000_8000_0000_0000_0000u128 | ((c as u128) & 0x3fff_ffff_ffff_ffffu128) | (((c as u128)
        >> 62u128) << 64u128)
}

/// Spare identifiers carry the version-4 marks, and distinct indices give
/// distinct identifiers.
pub proof fn lemma_spare_value(c: u64, d: u64)
    ensures
        is_v4(spare_value(c)),
        spare_value(c) == spare_value(d) ==> c == d,
{
    assert(((0x4000_8000_0000_0000_0000u128 | ((c as u128) & 0x3fff_ffff_ffff_ffffu128) | (((
    c as u128) >> 62u128) << 64u128)) >> 76u128) & 0xfu128 == 4) by (bit_vector);
    assert(((0x4000_8000_0000_0000_0000u128 | ((c as u128) & 0x3fff_ffff_ffff_ffffu128) | (((
    c as u128) >> 62u128) << 64u128)) >> 62u128) & 0x3u128 == 2) by (bit_vector);
    assert((0x4000_8000_0000_0000_0000u128 | ((c as u128) & 0x3fff_ffff_ffff_ffffu128) | (((
    c as u128) >> 62u128) << 64u128)) == (0x4000_8000_0000_0000_0000u128 | ((d as u128)
        & 0x3fff_ffff_ffff_ffffu128) | (((d as u128) >> 62u128) << 64u128)) ==> c == d)
        by (bit_vector);
}

/// The `c`-th spare identifier, used where random draws keep clashing.
pub(crate) fn spare_uuid(c: u64) -> (r: Uuid)
    ensures
        r.value == spare_value(c),
        is_v4(r.value),
{
    proof {
        lemma_spare_value(c, c);
    }
    let v = c as u128;
    Uuid {
        value: 0x4000_8000_0000_0000_0000u128 | (v & 0x3fff_ffff_ffff_ffffu128) | ((v >> 62u128)
            << 64u128),
    }
}

/// Some `c` in `0..=n` is a value that no element of `s` has, when `s`
/// has at most `n` elements.
pub proof fn lemma_missing_value(s: Seq<int>, n: nat)
    requires
        s.len() <= n,
    ensures
        exists|c: int| 0 <= c <= n && !s.contains(c),
    decreases n,
{
    if n == 0 {
        assert(!s.contains(0));
    } else if !s.contains(n as int) {
    } else {
        let k = choose|k: int| 0 <= k < s.len() && s[k] == n as int;
        let t = s.remove(k);
        lemma_missing_value(t, (n - 1) as nat);
        let c = choose|c: int| 0 <= c <= n - 1 && !t.contains(c);
        if s.contains(c) {
            let j = choose|j: int| 0 <= j < s.len() && s[j] == c;
            if j < k {
                assert(t[j] == c);
            } else {
                assert(j != k);
                assert(t[j - 1] == c);
            }
        }
    }
}

/// Whether none of the blockers `0..n` hits the candidate `c`.
pub open spec fn unhit(n: nat, hits: spec_fn(int, int) -> bool, c: int) -> bool {
    forall|i: int| 0 <= i < n ==> !#[trigger] hits(i, c)
}

/// Among `n + 1` candidates, one is hit by none of `n` blockers when each
/// blocker hits at most one candidate.
pub proof fn lemma_some_candidate_free(n: nat, hits: spec_fn(int, int) -> bool)
    requires
        forall|i: int, c: int, d: int|
            0 <= i < n && #[trigger] hits(i, c) && #[trigger] hits(i, d) ==> c == d,
    ensures
        exists|c: int| 0 <= c <= n && #[trigger] unhit(n, hits, c),
{
    let s = Seq::new(
        n,
        |i: int|
            if exists|c: int| #[trigger] hits(i, c) {
                choose|c: int| #[trigger] hits(i, c)
            } else {
                -1
            },
    );
    lemma_missing_value(s, n);
    let c = choose|c: int| 0 <= c <= n && !s.contains(c);
    assert forall|i: int| 0 <= i < n implies !#[trigger] hits(i, c) by {
        if hits(i, c) {
            let c0 = choose|c0: int| #[trigger] hits(i, c0);
            assert(s[i] == c0);
            assert(s.contains(c0));
        }
    }
    assert(unhit(n, hits, c));
}

/// Relies on `uuid::Uuid::new_v4`: random bits, with the version nibble set
/// to 4 and the variant bits to `10`; and on `uuid::Uuid::as_u128`.
#[verifier::external_body]
pub(crate) fn random_uuid() -> (r: Uuid)
    ensures
        is_v4(r.value),
{
    Uuid { value: uuid::Uuid::new_v4().as_u128() }
}

impl Uuid {
    /// The hyphenated lower-case text of this identifier, the form in which
    /// it stands in item ids and in the server's status map.
    pub fn text(&self) -> (r: String)
        ensures
            r@ == uuid_text(self.value),
    {
        hyphenated(self.value)
    }
}

} // verus!
