//! Scalars: their range, their base-16 spelling and their bits.
//!
//! Two moduli meet here.  Values inside the circuit live in the base field;
//! what a caller hands in is held to the smaller order of the subgroup that
//! the hash works in, because the strict bit decomposition of the hash is
//! only sound below that bound.

use vstd::prelude::*;
use num_bigint::{BigInt, ParseBigIntError};
use num_traits::Num;
use crate::encoding::{
    bytes_to_hex, encode_hex, hex_digit_value, hex_value, is_hex_digit, is_hex_text,
    lemma_bytes_round_trip, lemma_lower_hex_digit, lower_hex_digit,
};
use crate::error::PipelineError;

verus! {

/// The order of the subgroup that the hash works in.  A scalar that a caller
/// supplies must be below it.
pub open spec fn subgroup_order() -> nat {
    0x060c89ce5c263405370a08b6d0302b0bab3eedb83920ee0a677297dc392126f1nat
}

/// The modulus of the field in which circuit values live.
pub open spec fn base_modulus() -> nat {
    21888242871839275222246405745257275088548364400416034343698204186575808495617nat
}

/// Number of bits of a field element that enter a hash.
pub const FIELD_BITS: usize = 254;

/// Number of base-16 digits that `Scalar::to_hex` writes.
pub const SCALAR_HEX_WIDTH: usize = 64;

const ORDER_LIMB_0: u64 = 0x677297dc392126f1;

const ORDER_LIMB_1: u64 = 0xab3eedb83920ee0a;

const ORDER_LIMB_2: u64 = 0x370a08b6d0302b0b;

const ORDER_LIMB_3: u64 = 0x060c89ce5c263405;

/// The number held by four 64-bit limbs, least significant limb first.
pub open spec fn limbs_value(l: Seq<u64>) -> nat
    recommends
        l.len() == 4,
{
    (l[0] as nat) + 0x1_0000_0000_0000_0000 * (l[1] as nat)
        + 0x1_0000_0000_0000_0000_0000_0000_0000_0000 * (l[2] as nat)
        + 0x1_0000_0000_0000_0000_0000_0000_0000_0000_0000_0000_0000_0000 * (l[3] as nat)
}

/// The number held by any count of 64-bit digits, least significant first.
pub open spec fn le_value(digits: Seq<u64>) -> nat
    decreases digits.len(),
{
    if digits.len() == 0 {
        0
    } else {
        (digits[0] as nat) + 0x1_0000_0000_0000_0000 * le_value(digits.skip(1))
    }
}

/// The number held by bytes, most significant byte first.
pub open spec fn be_value(bytes: Seq<u8>) -> nat
    decreases bytes.len(),
{
    if bytes.len() == 0 {
        0
    } else {
        256 * be_value(bytes.drop_last()) + bytes.last() as nat
    }
}

/// The `n` low bytes of `v`, most significant byte first.
pub open spec fn be_bytes(v: nat, n: nat) -> Seq<u8>
    decreases n,
{
    if n == 0 {
        Seq::empty()
    } else {
        be_bytes(v / 256, (n - 1) as nat).push((v % 256) as u8)
    }
}

/// 256 to the power `n`: how many values `n` bytes can hold.
pub open spec fn byte_capacity(n: nat) -> nat
    decreases n,
{
    if n == 0 {
        1
    } else {
        256 * byte_capacity((n - 1) as nat)
    }
}

/// The `n` low bits of `v`, least significant bit first.
pub open spec fn bits_le(v: nat, n: nat) -> Seq<bool>
    decreases n,
{
    if n == 0 {
        Seq::empty()
    } else {
        seq![v % 2 == 1] + bits_le(v / 2, (n - 1) as nat)
    }
}

/// What reading a scalar from base-16 text gives: the number, or why the
/// text is refused.
pub open spec fn decode_scalar(s: Seq<char>) -> Result<nat, PipelineError> {
    if s.len() == 0 || !is_hex_text(s) {
        Err(PipelineError::MalformedHex)
    } else if hex_value(s) >= subgroup_order() {
        Err(PipelineError::OutOfRange)
    } else {
        Ok(hex_value(s))
    }
}

/// The spelling of a scalar: 64 lower-case base-16 digits, most significant
/// first.
pub open spec fn encode_scalar(v: nat) -> Seq<char> {
    bytes_to_hex(be_bytes(v, 32))
}

/// `num_bigint::ParseBigIntError`, of which nothing is read.
#[verifier::external_type_specification]
#[verifier::external_body]
pub struct ExParseBigIntError(ParseBigIntError);

/// `BigInt::from_str_radix` with radix 16, followed by
/// `BigInt::to_u64_digits`.  On a text made of one or more base-16 digits
/// and nothing else the parse succeeds, and the digits handed back hold, in
/// base 2^64 and least significant first, the number that the text denotes.
#[verifier::external_body]
fn bigint_digits_from_hex(text: &str) -> (r: Result<Vec<u64>, ParseBigIntError>)
    requires
        text@.len() > 0,
        is_hex_text(text@),
    ensures
        r is Ok,
        le_value(r->Ok_0@) == hex_value(text@),
{
    BigInt::from_str_radix(text, 16).map(|n| n.to_u64_digits().1)
}

/// An element of the base field: a number below its modulus, as four 64-bit
/// limbs, least significant first.  Hash outputs are of this kind.
pub struct FieldElement {
    limbs: [u64; 4],
}

/// A scalar that passed the range check: it is below the subgroup order.
pub struct Scalar {
    limbs: [u64; 4],
}

impl View for FieldElement {
    type V = nat;

    closed spec fn view(&self) -> nat {
        limbs_value(self.limbs@)
    }
}

impl View for Scalar {
    type V = nat;

    closed spec fn view(&self) -> nat {
        limbs_value(self.limbs@)
    }
}

proof fn lemma_le_value_skip(digits: Seq<u64>, k: nat)
    requires
        k <= digits.len(),
    ensures
        le_value(digits.skip(k as int)) <= le_value(digits),
    decreases k,
{
    if k == 0 {
        assert(digits.skip(0) =~= digits);
    } else {
        lemma_le_value_skip(digits.skip(1), (k - 1) as nat);
        assert(digits.skip(1).skip(k - 1) =~= digits.skip(k as int));
    }
}

/// Shifting limbs up by one place, with a new lowest limb, multiplies the
/// number by 2^64 and adds the new limb, as long as the top limb was empty.
proof fn lemma_limbs_shift(old_limbs: Seq<u64>, new_limbs: Seq<u64>)
    requires
        old_limbs[3] == 0,
        new_limbs[1] == old_limbs[0],
        new_limbs[2] == old_limbs[1],
        new_limbs[3] == old_limbs[2],
    ensures
        limbs_value(new_limbs) == (new_limbs[0] as nat) + 0x1_0000_0000_0000_0000 * limbs_value(
            old_limbs,
        ),
{
}

/// Folds digits of any count into four limbs, from the most significant
/// digit down; `None` when the number does not fit into 256 bits.
fn digits_to_limbs(digits: &Vec<u64>) -> (r: Option<[u64; 4]>)
    ensures
        match r {
            Some(l) => limbs_value(l@) == le_value(digits@),
            None => le_value(digits@) >= subgroup_order(),
        },
{
    let mut limbs: [u64; 4] = [0, 0, 0, 0];
    let mut i: usize = digits.len();
    assert(digits@.skip(i as int) =~= Seq::<u64>::empty());
    while i > 0
        invariant
            i <= digits.len(),
            limbs_value(limbs@) == le_value(digits@.skip(i as int)),
        decreases i,
    {
        let ghost rest = digits@.skip(i as int);
        i = i - 1;
        let ghost now = digits@.skip(i as int);
        assert(now.skip(1) =~= rest);
        assert(now[0] == digits@[i as int]);
        if limbs[3] != 0 {
            proof {
                lemma_le_value_skip(digits@, i as nat);
            }
            return None;
        }
        let shifted: [u64; 4] = [digits[i], limbs[0], limbs[1], limbs[2]];
        proof {
            lemma_limbs_shift(limbs@, shifted@);
        }
        limbs = shifted;
    }
    assert(digits@.skip(0) =~= digits@);
    Some(limbs)
}

/// The number held by the three upper limbs.
spec fn above_first(l: Seq<u64>) -> nat {
    (l[1] as nat) + 0x1_0000_0000_0000_0000 * above_second(l)
}

/// The number held by the two upper limbs.
spec fn above_second(l: Seq<u64>) -> nat {
    (l[2] as nat) + 0x1_0000_0000_0000_0000 * (l[3] as nat)
}

proof fn lemma_limbs_peel(l: Seq<u64>)
    ensures
        limbs_value(l) == (l[0] as nat) + 0x1_0000_0000_0000_0000 * above_first(l),
{
}

/// Numbers written as a digit below 2^64 and a rest are ordered by the rest
/// first and by the digit second.
proof fn lemma_digit_order(x: nat, rest_x: nat, y: nat, rest_y: nat)
    requires
        x < 0x1_0000_0000_0000_0000,
        y < 0x1_0000_0000_0000_0000,
    ensures
        (x + 0x1_0000_0000_0000_0000 * rest_x < y + 0x1_0000_0000_0000_0000 * rest_y) == (rest_x
            < rest_y || (rest_x == rest_y && x < y)),
        (x + 0x1_0000_0000_0000_0000 * rest_x == y + 0x1_0000_0000_0000_0000 * rest_y) == (rest_x
            == rest_y && x == y),
{
    if rest_x < rest_y {
        assert(0x1_0000_0000_0000_0000 * rest_x + 0x1_0000_0000_0000_0000
            <= 0x1_0000_0000_0000_0000 * rest_y);
    } else if rest_y < rest_x {
        assert(0x1_0000_0000_0000_0000 * rest_y + 0x1_0000_0000_0000_0000
            <= 0x1_0000_0000_0000_0000 * rest_x);
    }
}

/// Limb by limb from the top: whether `a` holds less than `b`.
spec fn limbs_precede(a: Seq<u64>, b: Seq<u64>) -> bool {
    a[3] < b[3] || (a[3] == b[3] && (a[2] < b[2] || (a[2] == b[2] && (a[1] < b[1] || (a[1] == b[1]
        && a[0] < b[0])))))
}

/// Four limbs hold their number in one way only, and numbers are ordered as
/// their limbs are, read from the top.
proof fn lemma_limbs_order(a: Seq<u64>, b: Seq<u64>)
    ensures
        (limbs_value(a) == limbs_value(b)) == (a[0] == b[0] && a[1] == b[1] && a[2] == b[2]
            && a[3] == b[3]),
        (limbs_value(a) < limbs_value(b)) == limbs_precede(a, b),
{
    lemma_limbs_peel(a);
    lemma_limbs_peel(b);
    lemma_digit_order(a[2] as nat, a[3] as nat, b[2] as nat, b[3] as nat);
    lemma_digit_order(a[1] as nat, above_second(a), b[1] as nat, above_second(b));
    lemma_digit_order(a[0] as nat, above_first(a), b[0] as nat, above_first(b));
}

/// Whether two sets of limbs hold the same number.
fn limbs_equal(a: &[u64; 4], b: &[u64; 4]) -> (same: bool)
    ensures
        same == (limbs_value(a@) == limbs_value(b@)),
{
    proof {
        lemma_limbs_order(a@, b@);
    }
    a[0] == b[0] && a[1] == b[1] && a[2] == b[2] && a[3] == b[3]
}

/// Whether four limbs hold a number below the subgroup order.
fn limbs_below_order(l: &[u64; 4]) -> (below: bool)
    ensures
        below == (limbs_value(l@) < subgroup_order()),
{
    let order: [u64; 4] = [ORDER_LIMB_0, ORDER_LIMB_1, ORDER_LIMB_2, ORDER_LIMB_3];
    proof {
        assert(limbs_value(order@) == subgroup_order());
        lemma_limbs_order(l@, order@);
    }
    if l[3] != order[3] {
        l[3] < order[3]
    } else if l[2] != order[2] {
        l[2] < order[2]
    } else if l[1] != order[1] {
        l[1] < order[1]
    } else {
        l[0] < order[0]
    }
}

/// Whether `text` is made of one or more base-16 digits and nothing else.
fn is_scalar_text(text: &str) -> (ok: bool)
    ensures
        ok == (text@.len() > 0 && is_hex_text(text@)),
{
    if !text.is_ascii() {
        assert(!is_hex_text(text@)) by {
            if is_hex_text(text@) {
                assert forall|i: int| 0 <= i < text@.len() implies '\0' <= #[trigger] text@[i]
                    <= '\u{7f}' by {
                    assert(is_hex_digit(text@[i]));
                }
            }
        }
        return false;
    }
    let bytes = text.as_bytes();
    proof {
        vstd::string::is_ascii_spec_bytes(text);
    }
    let n: usize = bytes.len();
    if n == 0 {
        return false;
    }
    let mut i: usize = 0;
    while i < n
        invariant
            i <= n,
            n == text@.len(),
            n == bytes@.len(),
            forall|k: int| 0 <= k < n ==> bytes@[k] == text@[k] as u8,
            vstd::string::is_ascii(text),
            forall|k: int| 0 <= k < i ==> is_hex_digit(#[trigger] text@[k]),
        decreases n - i,
    {
        let b: u8 = bytes[i];
        let digit = (0x30 <= b && b <= 0x39) || (0x61 <= b && b <= 0x66) || (0x41 <= b && b
            <= 0x46);
        assert('\0' <= text@[i as int] <= '\u{7f}');
        assert(digit == is_hex_digit(text@[i as int]));
        if !digit {
            return false;
        }
        i = i + 1;
    }
    true
}

impl FieldElement {
    #[verifier::type_invariant]
    spec fn below_modulus(&self) -> bool {
        limbs_value(self.limbs@) < base_modulus()
    }

    /// Builds the element that four limbs hold.
    pub(crate) fn from_limbs(limbs: [u64; 4]) -> (e: FieldElement)
        requires
            limbs_value(limbs@) < base_modulus(),
        ensures
            e@ == limbs_value(limbs@),
    {
        FieldElement { limbs }
    }

    /// The four limbs, least significant first.
    pub fn limbs(&self) -> (l: [u64; 4])
        ensures
            limbs_value(l@) == self@,
            self@ < base_modulus(),
    {
        proof {
            use_type_invariant(self);
        }
        self.limbs
    }

    /// Whether both hold the same number.
    pub fn same_as(&self, other: &FieldElement) -> (same: bool)
        ensures
            same == (self@ == other@),
    {
        limbs_equal(&self.limbs, &other.limbs)
    }

    /// The element as a scalar, if it is below the subgroup order.
    pub fn to_scalar(&self) -> (r: Option<Scalar>)
        ensures
            match r {
                Some(s) => s@ == self@ && self@ < subgroup_order(),
                None => self@ >= subgroup_order(),
            },
    {
        if limbs_below_order(&self.limbs) {
            Some(Scalar { limbs: self.limbs })
        } else {
            None
        }
    }

    /// The 254 low bits of the element, least significant first: what the
    /// hash takes in for it.
    pub fn bits(&self) -> (out: Vec<bool>)
        ensures
            out@ == bits_le(self@, FIELD_BITS as nat),
    {
        limbs_bits(&self.limbs)
    }
}

impl Scalar {
    #[verifier::type_invariant]
    spec fn below_order(&self) -> bool {
        limbs_value(self.limbs@) < subgroup_order()
    }

    /// Reads a scalar from base-16 text.  The text must be one or more
    /// base-16 digits; the number must be below the subgroup order.
    pub fn parse(text: &str) -> (r: Result<Scalar, PipelineError>)
        ensures
            match r {
                Ok(s) => decode_scalar(text@) == Ok::<nat, PipelineError>(s@),
                Err(e) => decode_scalar(text@) == Err::<nat, PipelineError>(e),
            },
    {
        if !is_scalar_text(text) {
            return Err(PipelineError::MalformedHex);
        }
        let digits = match bigint_digits_from_hex(text) {
            Ok(digits) => digits,
            Err(_) => {
                return Err(PipelineError::MalformedHex);
            },
        };
        match digits_to_limbs(&digits) {
            Some(limbs) => {
                if limbs_below_order(&limbs) {
                    Ok(Scalar { limbs })
                } else {
                    Err(PipelineError::OutOfRange)
                }
            },
            None => Err(PipelineError::OutOfRange),
        }
    }

    /// Spells the scalar as 64 lower-case base-16 digits.
    pub fn to_hex(&self) -> (text: String)
        ensures
            text@ == encode_scalar(self@),
            text@.len() == SCALAR_HEX_WIDTH,
    {
        let mut bytes: Vec<u8> = Vec::new();
        push_limb_bytes(&mut bytes, self.limbs[3]);
        push_limb_bytes(&mut bytes, self.limbs[2]);
        push_limb_bytes(&mut bytes, self.limbs[1]);
        push_limb_bytes(&mut bytes, self.limbs[0]);
        proof {
            lemma_be_bytes_of_value(bytes@);
        }
        encode_hex(bytes.as_slice())
    }

    /// The four limbs, least significant first.
    pub fn limbs(&self) -> (l: [u64; 4])
        ensures
            limbs_value(l@) == self@,
            self@ < subgroup_order(),
    {
        proof {
            use_type_invariant(self);
        }
        self.limbs
    }

    /// The scalar as an element of the base field.
    pub fn to_field(&self) -> (e: FieldElement)
        ensures
            e@ == self@,
            self@ < subgroup_order(),
    {
        proof {
            use_type_invariant(self);
        }
        FieldElement { limbs: self.limbs }
    }

    /// Whether both hold the same number.
    pub fn same_as(&self, other: &Scalar) -> (same: bool)
        ensures
            same == (self@ == other@),
    {
        limbs_equal(&self.limbs, &other.limbs)
    }

    /// A copy of the scalar.
    pub fn duplicate(&self) -> (s: Scalar)
        ensures
            s@ == self@,
    {
        proof {
            use_type_invariant(self);
        }
        Scalar { limbs: self.limbs }
    }
}

proof fn lemma_be_value_push(s: Seq<u8>, x: u8)
    ensures
        be_value(s.push(x)) == 256 * be_value(s) + x,
{
    assert(s.push(x).drop_last() =~= s);
}

/// Appends the eight bytes of `limb`, most significant first.
fn push_limb_bytes(out: &mut Vec<u8>, limb: u64)
    ensures
        final(out)@.len() == old(out)@.len() + 8,
        be_value(final(out)@) == 0x1_0000_0000_0000_0000 * be_value(old(out)@) + limb,
{
    let b7: u8 = (limb % 256) as u8;
    let q7: u64 = limb / 256;
    let b6: u8 = (q7 % 256) as u8;
    let q6: u64 = q7 / 256;
    let b5: u8 = (q6 % 256) as u8;
    let q5: u64 = q6 / 256;
    let b4: u8 = (q5 % 256) as u8;
    let q4: u64 = q5 / 256;
    let b3: u8 = (q4 % 256) as u8;
    let q3: u64 = q4 / 256;
    let b2: u8 = (q3 % 256) as u8;
    let q2: u64 = q3 / 256;
    let b1: u8 = (q2 % 256) as u8;
    let q1: u64 = q2 / 256;
    let b0: u8 = q1 as u8;
    let ghost base = be_value(out@);
    proof {
        lemma_be_value_push(out@, b0);
    }
    out.push(b0);
    assert(be_value(out@) == 256 * base + q1);
    proof {
        lemma_be_value_push(out@, b1);
    }
    out.push(b1);
    assert(be_value(out@) == 0x1_0000 * base + q2);
    proof {
        lemma_be_value_push(out@, b2);
    }
    out.push(b2);
    assert(be_value(out@) == 0x100_0000 * base + q3);
    proof {
        lemma_be_value_push(out@, b3);
    }
    out.push(b3);
    assert(be_value(out@) == 0x1_0000_0000 * base + q4);
    proof {
        lemma_be_value_push(out@, b4);
    }
    out.push(b4);
    assert(be_value(out@) == 0x100_0000_0000 * base + q5);
    proof {
        lemma_be_value_push(out@, b5);
    }
    out.push(b5);
    assert(be_value(out@) == 0x1_0000_0000_0000 * base + q6);
    proof {
        lemma_be_value_push(out@, b6);
    }
    out.push(b6);
    assert(be_value(out@) == 0x100_0000_0000_0000 * base + q7);
    proof {
        lemma_be_value_push(out@, b7);
    }
    out.push(b7);
}

/// Bytes are the big-endian spelling of the number they hold.
pub proof fn lemma_be_bytes_of_value(bytes: Seq<u8>)
    ensures
        be_bytes(be_value(bytes), bytes.len()) == bytes,
        be_value(bytes) < byte_capacity(bytes.len()),
    decreases bytes.len(),
{
    if bytes.len() == 0 {
    } else {
        lemma_be_bytes_of_value(bytes.drop_last());
        let v = be_value(bytes);
        assert(v / 256 == be_value(bytes.drop_last()));
        assert(v % 256 == bytes.last() as nat);
        assert(be_bytes(v, bytes.len()) =~= bytes);
    }
}

/// A number that fits into `n` bytes is the value of its `n` bytes.
pub proof fn lemma_be_value_of_bytes(v: nat, n: nat)
    requires
        v < byte_capacity(n),
    ensures
        be_bytes(v, n).len() == n,
        be_value(be_bytes(v, n)) == v,
    decreases n,
{
    if n == 0 {
    } else {
        lemma_be_value_of_bytes(v / 256, (n - 1) as nat);
        assert(be_bytes(v, n).drop_last() =~= be_bytes(v / 256, (n - 1) as nat));
    }
}

/// The base-16 spelling of bytes denotes the number that the bytes hold.
pub proof fn lemma_hex_value_of_bytes(bytes: Seq<u8>)
    ensures
        hex_value(bytes_to_hex(bytes)) == be_value(bytes),
    decreases bytes.len(),
{
    let s = bytes_to_hex(bytes);
    if bytes.len() == 0 {
    } else {
        let x = bytes.last();
        let front = bytes.drop_last();
        lemma_hex_value_of_bytes(front);
        lemma_lower_hex_digit((x / 16) as nat);
        lemma_lower_hex_digit((x % 16) as nat);
        assert(s.drop_last().drop_last() =~= bytes_to_hex(front));
        assert(s.last() == lower_hex_digit((x % 16) as nat));
        assert(s.drop_last().last() == lower_hex_digit((x / 16) as nat));
        assert(hex_value(s) == 16 * hex_value(s.drop_last()) + hex_digit_value(s.last()));
        assert(hex_value(s.drop_last()) == 16 * hex_value(s.drop_last().drop_last())
            + hex_digit_value(s.drop_last().last()));
    }
}

proof fn lemma_byte_capacity_32()
    ensures
        byte_capacity(32)
            == 0x1_0000_0000_0000_0000_0000_0000_0000_0000_0000_0000_0000_0000_0000_0000_0000_0000nat,
{
    assert(byte_capacity(8) == 0x1_0000_0000_0000_0000nat) by {
        reveal_with_fuel(byte_capacity, 9);
    }
    assert(byte_capacity(16) == 0x1_0000_0000_0000_0000 * byte_capacity(8)) by {
        lemma_byte_capacity_step8(8);
    }
    assert(byte_capacity(24) == 0x1_0000_0000_0000_0000 * byte_capacity(16)) by {
        lemma_byte_capacity_step8(16);
    }
    assert(byte_capacity(32) == 0x1_0000_0000_0000_0000 * byte_capacity(24)) by {
        lemma_byte_capacity_step8(24);
    }
}

proof fn lemma_byte_capacity_step8(n: nat)
    ensures
        byte_capacity(n + 8) == 0x1_0000_0000_0000_0000 * byte_capacity(n),
{
    reveal_with_fuel(byte_capacity, 9);
}

/// Reading back the spelling of a scalar gives the scalar.
pub proof fn lemma_scalar_round_trip(v: nat)
    requires
        v < subgroup_order(),
    ensures
        encode_scalar(v).len() == 64,
        decode_scalar(encode_scalar(v)) == Ok::<nat, PipelineError>(v),
{
    lemma_byte_capacity_32();
    lemma_be_value_of_bytes(v, 32);
    lemma_bytes_round_trip(be_bytes(v, 32));
    lemma_hex_value_of_bytes(be_bytes(v, 32));
}

/// The range check is strict at its boundary: a text that denotes the
/// subgroup order itself is refused as out of range, and one that denotes the
/// number just below it is read.
pub proof fn lemma_boundary(s: Seq<char>)
    requires
        s.len() > 0,
        is_hex_text(s),
    ensures
        hex_value(s) == subgroup_order() ==> decode_scalar(s) == Err::<nat, PipelineError>(
            PipelineError::OutOfRange,
        ),
        hex_value(s) + 1 == subgroup_order() ==> decode_scalar(s) == Ok::<nat, PipelineError>(
            hex_value(s),
        ),
{
}

/// The number that bits spell, least significant bit first.
pub open spec fn bits_value(bits: Seq<bool>) -> nat
    decreases bits.len(),
{
    if bits.len() == 0 {
        0
    } else {
        (if bits[0] {
            1nat
        } else {
            0nat
        }) + 2 * bits_value(bits.skip(1))
    }
}

/// `bits_le` hands back as many bits as it is asked for.
pub proof fn lemma_bits_len(v: nat, n: nat)
    ensures
        bits_le(v, n).len() == n,
    decreases n,
{
    if n > 0 {
        lemma_bits_len(v / 2, (n - 1) as nat);
    }
}

/// The bits of a number that fits into them spell that number: below
/// `2^n` nothing is lost in `bits_le(v, n)`.
pub proof fn lemma_bits_value(v: nat, n: nat)
    requires
        v < vstd::arithmetic::power2::pow2(n),
    ensures
        bits_value(bits_le(v, n)) == v,
    decreases n,
{
    if n == 0 {
        vstd::arithmetic::power2::lemma2_to64();
    } else {
        vstd::arithmetic::power2::lemma_pow2_unfold(n);
        lemma_bits_value(v / 2, (n - 1) as nat);
        lemma_bits_len(v / 2, (n - 1) as nat);
        assert(bits_le(v, n).skip(1) =~= bits_le(v / 2, (n - 1) as nat));
        assert(bits_le(v, n)[0] == (v % 2 == 1));
    }
}

/// An element of the base field fits into the bits that enter a hash.
pub proof fn lemma_base_modulus_fits()
    ensures
        base_modulus() < vstd::arithmetic::power2::pow2(FIELD_BITS as nat),
        subgroup_order() < base_modulus(),
{
    vstd::arithmetic::power2::lemma2_to64();
    vstd::arithmetic::power2::lemma2_to64_rest();
    vstd::arithmetic::power2::lemma_pow2_adds(64, 64);
    vstd::arithmetic::power2::lemma_pow2_adds(128, 64);
    vstd::arithmetic::power2::lemma_pow2_adds(192, 62);
    assert(vstd::arithmetic::power2::pow2(128) == 0x1_0000_0000_0000_0000_0000_0000_0000_0000nat);
    assert(vstd::arithmetic::power2::pow2(192)
        == 0x1_0000_0000_0000_0000_0000_0000_0000_0000_0000_0000_0000_0000nat);
    assert(vstd::arithmetic::power2::pow2(254)
        == 0x4000_0000_0000_0000_0000_0000_0000_0000_0000_0000_0000_0000_0000_0000_0000_0000nat);
}

/// Two elements of the base field with the same hash bits are the same
/// element.
pub proof fn lemma_bits_injective(a: nat, b: nat)
    requires
        a < base_modulus(),
        b < base_modulus(),
        bits_le(a, FIELD_BITS as nat) == bits_le(b, FIELD_BITS as nat),
    ensures
        a == b,
{
    lemma_base_modulus_fits();
    lemma_bits_value(a, FIELD_BITS as nat);
    lemma_bits_value(b, FIELD_BITS as nat);
}

/// The limbs above limb `j`, as one number.
spec fn limbs_above(l: Seq<u64>, j: int) -> nat {
    if j == 0 {
        (l[1] as nat) + 0x1_0000_0000_0000_0000 * (l[2] as nat)
            + 0x1_0000_0000_0000_0000_0000_0000_0000_0000 * (l[3] as nat)
    } else if j == 1 {
        (l[2] as nat) + 0x1_0000_0000_0000_0000 * (l[3] as nat)
    } else if j == 2 {
        l[3] as nat
    } else {
        0
    }
}

proof fn lemma_halve(x: nat, m: nat, half: nat, u: nat)
    requires
        m == 2 * half,
    ensures
        (x + m * u) % 2 == x % 2,
        (x + m * u) / 2 == x / 2 + half * u,
{
    assert(m * u == 2 * (half * u)) by (nonlinear_arith)
        requires
            m == 2 * half,
    ;
}

/// The 254 low bits of the number that four limbs hold.
fn limbs_bits(l: &[u64; 4]) -> (out: Vec<bool>)
    ensures
        out@ == bits_le(limbs_value(l@), 254),
{
    let mut out: Vec<bool> = Vec::new();
    let mut j: usize = 0;
    let mut x: u64 = l[0];
    let mut used: usize = 0;
    let ghost v = limbs_value(l@);
    let ghost mut rest: nat = v;
    let ghost mut weight: nat = 0x1_0000_0000_0000_0000;
    proof {
        vstd::arithmetic::power2::lemma2_to64();
        vstd::arithmetic::power2::lemma2_to64_rest();
    }
    while out.len() < 254
        invariant
            out.len() <= 254,
            j < 4,
            used <= 64,
            out.len() == 64 * j + used,
            weight == vstd::arithmetic::power2::pow2((64 - used) as nat),
            x < weight,
            rest == x + weight * limbs_above(l@, j as int),
            bits_le(v, 254) == out@ + bits_le(rest, (254 - out.len()) as nat),
        decreases 254 - out.len(),
    {
        if used == 64 {
            proof {
                vstd::arithmetic::power2::lemma2_to64();
                vstd::arithmetic::power2::lemma2_to64_rest();
                assert(weight == 1);
                assert(x == 0);
                assert(limbs_above(l@, j as int) == l@[j + 1] as nat + 0x1_0000_0000_0000_0000
                    * limbs_above(l@, j + 1));
                weight = 0x1_0000_0000_0000_0000;
            }
            j = j + 1;
            x = l[j];
            used = 0;
        }
        let ghost half: nat = vstd::arithmetic::power2::pow2((63 - used) as nat);
        proof {
            vstd::arithmetic::power2::lemma_pow2_unfold((64 - used) as nat);
            lemma_halve(x as nat, weight, half, limbs_above(l@, j as int));
            let m = (254 - out.len()) as nat;
            assert(bits_le(rest, m) == seq![rest % 2 == 1] + bits_le(rest / 2, (m - 1) as nat));
            assert(out@ + (seq![rest % 2 == 1] + bits_le(rest / 2, (m - 1) as nat))
                =~= out@.push(rest % 2 == 1) + bits_le(rest / 2, (m - 1) as nat));
        }
        out.push(x % 2 == 1);
        x = x / 2;
        used = used + 1;
        proof {
            rest = rest / 2;
            weight = half;
        }
    }
    assert(out@ + bits_le(rest, 0) =~= out@);
    out
}

} // verus!
