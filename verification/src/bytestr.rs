//! Byte-string helpers shared by the tokenizer, the structured builder and
//! the serializer: decimal tokens, ASCII reasoning, and lossy text decoding.

use vstd::prelude::*;

verus! {

/// True when every byte of `s` is an ASCII decimal digit.
pub open spec fn is_digits(s: Seq<u8>) -> bool {
    forall|i: int| 0 <= i < s.len() ==> 48 <= #[trigger] s[i] <= 57
}

/// Numeric value of a digit string, most significant digit first.
pub open spec fn dec_val(s: Seq<u8>) -> nat
    decreases s.len(),
{
    if s.len() == 0 {
        0
    } else {
        dec_val(s.drop_last()) * 10 + (s.last() - 48) as nat
    }
}

/// Canonical decimal representation of `n`: no leading zeros.
pub open spec fn dec_str(n: nat) -> Seq<u8>
    decreases n,
{
    if n < 10 {
        seq![(48 + n) as u8]
    } else {
        dec_str(n / 10).push((48 + n % 10) as u8)
    }
}

/// A digit string is canonical when it is nonempty and carries no leading zero.
pub open spec fn is_canonical_dec(s: Seq<u8>) -> bool {
    &&& is_digits(s)
    &&& s.len() > 0
    &&& (s.len() > 1 ==> s[0] != 48)
}

pub proof fn lemma_dec_str_digits(n: nat)
    ensures
        is_digits(dec_str(n)),
        dec_str(n).len() >= 1,
        dec_str(n)[0] != 48 <==> n > 0,
        is_canonical_dec(dec_str(n)),
    decreases n,
{
    if n < 10 {
    } else {
        lemma_dec_str_digits(n / 10);
    }
}

proof fn lemma_dec_val_positive(s: Seq<u8>)
    requires
        is_digits(s),
        s.len() > 0,
        s[0] != 48,
    ensures
        dec_val(s) > 0,
    decreases s.len(),
{
    if s.len() == 1 {
    } else {
        assert(s.drop_last()[0] == s[0]);
        lemma_dec_val_positive(s.drop_last());
    }
}

/// Parsing is the inverse of printing on canonical digit strings.
pub proof fn lemma_dec_str_dec_val(s: Seq<u8>)
    requires
        is_canonical_dec(s),
    ensures
        dec_str(dec_val(s)) =~= s,
    decreases s.len(),
{
    if s.len() == 1 {
        assert(s.drop_last() =~= Seq::<u8>::empty());
        assert(dec_val(Seq::<u8>::empty()) == 0);
        assert(dec_val(s) == (s[0] - 48) as nat);
    } else {
        let front = s.drop_last();
        assert(front[0] == s[0]);
        lemma_dec_str_dec_val(front);
        lemma_dec_val_positive(front);
        let v = dec_val(s);
        assert(v == dec_val(front) * 10 + (s.last() - 48) as nat);
        assert(dec_val(front) >= 1);
        assert(v >= 10);
        assert(v / 10 == dec_val(front) && v % 10 == (s.last() - 48) as nat) by (nonlinear_arith)
            requires
                v == dec_val(front) * 10 + (s.last() - 48) as nat,
                0 <= ((s.last() - 48) as nat) < 10,
        ;
        assert(dec_str(v) =~= dec_str(dec_val(front)).push((48 + v % 10) as u8));
        assert((48 + v % 10) as u8 == s.last());
        assert(dec_str(v) =~= front.push(s.last()));
        assert(front.push(s.last()) =~= s);
    }
}

proof fn lemma_dec_val_monotone(s: Seq<u8>, i: int)
    requires
        is_digits(s),
        0 <= i <= s.len(),
    ensures
        dec_val(s.subrange(0, i)) <= dec_val(s),
    decreases s.len() - i,
{
    if i == s.len() {
        assert(s.subrange(0, i) =~= s);
    } else {
        let t = s.subrange(0, i + 1);
        assert(t.drop_last() =~= s.subrange(0, i));
        assert(dec_val(s.subrange(0, i)) <= dec_val(t)) by {
            assert(dec_val(t) == dec_val(t.drop_last()) * 10 + (t.last() - 48) as nat);
        }
        lemma_dec_val_monotone(s, i + 1);
    }
}

/// Parse a decimal token.  Returns the value exactly when the token is a
/// nonempty, all-digit string whose value fits in a `u64`.
pub fn parse_decimal_u64(s: &[u8]) -> (r: Option<u64>)
    ensures
        r is Some <==> (s@.len() > 0 && is_digits(s@) && dec_val(s@) <= u64::MAX),
        r matches Some(v) ==> v == dec_val(s@),
{
    if s.len() == 0 {
        return None;
    }
    let mut acc: u64 = 0;
    let mut i: usize = 0;
    while i < s.len()
        invariant
            0 <= i <= s@.len(),
            is_digits(s@.subrange(0, i as int)),
            acc == dec_val(s@.subrange(0, i as int)),
        decreases s@.len() - i,
    {
        let b = s[i];
        if b < 48 || b > 57 {
            return None;
        }
        let d = (b - 48) as u64;
        if acc > (u64::MAX - d) / 10 {
            proof {
                let t = s@.subrange(0, i as int + 1);
                assert(t.drop_last() =~= s@.subrange(0, i as int));
                assert(dec_val(t) == acc * 10 + d);
                assert(acc * 10 + d > u64::MAX) by (nonlinear_arith)
                    requires
                        acc > (u64::MAX - d) / 10,
                        0 <= d < 10,
                ;
                if is_digits(s@) {
                    lemma_dec_val_monotone(s@, i as int + 1);
                }
            }
            return None;
        }
        proof {
            let t = s@.subrange(0, i as int + 1);
            assert(t.drop_last() =~= s@.subrange(0, i as int));
            assert(acc * 10 + d <= u64::MAX) by (nonlinear_arith)
                requires
                    acc <= (u64::MAX - d) / 10,
                    0 <= d < 10,
            ;
        }
        acc = acc * 10 + d;
        i = i + 1;
    }
    proof {
        assert(s@.subrange(0, s@.len() as int) =~= s@);
    }
    Some(acc)
}

/// Print `n` as its canonical decimal digit string.
pub fn u64_to_decimal(n: u64) -> (r: Vec<u8>)
    ensures
        r@ =~= dec_str(n as nat),
    decreases n,
{
    if n < 10 {
        let mut v: Vec<u8> = Vec::new();
        v.push(48 + n as u8);
        v
    } else {
        let mut v = u64_to_decimal(n / 10);
        v.push(48 + (n % 10) as u8);
        v
    }
}

/// True when `p` is a prefix of `s`.
pub open spec fn has_prefix(s: Seq<u8>, p: Seq<u8>) -> bool {
    s.len() >= p.len() && s.subrange(0, p.len() as int) =~= p
}

/// Compare a byte string against a prefix.
pub fn starts_with_bytes(s: &[u8], p: &[u8]) -> (r: bool)
    ensures
        r == has_prefix(s@, p@),
{
    if s.len() < p.len() {
        return false;
    }
    let mut i: usize = 0;
    while i < p.len()
        invariant
            0 <= i <= p@.len() <= s@.len(),
            forall|j: int| 0 <= j < i ==> s@[j] == p@[j],
        decreases p@.len() - i,
    {
        if s[i] != p[i] {
            assert(!has_prefix(s@, p@)) by {
                assert(s@.subrange(0, p@.len() as int)[i as int] != p@[i as int]);
            }
            return false;
        }
        i = i + 1;
    }
    assert(s@.subrange(0, p@.len() as int) =~= p@);
    true
}

/// Compare two byte strings for equality.
pub fn bytes_eq(a: &[u8], b: &[u8]) -> (r: bool)
    ensures
        r == (a@ =~= b@),
{
    if a.len() != b.len() {
        return false;
    }
    let mut i: usize = 0;
    while i < a.len()
        invariant
            0 <= i <= a@.len(),
            a@.len() == b@.len(),
            forall|j: int| 0 <= j < i ==> a@[j] == b@[j],
        decreases a@.len() - i,
    {
        if a[i] != b[i] {
            return false;
        }
        i = i + 1;
    }
    true
}

/// A byte string of 7-bit bytes is valid UTF-8.
pub proof fn lemma_ascii_bytes_valid_utf8(b: Seq<u8>)
    requires
        forall|i: int| 0 <= i < b.len() ==> #[trigger] b[i] < 128,
    ensures
        vstd::utf8::valid_utf8(b),
{
    assert(vstd::utf8::partial_valid_utf8(b, 0)) by {
        assert(b.subrange(0, 0) =~= Seq::<u8>::empty());
    }
    assert forall|i: int| 0 <= 0 <= i < b.len() <= b.len() implies
        #[trigger] vstd::utf8::is_leading_byte_width_1(b[i]) by {
        assert(b[i] < 128);
    }
    vstd::utf8::partial_valid_utf8_extend_ascii_block(b, 0, b.len() as int);
    assert(b.subrange(0, b.len() as int) =~= b);
}

/// Relies on `String::from_utf8_lossy`: a byte string that is valid UTF-8
/// decodes to exactly the character sequence it encodes.  On invalid input
/// the result is a best-effort replacement, of which nothing is claimed.
#[verifier::external_body]
pub fn bytes_to_string_lossy(b: &[u8]) -> (r: String)
    ensures
        vstd::utf8::valid_utf8(b@) ==> r@ =~= vstd::utf8::decode_utf8(b@),
{
    String::from_utf8_lossy(b).into_owned()
}

} // verus!
