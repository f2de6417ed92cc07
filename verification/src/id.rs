//! The 160-bit identifier space of the ring.
//!
//! An identifier is a 20-byte SHA-1 digest, totally ordered as the unsigned
//! big-endian integer its bytes spell. All ring routing compares identifiers
//! through this order.

use vstd::prelude::*;

verus! {

/// A 160-bit ring identifier: 20 bytes, ordered as an unsigned big-endian
/// integer.
#[derive(Clone, Copy, Debug, Hash)]
pub struct HashType(pub [u8; 20]);

impl View for HashType {
    type V = Seq<u8>;

    open spec fn view(&self) -> Seq<u8> {
        self.0@
    }
}

/// 256 raised to `n`: the weight of a byte `n` places from the low end.
pub open spec fn pow256(n: nat) -> int
    decreases n,
{
    if n == 0 {
        1
    } else {
        256 * pow256((n - 1) as nat)
    }
}

/// The unsigned big-endian integer a byte sequence spells.
pub open spec fn be_val(s: Seq<u8>) -> int
    decreases s.len(),
{
    if s.len() == 0 {
        0
    } else {
        s.first() * pow256((s.len() - 1) as nat) + be_val(s.drop_first())
    }
}

/// The numeric value of an identifier.
pub open spec fn id_val(h: HashType) -> int {
    be_val(h@)
}

pub proof fn lemma_pow256_pos(n: nat)
    ensures
        pow256(n) >= 1,
    decreases n,
{
    if n > 0 {
        lemma_pow256_pos((n - 1) as nat);
    }
}

/// A byte sequence's value is bounded by the weight of its length.
pub proof fn lemma_be_val_bound(s: Seq<u8>)
    ensures
        0 <= be_val(s) < pow256(s.len()),
    decreases s.len(),
{
    if s.len() == 0 {
    } else {
        lemma_be_val_bound(s.drop_first());
        lemma_pow256_pos((s.len() - 1) as nat);
        let f = s.first() as int;
        let p = pow256((s.len() - 1) as nat);
        assert(f <= 255);
        assert(f * p <= 255 * p) by (nonlinear_arith)
            requires f <= 255, p >= 1;
        assert(256 * p == 255 * p + p) by (nonlinear_arith);
        assert(f * p >= 0) by (nonlinear_arith)
            requires f >= 0, p >= 1;
    }
}

/// Byte sequences of equal length compare numerically as they compare
/// lexicographically: if they agree before position `j` and differ at `j`,
/// the one with the smaller byte at `j` spells the smaller integer.
pub proof fn lemma_be_val_lex(s1: Seq<u8>, s2: Seq<u8>, j: int)
    requires
        s1.len() == s2.len(),
        0 <= j < s1.len(),
        forall|i: int| 0 <= i < j ==> s1[i] == s2[i],
        s1[j] < s2[j],
    ensures
        be_val(s1) < be_val(s2),
    decreases j,
{
    if j == 0 {
        lemma_be_val_bound(s1.drop_first());
        lemma_be_val_bound(s2.drop_first());
        let p = pow256((s1.len() - 1) as nat);
        let a = s1.first() as int;
        let b = s2.first() as int;
        lemma_pow256_pos((s1.len() - 1) as nat);
        assert(a + 1 <= b);
        assert(a * p + p <= b * p) by (nonlinear_arith)
            requires a + 1 <= b, p >= 1;
    } else {
        assert(s1.first() == s2.first());
        let t1 = s1.drop_first();
        let t2 = s2.drop_first();
        assert(forall|i: int| 0 <= i < j - 1 ==> t1[i] == t2[i]);
        assert(t1[j - 1] < t2[j - 1]);
        lemma_be_val_lex(t1, t2, j - 1);
        let p = pow256((s1.len() - 1) as nat);
        assert(s1.first() * p == s2.first() * p);
    }
}

impl HashType {
    /// The all-zero identifier, the least of the space.
    pub fn min_value() -> (r: HashType)
        ensures
            id_val(r) == 0,
            r@ =~= Seq::new(20, |i: int| 0u8),
    {
        let r = HashType([0u8; 20]);
        proof {
            assert(r@ =~= Seq::new(20, |i: int| 0u8));
            lemma_be_val_zero(r@);
        }
        r
    }

    /// The all-ones identifier, the greatest of the space.
    pub fn max_value() -> (r: HashType)
        ensures
            id_val(r) == pow256(20) - 1,
    {
        let r = HashType([0xFFu8; 20]);
        proof {
            assert(r@ =~= Seq::new(20, |i: int| 0xFFu8));
            lemma_be_val_ones(r@);
        }
        r
    }

    /// Equality of identifiers, byte for byte.
    pub fn equals(&self, other: &HashType) -> (r: bool)
        ensures
            r == (self@ =~= other@),
            r == (id_val(*self) == id_val(*other)),
    {
        let mut i: usize = 0;
        while i < 20
            invariant
                0 <= i <= 20,
                forall|k: int| 0 <= k < i ==> self@[k] == other@[k],
            decreases 20 - i,
        {
            if self.0[i] != other.0[i] {
                proof {
                    if self@[i as int] < other@[i as int] {
                        lemma_be_val_lex(self@, other@, i as int);
                    } else {
                        lemma_be_val_lex(other@, self@, i as int);
                    }
                }
                return false;
            }
            i += 1;
        }
        proof {
            assert(self@ =~= other@);
        }
        true
    }

    /// Strict order of identifiers: numeric order of the values they spell.
    pub fn less_than(&self, other: &HashType) -> (r: bool)
        ensures
            r == (id_val(*self) < id_val(*other)),
    {
        let mut i: usize = 0;
        while i < 20
            invariant
                0 <= i <= 20,
                forall|k: int| 0 <= k < i ==> self@[k] == other@[k],
            decreases 20 - i,
        {
            if self.0[i] < other.0[i] {
                proof {
                    lemma_be_val_lex(self@, other@, i as int);
                }
                return true;
            }
            if self.0[i] > other.0[i] {
                proof {
                    lemma_be_val_lex(other@, self@, i as int);
                }
                return false;
            }
            i += 1;
        }
        proof {
            assert(self@ =~= other@);
        }
        false
    }

    /// Non-strict order of identifiers.
    pub fn less_eq(&self, other: &HashType) -> (r: bool)
        ensures
            r == (id_val(*self) <= id_val(*other)),
    {
        !other.less_than(self)
    }
}

proof fn lemma_be_val_ones(s: Seq<u8>)
    requires
        forall|i: int| 0 <= i < s.len() ==> s[i] == 0xFFu8,
    ensures
        be_val(s) == pow256(s.len()) - 1,
    decreases s.len(),
{
    if s.len() > 0 {
        lemma_be_val_ones(s.drop_first());
    }
}

proof fn lemma_be_val_zero(s: Seq<u8>)
    requires
        forall|i: int| 0 <= i < s.len() ==> s[i] == 0u8,
    ensures
        be_val(s) == 0,
    decreases s.len(),
{
    if s.len() > 0 {
        lemma_be_val_zero(s.drop_first());
    }
}

/// The sixteen lower-case hexadecimal digit characters, in value order.
pub open spec fn hex_table() -> Seq<char> {
    "0123456789abcdef"@
}

/// The two hexadecimal digits that spell one byte.
pub open spec fn hex_pair(b: u8) -> Seq<char> {
    seq![hex_table()[b as int / 16], hex_table()[b as int % 16]]
}

/// The hexadecimal rendering of a byte sequence: two lower-case digits per
/// byte, high nibble first.
pub open spec fn hex_of(s: Seq<u8>) -> Seq<char>
    decreases s.len(),
{
    if s.len() == 0 {
        Seq::empty()
    } else {
        hex_pair(s.first()) + hex_of(s.drop_first())
    }
}

/// Whether `c` is a hexadecimal digit, upper or lower case.
pub open spec fn is_hex_digit(c: char) -> bool {
    ('0' <= c && c <= '9') || ('a' <= c && c <= 'f') || ('A' <= c && c <= 'F')
}

/// The value of a hexadecimal digit character.
pub open spec fn hex_digit_val(c: char) -> int {
    if '0' <= c && c <= '9' {
        c as int - '0' as int
    } else if 'a' <= c && c <= 'f' {
        c as int - 'a' as int + 10
    } else {
        c as int - 'A' as int + 10
    }
}

/// Whether `s` is a well-formed hexadecimal spelling of 20 bytes.
pub open spec fn is_hex_id(s: Seq<char>) -> bool {
    s.len() == 40 && forall|i: int| 0 <= i < 40 ==> is_hex_digit(#[trigger] s[i])
}

/// The bytes a 40-digit hexadecimal string spells.
pub open spec fn bytes_of_hex(s: Seq<char>) -> Seq<u8> {
    Seq::new(20, |i: int| (hex_digit_val(s[2 * i]) * 16 + hex_digit_val(s[2 * i + 1])) as u8)
}

/// The failure of [`HashType::from_hex`]: the input was not 40 hexadecimal
/// digits.
#[derive(Clone, Copy, Debug, PartialEq, Eq, Structural)]
pub enum HexError {
    /// The input was not exactly 40 characters long.
    BadLength,
    /// A character of the input is not a hexadecimal digit.
    BadDigit,
}

proof fn lemma_hex_of_prefix(s: Seq<u8>, i: int)
    requires
        0 <= i < s.len(),
    ensures
        hex_of(s.take(i + 1)) =~= hex_of(s.take(i)) + hex_pair(s[i]),
    decreases i,
{
    if i == 0 {
        assert(s.take(1).first() == s[0]);
        assert(s.take(1).drop_first() =~= s.take(0));
    } else {
        let t = s.drop_first();
        lemma_hex_of_prefix(t, i - 1);
        assert(s.take(i + 1).first() == s.first());
        assert(s.take(i + 1).drop_first() =~= t.take(i));
        assert(s.take(i).first() == s.first());
        assert(s.take(i).drop_first() =~= t.take(i - 1));
        assert(t.take(i - 1 + 1) =~= t.take(i));
        assert(t[i - 1] == s[i]);
    }
}

impl HashType {
    /// The hexadecimal spelling of this identifier: 40 lower-case digits.
    pub fn to_hex(&self) -> (r: String)
        ensures
            r@ == hex_of(self@),
    {
        let table = "0123456789abcdef";
        proof {
            reveal_strlit("0123456789abcdef");
        }
        let mut out = String::new();
        let mut i: usize = 0;
        while i < 20
            invariant
                0 <= i <= 20,
                out@ =~= hex_of(self@.take(i as int)),
                table@ == hex_table(),
                table.is_ascii(),
            decreases 20 - i,
        {
            let b = self.0[i];
            let hi = (b / 16) as usize;
            let lo = (b % 16) as usize;
            proof {
                reveal_strlit("0123456789abcdef");
                assert(hi < 16 && lo < 16);
            }
            out.append(table.substring_ascii(hi, hi + 1));
            out.append(table.substring_ascii(lo, lo + 1));
            proof {
                lemma_hex_of_prefix(self@, i as int);
            }
            i += 1;
        }
        proof {
            assert(self@.take(20) =~= self@);
        }
        out
    }

    /// Reads an identifier back from its hexadecimal spelling, upper or
    /// lower case. Succeeds exactly on 40-digit inputs.
    pub fn from_hex(hex_str: &str) -> (r: Result<HashType, HexError>)
        ensures
            r is Ok <==> is_hex_id(hex_str@),
            r matches Ok(h) ==> h@ =~= bytes_of_hex(hex_str@),
            r matches Err(e) ==> (e == HexError::BadLength <==> hex_str@.len() != 40),
    {
        if hex_str.unicode_len() != 40 {
            return Err(HexError::BadLength);
        }
        let mut bytes = [0u8; 20];
        let mut i: usize = 0;
        while i < 20
            invariant
                0 <= i <= 20,
                hex_str@.len() == 40,
                forall|k: int| 0 <= k < 2 * i ==> is_hex_digit(#[trigger] hex_str@[k]),
                forall|k: int| 0 <= k < i ==>
                    bytes@[k] == (hex_digit_val(hex_str@[2 * k]) * 16
                        + hex_digit_val(hex_str@[2 * k + 1])) as u8,
            decreases 20 - i,
        {
            let c_hi = hex_str.get_char(2 * i);
            let c_lo = hex_str.get_char(2 * i + 1);
            let hi = match hex_digit_value(c_hi) {
                Some(v) => v,
                None => {
                    return Err(HexError::BadDigit);
                },
            };
            let lo = match hex_digit_value(c_lo) {
                Some(v) => v,
                None => {
                    return Err(HexError::BadDigit);
                },
            };
            bytes[i] = hi * 16 + lo;
            i += 1;
        }
        let h = HashType(bytes);
        proof {
            assert(h@ =~= bytes_of_hex(hex_str@));
        }
        Ok(h)
    }
}

/// The value of one hexadecimal digit character, or `None` for any other
/// character.
pub fn hex_digit_value(c: char) -> (r: Option<u8>)
    ensures
        r is Some <==> is_hex_digit(c),
        r matches Some(v) ==> v == hex_digit_val(c) && v < 16,
{
    if '0' <= c && c <= '9' {
        Some((c as u8) - 48)
    } else if 'a' <= c && c <= 'f' {
        Some((c as u8) - 97 + 10)
    } else if 'A' <= c && c <= 'F' {
        Some((c as u8) - 65 + 10)
    } else {
        None
    }
}

} // verus!
