//! Node identities.

use crate::encoding::{base58_encode, base58_text};
use vstd::prelude::*;

verus! {

/// Two to the power 128: the weight of the high half of a key.
pub open spec fn half_modulus() -> nat {
    0x1_0000_0000_0000_0000_0000_0000_0000_0000nat
}

/// A 32-byte identity, held as the two halves of its big-endian value.
///
/// Its view is that value, a natural number below two to the 256. Keys are
/// ordered by their views, which is the lexicographic order of their bytes.
#[derive(Clone, Copy, Debug, PartialEq, Eq, Structural, Hash, PartialOrd, Ord)]
pub struct Pubkey {
    pub hi: u128,
    pub lo: u128,
}

impl View for Pubkey {
    type V = nat;

    open spec fn view(&self) -> nat {
        self.hi as nat * half_modulus() + self.lo as nat
    }
}

/// The big-endian value of a byte string.
pub open spec fn be_value(bytes: Seq<u8>) -> nat
    decreases bytes.len(),
{
    if bytes.len() == 0 {
        0
    } else {
        be_value(bytes.drop_last()) * 256 + bytes.last() as nat
    }
}

/// Two keys with the same view are the same key.
pub proof fn lemma_view_injective(a: Pubkey, b: Pubkey)
    ensures
        a@ == b@ <==> a == b,
        a@ < b@ <==> (a.hi < b.hi || (a.hi == b.hi && a.lo < b.lo)),
{
}

/// 256 to the power `n`.
pub open spec fn pow256(n: nat) -> nat
    decreases n,
{
    if n == 0 {
        1
    } else {
        256 * pow256((n - 1) as nat)
    }
}

/// Sixteen bytes spell a number below two to the 128.
pub proof fn lemma_pow256(n: nat)
    requires
        n <= 16,
    ensures
        0 < pow256(n) <= half_modulus(),
        pow256(16) == half_modulus(),
        n < 16 ==> 256 * pow256(n) <= half_modulus(),
    decreases 16 - n,
{
    reveal_with_fuel(pow256, 17);
    assert(pow256(16) == half_modulus());
    if n < 16 {
        lemma_pow256(n + 1);
    }
}

/// A byte string spells a number below 256 to the power of its length.
pub proof fn lemma_be_value_bound(bytes: Seq<u8>)
    ensures
        be_value(bytes) < pow256(bytes.len()),
    decreases bytes.len(),
{
    if bytes.len() > 0 {
        lemma_be_value_bound(bytes.drop_last());
    }
}

/// Putting a byte in front adds it at the weight of what follows.
pub proof fn lemma_be_value_front(digit: u8, rest: Seq<u8>)
    ensures
        be_value(seq![digit] + rest) == digit as nat * pow256(rest.len()) + be_value(rest),
    decreases rest.len(),
{
    let all = seq![digit] + rest;
    if rest.len() == 0 {
        assert(all.drop_last() == Seq::<u8>::empty());
        assert(be_value(all.drop_last()) == 0);
        assert(all.last() == digit);
        assert(pow256(0) == 1);
        assert(be_value(rest) == 0);
        assert(digit as nat * 1 == digit as nat);
    } else {
        assert(all.drop_last() == seq![digit] + rest.drop_last());
        lemma_be_value_front(digit, rest.drop_last());
        assert(all.last() == rest.last());
        let p = pow256(rest.drop_last().len());
        assert(rest.drop_last().len() == rest.len() - 1);
        assert(pow256(rest.len()) == 256 * p);
        assert(digit as nat * pow256(rest.len()) == (digit as nat * p) * 256) by (nonlinear_arith)
            requires
                pow256(rest.len()) == 256 * p,
        ;
    }
}

/// Byte strings of one length that spell the same number are the same.
pub proof fn lemma_be_value_injective(a: Seq<u8>, b: Seq<u8>)
    requires
        a.len() == b.len(),
        be_value(a) == be_value(b),
    ensures
        a == b,
    decreases a.len(),
{
    if a.len() > 0 {
        lemma_be_value_injective(a.drop_last(), b.drop_last());
        assert(a == a.drop_last().push(a.last()));
        assert(b == b.drop_last().push(b.last()));
    } else {
        assert(a == b);
    }
}

/// The number that `count` bytes of `bytes` spell, from `from` on.
fn read_half(bytes: &[u8; 32], from: usize) -> (value: u128)
    requires
        from + 16 <= 32,
    ensures
        value == be_value(bytes@.subrange(from as int, from + 16)),
{
    let mut value: u128 = 0;
    let mut i: usize = 0;
    while i < 16
        invariant
            i <= 16,
            from + 16 <= 32,
            value == be_value(bytes@.subrange(from as int, from + i)),
        decreases 16 - i,
    {
        let ghost part = bytes@.subrange(from as int, from + i);
        let ghost next = bytes@.subrange(from as int, from + i + 1);
        proof {
            lemma_be_value_bound(part);
            lemma_pow256(i as nat);
            assert(next.drop_last() == part);
        }
        value = value * 256 + bytes[from + i] as u128;
        i = i + 1;
    }
    value
}

/// Writes the sixteen bytes that spell `value` to `bytes`, from `from` on.
fn write_half(bytes: &mut [u8; 32], from: usize, value: u128)
    requires
        from + 16 <= 32,
    ensures
        be_value(final(bytes)@.subrange(from as int, from + 16)) == value,
        forall|j: int| 0 <= j < 32 && !(from <= j < from + 16) ==> final(bytes)@[j] == old(bytes)@[j],
{
    let mut left: u128 = value;
    let mut i: usize = 16;
    assert(bytes@.subrange(from + 16, from + 16) == Seq::<u8>::empty());
    assert(be_value(bytes@.subrange(from + 16, from + 16)) == 0);
    assert(pow256(0) == 1);
    assert(left * 1 == left);
    while i > 0
        invariant
            i <= 16,
            from + 16 <= 32,
            value == left * pow256((16 - i) as nat) + be_value(bytes@.subrange(from + i, from + 16)),
            forall|j: int| 0 <= j < 32 && !(from <= j < from + 16) ==> bytes@[j] == old(bytes)@[j],
        decreases i,
    {
        let ghost rest = bytes@.subrange(from + i, from + 16);
        let digit: u8 = (left % 256) as u8;
        i = i - 1;
        bytes[from + i] = digit;
        proof {
            let now = bytes@.subrange(from + i, from + 16);
            assert(now == seq![digit] + rest);
            lemma_be_value_front(digit, rest);
            let p = pow256(rest.len());
            assert(left * p == (left / 256) * (256 * p) + digit as nat * p) by (nonlinear_arith)
                requires
                    digit == left % 256,
            ;
        }
        left = left / 256;
    }
    proof {
        let all = bytes@.subrange(from as int, from + 16);
        lemma_be_value_bound(all);
        lemma_pow256(16);
        assert(left * pow256(16) + be_value(all) == value);
        assert(left == 0) by (nonlinear_arith)
            requires
                left * pow256(16) + be_value(all) == value,
                value < pow256(16),
                left >= 0,
                be_value(all) >= 0,
        ;
    }
}

impl Pubkey {
    /// The key with these bytes.
    pub fn new_from_array(bytes: [u8; 32]) -> (key: Pubkey)
        ensures
            key.is_spelled(bytes@),
            key.spec_bytes() == bytes@,
    {
        let key = Pubkey { hi: read_half(&bytes, 0), lo: read_half(&bytes, 16) };
        proof {
            assert(key.is_spelled(bytes@));
            lemma_bytes_round_trip(bytes@, key, key.spec_bytes());
        }
        key
    }

    /// Whether `bytes` are the 32 bytes of the key.
    pub open spec fn is_spelled(self, bytes: Seq<u8>) -> bool {
        &&& bytes.len() == 32
        &&& self.hi == be_value(bytes.subrange(0, 16))
        &&& self.lo == be_value(bytes.subrange(16, 32))
    }

    /// The 32 bytes of the key.
    pub open spec fn spec_bytes(self) -> Seq<u8> {
        choose|bytes: Seq<u8>| self.is_spelled(bytes)
    }

    /// The bytes of the key.
    pub fn to_bytes(&self) -> (bytes: [u8; 32])
        ensures
            self.is_spelled(bytes@),
            bytes@ == self.spec_bytes(),
    {
        let mut bytes: [u8; 32] = [0u8;32];
        write_half(&mut bytes, 0, self.hi);
        let ghost first = bytes@.subrange(0, 16);
        write_half(&mut bytes, 16, self.lo);
        assert(bytes@.subrange(0, 16) == first);
        proof {
            assert(self.is_spelled(bytes@));
            lemma_bytes_round_trip(bytes@, *self, self.spec_bytes());
        }
        bytes
    }

    /// The key as text: its bytes in base 58.
    pub fn to_string(&self) -> (text: String)
        ensures
            text@ == base58_text(self.spec_bytes()),
    {
        let bytes = self.to_bytes();
        let mut copy: Vec<u8> = Vec::with_capacity(32);
        let mut i: usize = 0;
        while i < 32
            invariant
                i <= 32,
                copy@ == bytes@.take(i as int),
            decreases 32 - i,
        {
            copy.push(bytes[i]);
            assert(bytes@.take(i + 1) == bytes@.take(i as int).push(bytes@[i as int]));
            i = i + 1;
        }
        assert(bytes@.take(32) == bytes@);
        base58_encode(&copy)
    }

    /// Whether `self` comes before `other`.
    pub fn lt(&self, other: &Pubkey) -> (r: bool)
        ensures
            r == (self@ < other@),
    {
        proof {
            lemma_view_injective(*self, *other);
        }
        self.hi < other.hi || (self.hi == other.hi && self.lo < other.lo)
    }
}

/// A key has one spelling: the bytes of the key made from `bytes` are
/// `bytes`.
pub proof fn lemma_bytes_round_trip(bytes: Seq<u8>, key: Pubkey, back: Seq<u8>)
    requires
        bytes.len() == 32,
        back.len() == 32,
        key.hi == be_value(bytes.subrange(0, 16)),
        key.lo == be_value(bytes.subrange(16, 32)),
        key.hi == be_value(back.subrange(0, 16)),
        key.lo == be_value(back.subrange(16, 32)),
    ensures
        back == bytes,
{
    lemma_be_value_injective(bytes.subrange(0, 16), back.subrange(0, 16));
    lemma_be_value_injective(bytes.subrange(16, 32), back.subrange(16, 32));
    assert forall|i: int| 0 <= i < 32 implies back[i] == bytes[i] by {
        if i < 16 {
            assert(back.subrange(0, 16)[i] == bytes.subrange(0, 16)[i]);
        } else {
            assert(back.subrange(16, 32)[i - 16] == bytes.subrange(16, 32)[i - 16]);
        }
    }
}

impl Default for Pubkey {
    /// The key whose bytes are all zero.
    fn default() -> (key: Pubkey)
        ensures
            key@ == 0,
            key == (Pubkey { hi: 0, lo: 0 }),
    {
        Pubkey { hi: 0, lo: 0 }
    }
}

} // verus!
