//! Byte strings: concatenation, little-endian integers and the
//! lexicographic order on hashes.

use crate::digest::Sha256Hash;
use vstd::bytes::spec_u32_to_le_bytes;
use vstd::bytes::spec_u64_to_le_bytes;
use vstd::bytes::u32_to_le_bytes;
use vstd::bytes::u64_to_le_bytes;
use vstd::prelude::*;

verus! {

/// Lexicographic "less than or equal" on byte strings; a proper prefix is
/// smaller than the string it starts.
pub open spec fn lex_le(a: Seq<u8>, b: Seq<u8>) -> bool
    decreases a.len(),
{
    if a.len() == 0 {
        true
    } else if b.len() == 0 {
        false
    } else if a[0] != b[0] {
        a[0] < b[0]
    } else {
        lex_le(a.drop_first(), b.drop_first())
    }
}

/// `lex_le` on the parts of two equally long strings from index `from` on.
pub open spec fn lex_le_from(a: Seq<u8>, b: Seq<u8>, from: int) -> bool {
    lex_le(a.skip(from), b.skip(from))
}

/// Every byte string is below itself.
pub proof fn lemma_lex_le_refl(a: Seq<u8>)
    ensures
        lex_le(a, a),
    decreases a.len(),
{
    if a.len() > 0 {
        lemma_lex_le_refl(a.drop_first());
    }
}

/// Two byte strings that are below each other are equal.
pub proof fn lemma_lex_le_antisym(a: Seq<u8>, b: Seq<u8>)
    requires
        lex_le(a, b),
        lex_le(b, a),
    ensures
        a == b,
    decreases a.len(),
{
    if a.len() > 0 {
        lemma_lex_le_antisym(a.drop_first(), b.drop_first());
        assert(a =~= seq![a[0]] + a.drop_first());
        assert(b =~= seq![b[0]] + b.drop_first());
    } else {
        assert(a =~= b);
    }
}

/// Of two byte strings one is below the other.
pub proof fn lemma_lex_le_total(a: Seq<u8>, b: Seq<u8>)
    ensures
        lex_le(a, b) || lex_le(b, a),
    decreases a.len(),
{
    if a.len() > 0 && b.len() > 0 && a[0] == b[0] {
        lemma_lex_le_total(a.drop_first(), b.drop_first());
    }
}

/// What is below a byte string that is below a third is below the third.
pub proof fn lemma_lex_le_trans(a: Seq<u8>, b: Seq<u8>, c: Seq<u8>)
    requires
        lex_le(a, b),
        lex_le(b, c),
    ensures
        lex_le(a, c),
    decreases a.len(),
{
    if a.len() > 0 && a[0] == b[0] && b[0] == c[0] {
        lemma_lex_le_trans(a.drop_first(), b.drop_first(), c.drop_first());
    }
}

/// The number that a byte string spells in big-endian order.
pub open spec fn be_value(s: Seq<u8>) -> nat
    decreases s.len(),
{
    if s.len() == 0 {
        0
    } else {
        be_value(s.drop_last()) * 256 + s.last() as nat
    }
}

/// 256 to the power of `n`.
pub open spec fn pow256(n: nat) -> nat
    decreases n,
{
    if n == 0 {
        1
    } else {
        256 * pow256((n - 1) as nat)
    }
}

/// A byte string of `n` bytes spells a number below `256^n`.
pub proof fn lemma_be_value_bound(s: Seq<u8>)
    ensures
        be_value(s) < pow256(s.len()),
    decreases s.len(),
{
    if s.len() > 0 {
        lemma_be_value_bound(s.drop_last());
        let front = be_value(s.drop_last());
        let p = pow256((s.len() - 1) as nat);
        assert(front * 256 + s.last() < 256 * p) by (nonlinear_arith)
            requires
                front < p,
                s.last() < 256,
        ;
    }
}

/// The number that a byte string spells is its first byte, weighted, plus
/// the number that the rest spells.
pub proof fn lemma_be_value_front(s: Seq<u8>)
    requires
        s.len() > 0,
    ensures
        be_value(s) == s[0] * pow256((s.len() - 1) as nat) + be_value(s.drop_first()),
    decreases s.len(),
{
    if s.len() == 1 {
        assert(s.drop_last().len() == 0);
        assert(s.drop_first().len() == 0);
        assert(s.last() == s[0]);
        assert(be_value(s.drop_last()) == 0);
        assert(be_value(s.drop_first()) == 0);
        assert(pow256(0) == 1);
        assert(be_value(s) == s[0] as nat);
    } else {
        let inner = s.drop_last();
        let tail = s.drop_first();
        lemma_be_value_front(inner);
        assert(inner.drop_first() =~= tail.drop_last());
        assert(inner[0] == s[0]);
        assert(tail.last() == s.last());
        let p = pow256((s.len() - 2) as nat);
        let rest = be_value(inner.drop_first());
        assert(pow256((s.len() - 1) as nat) == 256 * p);
        assert(be_value(tail) == rest * 256 + s.last());
        assert(be_value(s) == be_value(inner) * 256 + s.last());
        assert(be_value(inner) == s[0] * p + rest);
        assert((s[0] * p + rest) * 256 + s.last() == s[0] * (256 * p) + (rest * 256 + s.last()))
            by (nonlinear_arith);
    }
}

/// For two byte strings of one length, the lexicographic order is the
/// order of the big-endian numbers that they spell.
pub proof fn lemma_lex_le_is_numeric(a: Seq<u8>, b: Seq<u8>)
    requires
        a.len() == b.len(),
    ensures
        lex_le(a, b) <==> be_value(a) <= be_value(b),
    decreases a.len(),
{
    if a.len() > 0 {
        lemma_be_value_front(a);
        lemma_be_value_front(b);
        lemma_be_value_bound(a.drop_first());
        lemma_be_value_bound(b.drop_first());
        lemma_lex_le_is_numeric(a.drop_first(), b.drop_first());
        let p = pow256((a.len() - 1) as nat);
        let ra = be_value(a.drop_first());
        let rb = be_value(b.drop_first());
        if a[0] < b[0] {
            assert(a[0] * p + ra < b[0] * p + rb) by (nonlinear_arith)
                requires
                    a[0] < b[0],
                    ra < p,
                    rb >= 0,
            ;
        } else if a[0] > b[0] {
            assert(a[0] * p + ra > b[0] * p + rb) by (nonlinear_arith)
                requires
                    a[0] > b[0],
                    rb < p,
                    ra >= 0,
            ;
        }
    }
}

/// Appends `src` to `buf`.
pub fn append_bytes(buf: &mut Vec<u8>, src: &[u8])
    ensures
        final(buf)@ == old(buf)@ + src@,
{
    let n = src.len();
    let mut i: usize = 0;
    while i < n
        invariant
            n == src@.len(),
            i <= n,
            buf@ == old(buf)@ + src@.subrange(0, i as int),
        decreases n - i,
    {
        buf.push(src[i]);
        proof {
            assert(src@.subrange(0, i + 1) =~= src@.subrange(0, i as int).push(src@[i as int]));
        }
        i += 1;
    }
    proof {
        assert(src@.subrange(0, n as int) =~= src@);
    }
}

/// Appends the eight little-endian bytes of `x`.
pub fn append_u64_le(buf: &mut Vec<u8>, x: u64)
    ensures
        final(buf)@ == old(buf)@ + spec_u64_to_le_bytes(x),
{
    let b = u64_to_le_bytes(x);
    append_bytes(buf, b.as_slice());
}

/// Appends the four little-endian bytes of `x`.
pub fn append_u32_le(buf: &mut Vec<u8>, x: u32)
    ensures
        final(buf)@ == old(buf)@ + spec_u32_to_le_bytes(x),
{
    let b = u32_to_le_bytes(x);
    append_bytes(buf, b.as_slice());
}

/// Whether two hashes hold the same bytes.
pub fn hash_eq(a: &Sha256Hash, b: &Sha256Hash) -> (same: bool)
    ensures
        same == (a@ == b@),
{
    let mut i: usize = 0;
    while i < 32
        invariant
            i <= 32,
            forall|j: int| 0 <= j < i ==> a@[j] == b@[j],
        decreases 32 - i,
    {
        if a[i] != b[i] {
            return false;
        }
        i += 1;
    }
    proof {
        assert(a@ =~= b@);
    }
    true
}

/// Whether `a` is at most `b` in the lexicographic order, which for two
/// hashes is the order of the big-endian numbers they spell.
pub fn hash_le(a: &Sha256Hash, b: &Sha256Hash) -> (le: bool)
    ensures
        le == lex_le(a@, b@),
{
    let mut i: usize = 0;
    proof {
        assert(a@.skip(0) =~= a@);
        assert(b@.skip(0) =~= b@);
    }
    while i < 32
        invariant
            i <= 32,
            lex_le(a@, b@) == lex_le_from(a@, b@, i as int),
        decreases 32 - i,
    {
        proof {
            let sa = a@.skip(i as int);
            let sb = b@.skip(i as int);
            assert(sa[0] == a@[i as int]);
            assert(sb[0] == b@[i as int]);
            assert(sa.drop_first() =~= a@.skip(i + 1));
            assert(sb.drop_first() =~= b@.skip(i + 1));
        }
        if a[i] != b[i] {
            return a[i] < b[i];
        }
        i += 1;
    }
    proof {
        assert(a@.skip(32).len() == 0);
    }
    true
}

} // verus!
