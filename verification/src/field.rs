//! Unsigned integers written as big-endian bytes, as field elements and
//! curve coordinates arrive on the wire, and the moduli of the two fields of
//! the BN254 curve.
use vstd::prelude::*;

verus! {

/// `256^digits`: the number of values that `digits` bytes can write.
pub open spec fn base256(digits: nat) -> nat
    decreases digits,
{
    if digits == 0 {
        1
    } else {
        256 * base256((digits - 1) as nat)
    }
}

/// The number that `bytes` write, most significant byte first.
pub open spec fn be_value(bytes: Seq<u8>) -> nat
    decreases bytes.len(),
{
    if bytes.len() == 0 {
        0
    } else {
        be_value(bytes.drop_last()) * 256 + bytes.last() as nat
    }
}

/// The low `digits` bytes of `value`, most significant byte first.
pub open spec fn be_bytes(value: nat, digits: nat) -> Seq<u8>
    decreases digits,
{
    if digits == 0 {
        Seq::empty()
    } else {
        be_bytes(value / 256, (digits - 1) as nat).push((value % 256) as u8)
    }
}

/// Bytes write a number below `256^len`.
pub proof fn lemma_be_value_bound(bytes: Seq<u8>)
    ensures
        be_value(bytes) < base256(bytes.len()),
    decreases bytes.len(),
{
    if bytes.len() > 0 {
        lemma_be_value_bound(bytes.drop_last());
    }
}

/// Writing the number that `bytes` write, in as many bytes, gives `bytes` back.
pub proof fn lemma_be_bytes_of_value(bytes: Seq<u8>)
    ensures
        be_bytes(be_value(bytes), bytes.len()) == bytes,
    decreases bytes.len(),
{
    if bytes.len() > 0 {
        let front = bytes.drop_last();
        lemma_be_bytes_of_value(front);
        assert(be_value(bytes) / 256 == be_value(front));
        assert(be_value(bytes) % 256 == bytes.last());
        assert(front.push(bytes.last()) =~= bytes);
    } else {
        assert(bytes =~= Seq::<u8>::empty());
    }
}

/// The first byte weighs `256^(len - 1)`; the rest write the remainder.
pub proof fn lemma_be_value_split_first(bytes: Seq<u8>)
    requires
        bytes.len() > 0,
    ensures
        be_value(bytes) == bytes[0] * base256((bytes.len() - 1) as nat) + be_value(
            bytes.drop_first(),
        ),
    decreases bytes.len(),
{
    let front = bytes.drop_last();
    let tail = bytes.drop_first();
    assert(be_value(bytes) == be_value(front) * 256 + bytes.last() as nat);
    if bytes.len() == 1 {
        assert(front.len() == 0);
        assert(be_value(front) == 0);
        assert(tail.len() == 0);
        assert(be_value(tail) == 0);
        assert(base256(0) == 1);
        assert(bytes.last() == bytes[0]);
    } else {
        lemma_be_value_split_first(front);
        assert(tail.drop_last() =~= front.drop_first());
        assert(tail.last() == bytes.last());
        assert(front[0] == bytes[0]);
        let weight = base256((front.len() - 1) as nat);
        let head = bytes[0] as nat;
        let mid = be_value(front.drop_first());
        assert(be_value(front) == head * weight + mid);
        assert(be_value(tail) == mid * 256 + bytes.last() as nat);
        assert(base256((bytes.len() - 1) as nat) == 256 * weight);
        assert((head * weight + mid) * 256 == head * (256 * weight) + mid * 256)
            by (nonlinear_arith);
    }
}

/// Subtracts `b` from `a` as 256-bit big-endian numbers.  The flag tells
/// that `a` is the smaller one; the difference then wraps around `256^32`.
pub fn be_sub(a: &[u8; 32], b: &[u8; 32]) -> (result: ([u8; 32], bool))
    ensures
        result.1 == (be_value(a@) < be_value(b@)),
        result.0@ == be_bytes(
            (if result.1 {
                base256(32) + be_value(a@) - be_value(b@)
            } else {
                be_value(a@) - be_value(b@)
            }) as nat,
            32,
        ),
{
    let mut out = [0u8; 32];
    let mut borrow: bool = false;
    let mut i: usize = 32;
    assert(a@.subrange(32, 32) =~= Seq::<u8>::empty());
    assert(b@.subrange(32, 32) =~= Seq::<u8>::empty());
    assert(out@.subrange(32, 32) =~= Seq::<u8>::empty());
    while i > 0
        invariant
            i <= 32,
            be_value(a@.subrange(i as int, 32)) + (if borrow {
                base256((32 - i) as nat)
            } else {
                0
            }) == be_value(b@.subrange(i as int, 32)) + be_value(out@.subrange(i as int, 32)),
        decreases i,
    {
        let ghost seen = out@;
        let ghost weight = base256((32 - i) as nat);
        let j: usize = i - 1;
        let x: u8 = a[j];
        let y: u8 = b[j];
        let owed: u8 = if borrow { 1 } else { 0 };
        let digit: u8;
        let next: bool;
        if x >= y && x - y >= owed {
            digit = x - y - owed;
            next = false;
        } else {
            digit = ((256u16 + x as u16) - y as u16 - owed as u16) as u8;
            next = true;
        }
        out[j] = digit;
        proof {
            let a_old = a@.subrange(i as int, 32);
            let b_old = b@.subrange(i as int, 32);
            let o_old = seen.subrange(i as int, 32);
            let a_new = a@.subrange(j as int, 32);
            let b_new = b@.subrange(j as int, 32);
            let o_new = out@.subrange(j as int, 32);
            assert(a_new.drop_first() =~= a_old);
            assert(b_new.drop_first() =~= b_old);
            assert(o_new.drop_first() =~= o_old);
            assert(out@.subrange(i as int, 32) =~= o_old);
            lemma_be_value_split_first(a_new);
            lemma_be_value_split_first(b_new);
            lemma_be_value_split_first(o_new);
            assert(a_new[0] == x && b_new[0] == y && o_new[0] == digit);
            assert(be_value(a_new) == x * weight + be_value(a_old));
            assert(be_value(b_new) == y * weight + be_value(b_old));
            assert(be_value(o_new) == digit * weight + be_value(o_old));
            let carry_in: int = if borrow { 1 } else { 0 };
            let carry_out: int = if next { 1 } else { 0 };
            assert(x - y - carry_in == digit - 256 * carry_out);
            assert(base256((32 - j) as nat) == 256 * weight);
            assert(carry_in * weight == if borrow { weight as int } else { 0 })
                by (nonlinear_arith)
                requires carry_in == (if borrow { 1int } else { 0int });
            assert(carry_out * (256 * weight) == if next { 256 * weight as int } else { 0 })
                by (nonlinear_arith)
                requires carry_out == (if next { 1int } else { 0int });
            assert(x * weight - carry_in * weight + carry_out * (256 * weight) == y * weight
                + digit * weight) by (nonlinear_arith)
                requires x - y - carry_in == digit - 256 * carry_out;
        }
        borrow = next;
        i = j;
    }
    proof {
        assert(a@.subrange(0, 32) =~= a@);
        assert(b@.subrange(0, 32) =~= b@);
        assert(out@.subrange(0, 32) =~= out@);
        lemma_be_value_bound(out@);
        lemma_be_value_bound(a@);
        lemma_be_value_bound(b@);
        lemma_be_bytes_of_value(out@);
    }
    (out, borrow)
}

/// Whether `a` writes a smaller number than `b`.
pub fn be_less_than(a: &[u8; 32], b: &[u8; 32]) -> (less: bool)
    ensures
        less == (be_value(a@) < be_value(b@)),
{
    be_sub(a, b).1
}

/// The modulus of the base field, over which coordinates are written.
pub open spec fn base_field_modulus() -> Seq<u8> {
    seq![
        0x30u8, 0x64, 0x4e, 0x72, 0xe1, 0x31, 0xa0, 0x29, 0xb8, 0x50, 0x45, 0xb6, 0x81, 0x81, 0x58, 0x5d,
        0x97, 0x81, 0x6a, 0x91, 0x68, 0x71, 0xca, 0x8d, 0x3c, 0x20, 0x8c, 0x16, 0xd8, 0x7c, 0xfd, 0x47,
    ]
}

/// The order of the groups G1 and G2, which is the modulus of the scalar
/// field: public signals are numbers below it.
pub open spec fn scalar_field_order() -> Seq<u8> {
    seq![
        0x30u8, 0x64, 0x4e, 0x72, 0xe1, 0x31, 0xa0, 0x29, 0xb8, 0x50, 0x45, 0xb6, 0x81, 0x81, 0x58, 0x5d,
        0x28, 0x33, 0xe8, 0x48, 0x79, 0xb9, 0x70, 0x91, 0x43, 0xe1, 0xf5, 0x93, 0xf0, 0x00, 0x00, 0x01,
    ]
}

/// The bytes of the base field's modulus.
pub fn base_field_modulus_bytes() -> (q: [u8; 32])
    ensures
        q@ == base_field_modulus(),
{
    let q: [u8; 32] = [
        0x30, 0x64, 0x4e, 0x72, 0xe1, 0x31, 0xa0, 0x29, 0xb8, 0x50, 0x45, 0xb6, 0x81, 0x81, 0x58, 0x5d,
        0x97, 0x81, 0x6a, 0x91, 0x68, 0x71, 0xca, 0x8d, 0x3c, 0x20, 0x8c, 0x16, 0xd8, 0x7c, 0xfd, 0x47,
    ];
    assert(q@ =~= base_field_modulus());
    q
}

/// The bytes of the scalar field's modulus.
pub fn scalar_field_order_bytes() -> (r: [u8; 32])
    ensures
        r@ == scalar_field_order(),
{
    let r: [u8; 32] = [
        0x30, 0x64, 0x4e, 0x72, 0xe1, 0x31, 0xa0, 0x29, 0xb8, 0x50, 0x45, 0xb6, 0x81, 0x81, 0x58, 0x5d,
        0x28, 0x33, 0xe8, 0x48, 0x79, 0xb9, 0x70, 0x91, 0x43, 0xe1, 0xf5, 0x93, 0xf0, 0x00, 0x00, 0x01,
    ];
    assert(r@ =~= scalar_field_order());
    r
}

/// Thirty-two bytes whose first is at most `0x1f` write a number below the
/// scalar field's modulus.
pub proof fn lemma_short_first_byte_is_scalar(bytes: Seq<u8>)
    requires
        bytes.len() == 32,
        bytes[0] <= 0x1f,
    ensures
        be_value(bytes) < be_value(scalar_field_order()),
{
    let order = scalar_field_order();
    let weight = base256(31);
    lemma_be_value_split_first(bytes);
    lemma_be_value_bound(bytes.drop_first());
    lemma_be_value_split_first(order);
    assert(order[0] == 0x30);
    let first = bytes[0] as nat;
    assert(first * weight + weight <= 0x30 * weight) by (nonlinear_arith)
        requires
            first <= 0x1f,
    ;
}

} // verus!
