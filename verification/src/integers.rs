use vstd::prelude::*;

verus! {

/// Whether a serialized value stands for the SQL `NULL`.
#[derive(Clone, Copy, Debug, PartialEq, Eq, Structural)]
pub enum IsNull {
    No,
    Yes,
}

/// Failure while converting a value to or from its wire representation.
#[derive(Clone, Copy, Debug, PartialEq, Eq, Structural)]
pub enum CodecError {
    /// The byte payload was absent where a value is required.
    UnexpectedNull,
    /// The payload holds fewer bytes than the value's width.
    NotEnoughData,
}

/// The value a big-endian byte sequence denotes.
pub open spec fn be_val(bs: Seq<u8>) -> nat
    decreases bs.len(),
{
    if bs.len() == 0 {
        0
    } else {
        be_val(bs.drop_last()) * 256 + (bs.last() as nat)
    }
}

/// The `n`-byte big-endian representation of `v`.
pub open spec fn be_bytes(v: nat, n: nat) -> Seq<u8>
    decreases n,
{
    if n == 0 {
        Seq::empty()
    } else {
        be_bytes(v / 256, (n - 1) as nat).push((v % 256) as u8)
    }
}

/// The number of values `n` bytes can hold.
pub open spec fn pow256(n: nat) -> nat
    decreases n,
{
    if n == 0 {
        1
    } else {
        256 * pow256((n - 1) as nat)
    }
}

proof fn lemma_pow256_vals()
    ensures
        pow256(2) == 0x10000,
        pow256(4) == 0x100000000,
        pow256(8) == 0x10000000000000000,
{
    reveal_with_fuel(pow256, 9);
}

proof fn lemma_pow256_mono(a: nat, b: nat)
    requires
        a <= b,
    ensures
        pow256(a) <= pow256(b),
    decreases b,
{
    if a < b {
        lemma_pow256_mono(a, (b - 1) as nat);
        assert(pow256(b) == 256 * pow256((b - 1) as nat));
    }
}

/// Writing `v` on `n` bytes and reading them back yields `v`.
pub proof fn lemma_be_round_trip(v: nat, n: nat)
    requires
        v < pow256(n),
    ensures
        be_bytes(v, n).len() == n,
        be_val(be_bytes(v, n)) == v,
    decreases n,
{
    if n > 0 {
        assert(v / 256 < pow256((n - 1) as nat)) by (nonlinear_arith)
            requires
                v < 256 * pow256((n - 1) as nat),
        ;
        lemma_be_round_trip(v / 256, (n - 1) as nat);
        let inner = be_bytes(v / 256, (n - 1) as nat);
        assert(be_bytes(v, n) == inner.push((v % 256) as u8));
        assert(inner.push((v % 256) as u8).drop_last() =~= inner);
        assert(v == 256 * (v / 256) + v % 256) by (nonlinear_arith);
    }
}

/// Appends the `n`-byte big-endian representation of `v`.
fn write_be(v: u64, n: usize, out: &mut Vec<u8>)
    requires
        n <= 8,
        (v as nat) < pow256(n as nat),
    ensures
        final(out)@ == old(out)@ + be_bytes(v as nat, n as nat),
        final(out)@.len() == old(out)@.len() + n,
    decreases n,
{
    if n == 0 {
        proof {
            assert(out@ + be_bytes(v as nat, 0) =~= out@);
        }
    } else {
        proof {
            assert((v as nat) / 256 < pow256((n - 1) as nat)) by (nonlinear_arith)
                requires
                    (v as nat) < 256 * pow256((n - 1) as nat),
            ;
        }
        write_be(v / 256, n - 1, out);
        out.push((v % 256) as u8);
        proof {
            assert((old(out)@ + be_bytes((v as nat) / 256, (n - 1) as nat)).push(
                ((v as nat) % 256) as u8,
            ) =~= old(out)@ + be_bytes(v as nat, n as nat));
        }
    }
}

/// Reads the `n`-byte big-endian value at the front of `bytes`.
fn read_be(bytes: &[u8], n: usize) -> (r: u64)
    requires
        n <= 8,
        n <= bytes@.len(),
    ensures
        r as nat == be_val(bytes@.take(n as int)),
        (r as nat) < pow256(n as nat),
{
    let mut acc: u64 = 0;
    let mut i: usize = 0;
    proof {
        assert(bytes@.take(0) =~= Seq::<u8>::empty());
    }
    while i < n
        invariant
            i <= n,
            n <= 8,
            n <= bytes@.len(),
            acc as nat == be_val(bytes@.take(i as int)),
            (acc as nat) < pow256(i as nat),
        decreases n - i,
    {
        let b = bytes[i];
        proof {
            lemma_pow256_vals();
            lemma_pow256_mono(i as nat + 1, 8);
            assert(pow256(i as nat + 1) == 256 * pow256(i as nat));
            assert((acc as nat) * 256 + 256 <= 256 * pow256(i as nat)) by (nonlinear_arith)
                requires
                    (acc as nat) < pow256(i as nat),
            ;
        }
        acc = acc * 256 + (b as u64);
        proof {
            assert(bytes@.take(i as int + 1).drop_last() =~= bytes@.take(i as int));
            assert(bytes@.take(i as int + 1).last() == bytes@[i as int]);
        }
        i = i + 1;
    }
    acc
}

/// The unsigned bit pattern of an `i16`, as the backend sends it.
pub open spec fn i16_bits(x: i16) -> u16 {
    if x >= 0 {
        x as u16
    } else {
        (x + 0x10000) as u16
    }
}

/// The `i16` a bit pattern denotes.
pub open spec fn i16_of_bits(u: u16) -> i16 {
    if u < 0x8000 {
        u as i16
    } else {
        (u - 0x10000) as i16
    }
}

/// The unsigned bit pattern of an `i32`.
pub open spec fn i32_bits(x: i32) -> u32 {
    if x >= 0 {
        x as u32
    } else {
        (x + 0x100000000) as u32
    }
}

/// The `i32` a bit pattern denotes.
pub open spec fn i32_of_bits(u: u32) -> i32 {
    if u < 0x80000000 {
        u as i32
    } else {
        (u - 0x100000000) as i32
    }
}

/// The unsigned bit pattern of an `i64`.
pub open spec fn i64_bits(x: i64) -> u64 {
    if x >= 0 {
        x as u64
    } else {
        (x + 0x10000000000000000) as u64
    }
}

/// The `i64` a bit pattern denotes.
pub open spec fn i64_of_bits(u: u64) -> i64 {
    if u < 0x8000000000000000 {
        u as i64
    } else {
        (u - 0x10000000000000000) as i64
    }
}

/// The bit pattern round-trips for every value.
pub proof fn lemma_bits_round_trip(x16: i16, x32: i32, x64: i64)
    ensures
        i16_of_bits(i16_bits(x16)) == x16,
        i32_of_bits(i32_bits(x32)) == x32,
        i64_of_bits(i64_bits(x64)) == x64,
{
}

/// Serializes an `i16` as two big-endian bytes appended to `out`; the value
/// itself is never null.
pub fn i16_to_sql(x: i16, out: &mut Vec<u8>) -> (r: Result<IsNull, CodecError>)
    ensures
        final(out)@ == old(out)@ + be_bytes(i16_bits(x) as nat, 2),
        final(out)@.len() == old(out)@.len() + 2,
        r == Ok::<IsNull, CodecError>(IsNull::No),
{
    let bits: u16 = if x >= 0 {
        x as u16
    } else {
        ((x as i32) + 0x10000) as u16
    };
    proof {
        lemma_pow256_vals();
        lemma_pow256_mono(2, 8);
    }
    write_be(bits as u64, 2, out);
    Ok(IsNull::No)
}

/// Reads an `i16` from the first two bytes of a big-endian payload.
pub fn i16_from_sql(bytes: Option<&[u8]>) -> (r: Result<i16, CodecError>)
    ensures
        match bytes {
            None => r == Err::<i16, CodecError>(CodecError::UnexpectedNull),
            Some(b) => if b@.len() < 2 {
                r == Err::<i16, CodecError>(CodecError::NotEnoughData)
            } else {
                r == Ok::<i16, CodecError>(i16_of_bits(be_val(b@.take(2)) as u16))
            },
        },
{
    let b = match bytes {
        Some(b) => b,
        None => {
            return Err(CodecError::UnexpectedNull);
        },
    };
    if b.len() < 2 {
        return Err(CodecError::NotEnoughData);
    }
    let v = read_be(b, 2);
    proof {
        lemma_pow256_vals();
        lemma_pow256_mono(2, 8);
    }
    let bits = v as u16;
    let r: i16 = if bits < 0x8000 {
        bits as i16
    } else {
        ((bits as i32) - 0x10000) as i16
    };
    Ok(r)
}

/// Serializes an `i32` as four big-endian bytes appended to `out`.
pub fn i32_to_sql(x: i32, out: &mut Vec<u8>) -> (r: Result<IsNull, CodecError>)
    ensures
        final(out)@ == old(out)@ + be_bytes(i32_bits(x) as nat, 4),
        final(out)@.len() == old(out)@.len() + 4,
        r == Ok::<IsNull, CodecError>(IsNull::No),
{
    let bits: u32 = if x >= 0 {
        x as u32
    } else {
        ((x as i64) + 0x100000000) as u32
    };
    proof {
        lemma_pow256_vals();
        lemma_pow256_mono(4, 8);
    }
    write_be(bits as u64, 4, out);
    Ok(IsNull::No)
}

/// Reads an `i32` from the first four bytes of a big-endian payload.
pub fn i32_from_sql(bytes: Option<&[u8]>) -> (r: Result<i32, CodecError>)
    ensures
        match bytes {
            None => r == Err::<i32, CodecError>(CodecError::UnexpectedNull),
            Some(b) => if b@.len() < 4 {
                r == Err::<i32, CodecError>(CodecError::NotEnoughData)
            } else {
                r == Ok::<i32, CodecError>(i32_of_bits(be_val(b@.take(4)) as u32))
            },
        },
{
    let b = match bytes {
        Some(b) => b,
        None => {
            return Err(CodecError::UnexpectedNull);
        },
    };
    if b.len() < 4 {
        return Err(CodecError::NotEnoughData);
    }
    let v = read_be(b, 4);
    proof {
        lemma_pow256_vals();
        lemma_pow256_mono(4, 8);
    }
    let bits = v as u32;
    let r: i32 = if bits < 0x80000000 {
        bits as i32
    } else {
        ((bits as i64) - 0x100000000) as i32
    };
    Ok(r)
}

/// Serializes an `i64` as eight big-endian bytes appended to `out`.
pub fn i64_to_sql(x: i64, out: &mut Vec<u8>) -> (r: Result<IsNull, CodecError>)
    ensures
        final(out)@ == old(out)@ + be_bytes(i64_bits(x) as nat, 8),
        final(out)@.len() == old(out)@.len() + 8,
        r == Ok::<IsNull, CodecError>(IsNull::No),
{
    let bits: u64 = if x >= 0 {
        x as u64
    } else {
        (((x as i128) + 0x10000000000000000) as u64)
    };
    proof {
        lemma_pow256_vals();
    }
    write_be(bits, 8, out);
    Ok(IsNull::No)
}

/// Reads an `i64` from the first eight bytes of a big-endian payload.
pub fn i64_from_sql(bytes: Option<&[u8]>) -> (r: Result<i64, CodecError>)
    ensures
        match bytes {
            None => r == Err::<i64, CodecError>(CodecError::UnexpectedNull),
            Some(b) => if b@.len() < 8 {
                r == Err::<i64, CodecError>(CodecError::NotEnoughData)
            } else {
                r == Ok::<i64, CodecError>(i64_of_bits(be_val(b@.take(8)) as u64))
            },
        },
{
    let b = match bytes {
        Some(b) => b,
        None => {
            return Err(CodecError::UnexpectedNull);
        },
    };
    if b.len() < 8 {
        return Err(CodecError::NotEnoughData);
    }
    let v = read_be(b, 8);
    proof {
        lemma_pow256_vals();
    }
    let r: i64 = if v < 0x8000000000000000 {
        v as i64
    } else {
        (((v as i128) - 0x10000000000000000) as i64)
    };
    Ok(r)
}

/// Serializes a `u32` object identifier as four big-endian bytes.
pub fn u32_to_sql(x: u32, out: &mut Vec<u8>) -> (r: Result<IsNull, CodecError>)
    ensures
        final(out)@ == old(out)@ + be_bytes(x as nat, 4),
        final(out)@.len() == old(out)@.len() + 4,
        r == Ok::<IsNull, CodecError>(IsNull::No),
{
    proof {
        lemma_pow256_vals();
        lemma_pow256_mono(4, 8);
    }
    write_be(x as u64, 4, out);
    Ok(IsNull::No)
}

/// Reads a `u32` object identifier from the first four bytes of a
/// big-endian payload.
pub fn u32_from_sql(bytes: Option<&[u8]>) -> (r: Result<u32, CodecError>)
    ensures
        match bytes {
            None => r == Err::<u32, CodecError>(CodecError::UnexpectedNull),
            Some(b) => if b@.len() < 4 {
                r == Err::<u32, CodecError>(CodecError::NotEnoughData)
            } else {
                r == Ok::<u32, CodecError>(be_val(b@.take(4)) as u32)
            },
        },
{
    let b = match bytes {
        Some(b) => b,
        None => {
            return Err(CodecError::UnexpectedNull);
        },
    };
    if b.len() < 4 {
        return Err(CodecError::NotEnoughData);
    }
    let v = read_be(b, 4);
    proof {
        lemma_pow256_vals();
        lemma_pow256_mono(4, 8);
    }
    Ok(v as u32)
}

} // verus!
