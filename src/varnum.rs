//! Base-128 variable-length encoding of `u32` values.
//!
//! Each byte carries seven bits of the value, least significant group first;
//! the high bit is set on every byte but the last.

use vstd::prelude::*;

verus! {

/// Most bytes a `u32` takes in this encoding.
pub const MAX_VARNUM_BYTES: usize = 5;

/// The bytes that encode `n`.
pub open spec fn varnum_bytes(n: nat) -> Seq<u8>
    decreases n,
{
    if n < 128 {
        seq![n as u8]
    } else {
        seq![(n % 128 + 128) as u8] + varnum_bytes(n / 128)
    }
}

/// Reads one encoded value from the front of `s`, where the current byte is
/// the `k`-th of the value: the value and the number of bytes it took.
/// No more than five bytes are read.
pub open spec fn parse_varnum_from(s: Seq<u8>, k: nat) -> Option<(nat, nat)>
    decreases s.len(),
{
    if k >= 5 || s.len() == 0 {
        None
    } else if s[0] < 128 {
        Some((s[0] as nat, 1))
    } else {
        match parse_varnum_from(s.drop_first(), k + 1) {
            Some((v, l)) => Some(((s[0] - 128) as nat + 128 * v, l + 1)),
            None => None,
        }
    }
}

/// Reads one encoded `u32` from the front of `s`: its value and the number of
/// bytes it took, or `None` where the bytes run out, the continuation bits go
/// on past five bytes, or the value does not fit in 32 bits.
pub open spec fn parse_varnum(s: Seq<u8>) -> Option<(nat, nat)> {
    match parse_varnum_from(s, 0) {
        Some((v, l)) => if v <= u32::MAX {
            Some((v, l))
        } else {
            None
        },
        None => None,
    }
}

/// Bound on a value read from the `k`-th byte on.
pub open spec fn varnum_limit(k: nat) -> nat
    decreases 5 - k,
{
    if k >= 4 {
        128
    } else {
        128 * varnum_limit(k + 1)
    }
}

proof fn lemma_limit_positive(k: nat)
    ensures
        varnum_limit(k) >= 128,
    decreases 5 - k,
{
    if k < 4 {
        lemma_limit_positive(k + 1);
    }
}

proof fn lemma_parse_from_bound(s: Seq<u8>, k: nat)
    ensures
        parse_varnum_from(s, k) matches Some((v, l)) ==> v < varnum_limit(k) && 1 <= l <= s.len()
            && l <= 5 - k,
    decreases s.len(),
{
    lemma_limit_positive(k);
    if k < 5 && s.len() > 0 && s[0] >= 128 {
        lemma_parse_from_bound(s.drop_first(), k + 1);
        if let Some((v, l)) = parse_varnum_from(s.drop_first(), (k + 1) as nat) {
            assert(k < 4);
            let low = (s[0] - 128) as nat;
            let lim = varnum_limit(k + 1);
            assert(low + 128 * v < 128 * lim) by (nonlinear_arith)
                requires
                    v < lim,
                    low < 128,
            ;
        }
    }
}

proof fn lemma_parse_from_prefix(s: Seq<u8>, q: nat, k: nat)
    requires
        parse_varnum_from(s, k) is Some,
        q <= s.len(),
    ensures
        q >= (parse_varnum_from(s, k)->0).1 ==> parse_varnum_from(s.take(q as int), k)
            == parse_varnum_from(s, k),
        q < (parse_varnum_from(s, k)->0).1 ==> parse_varnum_from(s.take(q as int), k) is None
            && forall|j: int| 0 <= j < q ==> s[j] >= 128,
    decreases s.len(),
{
    lemma_parse_from_bound(s, k);
    let p = s.take(q as int);
    if q > 0 && s[0] >= 128 {
        lemma_parse_from_prefix(s.drop_first(), (q - 1) as nat, k + 1);
        assert(p.drop_first() =~= s.drop_first().take(q - 1));
        assert(p[0] == s[0]);
        assert forall|j: int| 0 <= j < q && q < (parse_varnum_from(s, k)->0).1 implies s[j] >= 128 by {
            if j > 0 {
                assert(s[j] == s.drop_first()[j - 1]);
            }
        }
    } else if q > 0 {
        assert(p[0] == s[0]);
    }
}

/// What a varint is read as depends only on the bytes it takes; any shorter
/// prefix of it reads as nothing yet, every byte of it with its continuation
/// bit set.
pub proof fn lemma_varnum_prefix(s: Seq<u8>, q: nat)
    requires
        parse_varnum(s) is Some,
        q <= s.len(),
    ensures
        (parse_varnum(s)->0).1 <= MAX_VARNUM_BYTES,
        q >= (parse_varnum(s)->0).1 ==> parse_varnum(s.take(q as int)) == parse_varnum(s),
        q < (parse_varnum(s)->0).1 ==> parse_varnum(s.take(q as int)) is None && forall|j: int|
            0 <= j < q ==> s[j] >= 128,
{
    lemma_parse_from_bound(s, 0);
    lemma_parse_from_prefix(s, q, 0);
}

proof fn lemma_round_trip_from(n: nat, rest: Seq<u8>, k: nat)
    requires
        k < 5,
        n < varnum_limit(k),
    ensures
        parse_varnum_from(varnum_bytes(n) + rest, k) == Some((n, varnum_bytes(n).len())),
    decreases n,
{
    let s = varnum_bytes(n) + rest;
    if n >= 128 {
        assert(k < 4);
        assert(n / 128 < varnum_limit(k + 1)) by (nonlinear_arith)
            requires
                n < 128 * varnum_limit(k + 1),
        ;
        lemma_round_trip_from(n / 128, rest, k + 1);
        assert(s.drop_first() =~= varnum_bytes(n / 128) + rest);
        assert(n == n % 128 + 128 * (n / 128)) by (nonlinear_arith);
    }
}

/// Reading back the encoding of any `u32`, whatever follows it, gives the
/// value and exactly the bytes that were written.
pub proof fn lemma_varnum_round_trip(n: u32, rest: Seq<u8>)
    ensures
        parse_varnum(varnum_bytes(n as nat) + rest) == Some((n as nat, varnum_bytes(n as nat).len())),
        1 <= varnum_bytes(n as nat).len() <= MAX_VARNUM_BYTES,
{
    lemma_limit_values();
    lemma_round_trip_from(n as nat, rest, 0);
    lemma_parse_from_bound(varnum_bytes(n as nat) + rest, 0);
}

/// Appends the encoding of `n` to `out`.
pub fn write_varnum(out: &mut Vec<u8>, n: u32)
    ensures
        final(out)@ == old(out)@ + varnum_bytes(n as nat),
{
    let mut v: u32 = n;
    while v >= 128
        invariant
            out@ + varnum_bytes(v as nat) == old(out)@ + varnum_bytes(n as nat),
        decreases v,
    {
        let ghost before = out@;
        out.push((v % 128 + 128) as u8);
        assert(before + varnum_bytes(v as nat) =~= out@ + varnum_bytes((v / 128) as nat));
        v = v / 128;
    }
    out.push(v as u8);
    assert(out@ =~= old(out)@ + varnum_bytes(n as nat));
}

fn read_varnum_from(inp: &[u8], pos: usize, k: usize) -> (r: Option<(u64, usize)>)
    requires
        pos <= inp@.len(),
        k <= 5,
    ensures
        match r {
            Some((v, l)) => parse_varnum_from(inp@.skip(pos as int), k as nat) == Some((v as nat, l as nat)),
            None => parse_varnum_from(inp@.skip(pos as int), k as nat) is None,
        },
    decreases 5 - k,
{
    let ghost s = inp@.skip(pos as int);
    if k >= 5 || pos >= inp.len() {
        return None;
    }
    let b = inp[pos];
    assert(s[0] == b);
    if b < 128 {
        Some((b as u64, 1))
    } else {
        assert(inp@.skip(pos + 1) =~= s.drop_first());
        match read_varnum_from(inp, pos + 1, k + 1) {
            Some((v, l)) => {
                proof {
                    lemma_parse_from_bound(s.drop_first(), (k + 1) as nat);
                    lemma_limit_values();
                    lemma_limit_mono((k + 1) as nat);
                }
                Some(((b - 128) as u64 + 128 * v, l + 1))
            },
            None => None,
        }
    }
}

proof fn lemma_limit_mono(k: nat)
    requires
        k >= 1,
    ensures
        varnum_limit(k) <= varnum_limit(1),
    decreases k,
{
    if k > 1 && k < 4 {
        lemma_limit_mono((k - 1) as nat);
        lemma_limit_positive(k);
    }
    lemma_limit_values();
}

proof fn lemma_limit_values()
    ensures
        varnum_limit(4) == 128,
        varnum_limit(1) == 268435456,
        varnum_limit(0) == 34359738368,
{
    assert(varnum_limit(4) == 128);
    assert(varnum_limit(3) == 16384);
    assert(varnum_limit(2) == 2097152);
    assert(varnum_limit(1) == 268435456);
}

/// Reads one encoded `u32` from `inp` at `pos`: the value and the number of
/// bytes it took, or `None` where `parse_varnum` finds none.
pub fn read_varnum(inp: &[u8], pos: usize) -> (r: Option<(u32, usize)>)
    requires
        pos <= inp@.len(),
    ensures
        match r {
            Some((v, l)) => parse_varnum(inp@.skip(pos as int)) == Some((v as nat, l as nat)),
            None => parse_varnum(inp@.skip(pos as int)) is None,
        },
        r matches Some((v, l)) ==> 1 <= l <= inp@.len() - pos,
{
    proof {
        lemma_parse_from_bound(inp@.skip(pos as int), 0);
    }
    match read_varnum_from(inp, pos, 0) {
        Some((v, l)) => if v <= u32::MAX as u64 {
            Some((v as u32, l))
        } else {
            None
        },
        None => None,
    }
}

} // verus!
