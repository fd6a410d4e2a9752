//! Readers for the compound and variable-length items of CAT062.
use vstd::prelude::*;
use crate::asterix::cursor::{bytes_view, read_agrees, spec_take, spec_u8, spec_u24_be, Cursor, ReadOutcome};
use crate::asterix::error::AsterixError;
use crate::asterix::items::{announced, read_compound, read_fx_chain, spec_compound, spec_fx_chain, item_mask};

verus! {

/// Subfield sizes of I062/390 (Flight Plan Related Data).
pub open spec fn table_i062_390() -> Seq<usize> {
    seq![2, 7, 4, 1, 4, 4, 4, 4, 3, 2, 2, 6, 4, 1, 7, 7, 2, 6]
}

/// Subfield sizes of I062/110 (Mode 5 Data / Extended Mode 1 Code).
pub open spec fn table_i062_110() -> Seq<usize> {
    seq![1, 4, 6, 2, 2, 2, 2]
}

/// Subfield sizes of I062/500 (Estimated Accuracies).
pub open spec fn table_i062_500() -> Seq<usize> {
    seq![4, 2, 4, 1, 2, 2, 2, 2]
}

/// Subfield sizes of I062/340 (Measured Information).
pub open spec fn table_i062_340() -> Seq<usize> {
    seq![2, 4, 2, 2, 2, 1]
}

/// I062/290 - System Track Update Ages: every subfield is one octet.
pub fn read_compound_i062_290(cur: &mut Cursor) -> (res: Result<Vec<u8>, AsterixError>)
    ensures
        final(cur).data() == old(cur).data(),
        read_agrees(bytes_view(res), spec_compound(old(cur).data(), old(cur).pos(), None), final(cur).pos()),
{
    read_compound(cur, None)
}

/// I062/295 - Track Data Ages: every subfield is one octet.
pub fn read_compound_i062_295(cur: &mut Cursor) -> (res: Result<Vec<u8>, AsterixError>)
    ensures
        final(cur).data() == old(cur).data(),
        read_agrees(bytes_view(res), spec_compound(old(cur).data(), old(cur).pos(), None), final(cur).pos()),
{
    read_compound(cur, None)
}

/// I062/390 - Flight Plan Related Data.
pub fn read_compound_i062_390(cur: &mut Cursor) -> (res: Result<Vec<u8>, AsterixError>)
    ensures
        final(cur).data() == old(cur).data(),
        read_agrees(
            bytes_view(res),
            spec_compound(old(cur).data(), old(cur).pos(), Some(table_i062_390())),
            final(cur).pos(),
        ),
{
    let sizes: [usize; 18] = [2, 7, 4, 1, 4, 4, 4, 4, 3, 2, 2, 6, 4, 1, 7, 7, 2, 6];
    assert(sizes@ =~= table_i062_390());
    read_compound(cur, Some(sizes.as_slice()))
}

/// I062/110 - Mode 5 Data / Extended Mode 1 Code.
pub fn read_compound_i062_110(cur: &mut Cursor) -> (res: Result<Vec<u8>, AsterixError>)
    ensures
        final(cur).data() == old(cur).data(),
        read_agrees(
            bytes_view(res),
            spec_compound(old(cur).data(), old(cur).pos(), Some(table_i062_110())),
            final(cur).pos(),
        ),
{
    let sizes: [usize; 7] = [1, 4, 6, 2, 2, 2, 2];
    assert(sizes@ =~= table_i062_110());
    read_compound(cur, Some(sizes.as_slice()))
}

/// I062/500 - Estimated Accuracies.
pub fn read_compound_i062_500(cur: &mut Cursor) -> (res: Result<Vec<u8>, AsterixError>)
    ensures
        final(cur).data() == old(cur).data(),
        read_agrees(
            bytes_view(res),
            spec_compound(old(cur).data(), old(cur).pos(), Some(table_i062_500())),
            final(cur).pos(),
        ),
{
    let sizes: [usize; 8] = [4, 2, 4, 1, 2, 2, 2, 2];
    assert(sizes@ =~= table_i062_500());
    read_compound(cur, Some(sizes.as_slice()))
}

/// I062/340 - Measured Information.
pub fn read_compound_i062_340(cur: &mut Cursor) -> (res: Result<Vec<u8>, AsterixError>)
    ensures
        final(cur).data() == old(cur).data(),
        read_agrees(
            bytes_view(res),
            spec_compound(old(cur).data(), old(cur).pos(), Some(table_i062_340())),
            final(cur).pos(),
        ),
{
    let sizes: [usize; 6] = [2, 4, 2, 2, 2, 1];
    assert(sizes@ =~= table_i062_340());
    read_compound(cur, Some(sizes.as_slice()))
}

/// A compound item read only up to its indicator octets, which are returned.
pub fn read_compound_field(cur: &mut Cursor) -> (res: Result<Vec<u8>, AsterixError>)
    ensures
        final(cur).data() == old(cur).data(),
        read_agrees(bytes_view(res), spec_fx_chain(old(cur).data(), old(cur).pos()), final(cur).pos()),
{
    read_fx_chain(cur)
}

/// The sign-extended value of a 24-bit two's complement pattern.
pub open spec fn i24_of(u: u32) -> i32 {
    if u < 0x80_0000 {
        u as i32
    } else {
        (u - 0x100_0000) as i32
    }
}

/// A big-endian signed 24-bit value.
pub open spec fn spec_i24_be(s: Seq<u8>, p: int) -> ReadOutcome<i32> {
    match spec_u24_be(s, p) {
        Ok((u, q)) => Ok((i24_of(u), q)),
        Err(e) => Err(e),
    }
}

/// Read a signed 24-bit big-endian value, sign-extended.
pub fn read_i24_be(cur: &mut Cursor) -> (res: Result<i32, AsterixError>)
    ensures
        final(cur).data() == old(cur).data(),
        read_agrees(res, spec_i24_be(old(cur).data(), old(cur).pos()), final(cur).pos()),
{
    let raw = cur.read_u24_be()?;
    if raw < 0x80_0000 {
        Ok(raw as i32)
    } else {
        Ok((raw as i32) - 0x100_0000)
    }
}

/// Fixed subfield sizes of I062/380 (Aircraft Derived Data); the variable
/// subfields TIS (8), TID (9), SAB (11) and MB (25) are read by their own layout.
pub open spec fn table_i062_380() -> Seq<usize> {
    seq![3, 6, 2, 2, 2, 2, 2, 0, 0, 2, 0, 7, 2, 2, 2, 2, 2, 2, 1, 8, 1, 6, 2, 1, 0, 2, 2, 2]
}

/// A repetitive subfield: a count octet followed by that many blocks of `width` octets.
pub open spec fn spec_repetitive(s: Seq<u8>, p: int, width: int) -> ReadOutcome<Seq<u8>> {
    match spec_u8(s, p) {
        Err(e) => Err(e),
        Ok((n, q)) => match spec_take(s, q, n * width) {
            Err(e) => Err(e),
            Ok((b, r)) => Ok((seq![n] + b, r)),
        },
    }
}

/// Subfield `i` (from 0) of I062/380, kept raw: the octets it spans, in
/// input order. SAB spans its FX-chained octets and the one octet after them.
pub open spec fn spec_i062_380_subfield(i: int, s: Seq<u8>, p: int) -> ReadOutcome<Seq<u8>> {
    if i == 7 {
        spec_fx_chain(s, p)
    } else if i == 8 {
        spec_repetitive(s, p, 15)
    } else if i == 10 {
        match spec_fx_chain(s, p) {
            Err(e) => Err(e),
            Ok((d, q)) => match spec_u8(s, q) {
                Err(e) => Err(e),
                Ok((b, r)) => Ok((d.push(b), r)),
            },
        }
    } else if i == 24 {
        spec_repetitive(s, p, 8)
    } else {
        spec_take(s, p, table_i062_380()[i] as int)
    }
}

/// The octets of I062/380 after its indicators `ind`, reading from `p` the
/// subfields among the first `k` that `ind` announces (only the 28 known ones).
pub open spec fn spec_i062_380_upto(s: Seq<u8>, ind: Seq<u8>, p: int, k: int) -> ReadOutcome<Seq<u8>>
    decreases k,
{
    if k <= 0 {
        Ok((ind, p))
    } else {
        match spec_i062_380_upto(s, ind, p, k - 1) {
            Err(e) => Err(e),
            Ok((acc, q)) => if k - 1 < 28 && announced(ind, k - 1) {
                match spec_i062_380_subfield(k - 1, s, q) {
                    Err(e) => Err(e),
                    Ok((b, r)) => Ok((acc + b, r)),
                }
            } else {
                Ok((acc, q))
            },
        }
    }
}

/// I062/380: its indicator octets, then each announced subfield in order.
pub open spec fn spec_i062_380(s: Seq<u8>, p: int) -> ReadOutcome<Seq<u8>> {
    match spec_fx_chain(s, p) {
        Err(e) => Err(e),
        Ok((ind, q)) => spec_i062_380_upto(s, ind, q, 7 * ind.len() as int),
    }
}

proof fn lemma_i062_380_err(s: Seq<u8>, ind: Seq<u8>, p: int, k: int, m: int)
    requires
        k <= m,
        spec_i062_380_upto(s, ind, p, k) is Err,
    ensures
        spec_i062_380_upto(s, ind, p, m) == spec_i062_380_upto(s, ind, p, k),
    decreases m - k,
{
    if k < m {
        lemma_i062_380_err(s, ind, p, k, m - 1);
    }
}

fn read_repetitive(cur: &mut Cursor, width: usize) -> (res: Result<Vec<u8>, AsterixError>)
    requires
        width <= 15,
    ensures
        final(cur).data() == old(cur).data(),
        read_agrees(bytes_view(res), spec_repetitive(old(cur).data(), old(cur).pos(), width as int), final(cur).pos()),
{
    let n = cur.read_u8()?;
    assert((n as usize) * width <= 255 * 15) by (nonlinear_arith)
        requires
            n <= 255,
            width <= 15,
    ;
    let mut blocks = cur.read_bytes(n as usize * width)?;
    let mut out: Vec<u8> = Vec::new();
    out.push(n);
    out.append(&mut blocks);
    Ok(out)
}

fn read_i062_380_subfield(cur: &mut Cursor, i: usize) -> (res: Result<Vec<u8>, AsterixError>)
    requires
        i < 28,
    ensures
        final(cur).data() == old(cur).data(),
        read_agrees(
            bytes_view(res),
            spec_i062_380_subfield(i as int, old(cur).data(), old(cur).pos()),
            final(cur).pos(),
        ),
{
    if i == 7 {
        read_fx_chain(cur)
    } else if i == 8 {
        read_repetitive(cur, 15)
    } else if i == 10 {
        let mut data = read_fx_chain(cur)?;
        let b = cur.read_u8()?;
        data.push(b);
        Ok(data)
    } else if i == 24 {
        read_repetitive(cur, 8)
    } else {
        let sizes: [usize; 28] = [3, 6, 2, 2, 2, 2, 2, 0, 0, 2, 0, 7, 2, 2, 2, 2, 2, 2, 1, 8, 1, 6, 2, 1, 0, 2, 2, 2];
        assert(sizes@ =~= table_i062_380());
        cur.read_bytes(sizes[i])
    }
}

/// I062/380 - Aircraft Derived Data, kept raw: indicators, then the announced subfields.
pub fn read_compound_i062_380(cur: &mut Cursor) -> (res: Result<Vec<u8>, AsterixError>)
    ensures
        final(cur).data() == old(cur).data(),
        read_agrees(bytes_view(res), spec_i062_380(old(cur).data(), old(cur).pos()), final(cur).pos()),
{
    let ghost s = cur.data();
    let ind = read_fx_chain(cur)?;
    let ghost p0 = cur.pos();
    let n = ind.len() * 7;
    let mut result: Vec<u8> = Vec::new();
    let mut j: usize = 0;
    while j < ind.len()
        invariant
            0 <= j <= ind.len(),
            result@ == ind@.take(j as int),
        decreases ind.len() - j,
    {
        result.push(ind[j]);
        j = j + 1;
        assert(result@ =~= ind@.take(j as int));
    }
    assert(ind@.take(ind.len() as int) =~= ind@);
    let mut k: usize = 0;
    while k < n
        invariant
            n == 7 * ind@.len(),
            ind@.len() <= 16,
            0 <= k <= n,
            cur.data() == s,
            s == old(cur).data(),
            spec_fx_chain(s, old(cur).pos()) == Ok::<(Seq<u8>, int), AsterixError>((ind@, p0)),
            spec_i062_380_upto(s, ind@, p0, k as int) == Ok::<(Seq<u8>, int), AsterixError>(
                (result@, cur.pos()),
            ),
        decreases n - k,
    {
        if k < 28 && ind[k / 7] & item_mask(k % 7) != 0 {
            match read_i062_380_subfield(cur, k) {
                Ok(mut data) => {
                    result.append(&mut data);
                },
                Err(e) => {
                    proof {
                        lemma_i062_380_err(s, ind@, p0, k + 1, n as int);
                    }
                    return Err(e);
                },
            }
        }
        k = k + 1;
    }
    Ok(result)
}

/// The extension of I062/510 after `g` groups of three octets whose last one
/// announced more: the next group, and the ones it announces. Reading an
/// eleventh group gives `ComposedTrackNumberTooLong`.
pub open spec fn spec_i062_510_more(s: Seq<u8>, p: int, g: int) -> ReadOutcome<Seq<u8>>
    decreases 11 - g,
{
    match spec_take(s, p, 3) {
        Err(e) => Err(e),
        Ok((grp, q)) => if 3 * (g + 1) > 30 {
            Err(AsterixError::ComposedTrackNumberTooLong)
        } else if grp[2] & 1 != 0 {
            match spec_i062_510_more(s, q, g + 1) {
                Err(e) => Err(e),
                Ok((rest, r)) => Ok((grp + rest, r)),
            }
        } else {
            Ok((grp, q))
        },
    }
}

/// I062/510 - Composed Track Number: groups of three octets, another group
/// following while the last octet of a group has its FX bit set.
pub open spec fn spec_i062_510(s: Seq<u8>, p: int) -> ReadOutcome<Seq<u8>> {
    match spec_take(s, p, 3) {
        Err(e) => Err(e),
        Ok((grp, q)) => if grp[2] & 1 != 0 {
            match spec_i062_510_more(s, q, 1) {
                Err(e) => Err(e),
                Ok((rest, r)) => Ok((grp + rest, r)),
            }
        } else {
            Ok((grp, q))
        },
    }
}

/// `r` with `a` put in front of the octets it yields.
pub open spec fn prefixed(a: Seq<u8>, r: ReadOutcome<Seq<u8>>) -> ReadOutcome<Seq<u8>> {
    match r {
        Err(e) => Err(e),
        Ok((b, q)) => Ok((a + b, q)),
    }
}

proof fn lemma_prefixed_assoc(a: Seq<u8>, b: Seq<u8>, r: ReadOutcome<Seq<u8>>)
    ensures
        prefixed(a, prefixed(b, r)) == prefixed(a + b, r),
{
    if let Ok((c, q)) = r {
        assert(a + (b + c) =~= (a + b) + c);
    }
}

/// I062/510 - Composed Track Number, kept raw.
pub fn read_compound_i062_510(cur: &mut Cursor) -> (res: Result<Vec<u8>, AsterixError>)
    ensures
        final(cur).data() == old(cur).data(),
        read_agrees(bytes_view(res), spec_i062_510(old(cur).data(), old(cur).pos()), final(cur).pos()),
{
    let ghost s = cur.data();
    let ghost p0 = cur.pos();
    let mut result = cur.read_bytes(3)?;
    let mut g: usize = 1;
    while result[result.len() - 1] & 1 != 0
        invariant
            cur.data() == s,
            s == old(cur).data(),
            p0 == old(cur).pos(),
            1 <= g <= 10,
            result@.len() == 3 * g,
            result@[result@.len() - 1] & 1 != 0 ==> spec_i062_510(s, p0) == prefixed(
                result@,
                spec_i062_510_more(s, cur.pos(), g as int),
            ),
            result@[result@.len() - 1] & 1 == 0 ==> spec_i062_510(s, p0) == Ok::<
                (Seq<u8>, int),
                AsterixError,
            >((result@, cur.pos())),
        decreases 10 - g,
    {
        let ghost old_pos = cur.pos();
        let ghost old_g = g as int;
        let mut grp = cur.read_bytes(3)?;
        let ghost old_result = result@;
        let ghost gv = grp@;
        result.append(&mut grp);
        g = g + 1;
        if result.len() > 30 {
            return Err(AsterixError::ComposedTrackNumberTooLong);
        }
        assert(result@[result@.len() - 1] == gv[2]) by {
            assert(result@ == old_result + gv);
        }
        proof {
            if gv[2] & 1 != 0 {
                lemma_prefixed_assoc(old_result, gv, spec_i062_510_more(s, cur.pos(), g as int));
            } else {
                assert(spec_i062_510_more(s, old_pos, old_g) == Ok::<(Seq<u8>, int), AsterixError>((gv, cur.pos())));
            }
        }
    }
    Ok(result)
}

} // verus!
