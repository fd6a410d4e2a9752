//! Readers for the item layouts that several categories share: FX-chained
//! octets and compound items whose subfields are announced by indicator octets.
use vstd::prelude::*;
use crate::asterix::cursor::{bytes_view, read_agrees, spec_fx_octets, spec_take, Cursor, ReadOutcome};
use crate::asterix::error::AsterixError;

verus! {

/// An FX-chained item of at most 16 octets.
pub open spec fn spec_fx_chain(s: Seq<u8>, p: int) -> ReadOutcome<Seq<u8>> {
    spec_fx_octets(s, p, 16, AsterixError::FxChainTooLong)
}

/// Read an FX-chained item (at most 16 octets).
pub fn read_fx_chain(cur: &mut Cursor) -> (res: Result<Vec<u8>, AsterixError>)
    ensures
        final(cur).data() == old(cur).data(),
        read_agrees(bytes_view(res), spec_fx_chain(old(cur).data(), old(cur).pos()), final(cur).pos()),
{
    cur.read_fx_octets(16, AsterixError::FxChainTooLong)
}

/// The bit of an FSPEC or indicator octet that announces the `b`-th item of
/// that octet (`b` from 0 to 6, most significant bit first; bit 0 is FX).
pub open spec fn presence_mask(b: int) -> u8 {
    if b == 0 {
        0x80
    } else if b == 1 {
        0x40
    } else if b == 2 {
        0x20
    } else if b == 3 {
        0x10
    } else if b == 4 {
        0x08
    } else if b == 5 {
        0x04
    } else {
        0x02
    }
}

/// The bit of an FSPEC or indicator octet for the `b`-th item of that octet.
pub fn item_mask(b: usize) -> (m: u8)
    requires
        b < 7,
    ensures
        m == presence_mask(b as int),
{
    if b == 0 {
        0x80
    } else if b == 1 {
        0x40
    } else if b == 2 {
        0x20
    } else if b == 3 {
        0x10
    } else if b == 4 {
        0x08
    } else if b == 5 {
        0x04
    } else {
        0x02
    }
}

/// Whether the presence octets `ind` announce item number `k` (from 0): the
/// items are numbered seven per octet, most significant bit first.
pub open spec fn announced(ind: Seq<u8>, k: int) -> bool {
    0 <= k < 7 * ind.len() && ind[k / 7] & presence_mask(k % 7) != 0
}

/// The size of subfield `i` of a compound item: `sizes[i]` for a table,
/// nothing past its end; one octet for every subfield where there is no table.
pub open spec fn subfield_size(sizes: Option<Seq<usize>>, i: int) -> int {
    match sizes {
        Some(t) => if 0 <= i < t.len() {
            t[i] as int
        } else {
            0
        },
        None => 1,
    }
}

/// The total size of the subfields among the first `k` that `ind` announces.
pub open spec fn subfields_len(ind: Seq<u8>, sizes: Option<Seq<usize>>, k: int) -> int
    decreases k,
{
    if k <= 0 {
        0
    } else {
        subfields_len(ind, sizes, k - 1) + if announced(ind, k - 1) {
            subfield_size(sizes, k - 1)
        } else {
            0
        }
    }
}

/// A compound item of fixed-size subfields: its FX-chained indicator octets,
/// followed by the octets of every subfield they announce, in order.
pub open spec fn spec_compound(s: Seq<u8>, p: int, sizes: Option<Seq<usize>>) -> ReadOutcome<Seq<u8>> {
    match spec_fx_chain(s, p) {
        Err(e) => Err(e),
        Ok((ind, q)) => match spec_take(s, q, subfields_len(ind, sizes, 7 * ind.len() as int)) {
            Err(e) => Err(e),
            Ok((body, r)) => Ok((ind + body, r)),
        },
    }
}

proof fn lemma_subfields_len_bound(ind: Seq<u8>, sizes: Option<Seq<usize>>, k: int)
    requires
        sizes matches Some(t) ==> forall|i: int| 0 <= i < t.len() ==> t[i] <= 16,
    ensures
        0 <= subfields_len(ind, sizes, k) <= 16 * (if k < 0 { 0 } else { k }),
    decreases k,
{
    if k > 0 {
        lemma_subfields_len_bound(ind, sizes, k - 1);
    }
}

/// The total size of the subfields that the indicator octets `ind` (at
/// most 16) announce, sized by `sizes` (one octet each where there is no table).
pub(crate) fn announced_len(ind: &Vec<u8>, sizes: Option<&[usize]>) -> (need: usize)
    requires
        ind@.len() <= 16,
        sizes matches Some(t) ==> forall|i: int| 0 <= i < t@.len() ==> t@[i] <= 16,
    ensures
        need == subfields_len(
            ind@,
            match sizes {
                Some(t) => Some(t@),
                None => None,
            },
            7 * ind@.len() as int,
        ),
{
    let ghost sz = match sizes {
        Some(t) => Some(t@),
        None => None,
    };
    let n = ind.len() * 7;
    let mut need: usize = 0;
    let mut k: usize = 0;
    while k < n
        invariant
            n == 7 * ind@.len(),
            ind@.len() <= 16,
            0 <= k <= n,
            need == subfields_len(ind@, sz, k as int),
            sizes matches Some(t) ==> forall|i: int| 0 <= i < t@.len() ==> t@[i] <= 16,
            sz == match sizes {
                Some(t) => Some(t@),
                None => None::<Seq<usize>>,
            },
        decreases n - k,
    {
        proof {
            lemma_subfields_len_bound(ind@, sz, k + 1);
        }
        if ind[k / 7] & item_mask(k % 7) != 0 {
            match sizes {
                Some(t) => {
                    if k < t.len() {
                        need = need + t[k];
                    }
                },
                None => {
                    need = need + 1;
                },
            }
        }
        k = k + 1;
    }
    need
}

/// Read a compound item of fixed-size subfields, sized by `sizes` (every
/// subfield one octet where there is no table). The item is kept raw:
/// indicator octets, then subfield octets.
pub(crate) fn read_compound(cur: &mut Cursor, sizes: Option<&[usize]>) -> (res: Result<Vec<u8>, AsterixError>)
    requires
        sizes matches Some(t) ==> forall|i: int| 0 <= i < t@.len() ==> t@[i] <= 16,
    ensures
        final(cur).data() == old(cur).data(),
        read_agrees(
            bytes_view(res),
            spec_compound(old(cur).data(), old(cur).pos(), match sizes { Some(t) => Some(t@), None => None }),
            final(cur).pos(),
        ),
{
    let mut out = read_fx_chain(cur)?;
    let need = announced_len(&out, sizes);
    let mut body = cur.read_bytes(need)?;
    out.append(&mut body);
    Ok(out)
}

} // verus!
