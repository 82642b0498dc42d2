//! The layout of a GGUF file's header, as far as it decides the data alignment the file
//! declares: the magic and the version, the tensor and metadata counts, then each metadata
//! entry as a key, a value-type code and a value (an array holds further values).
use vstd::prelude::*;

verus! {

/// The bytes of the key `general.alignment`.
pub open spec fn alignment_key() -> Seq<u8> {
    seq![103u8, 101, 110, 101, 114, 97, 108, 46, 97, 108, 105, 103, 110, 109, 101, 110, 116]
}

/// The little-endian unsigned integer in the 4 bytes at `p`.
pub open spec fn le_u32(b: Seq<u8>, p: int) -> int {
    b[p] + 256 * b[p + 1] + 65536 * b[p + 2] + 16777216 * b[p + 3]
}

/// The little-endian unsigned integer in the 8 bytes at `p`.
pub open spec fn le_u64(b: Seq<u8>, p: int) -> int {
    le_u32(b, p) + 4294967296 * le_u32(b, p + 4)
}

/// A length field at `p` (4 bytes in version 1, 8 bytes in later versions): the length and
/// where the field ends; `None` when the bytes end first.
pub open spec fn length_at(b: Seq<u8>, p: int, v1: bool) -> Option<(int, int)> {
    let w: int = if v1 { 4 } else { 8 };
    if 0 <= p && p + w <= b.len() {
        Some((if v1 { le_u32(b, p) } else { le_u64(b, p) }, p + w))
    } else {
        None
    }
}

/// Where a string (a length field, then that many bytes) that starts at `p` ends.
pub open spec fn string_end(b: Seq<u8>, p: int, v1: bool) -> Option<int> {
    match length_at(b, p, v1) {
        Some((n, q)) => if q + n <= b.len() {
            Some(q + n)
        } else {
            None
        },
        None => None,
    }
}

/// The size of a value of a fixed-size type code: 1 for U8, I8 and Bool, 2 for U16 and I16,
/// 4 for U32, I32 and F32, 8 for U64, I64 and F64; 0 for strings, arrays and unknown codes.
pub open spec fn fixed_size(t: int) -> int {
    if t == 0 || t == 1 || t == 7 {
        1
    } else if t == 2 || t == 3 {
        2
    } else if t == 4 || t == 5 || t == 6 {
        4
    } else if t == 10 || t == 11 || t == 12 {
        8
    } else {
        0
    }
}

/// Where a value of type code `t` that starts at `p` ends, read at nesting depth `depth`
/// (an array's elements one deeper); `None` when the bytes end first, the type code is
/// unknown, or the nesting is deeper than 64, as the reader refuses all three.
pub open spec fn value_end(b: Seq<u8>, t: int, p: int, v1: bool, depth: int) -> Option<int>
    decreases 65 - depth, 0int, 0int,
{
    if depth < 0 || depth > 64 || p < 0 {
        None
    } else if t == 8 {
        string_end(b, p, v1)
    } else if t == 9 {
        if p + 4 > b.len() {
            None
        } else {
            match length_at(b, p + 4, v1) {
                Some((n, q)) => array_end(b, le_u32(b, p), q, n, v1, depth + 1),
                None => None,
            }
        }
    } else if fixed_size(t) > 0 && p + fixed_size(t) <= b.len() {
        Some(p + fixed_size(t))
    } else {
        None
    }
}

/// Where `n` values of type code `t`, read at depth `depth` from `p` on, end.
pub open spec fn array_end(b: Seq<u8>, t: int, p: int, n: int, v1: bool, depth: int) -> Option<int>
    decreases 65 - depth, 1int, n,
{
    if n <= 0 {
        Some(p)
    } else {
        match value_end(b, t, p, v1, depth) {
            Some(q) => array_end(b, t, q, n - 1, v1, depth),
            None => None,
        }
    }
}

/// `s` without its trailing zero bytes (the reader drops them from every string).
pub open spec fn strip_zeros(s: Seq<u8>) -> Seq<u8>
    decreases s.len(),
{
    if s.len() > 0 && s.last() == 0 {
        strip_zeros(s.drop_last())
    } else {
        s
    }
}

/// The string at `p` is the key `general.alignment`.
pub open spec fn is_alignment_key(b: Seq<u8>, p: int, v1: bool) -> bool {
    match length_at(b, p, v1) {
        Some((n, q)) => q + n <= b.len() && strip_zeros(b.subrange(q, q + n)) == alignment_key(),
        None => false,
    }
}

/// The metadata entry at `p` (a key, a 4-byte type code, a value): where it ends, its type
/// code and where its value starts; `None` when it cannot be read.
pub open spec fn entry_at(b: Seq<u8>, p: int, v1: bool) -> Option<(int, int, int)> {
    match string_end(b, p, v1) {
        Some(k) => if k + 4 > b.len() {
            None
        } else {
            match value_end(b, le_u32(b, k), k + 4, v1, 0) {
                Some(e) => Some((e, le_u32(b, k), k + 4)),
                None => None,
            }
        },
        None => None,
    }
}

/// Walks `n` metadata entries from `p` on: the type code and the value position of the last
/// entry keyed `general.alignment` (`last` when there is none), as the reader's map keeps the
/// last value of a key; `None` when an entry cannot be read.
pub open spec fn last_alignment(b: Seq<u8>, p: int, n: int, v1: bool, last: Option<(int, int)>) -> Option<
    Option<(int, int)>,
>
    decreases n,
{
    if n <= 0 {
        Some(last)
    } else {
        match entry_at(b, p, v1) {
            Some((e, t, vp)) => last_alignment(
                b,
                e,
                n - 1,
                v1,
                if is_alignment_key(b, p, v1) {
                    Some((t, vp))
                } else {
                    last
                },
            ),
            None => None,
        }
    }
}

/// Whether the file is of version 1, how many metadata entries it has and where they start;
/// `None` when the magic or the version is not GGUF's or the counts are cut off.
pub open spec fn metadata_start(b: Seq<u8>) -> Option<(bool, int, int)> {
    if b.len() < 8 {
        None
    } else {
        let magic = le_u32(b, 0);
        let version = le_u32(b, 4);
        if !(magic == 0x46554747 || magic == 0x47475546) || !(1 <= version <= 3) {
            None
        } else {
            let v1 = version == 1;
            match length_at(b, 8, v1) {
                Some((_tensors, q)) => match length_at(b, q, v1) {
                    Some((n, r)) => Some((v1, n, r)),
                    None => None,
                },
                None => None,
            }
        }
    }
}

/// The header's `general.alignment` entry, the one the reader takes, holds an integer 0: an
/// unsigned or signed integer of 1, 2 or 4 bytes, all zero. Any file the reader reads up to the
/// alignment lookup has its entries walked here as the reader walks them, so this holds of
/// such a file exactly when the alignment the reader takes is 0.
pub open spec fn gguf_zero_alignment(b: Seq<u8>) -> bool {
    match metadata_start(b) {
        Some((v1, n, p)) => match last_alignment(b, p, n, v1, None) {
            Some(Some((t, vp))) => 0 <= t <= 5 && forall|k: int| vp <= k < vp + fixed_size(t) ==> b[k] == 0,
            _ => false,
        },
        None => false,
    }
}

/// The little-endian integer in the 4 bytes at `p`.
fn u32_at(b: &[u8], p: usize) -> (r: u64)
    requires
        p + 4 <= b@.len(),
    ensures
        r == le_u32(b@, p as int),
{
    b[p] as u64 + 256 * (b[p + 1] as u64) + 65536 * (b[p + 2] as u64) + 16777216 * (b[p + 3] as u64)
}

/// The length field at `p`.
fn length_field(b: &[u8], p: usize, v1: bool) -> (r: Option<(u128, usize)>)
    ensures
        match r {
            Some((n, q)) => length_at(b@, p as int, v1) == Some((n as int, q as int)),
            None => length_at(b@, p as int, v1) is None,
        },
{
    let w: usize = if v1 { 4 } else { 8 };
    if p > b.len() || b.len() - p < w {
        return None;
    }
    if v1 {
        Some((u32_at(b, p) as u128, p + 4))
    } else {
        let lo = u32_at(b, p) as u128;
        let hi = u32_at(b, p + 4) as u128;
        Some((lo + 4294967296 * hi, p + 8))
    }
}

/// Where the string at `p` ends.
fn string_end_at(b: &[u8], p: usize, v1: bool) -> (r: Option<usize>)
    ensures
        match r {
            Some(e) => string_end(b@, p as int, v1) == Some(e as int),
            None => string_end(b@, p as int, v1) is None,
        },
{
    match length_field(b, p, v1) {
        Some((n, q)) => {
            if n <= (b.len() - q) as u128 {
                Some(q + n as usize)
            } else {
                None
            }
        },
        None => None,
    }
}

/// Where the value of type code `t` at `p` ends.
fn value_end_at(b: &[u8], t: u64, p: usize, v1: bool, depth: usize) -> (r: Option<usize>)
    ensures
        match r {
            Some(e) => value_end(b@, t as int, p as int, v1, depth as int) == Some(e as int),
            None => value_end(b@, t as int, p as int, v1, depth as int) is None,
        },
    decreases 65 - depth,
{
    if depth > 64 {
        return None;
    }
    if t == 8 {
        return string_end_at(b, p, v1);
    }
    if t == 9 {
        if p > b.len() || b.len() - p < 4 {
            return None;
        }
        let et = u32_at(b, p);
        let (n, q) = match length_field(b, p + 4, v1) {
            Some(x) => x,
            None => {
                return None;
            },
        };
        let ghost d = depth + 1;
        assert(value_end(b@, t as int, p as int, v1, depth as int) == array_end(b@, et as int, q as int, n as int, v1, d));
        let mut cur = q;
        let mut k: u128 = 0;
        while k < n
            invariant
                k <= n,
                d == depth + 1,
                depth <= 64,
                array_end(b@, et as int, q as int, n as int, v1, d) == array_end(b@, et as int, cur as int, n - k, v1, d),
                value_end(b@, t as int, p as int, v1, depth as int) == array_end(b@, et as int, q as int, n as int, v1, d),
            decreases n - k,
        {
            match value_end_at(b, et, cur, v1, depth + 1) {
                Some(e) => {
                    cur = e;
                },
                None => {
                    assert(array_end(b@, et as int, cur as int, n - k, v1, d) is None);
                    return None;
                },
            }
            k = k + 1;
        }
        return Some(cur);
    }
    let w: usize = if t == 0 || t == 1 || t == 7 {
        1
    } else if t == 2 || t == 3 {
        2
    } else if t == 4 || t == 5 || t == 6 {
        4
    } else if t == 10 || t == 11 || t == 12 {
        8
    } else {
        0
    };
    if w > 0 && p <= b.len() && b.len() - p >= w {
        Some(p + w)
    } else {
        None
    }
}

/// Dropping trailing zeros from `s` leaves its first `m` bytes when all bytes after them are
/// zero and the last of them is not.
proof fn lemma_strip_zeros(s: Seq<u8>, m: int)
    requires
        0 <= m <= s.len(),
        forall|k: int| m <= k < s.len() ==> s[k] == 0,
        m == 0 || s[m - 1] != 0,
    ensures
        strip_zeros(s) == s.take(m),
    decreases s.len(),
{
    if s.len() > m {
        lemma_strip_zeros(s.drop_last(), m);
        assert(s.drop_last().take(m) =~= s.take(m));
    } else {
        assert(s.take(m) =~= s);
    }
}

/// Whether the string at `p` is the key `general.alignment`.
fn key_at_is_alignment(b: &[u8], p: usize, v1: bool) -> (r: bool)
    ensures
        r == is_alignment_key(b@, p as int, v1),
{
    let (n, q) = match length_field(b, p, v1) {
        Some(x) => x,
        None => {
            return false;
        },
    };
    if n > (b.len() - q) as u128 {
        return false;
    }
    let end = q + n as usize;
    let mut e = end;
    while e > q && b[e - 1] == 0
        invariant
            q <= e <= end,
            end <= b@.len(),
            forall|k: int| e <= k < end ==> b@[k] == 0,
        decreases e,
    {
        e = e - 1;
    }
    proof {
        let s = b@.subrange(q as int, end as int);
        lemma_strip_zeros(s, e - q);
        assert(s.take(e - q) =~= b@.subrange(q as int, e as int));
    }
    let key: [u8; 17] = [103, 101, 110, 101, 114, 97, 108, 46, 97, 108, 105, 103, 110, 109, 101, 110, 116];
    assert(key@ =~= alignment_key());
    assert(is_alignment_key(b@, p as int, v1) == (b@.subrange(q as int, e as int) == alignment_key()));
    if e - q != 17 {
        assert(b@.subrange(q as int, e as int).len() != alignment_key().len());
        return false;
    }
    let mut k: usize = 0;
    while k < 17
        invariant
            e == q + 17,
            e <= b@.len(),
            k <= 17,
            key@ == alignment_key(),
            is_alignment_key(b@, p as int, v1) == (b@.subrange(q as int, e as int) == alignment_key()),
            forall|m: int| 0 <= m < k ==> b@[q + m] == key@[m],
        decreases 17 - k,
    {
        if b[q + k] != key[k] {
            assert(b@.subrange(q as int, e as int)[k as int] != alignment_key()[k as int]);
            return false;
        }
        k = k + 1;
    }
    assert(b@.subrange(q as int, e as int) =~= alignment_key());
    true
}

/// The metadata entry at `p` (`entry_at`).
fn read_entry(b: &[u8], p: usize, v1: bool) -> (r: Option<(usize, u64, usize)>)
    ensures
        match r {
            Some((e, t, vp)) => entry_at(b@, p as int, v1) == Some((e as int, t as int, vp as int)),
            None => entry_at(b@, p as int, v1) is None,
        },
{
    let kend = match string_end_at(b, p, v1) {
        Some(x) => x,
        None => {
            return None;
        },
    };
    if b.len() - kend < 4 {
        return None;
    }
    let t = u32_at(b, kend);
    match value_end_at(b, t, kend + 4, v1, 0) {
        Some(e) => Some((e, t, kend + 4)),
        None => None,
    }
}

/// Whether the header of the GGUF bytes declares an alignment of 0 (`gguf_zero_alignment`).
pub fn declares_zero_alignment(b: &[u8]) -> (r: bool)
    ensures
        r == gguf_zero_alignment(b@),
{
    if b.len() < 8 {
        return false;
    }
    let magic = u32_at(b, 0);
    let version = u32_at(b, 4);
    if !(magic == 0x46554747 || magic == 0x47475546) || !(1 <= version && version <= 3) {
        return false;
    }
    let v1 = version == 1;
    let q = match length_field(b, 8, v1) {
        Some((_, q)) => q,
        None => {
            return false;
        },
    };
    let (n, start) = match length_field(b, q, v1) {
        Some(x) => x,
        None => {
            return false;
        },
    };
    assert(metadata_start(b@) == Some((v1, n as int, start as int)));
    let mut cur = start;
    let mut k: u128 = 0;
    let mut last: Option<(u64, usize)> = None;
    while k < n
        invariant
            k <= n,
            metadata_start(b@) == Some((v1, n as int, start as int)),
            last_alignment(b@, start as int, n as int, v1, None) == last_alignment(
                b@,
                cur as int,
                n - k,
                v1,
                match last {
                    Some((t, vp)) => Some((t as int, vp as int)),
                    None => None,
                },
            ),
            last matches Some((t, vp)) ==> value_end(b@, t as int, vp as int, v1, 0) is Some,
        decreases n - k,
    {
        let (e, t, vp) = match read_entry(b, cur, v1) {
            Some(x) => x,
            None => {
                return false;
            },
        };
        if key_at_is_alignment(b, cur, v1) {
            last = Some((t, vp));
        }
        cur = e;
        k = k + 1;
    }
    match last {
        Some((t, vp)) => {
            if t > 5 {
                return false;
            }
            let w: usize = if t <= 1 { 1 } else if t <= 3 { 2 } else { 4 };
            assert(w == fixed_size(t as int));
            assert(vp + w <= b@.len());
            let len = b.len();
            assert(last_alignment(b@, start as int, n as int, v1, None) == Some(Some((t as int, vp as int))));
            assert(gguf_zero_alignment(b@) == (forall|m: int| vp <= m < vp + w ==> b@[m] == 0));
            let mut j: usize = 0;
            while j < w
                invariant
                    j <= w,
                    len == b@.len(),
                    vp + w <= len,
                    gguf_zero_alignment(b@) == (forall|m: int| vp <= m < vp + w ==> b@[m] == 0),
                    forall|m: int| vp <= m < vp + j ==> b@[m] == 0,
                decreases w - j,
            {
                if b[vp + j] != 0 {
                    return false;
                }
                j = j + 1;
            }
            true
        },
        None => false,
    }
}

} // verus!
