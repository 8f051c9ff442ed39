//! Metadata values by the numbers that GGUF gives their types.

use vstd::hash_map::StringHashMap;
use vstd::prelude::*;

use crate::bytes;
use crate::bytes::Scan;
use crate::chain::gguf;
use crate::chain::gguf::{GgufFile, GgufValue, ValueModel};

verus! {

/// Bytes of a number or a truth value of the type with number `ty`; zero for
/// other types.
pub open spec fn width(ty: u32) -> int {
    if ty == 0 || ty == 1 || ty == 7 {
        1
    } else if ty == 2 || ty == 3 {
        2
    } else if ty == 4 || ty == 5 || ty == 6 {
        4
    } else if ty == 10 || ty == 11 || ty == 12 {
        8
    } else {
        0
    }
}

/// The number or truth value at `pos`. Numbers of up to sixteen bits are held in
/// thirty-two, but for a plain byte.
pub open spec fn scalar(s: Seq<u8>, pos: int, ty: u32) -> ValueModel {
    if ty == 0 {
        ValueModel::U8(s[pos])
    } else if ty == 1 {
        ValueModel::I32(s[pos] as i8 as i32)
    } else if ty == 2 {
        ValueModel::U32(bytes::u16_le(s, pos) as u32)
    } else if ty == 3 {
        ValueModel::I32(bytes::u16_le(s, pos) as i16 as i32)
    } else if ty == 4 {
        ValueModel::U32(bytes::u32_le(s, pos))
    } else if ty == 5 {
        ValueModel::I32(bytes::u32_le(s, pos) as i32)
    } else if ty == 6 {
        ValueModel::F32(bytes::u32_le(s, pos))
    } else if ty == 7 {
        ValueModel::Bool(s[pos] != 0)
    } else if ty == 10 {
        ValueModel::U64(bytes::u64_le(s, pos))
    } else if ty == 11 {
        ValueModel::I64(bytes::u64_le(s, pos) as i64)
    } else {
        ValueModel::F64(bytes::u64_le(s, pos))
    }
}

/// The position behind `n` strings.
pub open spec fn behind_strings(s: Seq<u8>, pos: int, n: nat) -> Option<int>
    decreases n,
{
    if n == 0 {
        Some(pos)
    } else {
        match gguf::scan_string(s, pos) {
            Scan::Got(_, p) => behind_strings(s, p, (n - 1) as nat),
            Scan::Bad(_) => None,
        }
    }
}

/// The `n` elements at `pos`, where arrays of their type are kept.
pub open spec fn elements(s: Seq<u8>, pos: int, ty: u32, n: nat) -> Option<ValueModel> {
    if ty == 4 {
        Some(ValueModel::ArrayU32(Seq::new(n, |i: int| bytes::u32_le(s, pos + 4 * i))))
    } else if ty == 6 {
        Some(ValueModel::ArrayF32(Seq::new(n, |i: int| bytes::u32_le(s, pos + 4 * i))))
    } else if ty == 11 {
        Some(ValueModel::ArrayI64(Seq::new(n, |i: int| bytes::u64_le(s, pos + 8 * i) as i64)))
    } else {
        None
    }
}

/// An array: the type of its elements, their number, and the elements. Arrays
/// that are not kept are stepped over; arrays of arrays cannot be read.
pub open spec fn scan_array(s: Seq<u8>, pos: int) -> Option<(Option<ValueModel>, int)> {
    if pos + 12 > s.len() {
        None
    } else {
        let ty = bytes::u32_le(s, pos);
        let n = bytes::u64_le(s, pos + 4) as nat;
        if ty == 8 {
            match behind_strings(s, pos + 12, n) {
                Some(p) => Some((None, p)),
                None => None,
            }
        } else if width(ty) == 0 || pos + 12 + n * width(ty) > s.len() {
            None
        } else {
            Some((elements(s, pos + 12, ty, n), pos + 12 + n * width(ty)))
        }
    }
}

/// A value of the type with number `ty`, if it is kept, and the position behind
/// it.
pub open spec fn scan_value(s: Seq<u8>, pos: int, ty: u32) -> Option<(Option<ValueModel>, int)> {
    if ty == 8 {
        match gguf::scan_string(s, pos) {
            Scan::Got(t, p) => Some((Some(ValueModel::Text(t)), p)),
            Scan::Bad(_) => None,
        }
    } else if ty == 9 {
        scan_array(s, pos)
    } else if width(ty) == 0 || pos + width(ty) > s.len() {
        None
    } else {
        Some((Some(scalar(s, pos, ty)), pos + width(ty)))
    }
}

/// `n` pairs of a key and a value, on top of those in `done`. A value that is
/// not kept has no entry; of two with one key the later one counts.
pub open spec fn scan_pairs(
    s: Seq<u8>,
    pos: int,
    n: nat,
    done: Map<Seq<char>, ValueModel>,
) -> Option<(Map<Seq<char>, ValueModel>, int)>
    decreases n,
{
    if n == 0 {
        Some((done, pos))
    } else {
        match gguf::scan_string(s, pos) {
            Scan::Bad(_) => None,
            Scan::Got(key, p) => if p + 4 > s.len() {
                None
            } else {
                match scan_value(s, p + 4, bytes::u32_le(s, p)) {
                    None => None,
                    Some((Some(v), q)) => scan_pairs(s, q, (n - 1) as nat, done.insert(key, v)),
                    Some((None, q)) => scan_pairs(s, q, (n - 1) as nat, done),
                }
            },
        }
    }
}

fn width_of(ty: u32) -> (r: usize)
    ensures
        r == width(ty),
{
    match ty {
        0 | 1 | 7 => 1,
        2 | 3 => 2,
        4 | 5 | 6 => 4,
        10 | 11 | 12 => 8,
        _ => 0,
    }
}

fn read_scalar(data: &[u8], pos: usize, ty: u32) -> (r: GgufValue)
    requires
        width(ty) > 0,
        pos + width(ty) <= data@.len(),
    ensures
        r@ == scalar(data@, pos as int, ty),
{
    match ty {
        0 => GgufValue::U8(data[pos]),
        1 => GgufValue::I32(data[pos] as i8 as i32),
        2 => GgufValue::U32(bytes::get_u16(data, pos) as u32),
        3 => GgufValue::I32(bytes::get_u16(data, pos) as i16 as i32),
        4 => GgufValue::U32(bytes::get_u32(data, pos)),
        5 => GgufValue::I32(bytes::get_u32(data, pos) as i32),
        6 => GgufValue::F32(bytes::get_u32(data, pos)),
        7 => GgufValue::Bool(data[pos] != 0),
        10 => GgufValue::U64(bytes::get_u64(data, pos)),
        11 => GgufValue::I64(bytes::get_u64(data, pos) as i64),
        _ => GgufValue::F64(bytes::get_u64(data, pos)),
    }
}

fn skip_strings(data: &[u8], start: usize, n: u64) -> (r: Option<usize>)
    requires
        start <= data@.len(),
    ensures
        match (r, behind_strings(data@, start as int, n as nat)) {
            (Some(p), Some(q)) => p == q && p <= data@.len(),
            (None, None) => true,
            _ => false,
        },
{
    let mut pos: usize = start;
    let mut left: u64 = n;
    while left > 0
        invariant
            pos <= data@.len(),
            behind_strings(data@, start as int, n as nat) == behind_strings(
                data@,
                pos as int,
                left as nat,
            ),
        decreases left,
    {
        match GgufFile::read_string(data, pos) {
            Ok((_, p)) => {
                pos = p;
            },
            Err(_) => {
                return None;
            },
        }
        left = left - 1;
    }
    Some(pos)
}

fn read_words(data: &[u8], pos: usize, n: usize) -> (r: Vec<u32>)
    requires
        pos + 4 * n <= data@.len(),
    ensures
        r@ == Seq::new(n as nat, |i: int| bytes::u32_le(data@, pos + 4 * i)),
{
    let len: usize = data.len();
    let mut out: Vec<u32> = Vec::new();
    let mut i: usize = 0;
    while i < n
        invariant
            i <= n,
            pos + 4 * n <= data@.len() == len,
            out@ == Seq::new(i as nat, |j: int| bytes::u32_le(data@, pos + 4 * j)),
        decreases n - i,
    {
        out.push(bytes::get_u32(data, pos + 4 * i));
        i = i + 1;
        assert(out@ =~= Seq::new(i as nat, |j: int| bytes::u32_le(data@, pos + 4 * j)));
    }
    out
}

fn read_longs(data: &[u8], pos: usize, n: usize) -> (r: Vec<i64>)
    requires
        pos + 8 * n <= data@.len(),
    ensures
        r@ == Seq::new(n as nat, |i: int| bytes::u64_le(data@, pos + 8 * i) as i64),
{
    let len: usize = data.len();
    let mut out: Vec<i64> = Vec::new();
    let mut i: usize = 0;
    while i < n
        invariant
            i <= n,
            pos + 8 * n <= data@.len() == len,
            out@ == Seq::new(i as nat, |j: int| bytes::u64_le(data@, pos + 8 * j) as i64),
        decreases n - i,
    {
        out.push(bytes::get_u64(data, pos + 8 * i) as i64);
        i = i + 1;
        assert(out@ =~= Seq::new(i as nat, |j: int| bytes::u64_le(data@, pos + 8 * j) as i64));
    }
    out
}

/// `r` is what `m` says, with a position in the data.
pub open spec fn agrees(
    r: Option<(Option<GgufValue>, usize)>,
    m: Option<(Option<ValueModel>, int)>,
    len: nat,
) -> bool {
    match (r, m) {
        (None, None) => true,
        (Some((Some(v), p)), Some((Some(w), q))) => v@ == w && p == q && p <= len,
        (Some((None, p)), Some((None, q))) => p == q && p <= len,
        _ => false,
    }
}

fn read_array(data: &[u8], pos: usize) -> (r: Option<(Option<GgufValue>, usize)>)
    requires
        pos <= data@.len(),
    ensures
        agrees(r, scan_array(data@, pos as int), data@.len()),
{
    let len: usize = data.len();
    if len - pos < 12 {
        return None;
    }
    let ty: u32 = bytes::get_u32(data, pos);
    let n: u64 = bytes::get_u64(data, pos + 4);
    let start: usize = pos + 12;
    if ty == 8 {
        return match skip_strings(data, start, n) {
            Some(p) => Some((None, p)),
            None => None,
        };
    }
    let w: usize = width_of(ty);
    if w == 0 {
        return None;
    }
    let left: usize = (len - start) / w;
    proof {
        assert(n * w <= len - start <==> n <= left) by (nonlinear_arith)
            requires
                left == (len - start) / (w as int),
                w > 0,
                len >= start,
                n >= 0,
        ;
    }
    if n > left as u64 {
        return None;
    }
    let n: usize = n as usize;
    let end: usize = start + n * w;
    match ty {
        4 => Some((Some(GgufValue::ArrayU32(read_words(data, start, n))), end)),
        6 => Some((Some(GgufValue::ArrayF32(read_words(data, start, n))), end)),
        11 => Some((Some(GgufValue::ArrayI64(read_longs(data, start, n))), end)),
        _ => Some((None, end)),
    }
}

fn read_value(data: &[u8], pos: usize, ty: u32) -> (r: Option<(Option<GgufValue>, usize)>)
    requires
        pos <= data@.len(),
    ensures
        agrees(r, scan_value(data@, pos as int, ty), data@.len()),
{
    if ty == 8 {
        return match GgufFile::read_string(data, pos) {
            Ok((t, p)) => Some((Some(GgufValue::String(t)), p)),
            Err(_) => None,
        };
    }
    if ty == 9 {
        return read_array(data, pos);
    }
    let w: usize = width_of(ty);
    if w == 0 || data.len() - pos < w {
        return None;
    }
    Some((Some(read_scalar(data, pos, ty)), pos + w))
}

/// Reads `n` pairs of a key and a value.
pub(crate) fn read_pairs(data: &[u8], start: usize, n: u64) -> (r: Option<
    (StringHashMap<GgufValue>, usize),
>)
    requires
        start <= data@.len(),
    ensures
        match (r, scan_pairs(data@, start as int, n as nat, Map::empty())) {
            (Some(v), Some(m)) => gguf::table_model(v.0@) == m.0 && v.1 == m.1 && v.1
                <= data@.len(),
            (None, None) => true,
            _ => false,
        },
{
    let mut metadata: StringHashMap<GgufValue> = StringHashMap::new();
    let mut pos: usize = start;
    let mut left: u64 = n;
    assert(gguf::table_model(metadata@) =~= Map::empty());
    while left > 0
        invariant
            pos <= data@.len(),
            scan_pairs(data@, start as int, n as nat, Map::empty()) == scan_pairs(
                data@,
                pos as int,
                left as nat,
                gguf::table_model(metadata@),
            ),
        decreases left,
    {
        let (key, at) = match GgufFile::read_string(data, pos) {
            Ok(v) => v,
            Err(_) => {
                return None;
            },
        };
        if data.len() - at < 4 {
            return None;
        }
        let ty: u32 = bytes::get_u32(data, at);
        match read_value(data, at + 4, ty) {
            Some((Some(value), next)) => {
                let ghost before = metadata@;
                metadata.insert(key, value);
                assert(gguf::table_model(metadata@) =~= gguf::table_model(before).insert(
                    key@,
                    value@,
                ));
                pos = next;
            },
            Some((None, next)) => {
                pos = next;
            },
            None => {
                return None;
            },
        }
        left = left - 1;
    }
    Some((metadata, pos))
}

} // verus!
