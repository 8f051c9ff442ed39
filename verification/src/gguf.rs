//! GGUF parser: header, metadata, tensor index.

use vstd::hash_map::StringHashMap;
use vstd::prelude::*;

use crate::align;
use crate::bytes;
use crate::bytes::Scan;
use crate::text;

verus! {

/// Element types of tensors.
#[derive(Clone, Copy, Debug, PartialEq, Eq, Structural)]
#[allow(non_camel_case_types)]
pub enum GgmlType {
    F32,
    F16,
    Q4_0,
    Q4_1,
    Q5_0,
    Q5_1,
    Q8_0,
    Q8_1,
    Q2_K,
    Q3_K,
    Q4_K,
    Q5_K,
    Q6_K,
    Q8_K,
    IQ4_XS,
}

impl GgmlType {
    /// The number of the type in a file.
    pub open spec fn code(self) -> u32 {
        match self {
            GgmlType::F32 => 0,
            GgmlType::F16 => 1,
            GgmlType::Q4_0 => 2,
            GgmlType::Q4_1 => 3,
            GgmlType::Q5_0 => 6,
            GgmlType::Q5_1 => 7,
            GgmlType::Q8_0 => 8,
            GgmlType::Q8_1 => 9,
            GgmlType::Q2_K => 10,
            GgmlType::Q3_K => 11,
            GgmlType::Q4_K => 12,
            GgmlType::Q5_K => 13,
            GgmlType::Q6_K => 14,
            GgmlType::Q8_K => 15,
            GgmlType::IQ4_XS => 30,
        }
    }

    /// The number of the type in a file.
    pub fn to_u32(&self) -> (r: u32)
        ensures
            r == self.code(),
    {
        match self {
            GgmlType::F32 => 0,
            GgmlType::F16 => 1,
            GgmlType::Q4_0 => 2,
            GgmlType::Q4_1 => 3,
            GgmlType::Q5_0 => 6,
            GgmlType::Q5_1 => 7,
            GgmlType::Q8_0 => 8,
            GgmlType::Q8_1 => 9,
            GgmlType::Q2_K => 10,
            GgmlType::Q3_K => 11,
            GgmlType::Q4_K => 12,
            GgmlType::Q5_K => 13,
            GgmlType::Q6_K => 14,
            GgmlType::Q8_K => 15,
            GgmlType::IQ4_XS => 30,
        }
    }

    /// The type with this number, if there is one.
    pub fn from_u32(v: u32) -> (r: Option<Self>)
        ensures
            match r {
                Some(t) => t.code() == v,
                None => forall|t: GgmlType| #[trigger] t.code() != v,
            },
    {
        match v {
            0 => Some(GgmlType::F32),
            1 => Some(GgmlType::F16),
            2 => Some(GgmlType::Q4_0),
            3 => Some(GgmlType::Q4_1),
            6 => Some(GgmlType::Q5_0),
            7 => Some(GgmlType::Q5_1),
            8 => Some(GgmlType::Q8_0),
            9 => Some(GgmlType::Q8_1),
            10 => Some(GgmlType::Q2_K),
            11 => Some(GgmlType::Q3_K),
            12 => Some(GgmlType::Q4_K),
            13 => Some(GgmlType::Q5_K),
            14 => Some(GgmlType::Q6_K),
            15 => Some(GgmlType::Q8_K),
            30 => Some(GgmlType::IQ4_XS),
            _ => None,
        }
    }

    pub open spec fn weights_per_block(self) -> u32 {
        match self {
            GgmlType::F32 | GgmlType::F16 => 1,
            GgmlType::IQ4_XS | GgmlType::Q4_0 | GgmlType::Q4_1 | GgmlType::Q5_0 | GgmlType::Q5_1
            | GgmlType::Q8_0 | GgmlType::Q8_1 => 32,
            GgmlType::Q2_K | GgmlType::Q3_K | GgmlType::Q4_K | GgmlType::Q5_K | GgmlType::Q6_K
            | GgmlType::Q8_K => 256,
        }
    }

    pub open spec fn bytes_per_block(self) -> u32 {
        match self {
            GgmlType::IQ4_XS => 36,
            GgmlType::Q4_K => 144,
            GgmlType::Q5_K => 160,
            GgmlType::Q6_K => 192,
            GgmlType::Q8_K => 256,
            GgmlType::Q4_0 => 18,
            GgmlType::Q4_1 => 24,
            GgmlType::Q5_0 => 24,
            GgmlType::Q5_1 => 28,
            GgmlType::Q8_0 => 40,
            GgmlType::Q8_1 => 48,
            GgmlType::F32 => 4,
            GgmlType::F16 => 2,
            GgmlType::Q2_K => 80,
            GgmlType::Q3_K => 104,
        }
    }

    /// Block size for this quantization type (number of weights per block).
    pub fn block_size(&self) -> (r: u32)
        ensures
            r == self.weights_per_block(),
    {
        match self {
            GgmlType::F32 | GgmlType::F16 => 1,
            GgmlType::IQ4_XS | GgmlType::Q4_0 | GgmlType::Q4_1 | GgmlType::Q5_0 | GgmlType::Q5_1
            | GgmlType::Q8_0 | GgmlType::Q8_1 => 32,
            GgmlType::Q2_K | GgmlType::Q3_K | GgmlType::Q4_K | GgmlType::Q5_K | GgmlType::Q6_K
            | GgmlType::Q8_K => 256,
        }
    }

    /// Size in bytes of one block.
    pub fn block_bytes(&self) -> (r: u32)
        ensures
            r == self.bytes_per_block(),
    {
        match self {
            GgmlType::IQ4_XS => 36,
            GgmlType::Q4_K => 144,
            GgmlType::Q5_K => 160,
            GgmlType::Q6_K => 192,
            GgmlType::Q8_K => 256,
            GgmlType::Q4_0 => 18,
            GgmlType::Q4_1 => 24,
            GgmlType::Q5_0 => 24,
            GgmlType::Q5_1 => 28,
            GgmlType::Q8_0 => 40,
            GgmlType::Q8_1 => 48,
            GgmlType::F32 => 4,
            GgmlType::F16 => 2,
            GgmlType::Q2_K => 80,
            GgmlType::Q3_K => 104,
        }
    }
}

/// Different types have different numbers, so that a number that was written
/// for a type is read as that type.
pub proof fn law_type_codes_differ(a: GgmlType, b: GgmlType)
    ensures
        a.code() == b.code() ==> a == b,
{
}

/// A tensor in the index: its place in the data section, and its size in bytes.
#[derive(Clone, Debug)]
pub struct TensorInfo {
    pub name: String,
    pub ggml_type: GgmlType,
    pub offset: u64,
    pub size: u64,
}

/// What a tensor's index entry holds.
pub struct TensorModel {
    pub name: Seq<char>,
    pub ggml_type: GgmlType,
    pub offset: u64,
    pub size: u64,
}

impl View for TensorInfo {
    type V = TensorModel;

    open spec fn view(&self) -> TensorModel {
        TensorModel {
            name: self.name@,
            ggml_type: self.ggml_type,
            offset: self.offset,
            size: self.size,
        }
    }
}

/// A metadata value. Floating-point numbers are held as bit patterns.
#[derive(Debug)]
pub enum MetadataValue {
    Float32(u32),
    Uint32(u32),
    Int32(i32),
    String(String),
    Array(Vec<MetadataValue>),
    Uint64(u64),
    Int64(i64),
}

/// What a metadata value holds.
pub enum MetaModel {
    Float32(u32),
    Uint32(u32),
    Int32(i32),
    Text(Seq<char>),
    Array(Seq<MetaModel>),
    Uint64(u64),
    Int64(i64),
}

impl MetadataValue {
    pub open spec fn model(&self) -> MetaModel
        decreases self,
    {
        match self {
            MetadataValue::Float32(v) => MetaModel::Float32(*v),
            MetadataValue::Uint32(v) => MetaModel::Uint32(*v),
            MetadataValue::Int32(v) => MetaModel::Int32(*v),
            MetadataValue::String(v) => MetaModel::Text(v@),
            MetadataValue::Array(v) => MetaModel::Array(
                Seq::new(
                    v@.len(),
                    |i: int|
                        if 0 <= i < v@.len() {
                            v@[i].model()
                        } else {
                            MetaModel::Uint32(0)
                        },
                ),
            ),
            MetadataValue::Uint64(v) => MetaModel::Uint64(*v),
            MetadataValue::Int64(v) => MetaModel::Int64(*v),
        }
    }
}

/// The values in a list.
pub open spec fn models(vs: Seq<MetadataValue>) -> Seq<MetaModel> {
    Seq::new(vs.len(), |i: int| vs[i].model())
}

pub open spec fn truncated<T>() -> Scan<T> {
    Scan::Bad("Unexpected end of GGUF data"@)
}

pub open spec fn too_long<T>() -> Scan<T> {
    Scan::Bad("GGUF offset overflow"@)
}

/// A value that is stepped over: its place is taken by a zero.
pub open spec fn skip(off: int, n: int) -> Scan<MetaModel> {
    if off + n > u64::MAX {
        too_long()
    } else {
        Scan::Got(MetaModel::Uint32(0), off + n)
    }
}

/// A length-prefixed string.
pub open spec fn scan_string(s: Seq<u8>, off: int) -> Scan<Seq<char>> {
    if off + 8 > s.len() {
        truncated()
    } else {
        let end = off + 8 + bytes::u64_le(s, off);
        if end > s.len() {
            Scan::Bad("String exceeds file bounds"@)
        } else {
            let b = s.subrange(off + 8, end);
            if vstd::utf8::valid_utf8(b) {
                Scan::Got(vstd::utf8::decode_utf8(b), end)
            } else {
                Scan::Bad("Invalid UTF-8 in GGUF string: "@ + text::utf8_fault_text(b))
            }
        }
    }
}

/// Bytes from `off` on.
pub open spec fn rest(s: Seq<u8>, off: int) -> int {
    if 0 <= off <= s.len() {
        s.len() - off
    } else {
        0
    }
}

/// A metadata value of the type with number `ty`. Types that are not used are
/// stepped over, also past the end.
pub open spec fn scan_value(s: Seq<u8>, off: int, ty: u32) -> Scan<MetaModel>
    decreases rest(s, off), 0nat,
{
    if ty == 0 || ty == 1 {
        skip(off, 1)
    } else if ty == 2 || ty == 3 {
        skip(off, 2)
    } else if ty == 7 {
        skip(off, 4)
    } else if ty == 12 {
        skip(off, 8)
    } else if ty == 4 || ty == 5 || ty == 6 {
        if off + 4 > s.len() {
            truncated()
        } else {
            let v = bytes::u32_le(s, off);
            Scan::Got(
                if ty == 4 {
                    MetaModel::Uint32(v)
                } else if ty == 5 {
                    MetaModel::Int32(v as i32)
                } else {
                    MetaModel::Float32(v)
                },
                off + 4,
            )
        }
    } else if ty == 10 || ty == 11 {
        if off + 8 > s.len() {
            truncated()
        } else {
            let v = bytes::u64_le(s, off);
            Scan::Got(
                if ty == 10 {
                    MetaModel::Uint64(v)
                } else {
                    MetaModel::Int64(v as i64)
                },
                off + 8,
            )
        }
    } else if ty == 8 {
        match scan_string(s, off) {
            Scan::Bad(m) => Scan::Bad(m),
            Scan::Got(t, p) => Scan::Got(MetaModel::Text(t), p),
        }
    } else if ty == 9 {
        if off < 0 || off + 12 > s.len() {
            truncated()
        } else {
            match scan_items(
                s,
                off + 12,
                bytes::u32_le(s, off),
                bytes::u64_le(s, off + 4) as nat,
                Seq::empty(),
            ) {
                Scan::Bad(m) => Scan::Bad(m),
                Scan::Got(vs, p) => Scan::Got(MetaModel::Array(vs), p),
            }
        }
    } else {
        Scan::Bad("Unknown metadata value type: "@ + text::decimal(ty as nat))
    }
}

/// `n` values of one type, behind the values in `done`.
pub open spec fn scan_items(
    s: Seq<u8>,
    off: int,
    ty: u32,
    n: nat,
    done: Seq<MetaModel>,
) -> Scan<Seq<MetaModel>>
    decreases rest(s, off), n,
{
    if n == 0 {
        Scan::Got(done, off)
    } else {
        match scan_value(s, off, ty) {
            Scan::Bad(m) => Scan::Bad(m),
            Scan::Got(v, p) => if p < off || off < 0 {
                truncated()
            } else {
                scan_items(s, p, ty, (n - 1) as nat, done.push(v))
            },
        }
    }
}

/// A key, the number of a value type, and a value of that type.
pub open spec fn scan_pair(s: Seq<u8>, off: int) -> Scan<(Seq<char>, MetaModel)> {
    match scan_string(s, off) {
        Scan::Bad(m) => Scan::Bad(m),
        Scan::Got(key, p) => if p + 4 > s.len() {
            truncated()
        } else {
            match scan_value(s, p + 4, bytes::u32_le(s, p)) {
                Scan::Bad(m) => Scan::Bad(m),
                Scan::Got(v, q) => Scan::Got((key, v), q),
            }
        },
    }
}

/// `n` pairs, on top of those in `done`. Of two pairs with one key the later
/// one counts.
pub open spec fn scan_pairs(
    s: Seq<u8>,
    off: int,
    n: nat,
    done: Map<Seq<char>, MetaModel>,
) -> Scan<Map<Seq<char>, MetaModel>>
    decreases n,
{
    if n == 0 {
        Scan::Got(done, off)
    } else {
        match scan_pair(s, off) {
            Scan::Bad(m) => Scan::Bad(m),
            Scan::Got(kv, p) => scan_pairs(s, p, (n - 1) as nat, done.insert(kv.0, kv.1)),
        }
    }
}

/// The product of the dimensions from the first on, unless it passes 64 bits.
pub open spec fn weight_count(dims: Seq<u64>) -> Option<u64>
    decreases dims.len(),
{
    if dims.len() == 0 {
        Some(1)
    } else {
        match weight_count(dims.drop_last()) {
            None => None,
            Some(n) => if n * dims.last() > u64::MAX {
                None
            } else {
                Some((n * dims.last()) as u64)
            },
        }
    }
}

/// Bytes of `n` weights of this type: whole blocks.
pub open spec fn tensor_bytes(t: GgmlType, n: int) -> int {
    (n + t.weights_per_block() - 1) / t.weights_per_block() as int * t.bytes_per_block()
}

/// The type with this number.
pub open spec fn type_of(code: u32) -> Option<GgmlType> {
    if exists|t: GgmlType| #[trigger] t.code() == code {
        Some(choose|t: GgmlType| #[trigger] t.code() == code)
    } else {
        None
    }
}

/// One entry of the tensor index.
pub open spec fn scan_tensor(s: Seq<u8>, off: int) -> Scan<TensorModel> {
    match scan_string(s, off) {
        Scan::Bad(m) => Scan::Bad(m),
        Scan::Got(name, p) => if p + 4 > s.len() {
            truncated()
        } else {
            let n = bytes::u32_le(s, p) as int;
            let q = p + 4 + 8 * n;
            if q + 4 > s.len() {
                truncated()
            } else {
                let code = bytes::u32_le(s, q);
                match type_of(code) {
                    None => Scan::Bad(
                        "Unknown GGML type: "@ + text::decimal(code as nat) + " for tensor "@
                            + name,
                    ),
                    Some(t) => if q + 12 > s.len() {
                        truncated()
                    } else {
                        let dims = Seq::new(n as nat, |i: int| bytes::u64_le(s, p + 4 + 8 * i));
                        match weight_count(dims) {
                            None => Scan::Bad("Tensor size overflow"@),
                            Some(w) => if w + t.weights_per_block() - 1 > u64::MAX || tensor_bytes(
                                t,
                                w as int,
                            ) > u64::MAX {
                                Scan::Bad("Tensor size overflow"@)
                            } else {
                                Scan::Got(
                                    TensorModel {
                                        name,
                                        ggml_type: t,
                                        offset: bytes::u64_le(s, q + 4),
                                        size: tensor_bytes(t, w as int) as u64,
                                    },
                                    q + 12,
                                )
                            },
                        }
                    },
                }
            }
        },
    }
}

/// `n` entries of the tensor index, behind those in `done`.
pub open spec fn scan_tensors(
    s: Seq<u8>,
    off: int,
    n: nat,
    done: Seq<TensorModel>,
) -> Scan<Seq<TensorModel>>
    decreases n,
{
    if n == 0 {
        Scan::Got(done, off)
    } else {
        match scan_tensor(s, off) {
            Scan::Bad(m) => Scan::Bad(m),
            Scan::Got(t, p) => scan_tensors(s, p, (n - 1) as nat, done.push(t)),
        }
    }
}

/// The values of a metadata table.
pub open spec fn table_model(m: Map<Seq<char>, MetadataValue>) -> Map<Seq<char>, MetaModel> {
    m.map_values(|v: MetadataValue| v.model())
}

/// The entries of a tensor index.
pub open spec fn index_model(ts: Seq<TensorInfo>) -> Seq<TensorModel> {
    ts.map_values(|t: TensorInfo| t@)
}

fn truncated_error() -> (r: String)
    ensures
        r@ == "Unexpected end of GGUF data"@,
{
    "Unexpected end of GGUF data".to_owned()
}

/// The bytes from `off` on are at least `n`.
fn has_bytes(data: &[u8], off: u64, n: u64) -> (r: bool)
    ensures
        r == (off + n <= data@.len()),
        r ==> off + n <= usize::MAX,
{
    let len: u64 = data.len() as u64;
    off <= len && n <= len - off
}

fn read_string(data: &[u8], off: u64) -> (r: Result<(String, u64), String>)
    ensures
        match (r, scan_string(data@, off as int)) {
            (Ok(v), Scan::Got(t, p)) => v.0@ == t && v.1 == p && p <= data@.len() && off <= p,
            (Err(e), Scan::Bad(m)) => e@ == m,
            _ => false,
        },
{
    if !has_bytes(data, off, 8) {
        return Err(truncated_error());
    }
    let len: u64 = bytes::get_u64(data, off as usize);
    if !has_bytes(data, off + 8, len) {
        return Err("String exceeds file bounds".to_owned());
    }
    let end: u64 = off + 8 + len;
    let ghost b = data@.subrange(off + 8, end as int);
    match text::decode_text(
        vstd::slice::slice_subrange(data, (off + 8) as usize, end as usize),
    ) {
        Ok(s) => Ok((s, end)),
        Err(e) => {
            let mut m: String = "Invalid UTF-8 in GGUF string: ".to_owned();
            m.append(e.as_str());
            Err(m)
        },
    }
}

fn read_skip(off: u64, n: u64) -> (r: Result<(MetadataValue, u64), String>)
    ensures
        match (r, skip(off as int, n as int)) {
            (Ok(v), Scan::Got(m, p)) => v.0.model() == m && v.1 == p && off <= p,
            (Err(e), Scan::Bad(m)) => e@ == m,
            _ => false,
        },
{
    match off.checked_add(n) {
        Some(p) => Ok((MetadataValue::Uint32(0), p)),
        None => Err("GGUF offset overflow".to_owned()),
    }
}

fn read_metadata_value(data: &[u8], off: u64, ty: u32) -> (r: Result<
    (MetadataValue, u64),
    String,
>)
    ensures
        match (r, scan_value(data@, off as int, ty)) {
            (Ok(v), Scan::Got(m, p)) => v.0.model() == m && v.1 == p && off <= p,
            (Err(e), Scan::Bad(m)) => e@ == m,
            _ => false,
        },
    decreases rest(data@, off as int), 0nat,
{
    match ty {
        0 | 1 => read_skip(off, 1),
        2 | 3 => read_skip(off, 2),
        7 => read_skip(off, 4),
        12 => read_skip(off, 8),
        4 | 5 | 6 => {
            if !has_bytes(data, off, 4) {
                return Err(truncated_error());
            }
            let v: u32 = bytes::get_u32(data, off as usize);
            let value: MetadataValue = if ty == 4 {
                MetadataValue::Uint32(v)
            } else if ty == 5 {
                MetadataValue::Int32(v as i32)
            } else {
                MetadataValue::Float32(v)
            };
            Ok((value, off + 4))
        },
        10 | 11 => {
            if !has_bytes(data, off, 8) {
                return Err(truncated_error());
            }
            let v: u64 = bytes::get_u64(data, off as usize);
            let value: MetadataValue = if ty == 10 {
                MetadataValue::Uint64(v)
            } else {
                MetadataValue::Int64(v as i64)
            };
            Ok((value, off + 8))
        },
        8 => match read_string(data, off) {
            Ok((s, p)) => Ok((MetadataValue::String(s), p)),
            Err(e) => Err(e),
        },
        9 => {
            if !has_bytes(data, off, 12) {
                return Err(truncated_error());
            }
            let arr_type: u32 = bytes::get_u32(data, off as usize);
            let arr_len: u64 = bytes::get_u64(data, off as usize + 4);
            match read_items(data, off + 12, arr_type, arr_len) {
                Ok((vals, p)) => {
                    proof {
                        let v = MetadataValue::Array(vals);
                        assert(v.model()->Array_0 =~= models(vals@));
                    }
                    Ok((MetadataValue::Array(vals), p))
                },
                Err(e) => Err(e),
            }
        },
        _ => {
            let mut m: String = "Unknown metadata value type: ".to_owned();
            text::push_decimal(&mut m, ty as u64);
            Err(m)
        },
    }
}

fn read_items(data: &[u8], start: u64, ty: u32, n: u64) -> (r: Result<
    (Vec<MetadataValue>, u64),
    String,
>)
    ensures
        match (r, scan_items(data@, start as int, ty, n as nat, Seq::empty())) {
            (Ok(v), Scan::Got(m, p)) => models(v.0@) == m && v.1 == p && start <= p,
            (Err(e), Scan::Bad(m)) => e@ == m,
            _ => false,
        },
    decreases rest(data@, start as int), 1nat,
{
    let mut vals: Vec<MetadataValue> = Vec::new();
    let mut off: u64 = start;
    let mut left: u64 = n;
    assert(models(vals@) =~= Seq::empty());
    while left > 0
        invariant
            start <= off,
            rest(data@, off as int) <= rest(data@, start as int),
            scan_items(data@, start as int, ty, n as nat, Seq::empty()) == scan_items(
                data@,
                off as int,
                ty,
                left as nat,
                models(vals@),
            ),
        decreases left,
    {
        match read_metadata_value(data, off, ty) {
            Ok((v, p)) => {
                let ghost before = vals@;
                vals.push(v);
                assert(models(vals@) =~= models(before).push(v.model()));
                off = p;
            },
            Err(e) => {
                return Err(e);
            },
        }
        left = left - 1;
    }
    Ok((vals, off))
}

fn parse_metadata_kv(data: &[u8], off: u64) -> (r: Result<
    ((String, MetadataValue), u64),
    String,
>)
    ensures
        match (r, scan_pair(data@, off as int)) {
            (Ok(v), Scan::Got(kv, p)) => v.0.0@ == kv.0 && v.0.1.model() == kv.1 && v.1 == p,
            (Err(e), Scan::Bad(m)) => e@ == m,
            _ => false,
        },
{
    let (key, p) = match read_string(data, off) {
        Ok(v) => v,
        Err(e) => {
            return Err(e);
        },
    };
    if !has_bytes(data, p, 4) {
        return Err(truncated_error());
    }
    let value_type: u32 = bytes::get_u32(data, p as usize);
    match read_metadata_value(data, p + 4, value_type) {
        Ok((value, q)) => Ok(((key, value), q)),
        Err(e) => Err(e),
    }
}

fn read_pairs(data: &[u8], start: u64, n: u64) -> (r: Result<
    (StringHashMap<MetadataValue>, u64),
    String,
>)
    ensures
        match (r, scan_pairs(data@, start as int, n as nat, Map::empty())) {
            (Ok(v), Scan::Got(m, p)) => table_model(v.0@) == m && v.1 == p,
            (Err(e), Scan::Bad(m)) => e@ == m,
            _ => false,
        },
{
    let mut metadata: StringHashMap<MetadataValue> = StringHashMap::new();
    let mut off: u64 = start;
    let mut left: u64 = n;
    assert(table_model(metadata@) =~= Map::empty());
    while left > 0
        invariant
            scan_pairs(data@, start as int, n as nat, Map::empty()) == scan_pairs(
                data@,
                off as int,
                left as nat,
                table_model(metadata@),
            ),
        decreases left,
    {
        match parse_metadata_kv(data, off) {
            Ok((kv, p)) => {
                let ghost before = metadata@;
                let (key, value) = kv;
                metadata.insert(key, value);
                assert(table_model(metadata@) =~= table_model(before).insert(
                    key@,
                    value.model(),
                ));
                off = p;
            },
            Err(e) => {
                return Err(e);
            },
        }
        left = left - 1;
    }
    Ok((metadata, off))
}

/// Bytes of `n` weights, unless the count passes 64 bits.
fn size_in_bytes(t: GgmlType, n: u64) -> (r: Option<u64>)
    ensures
        r == if n + t.weights_per_block() - 1 > u64::MAX || tensor_bytes(t, n as int) > u64::MAX {
            None
        } else {
            Some(tensor_bytes(t, n as int) as u64)
        },
{
    let per: u64 = t.block_size() as u64;
    match n.checked_add(per - 1) {
        Some(top) => (top / per).checked_mul(t.block_bytes() as u64),
        None => None,
    }
}

fn parse_tensor_info(data: &[u8], off: u64) -> (r: Result<(TensorInfo, u64), String>)
    ensures
        match (r, scan_tensor(data@, off as int)) {
            (Ok(v), Scan::Got(t, p)) => v.0@ == t && v.1 == p && p <= data@.len(),
            (Err(e), Scan::Bad(m)) => e@ == m,
            _ => false,
        },
{
    let (name, p) = match read_string(data, off) {
        Ok(v) => v,
        Err(e) => {
            return Err(e);
        },
    };
    if !has_bytes(data, p, 4) {
        return Err(truncated_error());
    }
    let n_dims: u32 = bytes::get_u32(data, p as usize);
    let mut dims: Vec<u64> = Vec::new();
    let mut at: u64 = p + 4;
    let mut i: u32 = 0;
    while i < n_dims
        invariant
            i <= n_dims,
            p + 4 <= data@.len(),
            at == p + 4 + 8 * i,
            at <= data@.len(),
            scan_string(data@, off as int) == Scan::Got(name@, p as int),
            n_dims == bytes::u32_le(data@, p as int),
            dims@ == Seq::new(i as nat, |j: int| bytes::u64_le(data@, p + 4 + 8 * j)),
        decreases n_dims - i,
    {
        if !has_bytes(data, at, 8) {
            return Err(truncated_error());
        }
        dims.push(bytes::get_u64(data, at as usize));
        at = at + 8;
        i = i + 1;
        assert(dims@ =~= Seq::new(i as nat, |j: int| bytes::u64_le(data@, p + 4 + 8 * j)));
    }
    if !has_bytes(data, at, 4) {
        return Err(truncated_error());
    }
    let code: u32 = bytes::get_u32(data, at as usize);
    let ggml_type: GgmlType = match GgmlType::from_u32(code) {
        Some(t) => {
            proof {
                let u = choose|u: GgmlType| #[trigger] u.code() == code;
                law_type_codes_differ(t, u);
            }
            t
        },
        None => {
            let mut m: String = "Unknown GGML type: ".to_owned();
            text::push_decimal(&mut m, code as u64);
            m.append(" for tensor ");
            m.append(name.as_str());
            return Err(m);
        },
    };
    if !has_bytes(data, at + 4, 8) {
        return Err(truncated_error());
    }
    let offset: u64 = bytes::get_u64(data, at as usize + 4);
    let size: u64 = match product(dims.as_slice()) {
        Some(n) => match size_in_bytes(ggml_type, n) {
            Some(size) => size,
            None => {
                return Err("Tensor size overflow".to_owned());
            },
        },
        None => {
            return Err("Tensor size overflow".to_owned());
        },
    };
    Ok((TensorInfo { name, ggml_type, offset, size }, at + 12))
}

/// The product of the dimensions, unless it passes 64 bits on the way.
fn product(dims: &[u64]) -> (r: Option<u64>)
    ensures
        r == weight_count(dims@),
{
    let mut n: u64 = 1;
    let mut i: usize = 0;
    assert(dims@.take(0) =~= Seq::empty());
    while i < dims.len()
        invariant
            i <= dims@.len(),
            weight_count(dims@.take(i as int)) == Some(n),
        decreases dims.len() - i,
    {
        let ghost next = dims@.take(i + 1);
        assert(next.drop_last() =~= dims@.take(i as int));
        match n.checked_mul(dims[i]) {
            Some(m) => {
                n = m;
            },
            None => {
                proof {
                    lemma_no_count(dims@, (i + 1) as int, dims@.len() as int);
                    assert(dims@.take(dims@.len() as int) =~= dims@);
                }
                return None;
            },
        }
        i = i + 1;
    }
    assert(dims@.take(i as int) =~= dims@);
    Some(n)
}

/// A product that has passed 64 bits stays so.
proof fn lemma_no_count(dims: Seq<u64>, k: int, n: int)
    requires
        0 <= k <= n <= dims.len(),
        weight_count(dims.take(k)) is None,
    ensures
        weight_count(dims.take(n)) is None,
    decreases n,
{
    if k < n {
        lemma_no_count(dims, k, n - 1);
        assert(dims.take(n).drop_last() =~= dims.take(n - 1));
    }
}

fn read_tensors(data: &[u8], start: u64, n: u64) -> (r: Result<(Vec<TensorInfo>, u64), String>)
    ensures
        match (r, scan_tensors(data@, start as int, n as nat, Seq::empty())) {
            (Ok(v), Scan::Got(ts, p)) => index_model(v.0@) == ts && v.1 == p,
            (Err(e), Scan::Bad(m)) => e@ == m,
            _ => false,
        },
{
    let mut tensors: Vec<TensorInfo> = Vec::new();
    let mut off: u64 = start;
    let mut left: u64 = n;
    assert(index_model(tensors@) =~= Seq::empty());
    while left > 0
        invariant
            scan_tensors(data@, start as int, n as nat, Seq::empty()) == scan_tensors(
                data@,
                off as int,
                left as nat,
                index_model(tensors@),
            ),
        decreases left,
    {
        match parse_tensor_info(data, off) {
            Ok((t, p)) => {
                let ghost before = tensors@;
                tensors.push(t);
                assert(index_model(tensors@) =~= index_model(before).push(t@));
                off = p;
            },
            Err(e) => {
                return Err(e);
            },
        }
        left = left - 1;
    }
    Ok((tensors, off))
}

/// The number that a value stands for, as 64 bits; zero for a value that is no
/// integer.
pub open spec fn int_value(v: MetaModel) -> u64 {
    match v {
        MetaModel::Uint32(x) => x as u64,
        MetaModel::Int32(x) => x as u64,
        MetaModel::Uint64(x) => x,
        MetaModel::Int64(x) => x as u64,
        _ => 0,
    }
}

/// The text under `key`, if there is one.
pub open spec fn text_under(m: Map<Seq<char>, MetaModel>, key: Seq<char>) -> Option<Seq<char>> {
    if m.contains_key(key) && m[key] is Text {
        Some(m[key]->Text_0)
    } else {
        None
    }
}

/// The number under `key`, if there is a value.
pub open spec fn int_under(m: Map<Seq<char>, MetaModel>, key: Seq<char>) -> Option<u64> {
    if m.contains_key(key) {
        Some(int_value(m[key]))
    } else {
        None
    }
}

pub open spec fn missing_key(key: Seq<char>) -> Seq<char> {
    "Missing metadata key: "@ + key
}

fn missing(key: &str) -> (r: String)
    ensures
        r@ == missing_key(key@),
{
    let mut m: String = "Missing metadata key: ".to_owned();
    m.append(key);
    m
}

/// The text under `key`.
pub fn meta_get_str(meta: &StringHashMap<MetadataValue>, key: &str) -> (r: Result<String, String>)
    ensures
        match (r, text_under(table_model(meta@), key@)) {
            (Ok(s), Some(t)) => s@ == t,
            (Err(e), None) => e@ == missing_key(key@),
            _ => false,
        },
{
    match meta.get(key) {
        Some(MetadataValue::String(s)) => Ok(s.clone()),
        _ => Err(missing(key)),
    }
}

/// The number under `key`.
pub fn meta_get_int(meta: &StringHashMap<MetadataValue>, key: &str) -> (r: Result<u64, String>)
    ensures
        match (r, int_under(table_model(meta@), key@)) {
            (Ok(n), Some(m)) => n == m,
            (Err(e), None) => e@ == missing_key(key@),
            _ => false,
        },
{
    match meta.get(key) {
        Some(v) => Ok(
            match v {
                MetadataValue::Uint32(x) => *x as u64,
                MetadataValue::Int32(x) => *x as u64,
                MetadataValue::Uint64(x) => *x,
                MetadataValue::Int64(x) => *x as u64,
                _ => 0,
            },
        ),
        None => Err(missing(key)),
    }
}

/// Dimensions of the model.
#[derive(Clone, Debug)]
pub struct ModelConfig {
    pub architecture: String,
    pub block_count: u32,
    pub context_length: u32,
    pub embedding_length: u32,
    pub feed_forward_length: u32,
    pub expert_count: u32,
    pub expert_used_count: u32,
    pub quant_type: GgmlType,
}

/// The first key that the metadata lack, if they lack one.
pub open spec fn config_fault(m: Map<Seq<char>, MetaModel>) -> Option<Seq<char>> {
    if text_under(m, "general.architecture"@) is None {
        Some("general.architecture"@)
    } else if int_under(m, "llama.block_count"@) is None {
        Some("llama.block_count"@)
    } else if int_under(m, "llama.context_length"@) is None {
        Some("llama.context_length"@)
    } else if int_under(m, "llama.embedding_length"@) is None {
        Some("llama.embedding_length"@)
    } else if int_under(m, "llama.feed_forward_length"@) is None {
        Some("llama.feed_forward_length"@)
    } else if int_under(m, "llama.expert_count"@) is None {
        Some("llama.expert_count"@)
    } else if int_under(m, "llama.expert_used_count"@) is None {
        Some("llama.expert_used_count"@)
    } else {
        None
    }
}

/// The weights' type: by its number in the metadata, or IQ4_XS where there is
/// none or it is unknown.
pub open spec fn quant_under(m: Map<Seq<char>, MetaModel>) -> GgmlType {
    match int_under(m, "general.file_type"@) {
        Some(n) => match type_of(n as u32) {
            Some(t) => t,
            None => GgmlType::IQ4_XS,
        },
        None => GgmlType::IQ4_XS,
    }
}

/// `c` is the configuration that the metadata describe.
pub open spec fn describes(m: Map<Seq<char>, MetaModel>, c: ModelConfig) -> bool {
    &&& text_under(m, "general.architecture"@) == Some(c.architecture@)
    &&& int_under(m, "llama.block_count"@)->0 as u32 == c.block_count
    &&& int_under(m, "llama.context_length"@)->0 as u32 == c.context_length
    &&& int_under(m, "llama.embedding_length"@)->0 as u32 == c.embedding_length
    &&& int_under(m, "llama.feed_forward_length"@)->0 as u32 == c.feed_forward_length
    &&& int_under(m, "llama.expert_count"@)->0 as u32 == c.expert_count
    &&& int_under(m, "llama.expert_used_count"@)->0 as u32 == c.expert_used_count
    &&& c.quant_type == quant_under(m)
}

impl ModelConfig {
    /// The configuration that the metadata describe.
    pub fn from_metadata(meta: &StringHashMap<MetadataValue>) -> (r: Result<Self, String>)
        ensures
            match (r, config_fault(table_model(meta@))) {
                (Ok(c), None) => describes(table_model(meta@), c),
                (Err(e), Some(key)) => e@ == missing_key(key),
                _ => false,
            },
    {
        let architecture: String = match meta_get_str(meta, "general.architecture") {
            Ok(s) => s,
            Err(e) => {
                return Err(e);
            },
        };
        let code: u32 = match meta_get_int(meta, "general.file_type") {
            Ok(n) => n as u32,
            Err(_) => 30,
        };
        let quant_type: GgmlType = match GgmlType::from_u32(code) {
            Some(t) => {
                proof {
                    let u = choose|u: GgmlType| #[trigger] u.code() == code;
                    law_type_codes_differ(t, u);
                }
                t
            },
            None => GgmlType::IQ4_XS,
        };
        let block_count: u32 = match meta_get_int(meta, "llama.block_count") {
            Ok(n) => n as u32,
            Err(e) => {
                return Err(e);
            },
        };
        let context_length: u32 = match meta_get_int(meta, "llama.context_length") {
            Ok(n) => n as u32,
            Err(e) => {
                return Err(e);
            },
        };
        let embedding_length: u32 = match meta_get_int(meta, "llama.embedding_length") {
            Ok(n) => n as u32,
            Err(e) => {
                return Err(e);
            },
        };
        let feed_forward_length: u32 = match meta_get_int(meta, "llama.feed_forward_length") {
            Ok(n) => n as u32,
            Err(e) => {
                return Err(e);
            },
        };
        let expert_count: u32 = match meta_get_int(meta, "llama.expert_count") {
            Ok(n) => n as u32,
            Err(e) => {
                return Err(e);
            },
        };
        let expert_used_count: u32 = match meta_get_int(meta, "llama.expert_used_count") {
            Ok(n) => n as u32,
            Err(e) => {
                return Err(e);
            },
        };
        Ok(
            ModelConfig {
                architecture,
                block_count,
                context_length,
                embedding_length,
                feed_forward_length,
                expert_count,
                expert_used_count,
                quant_type,
            },
        )
    }
}

/// A model in one line; the bytes per weight come as text.
pub open spec fn summary_text(c: ModelConfig, bpw: Seq<char>) -> Seq<char> {
    c.architecture@ + " | "@ + text::decimal(c.block_count as nat) + " blocks, "@ + text::decimal(
        c.context_length as nat,
    ) + " ctx, "@ + text::decimal(c.embedding_length as nat) + " hidden, "@ + text::decimal(
        c.feed_forward_length as nat,
    ) + " inter, "@ + text::decimal(c.expert_count as nat) + " experts ("@ + text::decimal(
        c.expert_used_count as nat,
    ) + " active), "@ + bpw + " bpw"@
}

impl ModelConfig {
    /// The model in one line; the bytes per weight come as text.
    pub fn summary(&self, bpw: &str) -> (r: String)
        ensures
            r@ == summary_text(*self, bpw@),
    {
        let mut out: String = self.architecture.clone();
        out.append(" | ");
        text::push_decimal(&mut out, self.block_count as u64);
        out.append(" blocks, ");
        text::push_decimal(&mut out, self.context_length as u64);
        out.append(" ctx, ");
        text::push_decimal(&mut out, self.embedding_length as u64);
        out.append(" hidden, ");
        text::push_decimal(&mut out, self.feed_forward_length as u64);
        out.append(" inter, ");
        text::push_decimal(&mut out, self.expert_count as u64);
        out.append(" experts (");
        text::push_decimal(&mut out, self.expert_used_count as u64);
        out.append(" active), ");
        out.append(bpw);
        out.append(" bpw");
        out
    }
}

/// Alignment of the data section.
pub const DATA_ALIGNMENT: u64 = 32;

/// What a parsed file holds.
pub struct ReaderModel {
    pub tensor_count: u64,
    pub metadata: Map<Seq<char>, MetaModel>,
    pub tensors: Seq<TensorModel>,
    pub tensor_data_offset: u64,
}

/// The whole file, but for the configuration in its metadata.
pub open spec fn scan_file(s: Seq<u8>) -> Result<ReaderModel, Seq<char>> {
    if s.len() < 16 {
        Err("File too small for GGUF header"@)
    } else if s.subrange(0, 4) != seq![0x47u8, 0x47, 0x55, 0x46] {
        Err("Bad magic: "@ + text::hex_list(s.subrange(0, 4)) + ", expected GGUF"@)
    } else if bytes::u32_le(s, 4) != 3 && bytes::u32_le(s, 4) != 2 {
        Err("Unsupported GGUF version: "@ + text::decimal(bytes::u32_le(s, 4) as nat))
    } else if s.len() < 24 {
        Err("Unexpected end of GGUF data"@)
    } else {
        match scan_pairs(s, 24, bytes::u64_le(s, 16) as nat, Map::empty()) {
            Scan::Bad(m) => Err(m),
            Scan::Got(metadata, p) => match scan_tensors(
                s,
                p,
                bytes::u64_le(s, 8) as nat,
                Seq::empty(),
            ) {
                Scan::Bad(m) => Err(m),
                Scan::Got(tensors, end) => if end + DATA_ALIGNMENT - 1 > u64::MAX {
                    Err("GGUF offset overflow"@)
                } else {
                    Ok(
                        ReaderModel {
                            tensor_count: bytes::u64_le(s, 8),
                            metadata,
                            tensors,
                            tensor_data_offset: align::round_up(
                                end,
                                DATA_ALIGNMENT as int,
                            ) as u64,
                        },
                    )
                },
            },
        }
    }
}

/// A parsed file, beside its bytes.
pub struct GgufReader<'a> {
    pub data: &'a [u8],
    pub tensor_count: u64,
    pub metadata: StringHashMap<MetadataValue>,
    pub tensors: Vec<TensorInfo>,
    /// Where the data section starts.
    pub tensor_data_offset: u64,
    pub config: ModelConfig,
}

impl<'a> GgufReader<'a> {
    /// The reader holds what `m` says.
    pub open spec fn holds(&self, m: ReaderModel) -> bool {
        &&& self.tensor_count == m.tensor_count
        &&& table_model(self.metadata@) == m.metadata
        &&& index_model(self.tensors@) == m.tensors
        &&& self.tensor_data_offset == m.tensor_data_offset
        &&& describes(m.metadata, self.config)
    }

    /// Parse a GGUF file from its memory-mapped bytes.
    pub fn parse(data: &'a [u8]) -> (r: Result<Self, String>)
        ensures
            match (r, scan_file(data@)) {
                (Ok(reader), Ok(m)) => {
                    &&& config_fault(m.metadata) is None
                    &&& reader.data@ == data@
                    &&& reader.holds(m)
                },
                (Err(e), Ok(m)) => config_fault(m.metadata) is Some && e@ == missing_key(
                    config_fault(m.metadata)->0,
                ),
                (Err(e), Err(m)) => e@ == m,
                (Ok(_), Err(_)) => false,
            },
    {
        if data.len() < 16 {
            return Err("File too small for GGUF header".to_owned());
        }
        let magic: &[u8] = vstd::slice::slice_subrange(data, 0, 4);
        if magic[0] != 0x47 || magic[1] != 0x47 || magic[2] != 0x55 || magic[3] != 0x46 {
            let mut m: String = "Bad magic: ".to_owned();
            text::push_hex_list(&mut m, magic);
            m.append(", expected GGUF");
            return Err(m);
        }
        assert(data@.subrange(0, 4) =~= seq![0x47u8, 0x47, 0x55, 0x46]);
        let version: u32 = bytes::get_u32(data, 4);
        if version != 3 && version != 2 {
            let mut m: String = "Unsupported GGUF version: ".to_owned();
            text::push_decimal(&mut m, version as u64);
            return Err(m);
        }
        if data.len() < 24 {
            return Err(truncated_error());
        }
        let tensor_count: u64 = bytes::get_u64(data, 8);
        let metadata_kv_count: u64 = bytes::get_u64(data, 16);
        let (metadata, p) = match read_pairs(data, 24, metadata_kv_count) {
            Ok(v) => v,
            Err(e) => {
                return Err(e);
            },
        };
        let (tensors, end) = match read_tensors(data, p, tensor_count) {
            Ok(v) => v,
            Err(e) => {
                return Err(e);
            },
        };
        if end > u64::MAX - (DATA_ALIGNMENT - 1) {
            return Err("GGUF offset overflow".to_owned());
        }
        proof {
            assert(align::is_power_of_two(DATA_ALIGNMENT)) by {
                assert(32u64 & 31u64 == 0) by (bit_vector);
            }
        }
        let tensor_data_offset: u64 = align::align_up(end, DATA_ALIGNMENT);
        let config: ModelConfig = match ModelConfig::from_metadata(&metadata) {
            Ok(c) => c,
            Err(e) => {
                return Err(e);
            },
        };
        Ok(GgufReader { data, tensor_count, metadata, tensors, tensor_data_offset, config })
    }
}

/// A file without the four bytes `GGUF` in front, or with a version that is
/// neither two nor three, is refused whatever follows.
pub proof fn law_header_is_checked(s: Seq<u8>)
    ensures
        scan_file(s) is Ok ==> {
            &&& s.subrange(0, 4) == seq![0x47u8, 0x47, 0x55, 0x46]
            &&& bytes::u32_le(s, 4) == 2 || bytes::u32_le(s, 4) == 3
        },
{
}

/// An index that is read holds as many entries as the header says.
pub proof fn law_all_tensors_are_read(s: Seq<u8>)
    requires
        scan_file(s) is Ok,
    ensures
        scan_file(s)->Ok_0.tensors.len() == scan_file(s)->Ok_0.tensor_count,
        scan_file(s)->Ok_0.tensor_data_offset % DATA_ALIGNMENT == 0,
{
    let pairs = scan_pairs(s, 24, bytes::u64_le(s, 16) as nat, Map::empty());
    let p = pairs->Got_1;
    lemma_tensor_total(s, p, bytes::u64_le(s, 8) as nat, Seq::empty());
    let tensors = scan_tensors(s, p, bytes::u64_le(s, 8) as nat, Seq::empty());
    let end = tensors->Got_1;
    lemma_pairs_go_forward(s, 24, bytes::u64_le(s, 16) as nat, Map::empty());
    lemma_tensors_go_forward(s, p, bytes::u64_le(s, 8) as nat, Seq::empty());
    align::lemma_round_up(end, DATA_ALIGNMENT as int);
}

proof fn lemma_tensor_total(s: Seq<u8>, off: int, n: nat, done: Seq<TensorModel>)
    ensures
        scan_tensors(s, off, n, done) matches Scan::Got(ts, _) ==> ts.len() == done.len() + n,
    decreases n,
{
    if n > 0 {
        match scan_tensor(s, off) {
            Scan::Bad(_) => {},
            Scan::Got(t, p) => {
                lemma_tensor_total(s, p, (n - 1) as nat, done.push(t));
            },
        }
    }
}

pub proof fn lemma_tensors_go_forward(s: Seq<u8>, off: int, n: nat, done: Seq<TensorModel>)
    requires
        0 <= off,
    ensures
        scan_tensors(s, off, n, done) matches Scan::Got(_, p) ==> off <= p,
    decreases n,
{
    if n > 0 {
        match scan_tensor(s, off) {
            Scan::Bad(_) => {},
            Scan::Got(t, p) => {
                lemma_tensors_go_forward(s, p, (n - 1) as nat, done.push(t));
            },
        }
    }
}

pub proof fn lemma_pairs_go_forward(
    s: Seq<u8>,
    off: int,
    n: nat,
    done: Map<Seq<char>, MetaModel>,
)
    requires
        0 <= off,
    ensures
        scan_pairs(s, off, n, done) matches Scan::Got(_, p) ==> off <= p,
    decreases n,
{
    if n > 0 {
        match scan_pair(s, off) {
            Scan::Bad(_) => {},
            Scan::Got(kv, p) => {
                let at = scan_string(s, off)->Got_1;
                lemma_value_goes_forward(s, at + 4, bytes::u32_le(s, at));
                lemma_pairs_go_forward(s, p, (n - 1) as nat, done.insert(kv.0, kv.1));
            },
        }
    }
}

proof fn lemma_value_goes_forward(s: Seq<u8>, off: int, ty: u32)
    requires
        0 <= off,
    ensures
        scan_value(s, off, ty) matches Scan::Got(_, p) ==> off <= p,
{
    if ty == 9 && off + 12 <= s.len() {
        lemma_items_go_forward(
            s,
            off + 12,
            bytes::u32_le(s, off),
            bytes::u64_le(s, off + 4) as nat,
            Seq::empty(),
        );
    }
}

proof fn lemma_items_go_forward(s: Seq<u8>, off: int, ty: u32, n: nat, done: Seq<MetaModel>)
    requires
        0 <= off,
    ensures
        scan_items(s, off, ty, n, done) matches Scan::Got(_, p) ==> off <= p,
    decreases n,
{
    if n > 0 {
        match scan_value(s, off, ty) {
            Scan::Bad(_) => {},
            Scan::Got(v, p) => {
                if p >= off {
                    lemma_items_go_forward(s, p, ty, (n - 1) as nat, done.push(v));
                }
            },
        }
    }
}

/// The product of the dimensions.
pub open spec fn product_of(dims: Seq<u64>) -> int
    decreases dims.len(),
{
    if dims.len() == 0 {
        1
    } else {
        product_of(dims.drop_last()) * dims.last()
    }
}

/// Bytes of `n` weights in blocks of so many weights and bytes: no block is
/// needless, and the last may be filled in part.
pub open spec fn in_blocks(bytes: int, n: int, weights: int, block: int) -> bool {
    exists|blocks: int|
        bytes == #[trigger] (blocks * block) && blocks * weights >= n && (blocks - 1) * weights < n
}

/// The type with this number, and the bytes of `n` weights of it: four for a
/// single-precision number and two for one in half precision; the others in
/// blocks.
pub open spec fn is_size(code: u32, t: GgmlType, bytes: int, n: int) -> bool {
    ||| code == 0 && t is F32 && bytes == 4 * n
    ||| code == 1 && t is F16 && bytes == 2 * n
    ||| code == 2 && t is Q4_0 && in_blocks(bytes, n, 32, 18)
    ||| code == 3 && t is Q4_1 && in_blocks(bytes, n, 32, 24)
    ||| code == 6 && t is Q5_0 && in_blocks(bytes, n, 32, 24)
    ||| code == 7 && t is Q5_1 && in_blocks(bytes, n, 32, 28)
    ||| code == 8 && t is Q8_0 && in_blocks(bytes, n, 32, 40)
    ||| code == 9 && t is Q8_1 && in_blocks(bytes, n, 32, 48)
    ||| code == 10 && t is Q2_K && in_blocks(bytes, n, 256, 80)
    ||| code == 11 && t is Q3_K && in_blocks(bytes, n, 256, 104)
    ||| code == 12 && t is Q4_K && in_blocks(bytes, n, 256, 144)
    ||| code == 13 && t is Q5_K && in_blocks(bytes, n, 256, 160)
    ||| code == 14 && t is Q6_K && in_blocks(bytes, n, 256, 192)
    ||| code == 15 && t is Q8_K && in_blocks(bytes, n, 256, 256)
    ||| code == 30 && t is IQ4_XS && in_blocks(bytes, n, 32, 36)
}

/// The dimensions of the entry at `off` of the tensor index: behind the name
/// stand their number and then they themselves.
pub open spec fn dims_at(s: Seq<u8>, off: int) -> Seq<u64> {
    let p = off + 8 + bytes::u64_le(s, off);
    Seq::new(bytes::u32_le(s, p) as nat, |i: int| bytes::u64_le(s, p + 4 + 8 * i))
}

/// Where the type of the entry at `off` stands, behind its name and dimensions.
pub open spec fn type_at(s: Seq<u8>, off: int) -> int {
    off + 8 + bytes::u64_le(s, off) + 4 + 8 * dims_at(s, off).len()
}

/// Where entry `i` of the index at `start` stands.
pub open spec fn entry_start(s: Seq<u8>, start: int, i: int) -> int
    decreases i,
{
    if i <= 0 {
        start
    } else {
        type_at(s, entry_start(s, start, i - 1)) + 12
    }
}

/// A tensor is what its entry at `off` says: its name, its type and its offset,
/// and the bytes that its dimensions take in that type.
pub open spec fn is_entry(s: Seq<u8>, off: int, t: TensorModel) -> bool {
    let q = type_at(s, off);
    &&& t.name == vstd::utf8::decode_utf8(s.subrange(off + 8, off + 8 + bytes::u64_le(s, off)))
    &&& t.offset == bytes::u64_le(s, q + 4)
    &&& is_size(bytes::u32_le(s, q), t.ggml_type, t.size as int, product_of(dims_at(s, off)))
}

proof fn lemma_product(dims: Seq<u64>)
    ensures
        weight_count(dims) matches Some(n) ==> n == product_of(dims),
        product_of(dims) >= 0,
    decreases dims.len(),
{
    if dims.len() > 0 {
        lemma_product(dims.drop_last());
        let a = product_of(dims.drop_last());
        let b = dims.last() as int;
        assert(a * b >= 0) by (nonlinear_arith)
            requires
                a >= 0,
                b >= 0,
        ;
    }
}

proof fn lemma_in_blocks(n: int, weights: int, block: int)
    requires
        n >= 0,
        weights > 0,
    ensures
        in_blocks((n + weights - 1) / weights * block, n, weights, block),
{
    let blocks = (n + weights - 1) / weights;
    assert(blocks * weights >= n && (blocks - 1) * weights < n) by (nonlinear_arith)
        requires
            blocks == (n + weights - 1) / weights,
            weights > 0,
    ;
    assert((n + weights - 1) / weights * block == blocks * block);
}

proof fn lemma_size(t: GgmlType, n: int)
    requires
        n >= 0,
    ensures
        is_size(t.code(), t, tensor_bytes(t, n), n),
{
    lemma_in_blocks(n, t.weights_per_block() as int, t.bytes_per_block() as int);
}

/// The tensors of a file are what the entries of its index say, one after the
/// other: the size of each is what its dimensions take in its type.
pub proof fn law_entries_are_read(s: Seq<u8>, start: int, n: nat, i: int)
    requires
        0 <= start,
        scan_tensors(s, start, n, Seq::empty()) is Got,
        0 <= i < n,
    ensures
        ({
            let ts = scan_tensors(s, start, n, Seq::empty())->Got_0;
            &&& ts.len() == n
            &&& is_entry(s, entry_start(s, start, i), ts[i])
        }),
        scan_tensors(s, start, n, Seq::empty())->Got_1 == entry_start(s, start, n as int),
{
    lemma_entries(s, start, start, n, Seq::empty(), i);
}

proof fn lemma_entries(
    s: Seq<u8>,
    start: int,
    off: int,
    n: nat,
    done: Seq<TensorModel>,
    i: int,
)
    requires
        0 <= off,
        off == entry_start(s, start, done.len() as int),
        scan_tensors(s, off, n, done) is Got,
        0 <= i < done.len() + n,
        i < done.len() ==> is_entry(s, entry_start(s, start, i), done[i]),
    ensures
        ({
            let ts = scan_tensors(s, off, n, done)->Got_0;
            &&& ts.len() == done.len() + n
            &&& is_entry(s, entry_start(s, start, i), ts[i])
        }),
        scan_tensors(s, off, n, done)->Got_1 == entry_start(s, start, (done.len() + n) as int),
    decreases n,
{
    if n > 0 {
        let t = scan_tensor(s, off)->Got_0;
        let p = scan_tensor(s, off)->Got_1;
        lemma_entry(s, off);
        lemma_entries(s, start, p, (n - 1) as nat, done.push(t), i);
    }
}

proof fn lemma_entry(s: Seq<u8>, off: int)
    requires
        0 <= off,
        scan_tensor(s, off) is Got,
    ensures
        scan_tensor(s, off)->Got_1 == type_at(s, off) + 12,
        scan_tensor(s, off)->Got_1 >= 0,
        is_entry(s, off, scan_tensor(s, off)->Got_0),
{
    let t = scan_tensor(s, off)->Got_0;
    let p = off + 8 + bytes::u64_le(s, off);
    let n = bytes::u32_le(s, p) as int;
    let dims = Seq::new(n as nat, |i: int| bytes::u64_le(s, p + 4 + 8 * i));
    assert(dims =~= dims_at(s, off));
    lemma_product(dims);
    lemma_size(t.ggml_type, product_of(dims));
    let code = bytes::u32_le(s, type_at(s, off));
    assert(t.ggml_type.code() == code);
}

/// A value is what its bytes say: a number takes four or eight, a text is its
/// length and then its bytes in UTF-8.
pub proof fn law_values_are_read(s: Seq<u8>, off: int, ty: u32)
    requires
        0 <= off,
        scan_value(s, off, ty) is Got,
    ensures
        ({
            let v = scan_value(s, off, ty)->Got_0;
            let p = scan_value(s, off, ty)->Got_1;
            &&& ty == 4 ==> p == off + 4 && v == MetaModel::Uint32(bytes::u32_le(s, off))
            &&& ty == 5 ==> p == off + 4 && (v matches MetaModel::Int32(x) && x as u32
                == bytes::u32_le(s, off))
            &&& ty == 6 ==> p == off + 4 && v == MetaModel::Float32(bytes::u32_le(s, off))
            &&& ty == 8 ==> (v matches MetaModel::Text(t) && p == off + 8 + bytes::u64_le(s, off)
                && vstd::utf8::encode_utf8(t) == s.subrange(off + 8, p))
            &&& ty == 10 ==> p == off + 8 && v == MetaModel::Uint64(bytes::u64_le(s, off))
            &&& ty == 11 ==> p == off + 8 && (v matches MetaModel::Int64(x) && x as u64
                == bytes::u64_le(s, off))
        }),
{
    if ty == 8 {
        let b = s.subrange(off + 8, off + 8 + bytes::u64_le(s, off));
        vstd::utf8::decode_utf8_encode_utf8(b);
    }
    let w = bytes::u32_le(s, off);
    assert((w as i32) as u32 == w) by (bit_vector);
    let x = bytes::u64_le(s, off);
    assert((x as i64) as u64 == x) by (bit_vector);
}

} // verus!
