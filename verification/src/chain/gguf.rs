//! GGUF files: header, metadata, tensor index.

use vstd::hash_map::StringHashMap;
use vstd::prelude::*;

use crate::bytes;
use crate::bytes::Scan;
use crate::chain::error::Error;
use crate::chain::standard;
use crate::text;

verus! {

/// A metadata value. Floating-point numbers are held as bit patterns.
#[derive(Debug, Clone)]
pub enum GgufValue {
    U8(u8),
    U32(u32),
    U64(u64),
    I32(i32),
    I64(i64),
    F32(u32),
    F64(u64),
    Bool(bool),
    String(String),
    ArrayU32(Vec<u32>),
    ArrayF32(Vec<u32>),
    ArrayI64(Vec<i64>),
}

/// What a metadata value holds.
pub enum ValueModel {
    U8(u8),
    U32(u32),
    U64(u64),
    I32(i32),
    I64(i64),
    F32(u32),
    F64(u64),
    Bool(bool),
    Text(Seq<char>),
    ArrayU32(Seq<u32>),
    ArrayF32(Seq<u32>),
    ArrayI64(Seq<i64>),
}

impl View for GgufValue {
    type V = ValueModel;

    open spec fn view(&self) -> ValueModel {
        match self {
            GgufValue::U8(v) => ValueModel::U8(*v),
            GgufValue::U32(v) => ValueModel::U32(*v),
            GgufValue::U64(v) => ValueModel::U64(*v),
            GgufValue::I32(v) => ValueModel::I32(*v),
            GgufValue::I64(v) => ValueModel::I64(*v),
            GgufValue::F32(v) => ValueModel::F32(*v),
            GgufValue::F64(v) => ValueModel::F64(*v),
            GgufValue::Bool(v) => ValueModel::Bool(*v),
            GgufValue::String(v) => ValueModel::Text(v@),
            GgufValue::ArrayU32(v) => ValueModel::ArrayU32(v@),
            GgufValue::ArrayF32(v) => ValueModel::ArrayF32(v@),
            GgufValue::ArrayI64(v) => ValueModel::ArrayI64(v@),
        }
    }
}

#[derive(Debug, Clone, Copy, PartialEq, Eq, Structural)]
#[allow(non_camel_case_types)]
pub enum GgufDtype {
    F32,
    F16,
    Q4_0,
    Q8_0,
    IQ4_XS,
    Unknown(u32),
}

impl GgufDtype {
    pub open spec fn from_raw_spec(raw: u32) -> GgufDtype {
        if raw == 0 {
            GgufDtype::F32
        } else if raw == 1 {
            GgufDtype::F16
        } else if raw == 2 {
            GgufDtype::Q4_0
        } else if raw == 8 {
            GgufDtype::Q8_0
        } else {
            GgufDtype::Unknown(raw)
        }
    }

    /// The element type with this number in the file.
    pub fn from_raw(raw: u32) -> (r: Self)
        ensures
            r == Self::from_raw_spec(raw),
    {
        match raw {
            0 => GgufDtype::F32,
            1 => GgufDtype::F16,
            2 => GgufDtype::Q4_0,
            8 => GgufDtype::Q8_0,
            _ => GgufDtype::Unknown(raw),
        }
    }

    /// Bytes of one element, or of one block of 32 elements for a quantized type.
    pub open spec fn unit_bytes(self) -> u64 {
        match self {
            GgufDtype::F32 => 4u64,
            GgufDtype::F16 => 2,
            GgufDtype::Q4_0 => 18,
            GgufDtype::Q8_0 => 34,
            GgufDtype::IQ4_XS => 17,
            GgufDtype::Unknown(_) => 1,
        }
    }

    /// Bytes of one element, or of one block of 32 elements for a quantized type.
    pub fn type_size(&self) -> (r: u64)
        ensures
            r == self.unit_bytes(),
            r == match self {
                GgufDtype::F32 => 4u64,
                GgufDtype::F16 => 2,
                GgufDtype::Q4_0 => 18,
                GgufDtype::Q8_0 => 34,
                GgufDtype::IQ4_XS => 17,
                GgufDtype::Unknown(_) => 1,
            },
    {
        match self {
            GgufDtype::F32 => 4,
            GgufDtype::F16 => 2,
            GgufDtype::Q4_0 => 18,
            GgufDtype::Q8_0 => 34,
            GgufDtype::IQ4_XS => 17,
            GgufDtype::Unknown(_) => 1,
        }
    }
}

#[derive(Debug, Clone)]
pub struct TensorInfo {
    pub name: String,
    pub shape: Vec<u64>,
    pub dtype: GgufDtype,
    pub offset: u64,
    pub n_elements: u64,
    pub size_bytes: u64,
}

/// What a tensor's index entry holds.
pub struct TensorModel {
    pub name: Seq<char>,
    pub shape: Seq<u64>,
    pub dtype: GgufDtype,
    pub offset: u64,
    pub n_elements: u64,
    pub size_bytes: u64,
}

impl View for TensorInfo {
    type V = TensorModel;

    open spec fn view(&self) -> TensorModel {
        TensorModel {
            name: self.name@,
            shape: self.shape@,
            dtype: self.dtype,
            offset: self.offset,
            n_elements: self.n_elements,
            size_bytes: self.size_bytes,
        }
    }
}

/// A length-prefixed string.
pub open spec fn scan_string(s: Seq<u8>, pos: int) -> Scan<Seq<char>> {
    if pos + 8 > usize::MAX {
        Scan::Bad("string length prefix position overflow"@)
    } else if pos + 8 > s.len() {
        Scan::Bad("truncated GGUF: string length prefix out of bounds"@)
    } else {
        let len = bytes::u64_le(s, pos) as int;
        if pos + 8 + len > usize::MAX {
            Scan::Bad("string data length overflow"@)
        } else if pos + 8 + len > s.len() {
            Scan::Bad("truncated GGUF: string data out of bounds"@)
        } else {
            Scan::Got(text::lossy_text(s.subrange(pos + 8, pos + 8 + len)), pos + 8 + len)
        }
    }
}

/// A metadata value of the type with number `ty`.
pub open spec fn scan_value(s: Seq<u8>, pos: int, ty: u32) -> Scan<ValueModel> {
    if ty == 1 {
        if pos + 1 > s.len() {
            Scan::Bad("truncated GGUF: U8 value out of bounds"@)
        } else {
            Scan::Got(ValueModel::U8(s[pos]), pos + 1)
        }
    } else if ty == 4 {
        if pos + 4 > s.len() {
            Scan::Bad("truncated GGUF: U32 value out of bounds"@)
        } else {
            Scan::Got(ValueModel::U32(bytes::u32_le(s, pos)), pos + 4)
        }
    } else if ty == 5 {
        if pos + 8 > s.len() {
            Scan::Bad("truncated GGUF: U64 value out of bounds"@)
        } else {
            Scan::Got(ValueModel::U64(bytes::u64_le(s, pos)), pos + 8)
        }
    } else if ty == 7 {
        if pos + 4 > s.len() {
            Scan::Bad("truncated GGUF: I32 value out of bounds"@)
        } else {
            Scan::Got(ValueModel::I32(bytes::u32_le(s, pos) as i32), pos + 4)
        }
    } else if ty == 8 {
        if pos + 8 > s.len() {
            Scan::Bad("truncated GGUF: I64 value out of bounds"@)
        } else {
            Scan::Got(ValueModel::I64(bytes::u64_le(s, pos) as i64), pos + 8)
        }
    } else if ty == 22 {
        if pos + 4 > s.len() {
            Scan::Bad("truncated GGUF: F32 value out of bounds"@)
        } else {
            Scan::Got(ValueModel::F32(bytes::u32_le(s, pos)), pos + 4)
        }
    } else if ty == 23 {
        if pos + 8 > s.len() {
            Scan::Bad("truncated GGUF: F64 value out of bounds"@)
        } else {
            Scan::Got(ValueModel::F64(bytes::u64_le(s, pos)), pos + 8)
        }
    } else if ty == 26 {
        if pos + 1 > s.len() {
            Scan::Bad("truncated GGUF: Bool value out of bounds"@)
        } else {
            Scan::Got(ValueModel::Bool(s[pos] != 0), pos + 1)
        }
    } else if ty == 13 {
        if pos + 4 > s.len() {
            Scan::Bad("truncated GGUF: array length out of bounds"@)
        } else {
            let len = bytes::u32_le(s, pos) as int;
            if pos + 4 + 4 * len > s.len() {
                Scan::Bad("truncated GGUF: array element out of bounds"@)
            } else {
                Scan::Got(
                    ValueModel::ArrayU32(
                        Seq::new(len as nat, |i: int| bytes::u32_le(s, pos + 4 + 4 * i)),
                    ),
                    pos + 4 + 4 * len,
                )
            }
        }
    } else {
        Scan::Bad("unknown value type "@ + text::decimal(ty as nat))
    }
}

/// A key, the number of a value type, and a value of that type.
pub open spec fn scan_pair(s: Seq<u8>, pos: int) -> Scan<(Seq<char>, ValueModel)> {
    match scan_string(s, pos) {
        Scan::Bad(m) => Scan::Bad(m),
        Scan::Got(key, p) => if p + 4 > s.len() {
            Scan::Bad("truncated GGUF: value type out of bounds"@)
        } else {
            match scan_value(s, p + 4, bytes::u32_le(s, p)) {
                Scan::Bad(m) => Scan::Bad(m),
                Scan::Got(v, q) => Scan::Got((key, v), q),
            }
        },
    }
}

/// The first `n` pairs as a map. Of two pairs with one key the later one counts.
pub open spec fn scan_pairs(s: Seq<u8>, pos: int, n: nat) -> Scan<Map<Seq<char>, ValueModel>>
    decreases n,
{
    if n == 0 {
        Scan::Got(Map::empty(), pos)
    } else {
        match scan_pairs(s, pos, (n - 1) as nat) {
            Scan::Bad(m) => Scan::Bad(m),
            Scan::Got(m, p) => match scan_pair(s, p) {
                Scan::Bad(e) => Scan::Bad(e),
                Scan::Got(kv, q) => Scan::Got(m.insert(kv.0, kv.1), q),
            },
        }
    }
}

/// The product of the dimensions, or the largest number where it is larger.
pub open spec fn element_count(shape: Seq<u64>) -> u64
    decreases shape.len(),
{
    if shape.len() == 0 {
        1
    } else {
        let n = element_count(shape.drop_last()) * shape.last();
        if n > u64::MAX {
            u64::MAX
        } else {
            n as u64
        }
    }
}

/// One entry of the tensor index; its size is not in the file.
pub open spec fn scan_tensor(s: Seq<u8>, pos: int) -> Scan<TensorModel> {
    match scan_string(s, pos) {
        Scan::Bad(m) => Scan::Bad(m),
        Scan::Got(name, p) => if p + 4 > s.len() {
            Scan::Bad("truncated GGUF: tensor info out of bounds"@)
        } else {
            let n = bytes::u32_le(s, p) as int;
            let q = p + 4 + 8 * n;
            if q + 12 > s.len() {
                Scan::Bad("truncated GGUF: tensor info out of bounds"@)
            } else {
                let shape = Seq::new(n as nat, |i: int| bytes::u64_le(s, p + 4 + 8 * i));
                Scan::Got(
                    TensorModel {
                        name,
                        shape,
                        dtype: GgufDtype::from_raw_spec(bytes::u32_le(s, q)),
                        offset: bytes::u64_le(s, q + 4),
                        n_elements: element_count(shape),
                        size_bytes: 0,
                    },
                    q + 12,
                )
            }
        },
    }
}

/// The first `n` entries of the tensor index.
pub open spec fn scan_tensors(s: Seq<u8>, pos: int, n: nat) -> Scan<Seq<TensorModel>>
    decreases n,
{
    if n == 0 {
        Scan::Got(Seq::empty(), pos)
    } else {
        match scan_tensors(s, pos, (n - 1) as nat) {
            Scan::Bad(m) => Scan::Bad(m),
            Scan::Got(ts, p) => match scan_tensor(s, p) {
                Scan::Bad(e) => Scan::Bad(e),
                Scan::Got(t, q) => Scan::Got(ts.push(t), q),
            },
        }
    }
}

/// Where the tensor after `i` starts; the file's end after the last one.
pub open spec fn next_start(ts: Seq<TensorModel>, file_len: int, i: int) -> int {
    if i + 1 < ts.len() {
        ts[i + 1].offset as int
    } else {
        file_len
    }
}

/// No tensor starts behind the next one, nor the last one behind the file's end.
pub open spec fn offsets_ordered(ts: Seq<TensorModel>, file_len: int) -> bool {
    forall|i: int| 0 <= i < ts.len() ==> (#[trigger] ts[i]).offset <= next_start(ts, file_len, i)
}

/// Each tensor reaches to the start of the next one.
pub open spec fn with_sizes(ts: Seq<TensorModel>, file_len: int) -> Seq<TensorModel> {
    Seq::new(
        ts.len(),
        |i: int|
            TensorModel {
                size_bytes: (next_start(ts, file_len, i) - ts[i].offset) as u64,
                ..ts[i]
            },
    )
}

/// A file's metadata and tensor index.
pub struct FileModel {
    pub metadata: Map<Seq<char>, ValueModel>,
    pub tensors: Seq<TensorModel>,
}

/// Bytes `GGUF`, as a little-endian number.
pub const MAGIC: u32 = 0x4655_4747;

/// The tensor index at `pos`, beside the metadata.
pub open spec fn scan_index(
    s: Seq<u8>,
    pos: int,
    metadata: Map<Seq<char>, ValueModel>,
) -> Result<FileModel, Seq<char>> {
    match scan_tensors(s, pos, bytes::u64_le(s, 8) as nat) {
        Scan::Bad(m) => Err(m),
        Scan::Got(ts, _) => if offsets_ordered(ts, s.len() as int) {
            Ok(FileModel { metadata, tensors: with_sizes(ts, s.len() as int) })
        } else {
            Err("tensor offsets out of order"@)
        },
    }
}

/// What stands behind the header, with the value types that `scan_value` knows.
pub open spec fn scan_body(s: Seq<u8>) -> Result<FileModel, Seq<char>> {
    match scan_pairs(s, 24, bytes::u64_le(s, 16) as nat) {
        Scan::Bad(m) => Err(m),
        Scan::Got(metadata, p) => scan_index(s, p, metadata),
    }
}

/// What stands behind the header, with the value types as GGUF numbers them.
pub open spec fn scan_standard_body(s: Seq<u8>) -> Result<FileModel, Seq<char>> {
    match standard::scan_pairs(s, 24, bytes::u64_le(s, 16) as nat, Map::empty()) {
        None => Err(Seq::empty()),
        Some((metadata, p)) => scan_index(s, p, metadata),
    }
}

/// The whole file. Value types are numbered in two ways: a file that cannot be
/// read by the numbers that `scan_value` knows is read by those of GGUF.
pub open spec fn scan_file(s: Seq<u8>) -> Result<FileModel, Seq<char>> {
    if s.len() < 24 {
        Err("file too small for GGUF header"@)
    } else if bytes::u32_le(s, 0) != MAGIC {
        Err("bad magic — not a GGUF file"@)
    } else if bytes::u32_le(s, 4) != 3 {
        Err("unsupported GGUF version "@ + text::decimal(bytes::u32_le(s, 4) as nat))
    } else {
        match scan_body(s) {
            Ok(m) => Ok(m),
            Err(e) => match scan_standard_body(s) {
                Ok(m) => Ok(m),
                Err(_) => Err(e),
            },
        }
    }
}

/// `e` is a parse error with this message.
pub open spec fn is_gguf_error(e: Error, message: Seq<char>) -> bool {
    e matches Error::Gguf(m) && m@ == message
}

fn gguf_error(message: &str) -> (e: Error)
    ensures
        is_gguf_error(e, message@),
{
    Error::Gguf(message.to_owned())
}

/// Once a pair cannot be read, no longer run of pairs can.
proof fn lemma_pairs_stay_bad(s: Seq<u8>, pos: int, k: nat, n: nat)
    requires
        k <= n,
        scan_pairs(s, pos, k) is Bad,
    ensures
        scan_pairs(s, pos, n) == scan_pairs(s, pos, k),
    decreases n,
{
    if k < n {
        lemma_pairs_stay_bad(s, pos, k, (n - 1) as nat);
    }
}

/// Once an entry cannot be read, no longer run of entries can.
proof fn lemma_tensors_stay_bad(s: Seq<u8>, pos: int, k: nat, n: nat)
    requires
        k <= n,
        scan_tensors(s, pos, k) is Bad,
    ensures
        scan_tensors(s, pos, n) == scan_tensors(s, pos, k),
    decreases n,
{
    if k < n {
        lemma_tensors_stay_bad(s, pos, k, (n - 1) as nat);
    }
}

/// The values of a metadata table.
pub open spec fn table_model(m: Map<Seq<char>, GgufValue>) -> Map<Seq<char>, ValueModel> {
    m.map_values(|v: GgufValue| v@)
}

/// The entries of a tensor index.
pub open spec fn index_model(ts: Seq<TensorInfo>) -> Seq<TensorModel> {
    ts.map_values(|t: TensorInfo| t@)
}

/// A parsed file, beside its bytes.
pub struct GgufFile<'a> {
    pub metadata: StringHashMap<GgufValue>,
    pub tensors: Vec<TensorInfo>,
    pub data: &'a [u8],
}

impl<'a> GgufFile<'a> {
    /// Parses the bytes of a file.
    pub fn parse(data: &'a [u8]) -> (r: Result<GgufFile<'a>, Error>)
        ensures
            match (r, scan_file(data@)) {
                (Ok(f), Ok(m)) => Self::is_file(f, data@, m),
                (Err(e), Err(m)) => is_gguf_error(e, m),
                _ => false,
            },
    {
        if data.len() < 24 {
            return Err(gguf_error("file too small for GGUF header"));
        }
        if bytes::get_u32(data, 0) != MAGIC {
            return Err(gguf_error("bad magic — not a GGUF file"));
        }
        let version: u32 = bytes::get_u32(data, 4);
        if version != 3 {
            let mut m: String = "unsupported GGUF version ".to_owned();
            text::push_decimal(&mut m, version as u64);
            return Err(Error::Gguf(m));
        }
        match Self::read_body(data) {
            Ok(f) => Ok(f),
            Err(e) => match Self::read_standard_body(data) {
                Some(f) => Ok(f),
                None => Err(e),
            },
        }
    }

    /// `f` is the file with these bytes that `m` describes.
    pub open spec fn is_file(f: Self, data: Seq<u8>, m: FileModel) -> bool {
        &&& f.data@ == data
        &&& table_model(f.metadata@) == m.metadata
        &&& index_model(f.tensors@) == m.tensors
    }

    fn read_body(data: &'a [u8]) -> (r: Result<GgufFile<'a>, Error>)
        requires
            data@.len() >= 24,
        ensures
            match (r, scan_body(data@)) {
                (Ok(f), Ok(m)) => Self::is_file(f, data@, m),
                (Err(e), Err(m)) => is_gguf_error(e, m),
                _ => false,
            },
    {
        match Self::read_pairs(data, 24, bytes::get_u64(data, 16)) {
            Ok((metadata, after)) => Self::read_index(data, after, metadata),
            Err(e) => Err(e),
        }
    }

    fn read_standard_body(data: &'a [u8]) -> (r: Option<GgufFile<'a>>)
        requires
            data@.len() >= 24,
        ensures
            match (r, scan_standard_body(data@)) {
                (Some(f), Ok(m)) => Self::is_file(f, data@, m),
                (None, Err(_)) => true,
                _ => false,
            },
    {
        match standard::read_pairs(data, 24, bytes::get_u64(data, 16)) {
            Some((metadata, after)) => match Self::read_index(data, after, metadata) {
                Ok(f) => Some(f),
                Err(_) => None,
            },
            None => None,
        }
    }

    fn read_index(data: &'a [u8], pos: usize, metadata: StringHashMap<GgufValue>) -> (r: Result<
        GgufFile<'a>,
        Error,
    >)
        requires
            24 <= data@.len(),
            pos <= data@.len(),
        ensures
            match (r, scan_index(data@, pos as int, table_model(metadata@))) {
                (Ok(f), Ok(m)) => Self::is_file(f, data@, m),
                (Err(e), Err(m)) => is_gguf_error(e, m),
                _ => false,
            },
    {
        let mut tensors: Vec<TensorInfo> = match Self::read_tensors(
            data,
            pos,
            bytes::get_u64(data, 8),
        ) {
            Ok(r) => r,
            Err(e) => {
                return Err(e);
            },
        };
        if !Self::set_sizes(&mut tensors, data.len()) {
            return Err(gguf_error("tensor offsets out of order"));
        }
        Ok(GgufFile { metadata, tensors, data })
    }

    fn read_pairs(data: &[u8], start: usize, n: u64) -> (r: Result<
        (StringHashMap<GgufValue>, usize),
        Error,
    >)
        requires
            start <= data@.len(),
        ensures
            match (r, scan_pairs(data@, start as int, n as nat)) {
                (Ok(v), Scan::Got(m, q)) => table_model(v.0@) == m && v.1 == q && q <= data@.len(),
                (Err(e), Scan::Bad(m)) => is_gguf_error(e, m),
                _ => false,
            },
    {
        let mut metadata: StringHashMap<GgufValue> = StringHashMap::new();
        let mut pos: usize = start;
        let mut i: u64 = 0;
        assert(table_model(metadata@) =~= Map::empty());
        while i < n
            invariant
                i <= n,
                pos <= data@.len(),
                scan_pairs(data@, start as int, i as nat) == Scan::Got(
                    table_model(metadata@),
                    pos as int,
                ),
            decreases n - i,
        {
            proof {
                if scan_pairs(data@, start as int, (i + 1) as nat) is Bad {
                    lemma_pairs_stay_bad(data@, start as int, (i + 1) as nat, n as nat);
                }
            }
            let (key, value_at) = match Self::read_string(data, pos) {
                Ok(r) => r,
                Err(e) => {
                    return Err(e);
                },
            };
            if data.len() - value_at < 4 {
                return Err(gguf_error("truncated GGUF: value type out of bounds"));
            }
            let value_type: u32 = bytes::get_u32(data, value_at);
            let (value, next) = match Self::read_value(data, value_at + 4, value_type) {
                Ok(r) => r,
                Err(e) => {
                    return Err(e);
                },
            };
            let ghost before = metadata@;
            metadata.insert(key, value);
            assert(table_model(metadata@) =~= table_model(before).insert(key@, value@));
            pos = next;
            i = i + 1;
        }
        Ok((metadata, pos))
    }

    fn read_tensors(data: &[u8], start: usize, n: u64) -> (r: Result<Vec<TensorInfo>, Error>)
        requires
            start <= data@.len(),
        ensures
            match (r, scan_tensors(data@, start as int, n as nat)) {
                (Ok(v), Scan::Got(ts, _)) => index_model(v@) == ts,
                (Err(e), Scan::Bad(m)) => is_gguf_error(e, m),
                _ => false,
            },
    {
        let mut tensors: Vec<TensorInfo> = Vec::new();
        let mut pos: usize = start;
        let mut i: u64 = 0;
        assert(index_model(tensors@) =~= Seq::empty());
        while i < n
            invariant
                i <= n,
                pos <= data@.len(),
                scan_tensors(data@, start as int, i as nat) == Scan::Got(
                    index_model(tensors@),
                    pos as int,
                ),
            decreases n - i,
        {
            proof {
                if scan_tensors(data@, start as int, (i + 1) as nat) is Bad {
                    lemma_tensors_stay_bad(data@, start as int, (i + 1) as nat, n as nat);
                }
            }
            let (t, next) = match Self::read_tensor(data, pos) {
                Ok(r) => r,
                Err(e) => {
                    return Err(e);
                },
            };
            let ghost before = tensors@;
            tensors.push(t);
            assert(index_model(tensors@) =~= index_model(before).push(t@));
            pos = next;
            i = i + 1;
        }
        Ok(tensors)
    }

    fn read_tensor(data: &[u8], pos: usize) -> (r: Result<(TensorInfo, usize), Error>)
        requires
            pos <= data@.len(),
        ensures
            match (r, scan_tensor(data@, pos as int)) {
                (Ok(v), Scan::Got(t, q)) => v.0@ == t && v.1 == q && q <= data@.len(),
                (Err(e), Scan::Bad(m)) => is_gguf_error(e, m),
                _ => false,
            },
    {
        let (name, p) = match Self::read_string(data, pos) {
            Ok(r) => r,
            Err(e) => {
                return Err(e);
            },
        };
        if data.len() - p < 4 {
            return Err(gguf_error("truncated GGUF: tensor info out of bounds"));
        }
        let n_dims: u32 = bytes::get_u32(data, p);
        let mut shape: Vec<u64> = Vec::new();
        let mut n_elements: u64 = 1;
        let mut at: usize = p + 4;
        let mut i: u32 = 0;
        while i < n_dims
            invariant
                i <= n_dims,
                p + 4 <= data@.len() <= usize::MAX,
                at == p + 4 + 8 * i,
                at <= data@.len(),
                shape@ == Seq::new(i as nat, |j: int| bytes::u64_le(data@, p + 4 + 8 * j)),
                n_elements == element_count(shape@),
                scan_string(data@, pos as int) == Scan::Got(name@, p as int),
                n_dims == bytes::u32_le(data@, p as int),
            decreases n_dims - i,
        {
            if data.len() - at < 8 {
                return Err(gguf_error("truncated GGUF: tensor info out of bounds"));
            }
            let d: u64 = bytes::get_u64(data, at);
            let ghost before = shape@;
            shape.push(d);
            assert(shape@.drop_last() =~= before);
            n_elements = saturating_product(n_elements, d);
            at = at + 8;
            i = i + 1;
            assert(shape@ =~= Seq::new(i as nat, |j: int| bytes::u64_le(data@, p + 4 + 8 * j)));
        }
        if data.len() - at < 12 {
            return Err(gguf_error("truncated GGUF: tensor info out of bounds"));
        }
        let dtype: GgufDtype = GgufDtype::from_raw(bytes::get_u32(data, at));
        let offset: u64 = bytes::get_u64(data, at + 4);
        Ok((TensorInfo { name, shape, dtype, offset, n_elements, size_bytes: 0 }, at + 12))
    }

    /// Sets every size, and says whether the offsets are in order; if they are
    /// not, the sizes mean nothing.
    fn set_sizes(tensors: &mut Vec<TensorInfo>, file_len: usize) -> (ok: bool)
        ensures
            ok == offsets_ordered(index_model(old(tensors)@), file_len as int),
            ok ==> index_model(final(tensors)@) == with_sizes(
                index_model(old(tensors)@),
                file_len as int,
            ),
    {
        let ghost first = index_model(tensors@);
        let mut i: usize = 0;
        while i < tensors.len()
            invariant
                i <= tensors@.len(),
                first == index_model(old(tensors)@),
                tensors@.len() == first.len(),
                forall|j: int|
                    0 <= j < i ==> first[j].offset <= #[trigger] next_start(
                        first,
                        file_len as int,
                        j,
                    ),
                forall|j: int|
                    0 <= j < i ==> (#[trigger] tensors@[j])@ == with_sizes(
                        first,
                        file_len as int,
                    )[j],
                forall|j: int| i <= j < tensors@.len() ==> (#[trigger] tensors@[j])@ == first[j],
            decreases tensors.len() - i,
        {
            assert(tensors@[i as int]@ == first[i as int]);
            let this: u64 = tensors[i].offset;
            let next: u64 = if i + 1 < tensors.len() {
                assert(tensors@[i + 1]@ == first[i + 1]);
                tensors[i + 1].offset
            } else {
                file_len as u64
            };
            assert(next == next_start(first, file_len as int, i as int));
            if next < this {
                assert(first[i as int].offset > next_start(first, file_len as int, i as int));
                return false;
            }
            tensors[i].size_bytes = next - this;
            i = i + 1;
        }
        assert(index_model(tensors@) =~= with_sizes(first, file_len as int));
        true
    }

    pub(crate) fn read_string(data: &[u8], pos: usize) -> (r: Result<(String, usize), Error>)
        ensures
            match (r, scan_string(data@, pos as int)) {
                (Ok(v), Scan::Got(t, q)) => v.0@ == t && v.1 == q && q <= data@.len(),
                (Err(e), Scan::Bad(m)) => is_gguf_error(e, m),
                _ => false,
            },
    {
        let end: usize = match pos.checked_add(8) {
            Some(end) => end,
            None => {
                return Err(gguf_error("string length prefix position overflow"));
            },
        };
        if end > data.len() {
            return Err(gguf_error("truncated GGUF: string length prefix out of bounds"));
        }
        let len: u64 = bytes::get_u64(data, pos);
        if len > usize::MAX as u64 {
            return Err(gguf_error("string data length overflow"));
        }
        let str_end: usize = match end.checked_add(len as usize) {
            Some(str_end) => str_end,
            None => {
                return Err(gguf_error("string data length overflow"));
            },
        };
        if str_end > data.len() {
            return Err(gguf_error("truncated GGUF: string data out of bounds"));
        }
        let s: String = text::decode_lossy(vstd::slice::slice_subrange(data, end, str_end));
        Ok((s, str_end))
    }

    fn read_value(data: &[u8], pos: usize, val_type: u32) -> (r: Result<(GgufValue, usize), Error>)
        ensures
            match (r, scan_value(data@, pos as int, val_type)) {
                (Ok(v), Scan::Got(m, q)) => v.0@ == m && v.1 == q && q <= data@.len(),
                (Err(e), Scan::Bad(m)) => is_gguf_error(e, m),
                _ => false,
            },
    {
        let left: usize = if pos <= data.len() {
            data.len() - pos
        } else {
            0
        };
        match val_type {
            1 => {
                if left < 1 {
                    return Err(gguf_error("truncated GGUF: U8 value out of bounds"));
                }
                Ok((GgufValue::U8(data[pos]), pos + 1))
            },
            4 => {
                if left < 4 {
                    return Err(gguf_error("truncated GGUF: U32 value out of bounds"));
                }
                Ok((GgufValue::U32(bytes::get_u32(data, pos)), pos + 4))
            },
            5 => {
                if left < 8 {
                    return Err(gguf_error("truncated GGUF: U64 value out of bounds"));
                }
                Ok((GgufValue::U64(bytes::get_u64(data, pos)), pos + 8))
            },
            7 => {
                if left < 4 {
                    return Err(gguf_error("truncated GGUF: I32 value out of bounds"));
                }
                Ok((GgufValue::I32(bytes::get_u32(data, pos) as i32), pos + 4))
            },
            8 => {
                if left < 8 {
                    return Err(gguf_error("truncated GGUF: I64 value out of bounds"));
                }
                Ok((GgufValue::I64(bytes::get_u64(data, pos) as i64), pos + 8))
            },
            22 => {
                if left < 4 {
                    return Err(gguf_error("truncated GGUF: F32 value out of bounds"));
                }
                Ok((GgufValue::F32(bytes::get_u32(data, pos)), pos + 4))
            },
            23 => {
                if left < 8 {
                    return Err(gguf_error("truncated GGUF: F64 value out of bounds"));
                }
                Ok((GgufValue::F64(bytes::get_u64(data, pos)), pos + 8))
            },
            26 => {
                if left < 1 {
                    return Err(gguf_error("truncated GGUF: Bool value out of bounds"));
                }
                Ok((GgufValue::Bool(data[pos] != 0), pos + 1))
            },
            13 => {
                if left < 4 {
                    return Err(gguf_error("truncated GGUF: array length out of bounds"));
                }
                let len: u32 = bytes::get_u32(data, pos);
                let mut arr: Vec<u32> = Vec::new();
                let mut at: usize = pos + 4;
                let mut i: u32 = 0;
                while i < len
                    invariant
                        i <= len,
                        pos + 4 <= data@.len() <= usize::MAX,
                        at == pos + 4 + 4 * i,
                        at <= data@.len(),
                        len == bytes::u32_le(data@, pos as int),
                        val_type == 13,
                        arr@ == Seq::new(i as nat, |j: int| bytes::u32_le(data@, pos + 4 + 4 * j)),
                    decreases len - i,
                {
                    if data.len() - at < 4 {
                        return Err(gguf_error("truncated GGUF: array element out of bounds"));
                    }
                    arr.push(bytes::get_u32(data, at));
                    at = at + 4;
                    i = i + 1;
                    assert(arr@ =~= Seq::new(
                        i as nat,
                        |j: int| bytes::u32_le(data@, pos + 4 + 4 * j),
                    ));
                }
                Ok((GgufValue::ArrayU32(arr), at))
            },
            _ => {
                let mut m: String = "unknown value type ".to_owned();
                text::push_decimal(&mut m, val_type as u64);
                Err(Error::Gguf(m))
            },
        }
    }
}

/// The product, or the largest number where it is larger.
fn saturating_product(a: u64, b: u64) -> (r: u64)
    ensures
        r == if a * b > u64::MAX {
            u64::MAX as int
        } else {
            a * b
        },
{
    match a.checked_mul(b) {
        Some(p) => p,
        None => u64::MAX,
    }
}

/// Dimensions and parameters of the model.
pub struct ModelConfig {
    pub n_layers: u32,
    pub hidden_dim: u32,
    pub n_heads_q: u32,
    pub n_heads_kv: u32,
    pub head_dim: u32,
    pub ffn_intermediate: u32,
    pub n_experts: u32,
    pub n_active_experts: u32,
    pub n_shared_experts: u32,
    pub vocab_size: u32,
    pub max_seq_len: u32,
    /// Bit pattern of the RoPE base.
    pub rope_theta_bits: u32,
    pub rope_type: String,
    pub n_mtp_modules: u32,
    pub mtp_depth: u32,
    /// Bit pattern of the norm's epsilon.
    pub eps_bits: u32,
}

/// One million as a 32-bit float.
pub const DEFAULT_ROPE_THETA_BITS: u32 = 0x4974_2400;

/// One millionth as a 32-bit float.
pub const DEFAULT_EPS_BITS: u32 = 0x3586_37bd;

/// The number under `key`, if there is one of this type.
pub open spec fn u32_under(m: Map<Seq<char>, ValueModel>, key: Seq<char>) -> Option<u32> {
    if m.contains_key(key) && m[key] is U32 {
        Some(m[key]->U32_0)
    } else {
        None
    }
}

/// The bit pattern under `key`, if there is one of this type.
pub open spec fn f32_under(m: Map<Seq<char>, ValueModel>, key: Seq<char>) -> Option<u32> {
    if m.contains_key(key) && m[key] is F32 {
        Some(m[key]->F32_0)
    } else {
        None
    }
}

/// The text under `key`, if there is one.
pub open spec fn text_under(m: Map<Seq<char>, ValueModel>, key: Seq<char>) -> Option<Seq<char>> {
    if m.contains_key(key) && m[key] is Text {
        Some(m[key]->Text_0)
    } else {
        None
    }
}

pub open spec fn or_else<T>(v: Option<T>, default: T) -> T {
    match v {
        Some(x) => x,
        None => default,
    }
}

pub open spec fn missing(key: Seq<char>) -> Option<Seq<char>> {
    Some("missing or wrong type: "@ + key)
}

/// Why there is no configuration in the metadata, if there is none.
pub open spec fn config_fault(m: Map<Seq<char>, ValueModel>) -> Option<Seq<char>> {
    if u32_under(m, "qwen3.attention.head_count"@) is None {
        missing("qwen3.attention.head_count"@)
    } else if u32_under(m, "qwen3.attention.head_count_kv"@) is None {
        missing("qwen3.attention.head_count_kv"@)
    } else if u32_under(m, "qwen3.embedding_length"@) is None {
        missing("qwen3.embedding_length"@)
    } else if u32_under(m, "qwen3.attention.head_count"@) == Some(0u32) {
        Some("qwen3.attention.head_count is zero"@)
    } else if u32_under(m, "qwen3.block_count"@) is None {
        missing("qwen3.block_count"@)
    } else if u32_under(m, "qwen3.feed_forward_length"@) is None {
        missing("qwen3.feed_forward_length"@)
    } else if u32_under(m, "qwen3.vocab_size"@) is None {
        missing("qwen3.vocab_size"@)
    } else {
        None
    }
}

/// `c` is the configuration that the metadata describe.
pub open spec fn describes(m: Map<Seq<char>, ValueModel>, c: ModelConfig) -> bool {
    &&& u32_under(m, "qwen3.block_count"@) == Some(c.n_layers)
    &&& u32_under(m, "qwen3.embedding_length"@) == Some(c.hidden_dim)
    &&& u32_under(m, "qwen3.attention.head_count"@) == Some(c.n_heads_q)
    &&& u32_under(m, "qwen3.attention.head_count_kv"@) == Some(c.n_heads_kv)
    &&& c.head_dim == c.hidden_dim / c.n_heads_q
    &&& u32_under(m, "qwen3.feed_forward_length"@) == Some(c.ffn_intermediate)
    &&& c.n_experts == or_else(u32_under(m, "qwen3.expert_count"@), 1u32)
    &&& c.n_active_experts == or_else(u32_under(m, "qwen3.expert_used_count"@), 1u32)
    &&& c.n_shared_experts == or_else(u32_under(m, "qwen3.expert_shared_count"@), 0u32)
    &&& u32_under(m, "qwen3.vocab_size"@) == Some(c.vocab_size)
    &&& c.max_seq_len == or_else(u32_under(m, "qwen3.context_length"@), 32768u32)
    &&& c.rope_theta_bits == or_else(
        f32_under(m, "qwen3.rope.freq_base"@),
        DEFAULT_ROPE_THETA_BITS,
    )
    &&& c.rope_type@ == or_else(text_under(m, "qwen3.rope.type"@), "default"@)
    &&& c.n_mtp_modules == or_else(u32_under(m, "qwen3.mtp.module_count"@), 0u32)
    &&& c.mtp_depth == or_else(u32_under(m, "qwen3.mtp.depth"@), 0u32)
    &&& c.eps_bits == or_else(
        f32_under(m, "qwen3.attention.layer_norm_rms_epsilon"@),
        DEFAULT_EPS_BITS,
    )
}

/// `e` says that the metadata do not fit the architecture, with this message.
pub open spec fn is_architecture_error(e: Error, message: Seq<char>) -> bool {
    e matches Error::Architecture(m) && m@ == message
}

impl<'a> GgufFile<'a> {
    fn get_u32(&self, key: &str) -> (r: Option<u32>)
        ensures
            r == u32_under(table_model(self.metadata@), key@),
    {
        match self.metadata.get(key) {
            Some(GgufValue::U32(v)) => Some(*v),
            _ => None,
        }
    }

    fn get_f32(&self, key: &str) -> (r: Option<u32>)
        ensures
            r == f32_under(table_model(self.metadata@), key@),
    {
        match self.metadata.get(key) {
            Some(GgufValue::F32(v)) => Some(*v),
            _ => None,
        }
    }

    fn require_u32(&self, key: &str) -> (r: Result<u32, Error>)
        ensures
            match r {
                Ok(v) => u32_under(table_model(self.metadata@), key@) == Some(v),
                Err(e) => u32_under(table_model(self.metadata@), key@) is None
                    && is_architecture_error(e, missing(key@)->0),
            },
    {
        match self.get_u32(key) {
            Some(v) => Ok(v),
            None => {
                let mut m: String = "missing or wrong type: ".to_owned();
                m.append(key);
                Err(Error::Architecture(m))
            },
        }
    }

    fn u32_or(&self, key: &str, default: u32) -> (r: u32)
        ensures
            r == or_else(u32_under(table_model(self.metadata@), key@), default),
    {
        match self.get_u32(key) {
            Some(v) => v,
            None => default,
        }
    }

    fn f32_or(&self, key: &str, default: u32) -> (r: u32)
        ensures
            r == or_else(f32_under(table_model(self.metadata@), key@), default),
    {
        match self.get_f32(key) {
            Some(v) => v,
            None => default,
        }
    }

    fn text_or(&self, key: &str, default: &str) -> (r: String)
        ensures
            r@ == or_else(text_under(table_model(self.metadata@), key@), default@),
    {
        match self.metadata.get(key) {
            Some(GgufValue::String(v)) => v.clone(),
            _ => default.to_owned(),
        }
    }

    /// The model's configuration, from the metadata.
    pub fn model_config(&self) -> (r: Result<ModelConfig, Error>)
        ensures
            match (r, config_fault(table_model(self.metadata@))) {
                (Ok(c), None) => describes(table_model(self.metadata@), c),
                (Err(e), Some(m)) => is_architecture_error(e, m),
                _ => false,
            },
    {
        let n_heads_q: u32 = match self.require_u32("qwen3.attention.head_count") {
            Ok(v) => v,
            Err(e) => {
                return Err(e);
            },
        };
        let n_heads_kv: u32 = match self.require_u32("qwen3.attention.head_count_kv") {
            Ok(v) => v,
            Err(e) => {
                return Err(e);
            },
        };
        let hidden_dim: u32 = match self.require_u32("qwen3.embedding_length") {
            Ok(v) => v,
            Err(e) => {
                return Err(e);
            },
        };
        if n_heads_q == 0 {
            return Err(Error::Architecture("qwen3.attention.head_count is zero".to_owned()));
        }
        let head_dim: u32 = hidden_dim / n_heads_q;
        let n_layers: u32 = match self.require_u32("qwen3.block_count") {
            Ok(v) => v,
            Err(e) => {
                return Err(e);
            },
        };
        let ffn_intermediate: u32 = match self.require_u32("qwen3.feed_forward_length") {
            Ok(v) => v,
            Err(e) => {
                return Err(e);
            },
        };
        let vocab_size: u32 = match self.require_u32("qwen3.vocab_size") {
            Ok(v) => v,
            Err(e) => {
                return Err(e);
            },
        };
        Ok(
            ModelConfig {
                n_layers,
                hidden_dim,
                n_heads_q,
                n_heads_kv,
                head_dim,
                ffn_intermediate,
                n_experts: self.u32_or("qwen3.expert_count", 1),
                n_active_experts: self.u32_or("qwen3.expert_used_count", 1),
                n_shared_experts: self.u32_or("qwen3.expert_shared_count", 0),
                vocab_size,
                max_seq_len: self.u32_or("qwen3.context_length", 32768),
                rope_theta_bits: self.f32_or("qwen3.rope.freq_base", DEFAULT_ROPE_THETA_BITS),
                rope_type: self.text_or("qwen3.rope.type", "default"),
                n_mtp_modules: self.u32_or("qwen3.mtp.module_count", 0),
                mtp_depth: self.u32_or("qwen3.mtp.depth", 0),
                eps_bits: self.f32_or(
                    "qwen3.attention.layer_norm_rms_epsilon",
                    DEFAULT_EPS_BITS,
                ),
            },
        )
    }

    /// The first tensor with this name.
    pub fn find_tensor(&self, name: &str) -> (r: Option<&TensorInfo>)
        ensures
            match r {
                Some(t) => exists|i: int|
                    {
                        &&& 0 <= i < self.tensors@.len()
                        &&& #[trigger] self.tensors@[i] == *t
                        &&& t.name@ == name@
                        &&& forall|j: int|
                            0 <= j < i ==> (#[trigger] self.tensors@[j]).name@ != name@
                    },
                None => forall|i: int|
                    0 <= i < self.tensors@.len() ==> (#[trigger] self.tensors@[i]).name@ != name@,
            },
    {
        let mut i: usize = 0;
        while i < self.tensors.len()
            invariant
                i <= self.tensors@.len(),
                forall|j: int| 0 <= j < i ==> (#[trigger] self.tensors@[j]).name@ != name@,
            decreases self.tensors.len() - i,
        {
            if text::same_text(self.tensors[i].name.as_str(), name) {
                assert(self.tensors@[i as int].name@ == name@);
                return Some(&self.tensors[i]);
            }
            i = i + 1;
        }
        None
    }

    /// The bytes of a tensor.
    pub fn tensor_data(&self, tensor: &TensorInfo) -> (r: &'a [u8])
        requires
            tensor.offset + tensor.size_bytes <= self.data@.len(),
        ensures
            r@ == self.data@.subrange(
                tensor.offset as int,
                tensor.offset + tensor.size_bytes,
            ),
    {
        let data: &'a [u8] = self.data;
        assert(data.len() == data@.len());
        let start: usize = tensor.offset as usize;
        vstd::slice::slice_subrange(data, start, start + tensor.size_bytes as usize)
    }
}

/// Ordered offsets do not pass the file's end.
proof fn lemma_offset_within(ts: Seq<TensorModel>, file_len: int, i: int)
    requires
        offsets_ordered(ts, file_len),
        0 <= i < ts.len(),
    ensures
        ts[i].offset <= next_start(ts, file_len, i) <= file_len,
    decreases ts.len() - i,
{
    if i + 1 < ts.len() {
        lemma_offset_within(ts, file_len, i + 1);
    }
}

/// The tensors that `scan_file` finds, before they have sizes.
proof fn lemma_file_tensors(s: Seq<u8>) -> (ts: Seq<TensorModel>)
    requires
        scan_file(s) is Ok,
    ensures
        offsets_ordered(ts, s.len() as int),
        scan_file(s)->Ok_0.tensors == with_sizes(ts, s.len() as int),
{
    let n: nat = bytes::u64_le(s, 16) as nat;
    let p: int = if scan_body(s) is Ok {
        scan_pairs(s, 24, n)->Got_1
    } else {
        match standard::scan_pairs(s, 24, n, Map::empty()) {
            Some((_, q)) => q,
            None => 0,
        }
    };
    scan_tensors(s, p, bytes::u64_le(s, 8) as nat)->Got_0
}

/// The bytes of the tensors of a parsed file lie in the file, one after the
/// other in the order of the index, each ending where the next one starts and
/// the last one at the file's end.
pub proof fn law_tensors_tile_the_file(s: Seq<u8>, i: int)
    requires
        scan_file(s) is Ok,
        s.len() <= u64::MAX,
        0 <= i < scan_file(s)->Ok_0.tensors.len(),
    ensures
        ({
            let ts = scan_file(s)->Ok_0.tensors;
            &&& ts[i].offset + ts[i].size_bytes <= s.len()
            &&& i + 1 < ts.len() ==> ts[i].offset + ts[i].size_bytes == ts[i + 1].offset
            &&& i + 1 == ts.len() ==> ts[i].offset + ts[i].size_bytes == s.len()
        }),
{
    let ts = lemma_file_tensors(s);
    lemma_offset_within(ts, s.len() as int, i);
    let out = with_sizes(ts, s.len() as int);
    assert(out[i].size_bytes == next_start(ts, s.len() as int, i) - ts[i].offset);
    if i + 1 < ts.len() {
        assert(out[i + 1].offset == ts[i + 1].offset);
    }
}

/// A number has four bytes or two; a block of 32 has half a byte for each and a
/// scale of two bytes, a byte for each and such a scale, or half a byte for each
/// and a scale of one. What is not known counts bytes.
pub proof fn law_units_have_their_bytes(t: GgufDtype)
    ensures
        t is F32 ==> 8 * t.unit_bytes() == 32,
        t is F16 ==> 8 * t.unit_bytes() == 16,
        t is Q4_0 ==> 8 * t.unit_bytes() == 32 * 4 + 16,
        t is Q8_0 ==> 8 * t.unit_bytes() == 32 * 8 + 16,
        t is IQ4_XS ==> 8 * t.unit_bytes() == 32 * 4 + 8,
        t is Unknown ==> t.unit_bytes() == 1,
{
}

} // verus!
