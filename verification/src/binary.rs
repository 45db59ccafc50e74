//! Binary FBX file format parser.
//!
//! A binary FBX file is a 27-byte header (the magic text, an endianness flag
//! and the format version) followed by a tree of nodes. Each node has a header
//! (end offset, property count, property byte length and name length; 32-bit
//! fields before version 7500 and 64-bit fields from it on), a name, its
//! properties, and its children up to the end offset. A node header of zeros
//! ends a list of nodes.
//!
//! Properties are a type code followed by data: `C`, `B`, `Z` one byte, `Y` an
//! `i16`, `I` an `i32`, `L` an `i64`, `F` an `f32`, `D` an `f64`, `S` and `R`
//! a 32-bit length and that many bytes of text. The codes `b`, `c`, `i`, `l`,
//! `f`, `d` introduce arrays: element count, encoding (0 raw, 1 zlib) and byte
//! length of the stored data, then the data.
//!
//! The module states the format as spec functions over the bytes of a file
//! (`header_at`, `node_at`, ...) and proves that the parser computes exactly
//! what they describe.
use vstd::prelude::*;
use vstd::slice::slice_subrange;
use vstd::utf8::{decode_utf8, valid_utf8};
use flate2::read::ZlibDecoder;
use std::io::Read;
use crate::error::Error;
use crate::float_bits::{f32_bits_to_i64, f32_to_i64, f64_bits_to_i64, f64_to_i64};
use crate::text::{decimal, push_char, push_decimal, push_str, string_of};
use crate::strings::str_equal;
use crate::types::FbxString;
use crate::wire::{read_u16_at, read_u32_at, read_u64_at, u16_in, u32_in, u64_in};

verus! {

/// Size of the magic text at the start of a binary file.
const BINARY_MAGIC_SIZE: usize = 22;

/// Size of the file header: magic text, endianness flag and version.
const BINARY_HEADER_SIZE: usize = 27;

/// First format version with 64-bit node header fields.
pub const FBX_VERSION_7500: u32 = 7500;

/// Size of a node header with 32-bit fields.
const NODE_HEADER_SIZE_32: usize = 13;

/// Size of a node header with 64-bit fields.
const NODE_HEADER_SIZE_64: usize = 25;

/// Depth at which nodes are refused.
pub const MAX_NODE_DEPTH: u32 = 128;

/// Number of non-array values kept per node; later ones are read and dropped.
pub const MAX_NON_ARRAY_VALUES: usize = 16;

// ---------------------------------------------------------------------------
// Data
// ---------------------------------------------------------------------------

/// Kind of a property value.
#[derive(Debug, Clone, Copy, PartialEq, Eq, Structural)]
pub enum ValueType {
    Empty,
    Number,
    String,
    Array,
}

/// The number a numeric property was stored as: an integer, or the bits of a
/// 32-bit or 64-bit IEEE-754 float.
#[derive(Debug, Clone, Copy, PartialEq, Eq, Structural)]
pub enum StoredNumber {
    Integer(i64),
    Single(u32),
    Double(u64),
}

/// A single property value. The parser gives `Number` (with its integer
/// reading `i` and the number as stored `f`) and `String`; the typed variants
/// are for building documents to write.
#[derive(Debug, Clone)]
pub enum Value {
    Number { i: i64, f: StoredNumber },
    String(FbxString),
    Bool(bool),
    Int16(i16),
    Int32(i32),
    Int64(i64),
    /// Bits of a 32-bit float.
    Float32(u32),
    /// Bits of a 64-bit float.
    Float64(u64),
}

/// Mathematical view of a [`Value`].
pub enum ValueModel {
    Number { i: i64, f: StoredNumber },
    Str(Seq<char>),
    Bool(bool),
    Int16(i16),
    Int32(i32),
    Int64(i64),
    Float32(u32),
    Float64(u64),
}

impl View for Value {
    type V = ValueModel;

    open spec fn view(&self) -> ValueModel {
        match self {
            Value::Number { i, f } => ValueModel::Number { i: *i, f: *f },
            Value::String(s) => ValueModel::Str(s.data@),
            Value::Bool(b) => ValueModel::Bool(*b),
            Value::Int16(v) => ValueModel::Int16(*v),
            Value::Int32(v) => ValueModel::Int32(*v),
            Value::Int64(v) => ValueModel::Int64(*v),
            Value::Float32(v) => ValueModel::Float32(*v),
            Value::Float64(v) => ValueModel::Float64(*v),
        }
    }
}

impl Value {
    /// The integer reading of a number.
    pub fn as_i64(&self) -> (r: Option<i64>)
        ensures
            r == (match self@ {
                ValueModel::Number { i, .. } => Some(i),
                _ => None::<i64>,
            }),
    {
        match self {
            Value::Number { i, .. } => Some(*i),
            _ => None,
        }
    }

    /// The number as it was stored.
    pub fn as_stored(&self) -> (r: Option<StoredNumber>)
        ensures
            r == (match self@ {
                ValueModel::Number { f, .. } => Some(f),
                _ => None::<StoredNumber>,
            }),
    {
        match self {
            Value::Number { f, .. } => Some(*f),
            _ => None,
        }
    }

    /// The text of a string value.
    pub fn as_string(&self) -> (r: Option<&str>)
        ensures
            r matches Some(s) ==> self@ == ValueModel::Str(s@),
            r is None ==> !(self@ is Str),
    {
        match self {
            Value::String(s) => Some(s.as_str()),
            _ => None,
        }
    }
}

/// Elements of an array property; floats are held by their bits.
#[derive(Debug, Clone)]
pub enum ArrayData {
    Bool(Vec<bool>),
    I32(Vec<i32>),
    I64(Vec<i64>),
    F32(Vec<u32>),
    F64(Vec<u64>),
    U8(Vec<u8>),
    String(Vec<FbxString>),
}

/// Mathematical view of an [`ArrayData`].
pub enum ArrayModel {
    Bool(Seq<bool>),
    I32(Seq<i32>),
    I64(Seq<i64>),
    F32(Seq<u32>),
    F64(Seq<u64>),
    U8(Seq<u8>),
    String(Seq<Seq<char>>),
}

impl ArrayModel {
    /// Number of elements.
    pub open spec fn len(self) -> nat {
        match self {
            ArrayModel::Bool(v) => v.len(),
            ArrayModel::I32(v) => v.len(),
            ArrayModel::I64(v) => v.len(),
            ArrayModel::F32(v) => v.len(),
            ArrayModel::F64(v) => v.len(),
            ArrayModel::U8(v) => v.len(),
            ArrayModel::String(v) => v.len(),
        }
    }
}

impl View for ArrayData {
    type V = ArrayModel;

    open spec fn view(&self) -> ArrayModel {
        match self {
            ArrayData::Bool(v) => ArrayModel::Bool(v@),
            ArrayData::I32(v) => ArrayModel::I32(v@),
            ArrayData::I64(v) => ArrayModel::I64(v@),
            ArrayData::F32(v) => ArrayModel::F32(v@),
            ArrayData::F64(v) => ArrayModel::F64(v@),
            ArrayData::U8(v) => ArrayModel::U8(v@),
            ArrayData::String(v) => ArrayModel::String(Seq::new(v@.len(), |k: int| v@[k].data@)),
        }
    }
}

impl ArrayData {
    /// Number of elements.
    pub fn len(&self) -> (r: usize)
        ensures
            r == self@.len(),
    {
        match self {
            ArrayData::Bool(v) => v.len(),
            ArrayData::I32(v) => v.len(),
            ArrayData::I64(v) => v.len(),
            ArrayData::F32(v) => v.len(),
            ArrayData::F64(v) => v.len(),
            ArrayData::U8(v) => v.len(),
            ArrayData::String(v) => v.len(),
        }
    }

    /// Whether the array has no elements.
    pub fn is_empty(&self) -> (r: bool)
        ensures
            r == (self@.len() == 0),
    {
        self.len() == 0
    }
}

/// An array property: its elements and its type code.
#[derive(Debug, Clone)]
pub struct ValueArray {
    pub data: ArrayData,
    pub array_type: char,
}

/// Mathematical view of a [`ValueArray`].
pub struct ValueArrayModel {
    pub data: ArrayModel,
    pub array_type: char,
}

impl View for ValueArray {
    type V = ValueArrayModel;

    open spec fn view(&self) -> ValueArrayModel {
        ValueArrayModel { data: self.data@, array_type: self.array_type }
    }
}

/// A node of the document tree.
#[derive(Debug)]
pub struct FbxNode {
    pub name: String,
    pub values: Vec<Value>,
    pub array: Option<ValueArray>,
    pub children: Vec<FbxNode>,
}

/// Mathematical view of an [`FbxNode`].
pub struct NodeModel {
    pub name: Seq<char>,
    pub values: Seq<ValueModel>,
    pub array: Option<ValueArrayModel>,
    pub children: Seq<NodeModel>,
}

/// Views of a sequence of values.
pub open spec fn values_model(s: Seq<Value>) -> Seq<ValueModel> {
    Seq::new(s.len(), |k: int| s[k]@)
}

/// View of an optional array.
pub open spec fn array_model(a: Option<ValueArray>) -> Option<ValueArrayModel> {
    match a {
        Some(x) => Some(x@),
        None => None,
    }
}

/// View of a node.
pub open spec fn node_model(n: FbxNode) -> NodeModel
    decreases n,
{
    NodeModel {
        name: n.name@,
        values: values_model(n.values@),
        array: array_model(n.array),
        children: nodes_model(n.children@),
    }
}

/// Views of a sequence of nodes.
pub open spec fn nodes_model(s: Seq<FbxNode>) -> Seq<NodeModel>
    decreases s,
{
    if s.len() == 0 {
        Seq::empty()
    } else {
        nodes_model(s.drop_last()).push(node_model(s.last()))
    }
}

impl View for FbxNode {
    type V = NodeModel;

    open spec fn view(&self) -> NodeModel {
        node_model(*self)
    }
}

} // verus!

verus! {

// ---------------------------------------------------------------------------
// The format, as spec functions over the bytes of a file
// ---------------------------------------------------------------------------

/// Why reading a binary file fails.
#[derive(Debug, Clone, Copy, PartialEq, Eq, Structural)]
pub enum Fault {
    /// The data ends before a field that must be read.
    Truncated,
    /// A node at this depth is refused.
    DepthLimit(u32),
    /// A property has this unknown type code.
    UnknownProperty(u8),
    /// An array has this unknown encoding.
    UnknownEncoding(u32),
    /// A node ends at the second offset instead of the first.
    OffsetMismatch(u64, u64),
    /// Compressed array data does not decompress to its elements.
    Inflate,
    /// The data does not start with the magic text.
    BadMagic,
    /// The data is shorter than the magic text.
    NoMagic,
    /// The data ends before the endianness flag.
    NoEndian,
}

/// How the fields of a file are read: their byte order, and whether node
/// headers have 64-bit fields.
#[derive(Debug, Clone, Copy, PartialEq, Eq, Structural)]
pub struct Format {
    pub big_endian: bool,
    pub wide: bool,
}

/// The 22 bytes that start every binary file: `"Kaydara FBX Binary  \0\x1a"`.
pub open spec fn fbx_magic() -> Seq<u8> {
    seq![
        0x4Bu8, 0x61, 0x79, 0x64, 0x61, 0x72, 0x61, 0x20, 0x46, 0x42, 0x58, 0x20,
        0x42, 0x69, 0x6E, 0x61, 0x72, 0x79, 0x20, 0x20, 0x00, 0x1A,
    ]
}

/// The text that lossy UTF-8 decoding makes of `bytes` that are not valid
/// UTF-8: valid sequences are decoded and each invalid one becomes U+FFFD.
pub uninterp spec fn utf8_lossy(bytes: Seq<u8>) -> Seq<char>;

/// What reading `n` bytes from a zlib decoder over `compressed` gives: the
/// first `n` bytes of the decompressed stream, or nothing when the stream is
/// corrupt or holds fewer bytes.
pub uninterp spec fn zlib_prefix(compressed: Seq<u8>, n: nat) -> Option<Seq<u8>>;

/// The text of `bytes` read as UTF-8: decoded when valid, and otherwise with
/// each invalid sequence replaced by U+FFFD.
pub open spec fn text_of(bytes: Seq<u8>) -> Seq<char> {
    if valid_utf8(bytes) {
        decode_utf8(bytes)
    } else {
        utf8_lossy(bytes)
    }
}

/// `String::from_utf8_lossy`, made owned: the text of `bytes` with each
/// invalid UTF-8 sequence replaced by U+FFFD; valid UTF-8 decodes unchanged.
#[verifier::external_body]
pub(crate) fn lossy_text(bytes: &[u8]) -> (r: String)
    ensures
        r@ == (if valid_utf8(bytes@) {
            decode_utf8(bytes@)
        } else {
            utf8_lossy(bytes@)
        }),
{
    String::from_utf8_lossy(bytes).into_owned()
}

/// `flate2::read::ZlibDecoder` over `compressed`, read with `read_exact` into a
/// buffer of `n` bytes: the buffer when the read succeeds, which then holds
/// exactly `n` bytes.
#[verifier::external_body]
fn inflate_exact(compressed: &[u8], n: usize) -> (r: Option<Vec<u8>>)
    ensures
        match r {
            Some(v) => zlib_prefix(compressed@, n as nat) == Some(v@) && v@.len() == n,
            None => zlib_prefix(compressed@, n as nat) is None,
        },
{
    let mut decoder = ZlibDecoder::new(compressed);
    let mut out = vec![0u8; n];
    match decoder.read_exact(&mut out) {
        Ok(()) => Some(out),
        Err(_) => None,
    }
}

/// Whether `c` is the type code of an array property.
pub open spec fn is_array_code(c: u8) -> bool {
    c == 0x62 || c == 0x63 || c == 0x69 || c == 0x6C || c == 0x66 || c == 0x64
}

/// Bytes per element of the array type `c`.
pub open spec fn elem_size(c: u8) -> nat {
    if c == 0x62 || c == 0x63 {
        1
    } else if c == 0x69 || c == 0x66 {
        4
    } else {
        8
    }
}

/// The `n` bytes of `d` at `p`.
pub open spec fn field(d: Seq<u8>, p: int, n: int) -> Seq<u8> {
    d.subrange(p, p + n)
}

/// A numeric value read from an integer.
pub open spec fn int_number(v: i64) -> ValueModel {
    ValueModel::Number { i: v, f: StoredNumber::Integer(v) }
}

/// Whether `c` is the type code of a one-byte or integer property.
pub open spec fn is_integer_code(c: u8) -> bool {
    c == 0x43 || c == 0x42 || c == 0x5A || c == 0x59 || c == 0x49 || c == 0x4C
}

/// The one-byte or integer property with type code `code` whose data starts
/// at `p`, and the position after it.
pub open spec fn integer_at(d: Seq<u8>, p: int, be: bool, code: u8) -> Result<(ValueModel, int), Fault> {
    if code == 0x59 {
        if p + 2 > d.len() {
            Err(Fault::Truncated)
        } else {
            Ok((int_number(u16_in(field(d, p, 2), be) as i16 as i64), p + 2))
        }
    } else if code == 0x49 {
        if p + 4 > d.len() {
            Err(Fault::Truncated)
        } else {
            Ok((int_number(u32_in(field(d, p, 4), be) as i32 as i64), p + 4))
        }
    } else if code == 0x4C {
        if p + 8 > d.len() {
            Err(Fault::Truncated)
        } else {
            Ok((int_number(u64_in(field(d, p, 8), be) as i64), p + 8))
        }
    } else {
        if p + 1 > d.len() {
            Err(Fault::Truncated)
        } else {
            Ok((int_number(d[p] as i64), p + 1))
        }
    }
}

/// The float property with type code `code` (`F` or `D`) whose data starts at
/// `p`, and the position after it.
pub open spec fn float_at(d: Seq<u8>, p: int, be: bool, code: u8) -> Result<(ValueModel, int), Fault> {
    if code == 0x46 {
        if p + 4 > d.len() {
            Err(Fault::Truncated)
        } else {
            let bits = u32_in(field(d, p, 4), be);
            Ok((ValueModel::Number { i: f32_to_i64(bits), f: StoredNumber::Single(bits) }, p + 4))
        }
    } else {
        if p + 8 > d.len() {
            Err(Fault::Truncated)
        } else {
            let bits = u64_in(field(d, p, 8), be);
            Ok((ValueModel::Number { i: f64_to_i64(bits), f: StoredNumber::Double(bits) }, p + 8))
        }
    }
}

/// The string property whose data starts at `p`, and the position after it.
pub open spec fn text_at(d: Seq<u8>, p: int, be: bool) -> Result<(ValueModel, int), Fault> {
    if p + 4 > d.len() {
        Err(Fault::Truncated)
    } else {
        let n = u32_in(field(d, p, 4), be);
        if p + 4 + n > d.len() {
            Err(Fault::Truncated)
        } else {
            Ok((ValueModel::Str(text_of(field(d, p + 4, n as int))), p + 4 + n))
        }
    }
}

/// The scalar property with type code `code` whose data starts at `p`, and
/// the position after it.
#[verifier::opaque]
pub open spec fn scalar_at(d: Seq<u8>, p: int, be: bool, code: u8) -> Result<(ValueModel, int), Fault> {
    if is_integer_code(code) {
        integer_at(d, p, be, code)
    } else if code == 0x46 || code == 0x44 {
        float_at(d, p, be, code)
    } else if code == 0x53 || code == 0x52 {
        text_at(d, p, be)
    } else {
        Err(Fault::UnknownProperty(code))
    }
}

/// The elements of an array of type `code` and `n` elements stored in `raw`.
pub open spec fn decode_array(raw: Seq<u8>, code: u8, n: nat, be: bool) -> ArrayModel {
    if code == 0x62 {
        ArrayModel::Bool(Seq::new(n, |k: int| raw[k] != 0))
    } else if code == 0x63 {
        ArrayModel::U8(raw)
    } else if code == 0x69 {
        ArrayModel::I32(Seq::new(n, |k: int| u32_in(field(raw, 4 * k, 4), be) as i32))
    } else if code == 0x6C {
        ArrayModel::I64(Seq::new(n, |k: int| u64_in(field(raw, 8 * k, 8), be) as i64))
    } else if code == 0x66 {
        ArrayModel::F32(Seq::new(n, |k: int| u32_in(field(raw, 4 * k, 4), be)))
    } else {
        ArrayModel::F64(Seq::new(n, |k: int| u64_in(field(raw, 8 * k, 8), be)))
    }
}

/// The array property of type `code` whose header starts at `p`, and the
/// position after it.
#[verifier::opaque]
pub open spec fn array_at(d: Seq<u8>, p: int, be: bool, code: u8) -> Result<(ValueArrayModel, int), Fault> {
    if p + 12 > d.len() {
        Err(Fault::Truncated)
    } else {
        let n = u32_in(field(d, p, 4), be) as nat;
        let enc = u32_in(field(d, p + 4, 4), be);
        let clen = u32_in(field(d, p + 8, 4), be) as int;
        let q = p + 12;
        let size = elem_size(code) * n;
        if enc == 0 {
            if q + size > d.len() {
                Err(Fault::Truncated)
            } else {
                Ok((
                    ValueArrayModel {
                        data: decode_array(field(d, q, size as int), code, n, be),
                        array_type: code as char,
                    },
                    q + size,
                ))
            }
        } else if enc == 1 {
            // Decompressed data larger than the address space cannot be held.
            if q + clen > d.len() {
                Err(Fault::Truncated)
            } else if size > usize::MAX {
                Err(Fault::Inflate)
            } else {
                match zlib_prefix(field(d, q, clen), size) {
                    None => Err(Fault::Inflate),
                    Some(raw) => Ok((
                        ValueArrayModel { data: decode_array(raw, code, n, be), array_type: code as char },
                        q + clen,
                    )),
                }
            }
        } else {
            Err(Fault::UnknownEncoding(enc))
        }
    }
}

/// A single property read on its own, starting at its type code at `p`:
/// scalars give their value, arrays are skipped and give nothing.
pub open spec fn property_at(d: Seq<u8>, p: int, be: bool) -> Result<(Option<ValueModel>, int), Fault> {
    if p + 1 > d.len() {
        Err(Fault::Truncated)
    } else {
        let code = d[p];
        if is_array_code(code) {
            if p + 13 > d.len() {
                Err(Fault::Truncated)
            } else {
                let clen = u32_in(field(d, p + 9, 4), be) as int;
                if p + 13 + clen > d.len() {
                    Err(Fault::Truncated)
                } else {
                    Ok((None, p + 13 + clen))
                }
            }
        } else {
            match scalar_at(d, p + 1, be, code) {
                Ok((v, q)) => Ok((Some(v), q)),
                Err(f) => Err(f),
            }
        }
    }
}

/// The values and array of a node after reading `n` more properties from `p`,
/// given those read so far: values past the first sixteen are dropped, and a
/// later array replaces an earlier one.
pub open spec fn props_at(
    d: Seq<u8>,
    p: int,
    be: bool,
    n: nat,
    vals: Seq<ValueModel>,
    arr: Option<ValueArrayModel>,
) -> Result<(Seq<ValueModel>, Option<ValueArrayModel>, int), Fault>
    decreases n,
{
    if n == 0 {
        Ok((vals, arr, p))
    } else if p + 1 > d.len() {
        Err(Fault::Truncated)
    } else {
        let code = d[p];
        if is_array_code(code) {
            match array_at(d, p + 1, be, code) {
                Err(f) => Err(f),
                Ok((a, q)) => props_at(d, q, be, (n - 1) as nat, vals, Some(a)),
            }
        } else {
            match scalar_at(d, p + 1, be, code) {
                Err(f) => Err(f),
                Ok((v, q)) => props_at(
                    d,
                    q,
                    be,
                    (n - 1) as nat,
                    if vals.len() < MAX_NON_ARRAY_VALUES { vals.push(v) } else { vals },
                    arr,
                ),
            }
        }
    }
}

/// Size of a node header.
pub open spec fn header_size(fmt: Format) -> int {
    if fmt.wide {
        25
    } else {
        13
    }
}

/// The fields of the node header at `p`: end offset, property count,
/// property byte length and name length.
pub open spec fn node_header(d: Seq<u8>, p: int, fmt: Format) -> (u64, u64, u64, u8) {
    if fmt.wide {
        (
            u64_in(field(d, p, 8), fmt.big_endian),
            u64_in(field(d, p + 8, 8), fmt.big_endian),
            u64_in(field(d, p + 16, 8), fmt.big_endian),
            d[p + 24],
        )
    } else {
        (
            u32_in(field(d, p, 4), fmt.big_endian) as u64,
            u32_in(field(d, p + 4, 4), fmt.big_endian) as u64,
            u32_in(field(d, p + 8, 4), fmt.big_endian) as u64,
            d[p + 12],
        )
    }
}

/// The node whose header starts at `p`, at nesting depth `depth`, and the
/// position after it; `None` for the zero header that ends a list of nodes.
#[verifier::opaque]
pub open spec fn node_at(d: Seq<u8>, p: int, depth: nat, fmt: Format) -> Result<
    (Option<NodeModel>, int),
    Fault,
>
    decreases d.len() - p, 0int,
{
    if depth >= MAX_NODE_DEPTH {
        Err(Fault::DepthLimit(depth as u32))
    } else if p < 0 || p + header_size(fmt) > d.len() {
        Err(Fault::Truncated)
    } else {
        let (end, nprops, plen, nlen) = node_header(d, p, fmt);
        let ps = p + header_size(fmt) + nlen;
        if end == 0 && nlen == 0 {
            Ok((None, p + header_size(fmt)))
        } else if ps > d.len() {
            Err(Fault::Truncated)
        } else {
            match props_at(d, ps, fmt.big_endian, nprops as nat, Seq::empty(), None) {
                Err(f) => Err(f),
                Ok((vals, arr, q1)) => {
                    let pe = ps + plen;
                    if q1 < pe && pe > d.len() {
                        Err(Fault::Truncated)
                    } else {
                        let c = if q1 < pe { pe } else { q1 };
                        if c < ps || c > d.len() {
                            Err(Fault::Truncated)
                        } else {
                            match children_at(d, c, end as int, depth + 1, fmt, Seq::empty()) {
                                Err(f) => Err(f),
                                Ok((kids, q2)) => {
                                    if q2 != end && end != 0 {
                                        Err(Fault::OffsetMismatch(end, q2 as u64))
                                    } else {
                                        Ok((
                                            Some(
                                                NodeModel {
                                                    name: text_of(
                                                        field(d, p + header_size(fmt), nlen as int),
                                                    ),
                                                    values: vals,
                                                    array: arr,
                                                    children: kids,
                                                },
                                            ),
                                            q2,
                                        ))
                                    }
                                },
                            }
                        }
                    }
                },
            }
        }
    }
}

/// The children read from `p` while the position is below `end`, after those
/// read so far, and the position after them; a zero header stops the list.
/// (A child that does not advance cannot occur; it is refused so that the
/// definition is total.)
pub open spec fn children_at(
    d: Seq<u8>,
    p: int,
    end: int,
    depth: nat,
    fmt: Format,
    acc: Seq<NodeModel>,
) -> Result<(Seq<NodeModel>, int), Fault>
    decreases d.len() - p, 1int,
{
    if p >= end || p < 0 || p > d.len() {
        Ok((acc, p))
    } else {
        match node_at(d, p, depth, fmt) {
            Err(f) => Err(f),
            Ok((None, q)) => Ok((acc, q)),
            Ok((Some(n), q)) => {
                if q <= p || q > d.len() {
                    Err(Fault::Truncated)
                } else {
                    children_at(d, q, end, depth, fmt, acc.push(n))
                }
            },
        }
    }
}

} // verus!

verus! {

/// The file header at `p`: format version, byte order, and the position after it.
pub open spec fn header_at(d: Seq<u8>, p: int) -> Result<(u32, bool, int), Fault> {
    if p + 22 > d.len() {
        Err(Fault::NoMagic)
    } else if field(d, p, 22) != fbx_magic() {
        Err(Fault::BadMagic)
    } else if p + 23 > d.len() {
        Err(Fault::NoEndian)
    } else {
        let be = d[p + 22] != 0;
        if p + 27 > d.len() {
            Err(Fault::Truncated)
        } else {
            Ok((u32_in(field(d, p + 23, 4), be), be, p + 27))
        }
    }
}

/// How a file of the given version and byte order is read.
pub open spec fn format_of(version: u32, big_endian: bool) -> Format {
    Format { big_endian, wide: version >= FBX_VERSION_7500 }
}

/// The top-level nodes read from `p` up to the zero header that ends them,
/// after those read so far.
pub open spec fn top_nodes_at(d: Seq<u8>, p: int, fmt: Format, acc: Seq<NodeModel>) -> Result<
    Seq<NodeModel>,
    Fault,
>
    decreases d.len() - p,
{
    match node_at(d, p, 0, fmt) {
        Err(f) => Err(f),
        Ok((None, _)) => Ok(acc),
        Ok((Some(n), q)) => {
            if q <= p || q > d.len() {
                Err(Fault::Truncated)
            } else {
                top_nodes_at(d, q, fmt, acc.push(n))
            }
        },
    }
}

/// Mathematical view of a document.
pub struct DocModel {
    pub version: u32,
    pub big_endian: bool,
    pub root: NodeModel,
}

/// A nameless node with the given children and nothing else.
pub open spec fn root_model(children: Seq<NodeModel>) -> NodeModel {
    NodeModel { name: Seq::empty(), values: Seq::empty(), array: None, children }
}

/// The document held by `d` from position `p` on.
pub open spec fn document_at(d: Seq<u8>, p: int) -> Result<DocModel, Fault> {
    match header_at(d, p) {
        Err(f) => Err(f),
        Ok((version, be, q)) => match top_nodes_at(d, q, format_of(version, be), Seq::empty()) {
            Err(f) => Err(f),
            Ok(kids) => Ok(DocModel { version, big_endian: be, root: root_model(kids) }),
        },
    }
}

/// Whether `e` is an unknown error with exactly this description and no stack.
pub open spec fn unknown_with(e: Error, text: Seq<char>) -> bool {
    e matches Error::Unknown { description, stack } && description@ == text && stack is None
}

/// The error reported for each fault.
pub open spec fn fault_matches(e: Error, f: Fault) -> bool {
    match f {
        Fault::Truncated => (e matches Error::TruncatedFile { offset } && offset == 0),
        Fault::DepthLimit(d) => (e matches Error::NodeDepthLimit { depth, limit } && depth == d
            && limit == MAX_NODE_DEPTH),
        Fault::UnknownProperty(c) => unknown_with(e, "Unknown property type: "@.push(c as char)),
        Fault::UnknownEncoding(n) => unknown_with(
            e,
            "Unknown array encoding: "@ + decimal(n as nat),
        ),
        Fault::OffsetMismatch(x, y) => unknown_with(
            e,
            "Node end offset mismatch: expected "@ + decimal(x as nat) + ", got "@ + decimal(
                y as nat,
            ),
        ),
        Fault::Inflate => unknown_with(e, "DEFLATE decompression failed"@),
        Fault::BadMagic => (e matches Error::UnrecognizedFileFormat { filename } && filename@
            == "binary FBX"@),
        Fault::NoMagic => unknown_with(e, "Failed to read magic bytes"@),
        Fault::NoEndian => unknown_with(e, "Failed to read endian flag"@),
    }
}

/// The error reported for a fault.
pub fn fault_error(f: Fault) -> (e: Error)
    ensures
        fault_matches(e, f),
{
    match f {
        Fault::Truncated => Error::TruncatedFile { offset: 0 },
        Fault::DepthLimit(d) => Error::NodeDepthLimit {
            depth: d as usize,
            limit: MAX_NODE_DEPTH as usize,
        },
        Fault::UnknownProperty(c) => {
            let mut s = string_of("Unknown property type: ");
            push_char(&mut s, c as char);
            Error::Unknown { description: s, stack: None }
        },
        Fault::UnknownEncoding(n) => {
            let mut s = string_of("Unknown array encoding: ");
            push_decimal(&mut s, n as u64);
            Error::Unknown { description: s, stack: None }
        },
        Fault::OffsetMismatch(x, y) => {
            let mut s = string_of("Node end offset mismatch: expected ");
            push_decimal(&mut s, x);
            push_str(&mut s, ", got ");
            push_decimal(&mut s, y);
            Error::Unknown { description: s, stack: None }
        },
        Fault::Inflate => Error::unknown("DEFLATE decompression failed"),
        Fault::BadMagic => Error::UnrecognizedFileFormat { filename: string_of("binary FBX") },
        Fault::NoMagic => Error::unknown("Failed to read magic bytes"),
        Fault::NoEndian => Error::unknown("Failed to read endian flag"),
    }
}

} // verus!

verus! {

// ---------------------------------------------------------------------------
// The parser
// ---------------------------------------------------------------------------

/// A complete document: the format version, the byte order of the file, and a
/// nameless root node whose children are the top-level nodes.
#[derive(Debug)]
pub struct FbxDocument {
    pub version: u32,
    pub big_endian: bool,
    pub root: FbxNode,
}

impl View for FbxDocument {
    type V = DocModel;

    open spec fn view(&self) -> DocModel {
        DocModel { version: self.version, big_endian: self.big_endian, root: self.root@ }
    }
}

/// Whether a read of a value matches what the format gives.
pub open spec fn value_read(r: Result<Value, Error>, pos: int, s: Result<(ValueModel, int), Fault>) -> bool {
    match s {
        Ok((v, q)) => (r matches Ok(x) && x@ == v) && pos == q,
        Err(f) => (r matches Err(e) && fault_matches(e, f)),
    }
}

/// Whether a read of an array matches what the format gives.
pub open spec fn array_read(
    r: Result<ValueArray, Error>,
    pos: int,
    s: Result<(ValueArrayModel, int), Fault>,
) -> bool {
    match s {
        Ok((a, q)) => (r matches Ok(x) && x@ == a) && pos == q,
        Err(f) => (r matches Err(e) && fault_matches(e, f)),
    }
}

/// Whether a read of a node matches what the format gives.
pub open spec fn node_read(
    r: Result<Option<FbxNode>, Error>,
    pos: int,
    s: Result<(Option<NodeModel>, int), Fault>,
) -> bool {
    match s {
        Ok((None, q)) => (r matches Ok(x) && x is None) && pos == q,
        Ok((Some(m), q)) => (r matches Ok(Some(n)) && n@ == m) && pos == q,
        Err(f) => (r matches Err(e) && fault_matches(e, f)),
    }
}

/// Reads a binary FBX file held in memory.
pub struct BinaryParser {
    /// The bytes being read.
    pub data: Vec<u8>,
    /// Format version read from the header.
    pub version: u32,
    /// Whether the file's fields are big-endian.
    pub file_big_endian: bool,
    /// Position of the next read.
    pub offset: u64,
}

impl BinaryParser {
    /// The bytes being read.
    pub open spec fn input(&self) -> Seq<u8> {
        self.data@
    }

    /// The position of the next read.
    pub open spec fn pos(&self) -> int {
        self.offset as int
    }

    /// The position lies within the input.
    pub open spec fn wf(&self) -> bool {
        self.offset <= self.data@.len()
    }

    /// How fields are read, given the header read so far.
    pub open spec fn format(&self) -> Format {
        format_of(self.version, self.file_big_endian)
    }

    /// Same input, version and byte order as `other`.
    pub open spec fn same_file(&self, other: &Self) -> bool {
        self.input() == other.input() && self.version == other.version && self.file_big_endian
            == other.file_big_endian
    }

    /// A parser at the start of `data`.
    pub fn new(data: Vec<u8>) -> (r: Self)
        ensures
            r.wf(),
            r.input() == data@,
            r.pos() == 0,
            r.version == 0,
            !r.file_big_endian,
    {
        BinaryParser { data, version: 0, file_big_endian: false, offset: 0 }
    }

    /// The position of the next read as an index.
    fn at(&self) -> (r: usize)
        requires
            self.wf(),
        ensures
            r == self.pos(),
            r <= self.input().len(),
    {
        let n = self.data.len();
        assert(self.offset <= n);
        self.offset as usize
    }

    /// Number of bytes left after the position.
    fn remaining(&self) -> (r: usize)
        requires
            self.wf(),
        ensures
            r == self.input().len() - self.pos(),
    {
        let n = self.data.len();
        n - self.offset as usize
    }

    /// Moves the position forward by `n` bytes.
    fn advance(&mut self, n: usize)
        requires
            old(self).wf(),
            old(self).pos() + n <= old(self).input().len(),
        ensures
            final(self).wf(),
            final(self).same_file(old(self)),
            final(self).pos() == old(self).pos() + n,
    {
        let len = self.data.len();
        assert(self.offset + n <= len);
        self.offset = self.offset + n as u64;
    }

    /// Reads the data of a one-byte or integer property (`C`, `B`, `Z`, `Y`,
    /// `I`, `L`) at the position.
    fn read_integer(&mut self, code: u8) -> (r: Result<Value, Error>)
        requires
            old(self).wf(),
            code == 0x43 || code == 0x42 || code == 0x5A || code == 0x59 || code == 0x49 || code
                == 0x4C,
        ensures
            final(self).wf(),
            final(self).same_file(old(self)),
            value_read(r, final(self).pos(), integer_at(old(self).input(), old(self).pos(), old(self).file_big_endian, code)),
            r is Ok ==> final(self).pos() > old(self).pos(),
    {
        let be = self.file_big_endian;
        let pos = self.at();
        let rem = self.remaining();
        let size: usize = if code == 0x59 {
            2
        } else if code == 0x49 {
            4
        } else if code == 0x4C {
            8
        } else {
            1
        };
        if rem < size {
            return Err(fault_error(Fault::Truncated));
        }
        let v: i64 = if code == 0x59 {
            read_u16_at(self.data.as_slice(), pos, be) as i16 as i64
        } else if code == 0x49 {
            read_u32_at(self.data.as_slice(), pos, be) as i32 as i64
        } else if code == 0x4C {
            read_u64_at(self.data.as_slice(), pos, be) as i64
        } else {
            self.data[pos] as i64
        };
        self.advance(size);
        Ok(Value::Number { i: v, f: StoredNumber::Integer(v) })
    }

    /// Reads the data of a float property (`F`, `D`) at the position.
    fn read_float(&mut self, code: u8) -> (r: Result<Value, Error>)
        requires
            old(self).wf(),
            code == 0x46 || code == 0x44,
        ensures
            final(self).wf(),
            final(self).same_file(old(self)),
            value_read(r, final(self).pos(), float_at(old(self).input(), old(self).pos(), old(self).file_big_endian, code)),
            r is Ok ==> final(self).pos() > old(self).pos(),
    {
        let be = self.file_big_endian;
        let pos = self.at();
        let rem = self.remaining();
        if code == 0x46 {
            if rem < 4 {
                return Err(fault_error(Fault::Truncated));
            }
            let bits = read_u32_at(self.data.as_slice(), pos, be);
            self.advance(4);
            Ok(Value::Number { i: f32_bits_to_i64(bits), f: StoredNumber::Single(bits) })
        } else {
            if rem < 8 {
                return Err(fault_error(Fault::Truncated));
            }
            let bits = read_u64_at(self.data.as_slice(), pos, be);
            self.advance(8);
            Ok(Value::Number { i: f64_bits_to_i64(bits), f: StoredNumber::Double(bits) })
        }
    }

    /// Reads the data of a string property (`S`, `R`) at the position.
    fn read_text(&mut self, code: u8) -> (r: Result<Value, Error>)
        requires
            old(self).wf(),
            code == 0x53 || code == 0x52,
        ensures
            final(self).wf(),
            final(self).same_file(old(self)),
            value_read(r, final(self).pos(), text_at(old(self).input(), old(self).pos(), old(self).file_big_endian)),
            r is Ok ==> final(self).pos() > old(self).pos(),
    {
        let be = self.file_big_endian;
        let len = self.data.len();
        let pos = self.at();
        let rem = self.remaining();
        if rem < 4 {
            return Err(fault_error(Fault::Truncated));
        }
        let n = read_u32_at(self.data.as_slice(), pos, be) as usize;
        if n > rem - 4 {
            return Err(fault_error(Fault::Truncated));
        }
        let bytes = slice_subrange(self.data.as_slice(), pos + 4, pos + 4 + n);
        let text = lossy_text(bytes);
        self.advance(4 + n);
        Ok(Value::String(FbxString::from_string(text)))
    }

    /// Reads the data of the scalar property with type code `code` at the position.
    fn read_scalar(&mut self, code: u8) -> (r: Result<Value, Error>)
        requires
            old(self).wf(),
        ensures
            final(self).wf(),
            final(self).same_file(old(self)),
            value_read(r, final(self).pos(), scalar_at(old(self).input(), old(self).pos(), old(self).file_big_endian, code)),
            r is Ok ==> final(self).pos() > old(self).pos(),
    {
        proof {
            reveal(scalar_at);
        }
        if code == 0x43 || code == 0x42 || code == 0x5A || code == 0x59 || code == 0x49 || code
            == 0x4C {
            self.read_integer(code)
        } else if code == 0x46 || code == 0x44 {
            self.read_float(code)
        } else if code == 0x53 || code == 0x52 {
            self.read_text(code)
        } else {
            Err(fault_error(Fault::UnknownProperty(code)))
        }
    }

    /// Reads one property, starting with its type code: scalars give their
    /// value, arrays are skipped and give `None`.
    pub fn read_property(&mut self) -> (r: Result<Option<Value>, Error>)
        requires
            old(self).wf(),
        ensures
            final(self).wf(),
            final(self).same_file(old(self)),
            match property_at(old(self).input(), old(self).pos(), old(self).file_big_endian) {
                Ok((None, q)) => (r matches Ok(x) && x is None) && final(self).pos() == q,
                Ok((Some(v), q)) => (r matches Ok(Some(x)) && x@ == v) && final(self).pos() == q,
                Err(f) => (r matches Err(e) && fault_matches(e, f)),
            },
    {
        let be = self.file_big_endian;
        let len = self.data.len();
        let pos = self.at();
        let rem = self.remaining();
        if rem < 1 {
            return Err(fault_error(Fault::Truncated));
        }
        let code = self.data[pos];
        self.advance(1);
        if code == 0x62 || code == 0x63 || code == 0x69 || code == 0x6C || code == 0x66 || code
            == 0x64 {
            if rem < 13 {
                return Err(fault_error(Fault::Truncated));
            }
            let clen = read_u32_at(self.data.as_slice(), pos + 9, be) as usize;
            self.advance(12);
            if clen > rem - 13 {
                return Err(fault_error(Fault::Truncated));
            }
            self.skip_bytes(clen)?;
            Ok(None)
        } else {
            match self.read_scalar(code) {
                Ok(v) => Ok(Some(v)),
                Err(e) => Err(e),
            }
        }
    }

    /// Moves past `count` bytes, which must be present.
    fn skip_bytes(&mut self, count: usize) -> (r: Result<(), Error>)
        requires
            old(self).wf(),
        ensures
            final(self).wf(),
            final(self).same_file(old(self)),
            old(self).pos() + count <= old(self).input().len() ==> r is Ok && final(self).pos()
                == old(self).pos() + count,
            old(self).pos() + count > old(self).input().len() ==> (r matches Err(e)
                && fault_matches(e, Fault::Truncated)),
    {
        if count > self.remaining() {
            return Err(fault_error(Fault::Truncated));
        }
        self.advance(count);
        Ok(())
    }
}


/// Decodes `n` elements of array type `code` from `raw`.
fn decode_elements(raw: &[u8], code: u8, n: usize, be: bool) -> (r: ArrayData)
    requires
        is_array_code(code),
        raw@.len() == elem_size(code) * n,
    ensures
        r@ == decode_array(raw@, code, n as nat, be),
{
    if code == 0x62 {
        let mut out: Vec<bool> = Vec::new();
        let mut k: usize = 0;
        while k < n
            invariant
                k <= n,
                raw@.len() == n,
                out@ == Seq::new(k as nat, |j: int| raw@[j] != 0),
            decreases n - k,
        {
            out.push(raw[k] != 0);
            k = k + 1;
            assert(out@ =~= Seq::new(k as nat, |j: int| raw@[j] != 0));
        }
        ArrayData::Bool(out)
    } else if code == 0x63 {
        ArrayData::U8(vstd::slice::slice_to_vec(raw))
    } else if code == 0x69 || code == 0x66 {
        let mut out: Vec<u32> = Vec::new();
        let mut k: usize = 0;
        let rl = raw.len();
        while k < n
            invariant
                k <= n,
                rl == raw@.len(),
                raw@.len() == 4 * n,
                out@ == Seq::new(k as nat, |j: int| u32_in(field(raw@, 4 * j, 4), be)),
            decreases n - k,
        {
            out.push(read_u32_at(raw, 4 * k, be));
            k = k + 1;
            assert(out@ =~= Seq::new(k as nat, |j: int| u32_in(field(raw@, 4 * j, 4), be)));
        }
        if code == 0x66 {
            ArrayData::F32(out)
        } else {
            let mut ints: Vec<i32> = Vec::new();
            let mut k: usize = 0;
            while k < n
                invariant
                    k <= n,
                    out@.len() == n,
                    out@ == Seq::new(n as nat, |j: int| u32_in(field(raw@, 4 * j, 4), be)),
                    ints@ == Seq::new(k as nat, |j: int| out@[j] as i32),
                decreases n - k,
            {
                ints.push(out[k] as i32);
                k = k + 1;
                assert(ints@ =~= Seq::new(k as nat, |j: int| out@[j] as i32));
            }
            assert(ints@ =~= Seq::new(n as nat, |j: int| u32_in(field(raw@, 4 * j, 4), be) as i32));
            ArrayData::I32(ints)
        }
    } else {
        let mut out: Vec<u64> = Vec::new();
        let mut k: usize = 0;
        let rl = raw.len();
        while k < n
            invariant
                k <= n,
                rl == raw@.len(),
                raw@.len() == 8 * n,
                out@ == Seq::new(k as nat, |j: int| u64_in(field(raw@, 8 * j, 8), be)),
            decreases n - k,
        {
            out.push(read_u64_at(raw, 8 * k, be));
            k = k + 1;
            assert(out@ =~= Seq::new(k as nat, |j: int| u64_in(field(raw@, 8 * j, 8), be)));
        }
        if code == 0x64 {
            ArrayData::F64(out)
        } else {
            let mut ints: Vec<i64> = Vec::new();
            let mut k: usize = 0;
            while k < n
                invariant
                    k <= n,
                    out@.len() == n,
                    out@ == Seq::new(n as nat, |j: int| u64_in(field(raw@, 8 * j, 8), be)),
                    ints@ == Seq::new(k as nat, |j: int| out@[j] as i64),
                decreases n - k,
            {
                ints.push(out[k] as i64);
                k = k + 1;
                assert(ints@ =~= Seq::new(k as nat, |j: int| out@[j] as i64));
            }
            assert(ints@ =~= Seq::new(n as nat, |j: int| u64_in(field(raw@, 8 * j, 8), be) as i64));
            ArrayData::I64(ints)
        }
    }
}

impl BinaryParser {
    /// Reads the array property of type `code` whose header is at the position.
    fn read_array_code(&mut self, code: u8) -> (r: Result<ValueArray, Error>)
        requires
            old(self).wf(),
            is_array_code(code),
        ensures
            final(self).wf(),
            final(self).same_file(old(self)),
            array_read(r, final(self).pos(), array_at(old(self).input(), old(self).pos(), old(self).file_big_endian, code)),
            r is Ok ==> final(self).pos() > old(self).pos(),
    {
        proof {
            reveal(array_at);
        }
        let be = self.file_big_endian;
        let len = self.data.len();
        let pos = self.at();
        let rem = self.remaining();
        if rem < 12 {
            return Err(fault_error(Fault::Truncated));
        }
        let n = read_u32_at(self.data.as_slice(), pos, be);
        let enc = read_u32_at(self.data.as_slice(), pos + 4, be);
        let clen = read_u32_at(self.data.as_slice(), pos + 8, be);
        let es: u64 = if code == 0x62 || code == 0x63 {
            1
        } else if code == 0x69 || code == 0x66 {
            4
        } else {
            8
        };
        let size: u64 = es * n as u64;
        assert(es == elem_size(code));
        assert(size == elem_size(code) * (n as nat));
        let q = pos + 12;
        if enc == 0 {
            if size > (rem - 12) as u64 {
                return Err(fault_error(Fault::Truncated));
            }
            let size = size as usize;
            let raw = slice_subrange(self.data.as_slice(), q, q + size);
            let data = decode_elements(raw, code, n as usize, be);
            self.advance(12 + size);
            Ok(ValueArray { data, array_type: code as char })
        } else if enc == 1 {
            if clen as usize > rem - 12 {
                return Err(fault_error(Fault::Truncated));
            }
            let comp = slice_subrange(self.data.as_slice(), q, q + clen as usize);
            if size > usize::MAX as u64 {
                return Err(fault_error(Fault::Inflate));
            }
            match inflate_exact(comp, size as usize) {
                None => Err(fault_error(Fault::Inflate)),
                Some(raw) => {
                    let data = decode_elements(raw.as_slice(), code, n as usize, be);
                    self.advance(12 + clen as usize);
                    Ok(ValueArray { data, array_type: code as char })
                },
            }
        } else {
            Err(fault_error(Fault::UnknownEncoding(enc)))
        }
    }

    /// Reads the array property of type `type_code` (`b`, `c`, `i`, `l`, `f`
    /// or `d`) whose header is at the position.
    pub fn read_array(&mut self, type_code: char) -> (r: Result<ValueArray, Error>)
        requires
            old(self).wf(),
            type_code == 'b' || type_code == 'c' || type_code == 'i' || type_code == 'l' || type_code
                == 'f' || type_code == 'd',
        ensures
            final(self).wf(),
            final(self).same_file(old(self)),
            array_read(r, final(self).pos(), array_at(old(self).input(), old(self).pos(), old(self).file_big_endian, type_code as u8)),
    {
        self.read_array_code(type_code as u8)
    }
}

/// One step of reading children: the child at `p` decides what follows.
proof fn lemma_children_step(d: Seq<u8>, p: int, end: int, depth: nat, fmt: Format, acc: Seq<NodeModel>)
    requires
        0 <= p < end,
        p <= d.len(),
    ensures
        children_at(d, p, end, depth, fmt, acc) == match node_at(d, p, depth, fmt) {
            Err(f) => Err(f),
            Ok((None, q)) => Ok((acc, q)),
            Ok((Some(n), q)) => {
                if q <= p || q > d.len() {
                    Err(Fault::Truncated)
                } else {
                    children_at(d, q, end, depth, fmt, acc.push(n))
                }
            },
        },
{
    reveal(node_at);
}

/// One step of reading top-level nodes: the node at `p` decides what follows.
proof fn lemma_top_step(d: Seq<u8>, p: int, fmt: Format, acc: Seq<NodeModel>)
    ensures
        top_nodes_at(d, p, fmt, acc) == match node_at(d, p, 0, fmt) {
            Err(f) => Err(f),
            Ok((None, _)) => Ok(acc),
            Ok((Some(n), q)) => {
                if q <= p || q > d.len() {
                    Err(Fault::Truncated)
                } else {
                    top_nodes_at(d, q, fmt, acc.push(n))
                }
            },
        },
{
}

/// Viewing a sequence of values with one more value appended.
proof fn lemma_values_model_push(s: Seq<Value>, v: Value)
    ensures
        values_model(s.push(v)) == values_model(s).push(v@),
{
    assert(values_model(s.push(v)) =~= values_model(s).push(v@));
}

/// Viewing a sequence of nodes with one more node appended.
proof fn lemma_nodes_model_push(s: Seq<FbxNode>, n: FbxNode)
    ensures
        nodes_model(s.push(n)) == nodes_model(s).push(n@),
{
    assert(s.push(n).drop_last() =~= s);
}

impl BinaryParser {
    /// Reads the values and array of a node from `count` properties at the position.
    fn read_properties(&mut self, count: u64) -> (r: Result<(Vec<Value>, Option<ValueArray>), Error>)
        requires
            old(self).wf(),
        ensures
            final(self).wf(),
            final(self).same_file(old(self)),
            r is Ok ==> final(self).pos() >= old(self).pos(),
            match props_at(old(self).input(), old(self).pos(), old(self).file_big_endian, count as nat, Seq::empty(), None) {
                Ok((vs, a, q)) => (r matches Ok((xv, xa)) && values_model(xv@) == vs && array_model(xa)
                    == a) && final(self).pos() == q,
                Err(f) => (r matches Err(e) && fault_matches(e, f)),
            },
    {
        let ghost d = self.input();
        let ghost be = self.file_big_endian;
        let ghost ver = self.version;
        let ghost p0 = self.pos();
        let ghost s0 = props_at(d, p0, be, count as nat, Seq::empty(), None);
        let mut values: Vec<Value> = Vec::new();
        let mut array: Option<ValueArray> = None;
        let mut i: u64 = 0;
        assert(values_model(values@) =~= Seq::<ValueModel>::empty());
        while i < count
            invariant
                self.wf(),
                self.input() == d,
                self.file_big_endian == be,
                self.version == ver,
                d == old(self).input(),
                be == old(self).file_big_endian,
                ver == old(self).version,
                p0 == old(self).pos(),
                s0 == props_at(old(self).input(), old(self).pos(), old(self).file_big_endian, count as nat, Seq::empty(), None),
                i <= count,
                self.pos() >= p0,
                props_at(d, self.pos(), be, (count - i) as nat, values_model(values@), array_model(array))
                    == s0,
            decreases count - i,
        {
            let pos = self.at();
            let rem = self.remaining();
            if rem < 1 {
                assert(props_at(d, self.pos(), be, (count - i) as nat, values_model(values@), array_model(array)) == Err::<(Seq<ValueModel>, Option<ValueArrayModel>, int), Fault>(Fault::Truncated));
                return Err(fault_error(Fault::Truncated));
            }
            let code = self.data[pos];
            self.advance(1);
            if code == 0x62 || code == 0x63 || code == 0x69 || code == 0x6C || code == 0x66 || code
                == 0x64 {
                match self.read_array_code(code) {
                    Err(e) => {
                        return Err(e);
                    },
                    Ok(a) => {
                        array = Some(a);
                    },
                }
            } else {
                match self.read_scalar(code) {
                    Err(e) => {
                        return Err(e);
                    },
                    Ok(v) => {
                        if values.len() < MAX_NON_ARRAY_VALUES {
                            proof {
                                lemma_values_model_push(values@, v);
                            }
                            values.push(v);
                        }
                    },
                }
            }
            i = i + 1;
        }
        Ok((values, array))
    }

    /// Reads a node header with 32-bit fields.
    fn read_node_header_32(&mut self) -> (r: Result<(u64, u64, u64, u8), Error>)
        requires
            old(self).wf(),
        ensures
            final(self).wf(),
            final(self).same_file(old(self)),
            old(self).pos() + 13 > old(self).input().len() ==> (r matches Err(e) && fault_matches(
                e,
                Fault::Truncated,
            )),
            old(self).pos() + 13 <= old(self).input().len() ==> r == Ok::<(u64, u64, u64, u8), Error>(
                node_header(old(self).input(), old(self).pos(), Format { big_endian: old(self).file_big_endian, wide: false }),
            ) && final(self).pos() == old(self).pos() + 13,
    {
        let be = self.file_big_endian;
        let len = self.data.len();
        let pos = self.at();
        if self.remaining() < NODE_HEADER_SIZE_32 {
            return Err(fault_error(Fault::Truncated));
        }
        let end_offset = read_u32_at(self.data.as_slice(), pos, be) as u64;
        let num_properties = read_u32_at(self.data.as_slice(), pos + 4, be) as u64;
        let property_list_len = read_u32_at(self.data.as_slice(), pos + 8, be) as u64;
        let name_len = self.data[pos + 12];
        self.advance(NODE_HEADER_SIZE_32);
        Ok((end_offset, num_properties, property_list_len, name_len))
    }

    /// Reads a node header with 64-bit fields.
    fn read_node_header_64(&mut self) -> (r: Result<(u64, u64, u64, u8), Error>)
        requires
            old(self).wf(),
        ensures
            final(self).wf(),
            final(self).same_file(old(self)),
            old(self).pos() + 25 > old(self).input().len() ==> (r matches Err(e) && fault_matches(
                e,
                Fault::Truncated,
            )),
            old(self).pos() + 25 <= old(self).input().len() ==> r == Ok::<(u64, u64, u64, u8), Error>(
                node_header(old(self).input(), old(self).pos(), Format { big_endian: old(self).file_big_endian, wide: true }),
            ) && final(self).pos() == old(self).pos() + 25,
    {
        let be = self.file_big_endian;
        let len = self.data.len();
        let pos = self.at();
        if self.remaining() < NODE_HEADER_SIZE_64 {
            return Err(fault_error(Fault::Truncated));
        }
        let end_offset = read_u64_at(self.data.as_slice(), pos, be);
        let num_properties = read_u64_at(self.data.as_slice(), pos + 8, be);
        let property_list_len = read_u64_at(self.data.as_slice(), pos + 16, be);
        let name_len = self.data[pos + 24];
        self.advance(NODE_HEADER_SIZE_64);
        Ok((end_offset, num_properties, property_list_len, name_len))
    }

    /// Reads a node name of `len` bytes, decoding it as lossy UTF-8.
    fn read_name(&mut self, len: u8) -> (r: Result<String, Error>)
        requires
            old(self).wf(),
        ensures
            final(self).wf(),
            final(self).same_file(old(self)),
            old(self).pos() + len > old(self).input().len() ==> (r matches Err(e) && fault_matches(
                e,
                Fault::Truncated,
            )),
            old(self).pos() + len <= old(self).input().len() ==> (r matches Ok(s) && s@ == text_of(
                field(old(self).input(), old(self).pos(), len as int),
            )) && final(self).pos() == old(self).pos() + len,
    {
        let n = self.data.len();
        let pos = self.at();
        if (len as usize) > self.remaining() {
            return Err(fault_error(Fault::Truncated));
        }
        let bytes = slice_subrange(self.data.as_slice(), pos, pos + len as usize);
        let name = lossy_text(bytes);
        self.advance(len as usize);
        Ok(name)
    }

    /// Reads the node whose header is at the position, at nesting depth
    /// `depth`, with all its children; `None` for the zero header that ends a
    /// list of nodes.
    pub fn read_node(&mut self, depth: u32) -> (r: Result<Option<FbxNode>, Error>)
        requires
            old(self).wf(),
        ensures
            final(self).wf(),
            final(self).same_file(old(self)),
            node_read(r, final(self).pos(), node_at(old(self).input(), old(self).pos(), depth as nat, old(self).format())),
            r is Ok ==> final(self).pos() > old(self).pos(),
        decreases MAX_NODE_DEPTH - depth, 1int,
    {
        proof {
            reveal(node_at);
        }
        if depth >= MAX_NODE_DEPTH {
            return Err(fault_error(Fault::DepthLimit(depth)));
        }
        let ghost d = self.input();
        let ghost p = self.pos();
        let ghost fmt = self.format();
        let ghost ver = self.version;
        let ghost be = self.file_big_endian;
        let wide = self.version >= FBX_VERSION_7500;
        let hdr = if wide {
            self.read_node_header_64()
        } else {
            self.read_node_header_32()
        };
        let (end_offset, num_properties, property_list_len, name_len) = match hdr {
            Err(e) => {
                return Err(e);
            },
            Ok(h) => h,
        };
        if end_offset == 0 && name_len == 0 {
            return Ok(None);
        }
        let name = match self.read_name(name_len) {
            Err(e) => {
                return Err(e);
            },
            Ok(n) => n,
        };
        let properties_start = self.offset;
        let (values, array) = match self.read_properties(num_properties) {
            Err(e) => {
                return Err(e);
            },
            Ok(va) => va,
        };
        let len = self.data.len();
        let avail: u64 = len as u64 - properties_start;
        if property_list_len > avail {
            return Err(fault_error(Fault::Truncated));
        }
        let properties_end = properties_start + property_list_len;
        if self.offset < properties_end {
            let gap = (properties_end - self.offset) as usize;
            self.advance(gap);
        }
        let children = match self.read_children(end_offset, depth + 1) {
            Err(e) => {
                return Err(e);
            },
            Ok(c) => c,
        };
        if self.offset != end_offset && end_offset != 0 {
            return Err(fault_error(Fault::OffsetMismatch(end_offset, self.offset)));
        }
        Ok(Some(FbxNode { name, values, array, children }))
    }

    /// Reads the children of a node, at depth `depth`, while the position is
    /// below `end_offset`, up to the zero header that ends them.
    fn read_children(&mut self, end_offset: u64, depth: u32) -> (r: Result<Vec<FbxNode>, Error>)
        requires
            old(self).wf(),
            depth <= MAX_NODE_DEPTH,
        ensures
            final(self).wf(),
            final(self).same_file(old(self)),
            r is Ok ==> final(self).pos() >= old(self).pos(),
            match children_at(old(self).input(), old(self).pos(), end_offset as int, depth as nat, old(self).format(), Seq::empty()) {
                Ok((kids, q)) => (r matches Ok(v) && nodes_model(v@) == kids) && final(self).pos() == q,
                Err(f) => (r matches Err(e) && fault_matches(e, f)),
            },
        decreases MAX_NODE_DEPTH - depth + 1, 0int,
    {
        let ghost d = self.input();
        let ghost fmt = self.format();
        let ghost ver = self.version;
        let ghost be = self.file_big_endian;
        let ghost c = self.pos();
        let ghost c0 = children_at(d, c, end_offset as int, depth as nat, fmt, Seq::empty());
        let mut children: Vec<FbxNode> = Vec::new();
        let mut done = false;
        assert(nodes_model(children@) =~= Seq::<NodeModel>::empty());
        while !done && self.offset < end_offset
            invariant
                self.wf(),
                self.input() == d,
                self.version == ver,
                self.file_big_endian == be,
                self.format() == fmt,
                d == old(self).input(),
                be == old(self).file_big_endian,
                ver == old(self).version,
                c == old(self).pos(),
                c0 == children_at(old(self).input(), old(self).pos(), end_offset as int, depth as nat, old(self).format(), Seq::empty()),
                depth <= MAX_NODE_DEPTH,
                self.pos() >= c,
                !done ==> children_at(d, self.pos(), end_offset as int, depth as nat, fmt, nodes_model(children@)) == c0,
                done ==> c0 == Ok::<(Seq<NodeModel>, int), Fault>((nodes_model(children@), self.pos())),
            decreases d.len() - self.pos(),
        {
            let ghost before = self.pos();
            let ghost acc = nodes_model(children@);
            proof {
                lemma_children_step(d, before, end_offset as int, depth as nat, fmt, acc);
            }
            match self.read_node(depth) {
                Err(e) => {
                    return Err(e);
                },
                Ok(None) => {
                    done = true;
                },
                Ok(Some(child)) => {
                    proof {
                        lemma_nodes_model_push(children@, child);
                    }
                    children.push(child);
                },
            }
        }
        Ok(children)
    }
}

/// Index of the first child named `name`, if any.
pub open spec fn first_named(children: Seq<FbxNode>, name: Seq<char>) -> Option<int> {
    if exists|i: int| 0 <= i < children.len() && children[i].name@ == name {
        Some(
            choose|i: int|
                0 <= i < children.len() && children[i].name@ == name && forall|j: int|
                    0 <= j < i ==> children[j].name@ != name,
        )
    } else {
        None
    }
}

impl FbxNode {
    /// A node with a name and nothing else.
    pub fn new(name: String) -> (r: Self)
        ensures
            r.name == name,
            r.values@.len() == 0,
            r.array is None,
            r.children@.len() == 0,
    {
        FbxNode { name, values: Vec::new(), array: None, children: Vec::new() }
    }

    /// Index of the first child named `name`.
    fn find_child_index(&self, name: &str) -> (r: Option<usize>)
        ensures
            match r {
                Some(i) => i < self.children@.len() && self.children@[i as int].name@ == name@ && forall|
                    j: int,
                | 0 <= j < i ==> self.children@[j].name@ != name@,
                None => forall|j: int|
                    0 <= j < self.children@.len() ==> self.children@[j].name@ != name@,
            },
    {
        let mut i: usize = 0;
        while i < self.children.len()
            invariant
                i <= self.children@.len(),
                forall|j: int| 0 <= j < i ==> self.children@[j].name@ != name@,
            decreases self.children@.len() - i,
        {
            if str_equal(self.children[i].name.as_str(), name) {
                return Some(i);
            }
            i = i + 1;
        }
        None
    }

    /// The first child named `name`.
    pub fn find_child(&self, name: &str) -> (r: Option<&FbxNode>)
        ensures
            match first_named(self.children@, name@) {
                Some(i) => r == Some(&self.children@[i]),
                None => r is None,
            },
    {
        match self.find_child_index(name) {
            Some(i) => {
                proof {
                    let k = i as int;
                    assert(exists|t: int| 0 <= t < self.children@.len() && self.children@[t].name@ == name@);
                    let c = choose|t: int|
                        0 <= t < self.children@.len() && self.children@[t].name@ == name@ && forall|
                            j: int,
                        | 0 <= j < t ==> self.children@[j].name@ != name@;
                    assert(0 <= c < self.children@.len() && self.children@[c].name@ == name@ && forall|
                            j: int,
                        | 0 <= j < c ==> self.children@[j].name@ != name@) by {
                        assert(0 <= k < self.children@.len() && self.children@[k].name@ == name@ && forall|
                            j: int,
                        | 0 <= j < k ==> self.children@[j].name@ != name@);
                    }
                    assert(c == k) by {
                        if c < k {
                        } else if k < c {
                        }
                    }
                }
                Some(&self.children[i])
            },
            None => None,
        }
    }

    /// The first child named `name`, for changing it.
    pub fn find_child_mut(&mut self, name: &str) -> (r: Option<&mut FbxNode>)
        ensures
            match first_named(old(self).children@, name@) {
                Some(i) => (r matches Some(c) && *c == old(self).children@[i]
                    && final(self).children@ == old(self).children@.update(i, *final(c))),
                None => r is None && *final(self) == *old(self),
            },
            final(self).name == old(self).name,
            final(self).values == old(self).values,
            final(self).array == old(self).array,
    {
        match self.find_child_index(name) {
            Some(i) => {
                proof {
                    let k = i as int;
                    let c = choose|t: int|
                        0 <= t < self.children@.len() && self.children@[t].name@ == name@ && forall|
                            j: int,
                        | 0 <= j < t ==> self.children@[j].name@ != name@;
                    assert(0 <= c < self.children@.len() && self.children@[c].name@ == name@ && forall|
                            j: int,
                        | 0 <= j < c ==> self.children@[j].name@ != name@) by {
                        assert(0 <= k < self.children@.len() && self.children@[k].name@ == name@ && forall|
                            j: int,
                        | 0 <= j < k ==> self.children@[j].name@ != name@);
                    }
                    assert(c == k) by {
                        if c < k {
                        } else if k < c {
                        }
                    }
                }
                Some(&mut self.children[i])
            },
            None => None,
        }
    }
}

/// The magic text as bytes.
fn magic_bytes() -> (r: [u8; 22])
    ensures
        r@ == fbx_magic(),
{
    let r: [u8; 22] = [
        0x4B, 0x61, 0x79, 0x64, 0x61, 0x72, 0x61, 0x20, 0x46, 0x42, 0x58, 0x20, 0x42, 0x69, 0x6E,
        0x61, 0x72, 0x79, 0x20, 0x20, 0x00, 0x1A,
    ];
    assert(r@ =~= fbx_magic());
    r
}

/// Whether the 22 bytes of `data` at `pos` are the magic text.
fn magic_at(data: &[u8], pos: usize) -> (r: bool)
    requires
        pos + 22 <= data@.len(),
    ensures
        r == (field(data@, pos as int, 22) == fbx_magic()),
{
    let magic = magic_bytes();
    let n = data.len();
    let mut k: usize = 0;
    while k < 22
        invariant
            k <= 22,
            n == data@.len(),
            pos + 22 <= data@.len(),
            magic@ == fbx_magic(),
            forall|j: int| 0 <= j < k ==> data@[pos + j] == fbx_magic()[j],
        decreases 22 - k,
    {
        if data[pos + k] != magic[k] {
            assert(field(data@, pos as int, 22)[k as int] != fbx_magic()[k as int]);
            return false;
        }
        k = k + 1;
    }
    assert(field(data@, pos as int, 22) =~= fbx_magic());
    true
}

/// Whether `data` starts with the magic text of binary files.
pub fn is_binary_fbx(data: &[u8]) -> (r: bool)
    ensures
        r == (data@.len() >= 22 && field(data@, 0, 22) == fbx_magic()),
{
    data.len() >= BINARY_MAGIC_SIZE && magic_at(data, 0)
}

/// Tells a loaded file's format: too small a file (under the 27 bytes of
/// a binary header) is refused; otherwise it is binary when it starts with
/// the magic text, and text in the ASCII format when not.
pub fn detect_binary(data: &[u8]) -> (r: Result<bool, Error>)
    ensures
        data@.len() < 27 ==> (r matches Err(e) && e matches Error::Unknown { description, stack }
            && description@ == "File too small"@ && stack is None),
        data@.len() >= 27 ==> r == Ok::<bool, Error>(field(data@, 0, 22) == fbx_magic()),
{
    if data.len() < BINARY_HEADER_SIZE {
        return Err(Error::unknown("File too small"));
    }
    Ok(is_binary_fbx(data))
}

impl BinaryParser {
    /// Reads the file header at the position: checks the magic text, then
    /// reads the byte order and the version, which later reads follow.
    pub fn read_header(&mut self) -> (r: Result<u32, Error>)
        requires
            old(self).wf(),
        ensures
            final(self).wf(),
            final(self).input() == old(self).input(),
            match header_at(old(self).input(), old(self).pos()) {
                Ok((v, be, q)) => r == Ok::<u32, Error>(v) && final(self).version == v
                    && final(self).file_big_endian == be && final(self).pos() == q,
                Err(f) => (r matches Err(e) && fault_matches(e, f)),
            },
    {
        let len = self.data.len();
        let pos = self.at();
        let rem = self.remaining();
        if rem < BINARY_MAGIC_SIZE {
            return Err(fault_error(Fault::NoMagic));
        }
        if !magic_at(self.data.as_slice(), pos) {
            return Err(fault_error(Fault::BadMagic));
        }
        self.advance(BINARY_MAGIC_SIZE);
        if rem < BINARY_MAGIC_SIZE + 1 {
            return Err(fault_error(Fault::NoEndian));
        }
        let flag = self.data[pos + BINARY_MAGIC_SIZE];
        self.file_big_endian = flag != 0;
        self.advance(1);
        if rem < BINARY_HEADER_SIZE {
            return Err(fault_error(Fault::Truncated));
        }
        let version = read_u32_at(self.data.as_slice(), pos + 23, self.file_big_endian);
        self.version = version;
        self.advance(4);
        Ok(version)
    }

    /// Reads the whole document: the header, then the top-level nodes up to
    /// the zero header that ends them.
    pub fn parse(self) -> (r: Result<FbxDocument, Error>)
        requires
            self.wf(),
        ensures
            match document_at(self.input(), self.pos()) {
                Ok(m) => (r matches Ok(doc) && doc@ == m),
                Err(f) => (r matches Err(e) && fault_matches(e, f)),
            },
    {
        let ghost d = self.input();
        let ghost p0 = self.pos();
        let mut p = self;
        let version = match p.read_header() {
            Err(e) => {
                return Err(e);
            },
            Ok(v) => v,
        };
        let ghost fmt = p.format();
        let ghost t0 = top_nodes_at(d, p.pos(), fmt, Seq::empty());
        let ghost dm = document_at(d, p0);
        assert(dm == match t0 {
            Err(f) => Err(f),
            Ok(kids) => Ok(DocModel { version, big_endian: fmt.big_endian, root: root_model(kids) }),
        });
        let mut kids: Vec<FbxNode> = Vec::new();
        let mut done = false;
        assert(nodes_model(kids@) =~= Seq::<NodeModel>::empty());
        while !done
            invariant
                p.wf(),
                p.input() == d,
                p.format() == fmt,
                p.version == version,
                p.file_big_endian == fmt.big_endian,
                dm == document_at(self.input(), self.pos()),
                dm == match t0 {
                    Err(f) => Err(f),
                    Ok(kids) => Ok(DocModel { version, big_endian: fmt.big_endian, root: root_model(kids) }),
                },
                !done ==> top_nodes_at(d, p.pos(), fmt, nodes_model(kids@)) == t0,
                done ==> t0 == Ok::<Seq<NodeModel>, Fault>(nodes_model(kids@)),
            decreases d.len() - p.pos(),
        {
            proof {
                lemma_top_step(d, p.pos(), fmt, nodes_model(kids@));
            }
            match p.read_node(0) {
                Err(e) => {
                    return Err(e);
                },
                Ok(None) => {
                    done = true;
                },
                Ok(Some(n)) => {
                    proof {
                        lemma_nodes_model_push(kids@, n);
                    }
                    kids.push(n);
                },
            }
        }
        let root = FbxNode { name: String::new(), values: Vec::new(), array: None, children: kids };
        assert(root@.values =~= Seq::<ValueModel>::empty());
        assert(root@.name =~= Seq::<char>::empty());
        Ok(FbxDocument { version, big_endian: p.file_big_endian, root })
    }
}

/// Parses a binary FBX file held in `data`.
pub fn parse_binary(data: &[u8]) -> (r: Result<FbxDocument, Error>)
    ensures
        match document_at(data@, 0) {
            Ok(m) => (r matches Ok(doc) && doc@ == m),
            Err(f) => (r matches Err(e) && fault_matches(e, f)),
        },
{
    let parser = BinaryParser::new(vstd::slice::slice_to_vec(data));
    parser.parse()
}
} // verus!
