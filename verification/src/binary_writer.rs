//! Binary FBX file writer.
//!
//! A document is written as the 27-byte header (magic text, a zero byte for
//! little-endian fields, the version), the top-level nodes, a zero node
//! header, and a footer of padding, a version-dependent marker and the
//! version again. All fields are little-endian. Arrays of more than 128
//! elements are stored zlib-compressed when compression is asked for.
//!
//! The bytes of each part are stated as spec functions (`value_bytes`,
//! `node_bytes`, ...), and what the parser gives back for the bytes of a
//! property or header is stated with each writing function.
use vstd::prelude::*;
use vstd::utf8::{encode_utf8, encode_utf8_decode_utf8, encode_utf8_valid_utf8};
use vstd::string::StringSliceAdditionalSpecFns;
use flate2::write::ZlibEncoder;
use flate2::Compression;
use std::io::Write;
use crate::binary::{
    array_at, decode_array, document_at, elem_size, fbx_magic, field, format_of, root_model,
    top_nodes_at, DocModel, float_at, header_at, int_number, integer_at,
    is_array_code, is_integer_code, node_at, node_header, nodes_model, property_at, Format,
    MAX_NODE_DEPTH, scalar_at, text_at, text_of,
    values_model, zlib_prefix, ArrayData, Fault, ValueArrayModel, ArrayModel, FbxDocument, FbxNode, NodeModel, StoredNumber, Value,
    ValueArray, ValueModel, FBX_VERSION_7500,
};
use crate::error::Error;
use crate::float_bits::{f32_to_i64, f64_to_i64};
use crate::wire::{
    lemma_u16_le_roundtrip, lemma_u32_le_roundtrip, lemma_zero_fields, lemma_u64_le_roundtrip, push_bytes, push_u16_le,
    push_u32_le, push_u64_le, u16_in, u16_le, u16_le_bytes, u32_in, u32_le, u32_le_bytes, u64_in,
    u64_le, u64_le_bytes,
};
use crate::writer::SaveOpts;

verus! {

/// Number of elements above which arrays are stored compressed.
pub const ARRAY_COMPRESS_THRESHOLD: usize = 128;

/// `n` zero bytes.
pub open spec fn zeros(n: nat) -> Seq<u8> {
    Seq::new(n, |i: int| 0u8)
}

/// The bytes of a property value: its type code and little-endian data.
/// Strings are written as `S` with their UTF-8 byte length; numbers given by
/// their integer reading are written as `L`.
pub open spec fn value_bytes(v: ValueModel) -> Seq<u8> {
    match v {
        ValueModel::Bool(b) => seq![0x43u8, if b { 1u8 } else { 0u8 }],
        ValueModel::Int16(x) => seq![0x59u8] + u16_le_bytes(x as u16),
        ValueModel::Int32(x) => seq![0x49u8] + u32_le_bytes(x as u32),
        ValueModel::Int64(x) => seq![0x4Cu8] + u64_le_bytes(x as u64),
        ValueModel::Float32(b) => seq![0x46u8] + u32_le_bytes(b),
        ValueModel::Float64(b) => seq![0x44u8] + u64_le_bytes(b),
        ValueModel::Str(s) => seq![0x53u8] + u32_le_bytes(encode_utf8(s).len() as u32) + encode_utf8(
            s,
        ),
        ValueModel::Number { i, .. } => seq![0x4Cu8] + u64_le_bytes(i as u64),
    }
}

/// The bytes of a sequence of values, one after another.
pub open spec fn values_bytes(vs: Seq<ValueModel>) -> Seq<u8>
    decreases vs.len(),
{
    if vs.len() == 0 {
        Seq::empty()
    } else {
        values_bytes(vs.drop_last()) + value_bytes(vs.last())
    }
}

/// Little-endian bytes of 32-bit words, one after another.
pub open spec fn le32_all(s: Seq<u32>) -> Seq<u8>
    decreases s.len(),
{
    if s.len() == 0 {
        Seq::empty()
    } else {
        le32_all(s.drop_last()) + u32_le_bytes(s.last())
    }
}

/// Little-endian bytes of 64-bit words, one after another.
pub open spec fn le64_all(s: Seq<u64>) -> Seq<u8>
    decreases s.len(),
{
    if s.len() == 0 {
        Seq::empty()
    } else {
        le64_all(s.drop_last()) + u64_le_bytes(s.last())
    }
}

/// The stored bytes of the elements of an array (none for strings).
pub open spec fn elements_bytes(a: ArrayModel) -> Seq<u8> {
    match a {
        ArrayModel::Bool(v) => Seq::new(v.len(), |k: int| if v[k] { 1u8 } else { 0u8 }),
        ArrayModel::I32(v) => le32_all(v.map_values(|x: i32| x as u32)),
        ArrayModel::I64(v) => le64_all(v.map_values(|x: i64| x as u64)),
        ArrayModel::F32(v) => le32_all(v),
        ArrayModel::F64(v) => le64_all(v),
        ArrayModel::U8(v) => v,
        ArrayModel::String(_) => Seq::empty(),
    }
}

/// The type code an array is written with.
pub open spec fn array_code(a: ArrayModel) -> u8 {
    match a {
        ArrayModel::Bool(_) => 0x62,
        ArrayModel::I32(_) => 0x69,
        ArrayModel::I64(_) => 0x6C,
        ArrayModel::F32(_) => 0x66,
        ArrayModel::F64(_) => 0x64,
        ArrayModel::U8(_) => 0x63,
        ArrayModel::String(_) => 0,
    }
}

/// What zlib compression at the default level makes of `raw`.
pub uninterp spec fn zlib_compressed(raw: Seq<u8>) -> Seq<u8>;

/// Whether zlib compression at the default level fails on `raw`.
pub uninterp spec fn zlib_deflate_fails(raw: Seq<u8>) -> bool;

/// Whether an array is stored compressed.
pub open spec fn compressed_when(a: ArrayModel, compress: bool) -> bool {
    compress && a.len() > ARRAY_COMPRESS_THRESHOLD
}

/// The bytes of an array property: type code, element count, encoding, byte
/// length of the stored data, and the data. String arrays cannot be written.
pub open spec fn array_bytes(a: ArrayModel, compress: bool) -> Option<Seq<u8>> {
    if a is String {
        None
    } else {
        let raw = elements_bytes(a);
        if compressed_when(a, compress) {
            let c = zlib_compressed(raw);
            Some(
                seq![array_code(a)] + u32_le_bytes(a.len() as u32) + u32_le_bytes(1) + u32_le_bytes(
                    c.len() as u32,
                ) + c,
            )
        } else {
            Some(
                seq![array_code(a)] + u32_le_bytes(a.len() as u32) + u32_le_bytes(0) + u32_le_bytes(
                    raw.len() as u32,
                ) + raw,
            )
        }
    }
}

/// Whether nodes are written with 64-bit header fields for this version.
pub open spec fn wide_version(version: u32) -> bool {
    version >= FBX_VERSION_7500
}

/// Size of the node headers written for this version.
pub open spec fn header_len(version: u32) -> nat {
    if wide_version(version) {
        25
    } else {
        13
    }
}

/// The header fields of a node: size, property count, property byte length.
pub open spec fn node_header_bytes(size: int, count: int, plen: int, wide: bool) -> Seq<u8> {
    if wide {
        u64_le_bytes(size as u64) + u64_le_bytes(count as u64) + u64_le_bytes(plen as u64)
    } else {
        u32_le_bytes(size as u32) + u32_le_bytes(count as u32) + u32_le_bytes(plen as u32)
    }
}

/// A node put together from the bytes of its name, properties and children:
/// header, name length, name, properties, children.
pub open spec fn assemble_node(name: Seq<u8>, props: Seq<u8>, kids: Seq<u8>, count: nat, version: u32) -> Seq<u8> {
    let size = header_len(version) + name.len() + props.len() + kids.len();
    node_header_bytes(size as int, count as int, props.len() as int, wide_version(version)) + seq![
        name.len() as u8,
    ] + name + props + kids
}

/// The bytes of a node: header, name, properties, children and, when there
/// are children, a zero header after them. The header's first field is the
/// node's size in bytes.
pub open spec fn node_bytes(n: NodeModel, version: u32, compress: bool) -> Option<Seq<u8>>
    decreases n,
{
    let arr = match n.array {
        None => Some(Seq::<u8>::empty()),
        Some(a) => array_bytes(a.data, compress),
    };
    match arr {
        None => None,
        Some(ab) => match nodes_bytes(n.children, version, compress) {
            None => None,
            Some(kb) => Some(
                assemble_node(
                    encode_utf8(n.name),
                    values_bytes(n.values) + ab,
                    if n.children.len() > 0 {
                        kb + zeros(header_len(version))
                    } else {
                        kb
                    },
                    n.values.len() + if n.array is Some {
                        1nat
                    } else {
                        0nat
                    },
                    version,
                ),
            ),
        },
    }
}

/// Whether compressing the elements of an array that is stored compressed fails.
pub open spec fn array_fails(a: ArrayModel, compress: bool) -> bool {
    !(a is String) && compressed_when(a, compress) && zlib_deflate_fails(elements_bytes(a))
}

/// Whether compression fails on the array of a node or of one below it.
pub open spec fn node_fails(n: NodeModel, compress: bool) -> bool
    decreases n,
{
    (n.array matches Some(a) && array_fails(a.data, compress)) || nodes_fail(n.children, compress)
}

/// Whether compression fails somewhere in a sequence of nodes.
pub open spec fn nodes_fail(s: Seq<NodeModel>, compress: bool) -> bool
    decreases s,
{
    if s.len() == 0 {
        false
    } else {
        nodes_fail(s.drop_last(), compress) || node_fails(s.last(), compress)
    }
}

/// The header that the reader takes from the bytes of a written node counts
/// its properties: its values, plus one when it has an array, so that the
/// array is read as one of them; its first field is the length of the
/// node's bytes and its name-length byte the length of the name's bytes.
pub proof fn lemma_written_node_header(n: NodeModel, version: u32, compress: bool)
    requires
        node_bytes(n, version, compress) is Some,
        n.values.len() < u32::MAX,
        encode_utf8(n.name).len() < 256,
    ensures
        ({
            let b = node_bytes(n, version, compress)->0;
            let h = node_header(b, 0, Format { big_endian: false, wide: wide_version(version) });
            &&& h.1 == n.values.len() + if n.array is Some {
                1nat
            } else {
                0nat
            }
            &&& h.3 == encode_utf8(n.name).len()
            &&& (b.len() <= u32::MAX ==> h.0 == b.len())
        }),
{
    reveal(u32_in);
    reveal(u64_in);
    let b = node_bytes(n, version, compress)->0;
    let count: nat = n.values.len() + if n.array is Some {
        1nat
    } else {
        0nat
    };
    let ab = match n.array {
        None => Seq::<u8>::empty(),
        Some(a) => array_bytes(a.data, compress)->0,
    };
    let kb = nodes_bytes(n.children, version, compress)->0;
    let name = encode_utf8(n.name);
    let props = values_bytes(n.values) + ab;
    let kids = if n.children.len() > 0 {
        kb + zeros(header_len(version))
    } else {
        kb
    };
    let size = header_len(version) + name.len() + props.len() + kids.len();
    assert(b == assemble_node(name, props, kids, count, version));
    let hb = node_header_bytes(size as int, count as int, props.len() as int, wide_version(version));
    if wide_version(version) {
        lemma_u64_le_roundtrip(size as u64);
        lemma_u64_le_roundtrip(count as u64);
        lemma_u64_le_roundtrip(props.len() as u64);
        assert(field(b, 0, 8) =~= u64_le_bytes(size as u64));
        assert(field(b, 8, 8) =~= u64_le_bytes(count as u64));
        assert(b[24] == name.len() as u8);
    } else {
        lemma_u32_le_roundtrip(size as u32);
        lemma_u32_le_roundtrip(count as u32);
        lemma_u32_le_roundtrip(props.len() as u32);
        assert(field(b, 0, 4) =~= u32_le_bytes(size as u32));
        assert(field(b, 4, 4) =~= u32_le_bytes(count as u32));
        assert(b[12] == name.len() as u8);
    }
}

/// The bytes of a sequence of nodes, one after another.
pub open spec fn nodes_bytes(s: Seq<NodeModel>, version: u32, compress: bool) -> Option<Seq<u8>>
    decreases s,
{
    if s.len() == 0 {
        Some(Seq::empty())
    } else {
        match nodes_bytes(s.drop_last(), version, compress) {
            None => None,
            Some(a) => match node_bytes(s.last(), version, compress) {
                None => None,
                Some(b) => Some(a + b),
            },
        }
    }
}

/// The file header: magic text, a zero byte for little-endian, the version.
pub open spec fn header_bytes(version: u32) -> Seq<u8> {
    fbx_magic() + seq![0u8] + u32_le_bytes(version)
}

/// The 16-byte footer marker for this version.
pub open spec fn footer_marker(version: u32) -> Seq<u8> {
    if version >= 7500 {
        seq![
            0xF8u8, 0x5A, 0x8C, 0x6A, 0xDE, 0xF5, 0xD9, 0x7E, 0xEC, 0xE9, 0x0C, 0xE3, 0x75, 0x8F,
            0x29, 0x0B,
        ]
    } else {
        seq![
            0xFAu8, 0xBC, 0xAB, 0x09, 0xD0, 0xC8, 0xD4, 0x66, 0xB1, 0x76, 0xFB, 0x83, 0x1C, 0xF7,
            0x26, 0x7E,
        ]
    }
}

/// The footer: 120 zero bytes, the marker, 4 zero bytes, the version, 100
/// zero bytes, and an 8-byte end marker.
pub open spec fn footer_bytes(version: u32) -> Seq<u8> {
    zeros(120) + footer_marker(version) + zeros(4) + u32_le_bytes(version) + zeros(100) + seq![
        0xF8u8,
        0x5A,
        0x8C,
        0x6A,
        0xDE,
        0xF5,
        0xD9,
        0x7E,
    ]
}

/// The bytes of a document whose top-level nodes are `nodes`.
pub open spec fn document_bytes(nodes: Seq<NodeModel>, version: u32, compress: bool) -> Option<
    Seq<u8>,
> {
    match nodes_bytes(nodes, version, compress) {
        None => None,
        Some(b) => Some(header_bytes(version) + b + zeros(header_len(version)) + footer_bytes(version)),
    }
}

/// `flate2::write::ZlibEncoder` at `Compression::default()` over a new vector:
/// `raw` written with `write_all`, then `finish`. What it gives decompresses
/// back to `raw`; whether it fails depends on `raw` alone.
#[verifier::external_body]
fn deflate(raw: &[u8]) -> (r: Result<Vec<u8>, std::io::Error>)
    ensures
        r matches Ok(c) ==> c@ == zlib_compressed(raw@) && zlib_prefix(c@, raw@.len()) == Some(raw@),
        r is Err <==> zlib_deflate_fails(raw@),
{
    let mut encoder = ZlibEncoder::new(Vec::new(), Compression::default());
    encoder.write_all(raw)?;
    encoder.finish()
}

/// Appends `n` zero bytes.
fn push_zeros(out: &mut Vec<u8>, n: usize)
    ensures
        final(out)@ == old(out)@ + zeros(n as nat),
{
    let mut k: usize = 0;
    while k < n
        invariant
            k <= n,
            out@ == old(out)@ + zeros(k as nat),
        decreases n - k,
    {
        out.push(0);
        assert(zeros((k + 1) as nat) =~= zeros(k as nat).push(0u8));
        k = k + 1;
    }
}

/// The stored bytes of the elements of a non-string array.
fn element_bytes(data: &ArrayData) -> (r: Vec<u8>)
    ensures
        r@ == elements_bytes(data@),
{
    let mut out: Vec<u8> = Vec::new();
    match data {
        ArrayData::Bool(v) => {
            let mut k: usize = 0;
            while k < v.len()
                invariant
                    k <= v@.len(),
                    out@ == Seq::new(k as nat, |j: int| if v@[j] { 1u8 } else { 0u8 }),
                decreases v@.len() - k,
            {
                out.push(if v[k] { 1u8 } else { 0u8 });
                k = k + 1;
                assert(out@ =~= Seq::new(k as nat, |j: int| if v@[j] { 1u8 } else { 0u8 }));
            }
        },
        ArrayData::I32(v) => {
            let ghost w = v@.map_values(|x: i32| x as u32);
            let mut k: usize = 0;
            while k < v.len()
                invariant
                    k <= v@.len(),
                    w == v@.map_values(|x: i32| x as u32),
                    out@ == le32_all(w.subrange(0, k as int)),
                decreases v@.len() - k,
            {
                push_u32_le(&mut out, v[k] as u32);
                assert(w.subrange(0, k + 1).drop_last() =~= w.subrange(0, k as int));
                k = k + 1;
            }
            assert(w.subrange(0, v@.len() as int) =~= w);
        },
        ArrayData::I64(v) => {
            let ghost w = v@.map_values(|x: i64| x as u64);
            let mut k: usize = 0;
            while k < v.len()
                invariant
                    k <= v@.len(),
                    w == v@.map_values(|x: i64| x as u64),
                    out@ == le64_all(w.subrange(0, k as int)),
                decreases v@.len() - k,
            {
                push_u64_le(&mut out, v[k] as u64);
                assert(w.subrange(0, k + 1).drop_last() =~= w.subrange(0, k as int));
                k = k + 1;
            }
            assert(w.subrange(0, v@.len() as int) =~= w);
        },
        ArrayData::F32(v) => {
            let mut k: usize = 0;
            while k < v.len()
                invariant
                    k <= v@.len(),
                    out@ == le32_all(v@.subrange(0, k as int)),
                decreases v@.len() - k,
            {
                push_u32_le(&mut out, v[k]);
                assert(v@.subrange(0, k + 1).drop_last() =~= v@.subrange(0, k as int));
                k = k + 1;
            }
            assert(v@.subrange(0, v@.len() as int) =~= v@);
        },
        ArrayData::F64(v) => {
            let mut k: usize = 0;
            while k < v.len()
                invariant
                    k <= v@.len(),
                    out@ == le64_all(v@.subrange(0, k as int)),
                decreases v@.len() - k,
            {
                push_u64_le(&mut out, v[k]);
                assert(v@.subrange(0, k + 1).drop_last() =~= v@.subrange(0, k as int));
                k = k + 1;
            }
            assert(v@.subrange(0, v@.len() as int) =~= v@);
        },
        ArrayData::U8(v) => {
            push_bytes(&mut out, v.as_slice());
            assert(out@ =~= v@);
        },
        ArrayData::String(_) => {
            assert(out@ =~= Seq::<u8>::empty());
        },
    }
    out
}


/// Whether writing gave the expected bytes: success appends them; it fails
/// exactly when the bytes cannot be written (a string array) or when the
/// compression of an array fails (`fails`), with the matching error.
pub open spec fn written(
    r: Result<(), Error>,
    before: Seq<u8>,
    after: Seq<u8>,
    expect: Option<Seq<u8>>,
    fails: bool,
) -> bool {
    &&& (r is Ok ==> (expect matches Some(b) && after == before + b))
    &&& (expect is None ==> r is Err)
    &&& (fails ==> r is Err)
    &&& (expect is Some && !fails ==> r is Ok)
    &&& (r matches Err(e) ==> ((expect is None && (e matches Error::UnsupportedVersion { version }
        && version == 0)) || (fails && e is Io)))
}

/// Appends the bytes of a property value.
fn push_value(buf: &mut Vec<u8>, value: &Value)
    ensures
        final(buf)@ == old(buf)@ + value_bytes(value@),
{
    match value {
        Value::Bool(v) => {
            buf.push(0x43);
            buf.push(if *v { 1u8 } else { 0u8 });
        },
        Value::Int16(v) => {
            buf.push(0x59);
            push_u16_le(buf, *v as u16);
        },
        Value::Int32(v) => {
            buf.push(0x49);
            push_u32_le(buf, *v as u32);
        },
        Value::Int64(v) => {
            buf.push(0x4C);
            push_u64_le(buf, *v as u64);
        },
        Value::Float32(v) => {
            buf.push(0x46);
            push_u32_le(buf, *v);
        },
        Value::Float64(v) => {
            buf.push(0x44);
            push_u64_le(buf, *v);
        },
        Value::String(s) => {
            let text = s.as_str();
            let bytes = text.as_bytes();
            buf.push(0x53);
            push_u32_le(buf, bytes.len() as u32);
            push_bytes(buf, bytes);
        },
        Value::Number { i, .. } => {
            buf.push(0x4C);
            push_u64_le(buf, *i as u64);
        },
    }
    assert(final(buf)@ =~= old(buf)@ + value_bytes(value@));
}

/// Whether the bytes of `d` from `p` to its end hold the array `a` with its
/// type code: the parser reads `a` back from them, ending at the end.
pub open spec fn array_read_back(d: Seq<u8>, p: int, a: ArrayModel) -> bool {
    &&& 0 <= p < d.len()
    &&& d[p] == array_code(a)
    &&& array_at(d, p + 1, false, array_code(a)) == Ok::<(ValueArrayModel, int), Fault>(
        (ValueArrayModel { data: a, array_type: array_code(a) as char }, d.len() as int),
    )
}

/// Appends the bytes of an array property.
fn push_array(buf: &mut Vec<u8>, array: &ValueArray, compress: bool) -> (r: Result<(), Error>)
    ensures
        written(r, old(buf)@, final(buf)@, array_bytes(array@.data, compress), array_fails(array@.data, compress)),
        r is Ok && array_fits(array@.data, compress) ==> array_read_back(
            final(buf)@,
            old(buf)@.len() as int,
            array@.data,
        ),
{
    let code: u8 = match &array.data {
        ArrayData::Bool(_) => 0x62,
        ArrayData::I32(_) => 0x69,
        ArrayData::I64(_) => 0x6C,
        ArrayData::F32(_) => 0x66,
        ArrayData::F64(_) => 0x64,
        ArrayData::U8(_) => 0x63,
        ArrayData::String(_) => {
            return Err(Error::UnsupportedVersion { version: 0 });
        },
    };
    let n = array.data.len();
    let raw = element_bytes(&array.data);
    let raw_len = raw.len();
    let should_compress = compress && n > ARRAY_COMPRESS_THRESHOLD;
    if should_compress {
        let compressed = match deflate(raw.as_slice()) {
            Ok(c) => c,
            Err(e) => {
                return Err(Error::from_io_error(e));
            },
        };
        buf.push(code);
        push_u32_le(buf, n as u32);
        push_u32_le(buf, 1);
        push_u32_le(buf, compressed.len() as u32);
        push_bytes(buf, compressed.as_slice());
        proof {
            assert(inflates_back(array@.data));
        }
    } else {
        buf.push(code);
        push_u32_le(buf, n as u32);
        push_u32_le(buf, 0);
        push_u32_le(buf, raw.len() as u32);
        push_bytes(buf, raw.as_slice());
    }
    assert(final(buf)@ =~= old(buf)@ + array_bytes(array@.data, compress)->0);
    proof {
        if array_fits(array@.data, compress) {
            let b = array_bytes(array@.data, compress)->0;
            assert(final(buf)@.subrange(old(buf)@.len() as int, (old(buf)@.len() + b.len()) as int) =~= b);
            lemma_array_read_back(array@.data, compress, final(buf)@, old(buf)@.len() as int);
        }
    }
    Ok(())
}

/// Views of nodes, index by index.
pub(crate) proof fn lemma_nodes_model_index(s: Seq<FbxNode>)
    ensures
        nodes_model(s).len() == s.len(),
        forall|i: int| 0 <= i < s.len() ==> #[trigger] nodes_model(s)[i] == s[i]@,
    decreases s.len(),
{
    if s.len() > 0 {
        lemma_nodes_model_index(s.drop_last());
    }
}

/// The bytes of nodes cannot be written when those of a first part cannot.
proof fn lemma_nodes_bytes_prefix(s: Seq<NodeModel>, j: int, version: u32, compress: bool)
    requires
        0 <= j <= s.len(),
        nodes_bytes(s.subrange(0, j), version, compress) is None,
    ensures
        nodes_bytes(s, version, compress) is None,
    decreases s.len() - j,
{
    if j < s.len() {
        assert(s.subrange(0, j + 1).drop_last() =~= s.subrange(0, j));
        lemma_nodes_bytes_prefix(s, j + 1, version, compress);
    } else {
        assert(s.subrange(0, j) =~= s);
    }
}

/// Compression fails on nodes when it fails on a first part of them.
proof fn lemma_nodes_fail_prefix(s: Seq<NodeModel>, j: int, compress: bool)
    requires
        0 <= j <= s.len(),
        nodes_fail(s.subrange(0, j), compress),
    ensures
        nodes_fail(s, compress),
    decreases s.len() - j,
{
    if j < s.len() {
        assert(s.subrange(0, j + 1).drop_last() =~= s.subrange(0, j));
        lemma_nodes_fail_prefix(s, j + 1, compress);
    } else {
        assert(s.subrange(0, j) =~= s);
    }
}

/// The bytes of the properties of a node: its values, then its array.
fn properties_bytes(node: &FbxNode, compress: bool) -> (r: Result<Vec<u8>, Error>)
    ensures
        match node@.array {
            None => r matches Ok(v) && v@ == values_bytes(node@.values),
            Some(a) => match array_bytes(a.data, compress) {
                None => r is Err,
                Some(ab) => (r matches Ok(v) ==> v@ == values_bytes(node@.values) + ab) && (!array_fails(
                    a.data,
                    compress,
                ) ==> r is Ok),
            },
        },
        (node@.array matches Some(a) && array_fails(a.data, compress)) ==> r is Err,
        r matches Err(e) ==> ((node@.array matches Some(a) && array_bytes(a.data, compress) is None
            && (e matches Error::UnsupportedVersion { version } && version == 0)) || ((node@.array matches Some(
            a,
        ) && array_fails(a.data, compress)) && e is Io)),
{
    let ghost vm = values_model(node.values@);
    let mut property_data: Vec<u8> = Vec::new();
    let mut i: usize = 0;
    while i < node.values.len()
        invariant
            i <= node.values@.len(),
            vm == values_model(node.values@),
            property_data@ == values_bytes(vm.subrange(0, i as int)),
        decreases node.values@.len() - i,
    {
        push_value(&mut property_data, &node.values[i]);
        assert(vm.subrange(0, i + 1).drop_last() =~= vm.subrange(0, i as int));
        i = i + 1;
    }
    assert(vm.subrange(0, node.values@.len() as int) =~= vm);
    match &node.array {
        Some(a) => {
            match push_array(&mut property_data, a, compress) {
                Err(e) => {
                    return Err(e);
                },
                Ok(()) => {},
            }
        },
        None => {},
    }
    Ok(property_data)
}

/// The bytes of the children of a node, one after another.
fn children_bytes(node: &FbxNode, version: u32, compress: bool, depth: u32) -> (r: Result<Vec<u8>, Error>)
    ensures
        match nodes_bytes(node@.children, version, compress) {
            None => r is Err,
            Some(b) => (r matches Ok(v) ==> v@ == b) && (!nodes_fail(node@.children, compress) ==> r is Ok),
        },
        nodes_fail(node@.children, compress) ==> r is Err,
        r matches Err(e) ==> ((nodes_bytes(node@.children, version, compress) is None && (e matches Error::UnsupportedVersion { version } && version == 0)) || (nodes_fail(node@.children, compress)
            && e is Io)),
    decreases node, 0int,
{
    let ghost kids = nodes_model(node.children@);
    proof {
        lemma_nodes_model_index(node.children@);
    }
    let child_depth = if depth < u32::MAX {
        depth + 1
    } else {
        depth
    };
    let mut children_data: Vec<u8> = Vec::new();
    let mut k: usize = 0;
    assert(kids.subrange(0, 0) =~= Seq::<NodeModel>::empty());
    while k < node.children.len()
        invariant
            k <= node.children@.len(),
            kids == nodes_model(node.children@),
            kids.len() == node.children@.len(),
            forall|j: int| 0 <= j < kids.len() ==> #[trigger] kids[j] == node.children@[j]@,
            nodes_bytes(kids.subrange(0, k as int), version, compress) == Some(children_data@),
            !nodes_fail(kids.subrange(0, k as int), compress),
        decreases node.children@.len() - k,
    {
        let r = push_node(&mut children_data, &node.children[k], version, compress, child_depth);
        assert(kids.subrange(0, k + 1).drop_last() =~= kids.subrange(0, k as int));
        assert(kids.subrange(0, k + 1).last() == kids[k as int]);
        match r {
            Err(e) => {
                proof {
                    if node_fails(kids[k as int], compress) {
                        lemma_nodes_fail_prefix(kids, k + 1, compress);
                    }
                    if node_bytes(kids[k as int], version, compress) is None {
                        lemma_nodes_bytes_prefix(kids, k + 1, version, compress);
                    }
                }
                return Err(e);
            },
            Ok(()) => {},
        }
        k = k + 1;
    }
    assert(kids.subrange(0, node.children@.len() as int) =~= kids);
    Ok(children_data)
}

/// Appends the bytes of a node.
fn push_node(buf: &mut Vec<u8>, node: &FbxNode, version: u32, compress: bool, depth: u32) -> (r:
    Result<(), Error>)
    ensures
        written(r, old(buf)@, final(buf)@, node_bytes(node@, version, compress), node_fails(node@, compress)),
    decreases node, 1int,
{
    let property_data = match properties_bytes(node, compress) {
        Err(e) => {
            return Err(e);
        },
        Ok(p) => p,
    };
    let mut children_data = match children_bytes(node, version, compress, depth) {
        Err(e) => {
            return Err(e);
        },
        Ok(c) => c,
    };
    let wide = version >= FBX_VERSION_7500;
    let header_size: usize = if wide {
        25
    } else {
        13
    };
    if node.children.len() > 0 {
        push_zeros(&mut children_data, header_size);
    }
    let name = node.name.as_str().as_bytes();
    let count: u128 = node.values.len() as u128 + if node.array.is_some() {
        1u128
    } else {
        0u128
    };
    push_assembled(buf, name, property_data.as_slice(), children_data.as_slice(), count, version);
    Ok(())
}

/// Appends the header fields of a node.
fn push_node_header(buf: &mut Vec<u8>, size: u128, count: u128, plen: usize, wide: bool)
    ensures
        final(buf)@ == old(buf)@ + node_header_bytes(size as int, count as int, plen as int, wide),
{
    if wide {
        push_u64_le(buf, size as u64);
        push_u64_le(buf, count as u64);
        push_u64_le(buf, plen as u64);
    } else {
        push_u32_le(buf, size as u32);
        push_u32_le(buf, count as u32);
        push_u32_le(buf, plen as u32);
    }
    assert(final(buf)@ =~= old(buf)@ + node_header_bytes(size as int, count as int, plen as int, wide));
}

/// Appends a node put together from the bytes of its name, properties and children.
fn push_assembled(buf: &mut Vec<u8>, name: &[u8], props: &[u8], kids: &[u8], count: u128, version: u32)
    ensures
        final(buf)@ == old(buf)@ + assemble_node(name@, props@, kids@, count as nat, version),
{
    let wide = version >= FBX_VERSION_7500;
    let header_size: u128 = if wide {
        25
    } else {
        13
    };
    let size: u128 = header_size + name.len() as u128 + props.len() as u128 + kids.len() as u128;
    push_node_header(buf, size, count, props.len(), wide);
    let ghost h = buf@;
    buf.push(name.len() as u8);
    push_bytes(buf, name);
    push_bytes(buf, props);
    push_bytes(buf, kids);
    assert(final(buf)@ =~= h + seq![name.len() as u8] + name@ + props@ + kids@);
}

/// Writes binary FBX documents into a byte vector.
pub struct BinaryWriter {
    /// The bytes written so far.
    pub writer: Vec<u8>,
    /// FBX version to write.
    pub version: u32,
    /// Whether arrays of more than 128 elements are stored compressed.
    pub compress_arrays: bool,
}

impl BinaryWriter {
    /// A writer appending to `writer`.
    pub fn new(writer: Vec<u8>, version: u32, compress_arrays: bool) -> (r: Self)
        ensures
            r.writer == writer,
            r.version == version,
            r.compress_arrays == compress_arrays,
    {
        BinaryWriter { writer, version, compress_arrays }
    }

    /// Writes the file header. The parser reads it back as the writer's
    /// version with little-endian fields.
    pub fn write_header(&mut self) -> (r: Result<(), Error>)
        ensures
            r is Ok,
            final(self).writer@ == old(self).writer@ + header_bytes(old(self).version),
            header_at(final(self).writer@, old(self).writer@.len() as int) == Ok::<(u32, bool, int), Fault>(
                (old(self).version, false, final(self).writer@.len() as int),
            ),
            final(self).version == old(self).version,
            final(self).compress_arrays == old(self).compress_arrays,
    {
        let ghost start = self.writer@;
        let magic: [u8; 22] = [
            0x4B, 0x61, 0x79, 0x64, 0x61, 0x72, 0x61, 0x20, 0x46, 0x42, 0x58, 0x20, 0x42, 0x69,
            0x6E, 0x61, 0x72, 0x79, 0x20, 0x20, 0x00, 0x1A,
        ];
        assert(magic@ =~= fbx_magic());
        push_bytes(&mut self.writer, &magic);
        self.writer.push(0);
        push_u32_le(&mut self.writer, self.version);
        assert(self.writer@ =~= start + header_bytes(self.version));
        proof {
            let d = self.writer@;
            let p = start.len() as int;
            let h = header_bytes(self.version);
            lemma_u32_le_roundtrip(self.version);
            assert(d.subrange(p, p + h.len()) =~= h);
            assert(h.subrange(0, 22) =~= fbx_magic());
            lemma_field_within(d, p, h, 0, fbx_magic());
            assert(h.subrange(23, 27) =~= u32_le_bytes(self.version));
            lemma_field_within(d, p, h, 23, u32_le_bytes(self.version));
            assert(d[p + 22] == h[22]);
        }
        Ok(())
    }

    /// Appends the bytes of a property value to `buf`.
    pub fn write_property_to_buffer(&self, buf: &mut Vec<u8>, value: &Value) -> (r: Result<(), Error>)
        ensures
            r is Ok,
            final(buf)@ == old(buf)@ + value_bytes(value@),
            value_fits(value@) ==> property_at(final(buf)@, old(buf)@.len() as int, false) == Ok::<
                (Option<ValueModel>, int),
                Fault,
            >((Some(value_read_back(value@)), final(buf)@.len() as int)),
    {
        push_value(buf, value);
        proof {
            if value_fits(value@) {
                assert(final(buf)@.subrange(old(buf)@.len() as int, final(buf)@.len() as int) =~= value_bytes(value@));
                lemma_value_read_back(value@, final(buf)@, old(buf)@.len() as int);
            }
        }
        Ok(())
    }

    /// Appends the bytes of an array property to `buf`.
    pub fn write_array_to_buffer(&self, buf: &mut Vec<u8>, array: &ValueArray) -> (r: Result<(), Error>)
        ensures
            written(r, old(buf)@, final(buf)@, array_bytes(array@.data, self.compress_arrays), array_fails(array@.data, self.compress_arrays)),
            r is Ok && array_fits(array@.data, self.compress_arrays) ==> array_read_back(
                final(buf)@,
                old(buf)@.len() as int,
                array@.data,
            ),
    {
        push_array(buf, array, self.compress_arrays)
    }

    /// Writes a node with its properties and children.
    pub fn write_node(&mut self, node: &FbxNode, depth: u32) -> (r: Result<(), Error>)
        ensures
            written(r, old(self).writer@, final(self).writer@, node_bytes(node@, old(self).version, old(self).compress_arrays), node_fails(node@, old(self).compress_arrays)),
            final(self).version == old(self).version,
            final(self).compress_arrays == old(self).compress_arrays,
    {
        push_node(&mut self.writer, node, self.version, self.compress_arrays, depth)
    }

    /// Writes the zero node header that ends a list of nodes. The parser
    /// reads it as the end of a list at any depth it accepts.
    pub fn write_null_node(&mut self) -> (r: Result<(), Error>)
        ensures
            r is Ok,
            final(self).writer@ == old(self).writer@ + zeros(header_len(old(self).version)),
            forall|depth: nat|
                depth < MAX_NODE_DEPTH ==> #[trigger] node_at(
                    final(self).writer@,
                    old(self).writer@.len() as int,
                    depth,
                    Format { big_endian: false, wide: wide_version(old(self).version) },
                ) == Ok::<(Option<NodeModel>, int), Fault>((None, final(self).writer@.len() as int)),
            final(self).version == old(self).version,
            final(self).compress_arrays == old(self).compress_arrays,
    {
        let null_size: usize = if self.version >= FBX_VERSION_7500 {
            25
        } else {
            13
        };
        let ghost start = self.writer@;
        push_zeros(&mut self.writer, null_size);
        proof {
            let d = self.writer@;
            let p = start.len() as int;
            let fmt = Format { big_endian: false, wide: wide_version(self.version) };
            lemma_zero_fields();
            if fmt.wide {
                assert(field(d, p, 8) =~= zeros(8));
                assert(field(d, p + 8, 8) =~= zeros(8));
                assert(field(d, p + 16, 8) =~= zeros(8));
            } else {
                assert(field(d, p, 4) =~= zeros(4));
                assert(field(d, p + 4, 4) =~= zeros(4));
                assert(field(d, p + 8, 4) =~= zeros(4));
            }
            assert(node_header(d, p, fmt) == (0u64, 0u64, 0u64, 0u8));
            assert forall|depth: nat| depth < MAX_NODE_DEPTH implies #[trigger] node_at(d, p, depth, fmt)
                == Ok::<(Option<NodeModel>, int), Fault>((None, d.len() as int)) by {
                reveal(node_at);
            }
        }
        Ok(())
    }

    /// Writes the footer.
    pub fn write_footer(&mut self) -> (r: Result<(), Error>)
        ensures
            r is Ok,
            final(self).writer@ == old(self).writer@ + footer_bytes(old(self).version),
            final(self).version == old(self).version,
            final(self).compress_arrays == old(self).compress_arrays,
    {
        let ghost start = self.writer@;
        push_zeros(&mut self.writer, 120);
        let marker: [u8; 16] = if self.version >= 7500 {
            [
                0xF8, 0x5A, 0x8C, 0x6A, 0xDE, 0xF5, 0xD9, 0x7E, 0xEC, 0xE9, 0x0C, 0xE3, 0x75, 0x8F,
                0x29, 0x0B,
            ]
        } else {
            [
                0xFA, 0xBC, 0xAB, 0x09, 0xD0, 0xC8, 0xD4, 0x66, 0xB1, 0x76, 0xFB, 0x83, 0x1C, 0xF7,
                0x26, 0x7E,
            ]
        };
        assert(marker@ =~= footer_marker(self.version));
        push_bytes(&mut self.writer, &marker);
        push_zeros(&mut self.writer, 4);
        push_u32_le(&mut self.writer, self.version);
        push_zeros(&mut self.writer, 100);
        let end: [u8; 8] = [0xF8, 0x5A, 0x8C, 0x6A, 0xDE, 0xF5, 0xD9, 0x7E];
        push_bytes(&mut self.writer, &end);
        assert(self.writer@ =~= start + footer_bytes(self.version));
        Ok(())
    }

    /// Writes a whole document: header, the top-level nodes (the children of
    /// the document's root), the zero header that ends them, and the footer.
    pub fn write_document(&mut self, doc: &FbxDocument) -> (r: Result<(), Error>)
        ensures
            written(r, old(self).writer@, final(self).writer@, document_bytes(doc@.root.children, old(self).version, old(self).compress_arrays), nodes_fail(doc@.root.children, old(self).compress_arrays)),
            doc@.root.children.len() == 0 ==> r is Ok,
            final(self).version == old(self).version,
            final(self).compress_arrays == old(self).compress_arrays,
    {
        let ghost start = self.writer@;
        let ghost version = self.version;
        let ghost compress = self.compress_arrays;
        self.write_header();
        let ghost kids = nodes_model(doc.root.children@);
        proof {
            lemma_nodes_model_index(doc.root.children@);
        }
        let ghost after_header = self.writer@;
        let mut k: usize = 0;
        assert(kids.subrange(0, 0) =~= Seq::<NodeModel>::empty());
        assert(after_header =~= after_header + Seq::<u8>::empty());
        while k < doc.root.children.len()
            invariant
                k <= doc.root.children@.len(),
                self.version == version,
                self.compress_arrays == compress,
                kids == nodes_model(doc.root.children@),
                kids.len() == doc.root.children@.len(),
                forall|j: int| 0 <= j < kids.len() ==> #[trigger] kids[j] == doc.root.children@[j]@,
                after_header == start + header_bytes(version),
                start == old(self).writer@,
                version == old(self).version,
                compress == old(self).compress_arrays,
                nodes_bytes(kids.subrange(0, k as int), version, compress) matches Some(b)
                    && self.writer@ == after_header + b,
                !nodes_fail(kids.subrange(0, k as int), compress),
            decreases doc.root.children@.len() - k,
        {
            let ghost before = self.writer@;
            let r = self.write_node(&doc.root.children[k], 0);
            assert(kids.subrange(0, k + 1).drop_last() =~= kids.subrange(0, k as int));
            assert(kids.subrange(0, k + 1).last() == kids[k as int]);
            match r {
                Err(e) => {
                    proof {
                        if node_fails(kids[k as int], compress) {
                            lemma_nodes_fail_prefix(kids, k + 1, compress);
                        }
                        if node_bytes(kids[k as int], version, compress) is None {
                            lemma_nodes_bytes_prefix(kids, k + 1, version, compress);
                        }
                    }
                    return Err(e);
                },
                Ok(()) => {},
            }
            k = k + 1;
        }
        assert(kids.subrange(0, doc.root.children@.len() as int) =~= kids);
        self.write_null_node();
        self.write_footer();
        assert(self.writer@ =~= start + document_bytes(kids, version, compress)->0);
        Ok(())
    }
}

/// Writes a document to binary FBX bytes with the version and compression
/// of `opts`.
pub fn write_binary(doc: &FbxDocument, opts: &SaveOpts) -> (r: Result<Vec<u8>, Error>)
    ensures
        match document_bytes(doc@.root.children, opts.version, opts.compress_arrays) {
            Some(b) => (r matches Ok(v) ==> v@ == b) && (!nodes_fail(doc@.root.children, opts.compress_arrays)
                ==> r is Ok),
            None => r is Err,
        },
        nodes_fail(doc@.root.children, opts.compress_arrays) ==> r is Err,
        r matches Err(e) ==> ((e is UnsupportedVersion && document_bytes(
            doc@.root.children,
            opts.version,
            opts.compress_arrays,
        ) is None) || (nodes_fail(doc@.root.children, opts.compress_arrays) && e is Io)),
        doc@.root.children.len() == 0 ==> (r matches Ok(v) && document_at(v@, 0) == Ok::<DocModel, Fault>(
            DocModel { version: opts.version, big_endian: false, root: root_model(Seq::empty()) },
        )),
{
    proof {
        lemma_empty_document_read_back(opts.version, opts.compress_arrays);
        if doc@.root.children.len() == 0 {
            assert(doc@.root.children =~= Seq::<NodeModel>::empty());
        }
    }
    let mut writer = BinaryWriter::new(Vec::new(), opts.version, opts.compress_arrays);
    match writer.write_document(doc) {
        Ok(()) => {
            assert(writer.writer@ =~= document_bytes(doc@.root.children, opts.version, opts.compress_arrays)->0);
            Ok(writer.writer)
        },
        Err(e) => Err(e),
    }
}

/// What the parser gives back for the bytes of a written value: numbers come
/// back as integer or float readings, booleans as 0 or 1, strings unchanged.
pub open spec fn value_read_back(v: ValueModel) -> ValueModel {
    match v {
        ValueModel::Bool(b) => int_number(if b { 1 } else { 0 }),
        ValueModel::Int16(x) => int_number(x as i64),
        ValueModel::Int32(x) => int_number(x as i64),
        ValueModel::Int64(x) => int_number(x),
        ValueModel::Float32(b) => ValueModel::Number { i: f32_to_i64(b), f: StoredNumber::Single(b) },
        ValueModel::Float64(b) => ValueModel::Number { i: f64_to_i64(b), f: StoredNumber::Double(b) },
        ValueModel::Str(s) => ValueModel::Str(s),
        ValueModel::Number { i, .. } => int_number(i),
    }
}

/// Whether a value's bytes can hold it: a string's length must fit the
/// 32-bit length field.
pub open spec fn value_fits(v: ValueModel) -> bool {
    match v {
        ValueModel::Str(s) => encode_utf8(s).len() <= u32::MAX,
        _ => true,
    }
}

/// A part of bytes found at `p` in `d` is found at its offset from `p`.
proof fn lemma_field_within(d: Seq<u8>, p: int, b: Seq<u8>, off: int, part: Seq<u8>)
    requires
        0 <= p,
        p + b.len() <= d.len(),
        d.subrange(p, p + b.len()) == b,
        0 <= off,
        off + part.len() <= b.len(),
        b.subrange(off, off + part.len()) == part,
    ensures
        field(d, p + off, part.len() as int) == part,
{
    assert forall|i: int| 0 <= i < part.len() implies field(d, p + off, part.len() as int)[i] == part[i] by {
        assert(d.subrange(p, p + b.len())[off + i] == b[off + i]);
        assert(b.subrange(off, off + part.len())[i] == b[off + i]);
    }
    assert(field(d, p + off, part.len() as int) =~= part);
}

/// Reading a property from the bytes written for an integer value gives its
/// integer reading back.
proof fn lemma_integer_read_back(v: ValueModel, d: Seq<u8>, p: int)
    requires
        v is Bool || v is Int16 || v is Int32 || v is Int64 || v is Number,
        0 <= p,
        p + value_bytes(v).len() <= d.len(),
        d.subrange(p, p + value_bytes(v).len()) == value_bytes(v),
    ensures
        property_at(d, p, false) == Ok::<(Option<ValueModel>, int), Fault>(
            (Some(value_read_back(v)), p + value_bytes(v).len()),
        ),
{
    reveal(scalar_at);
    let b = value_bytes(v);
    assert(d[p] == b[0]);
    match v {
        ValueModel::Bool(x) => {
            assert(d[p + 1] == b[1]);
        },
        ValueModel::Int16(x) => {
            lemma_u16_le_roundtrip(x as u16);
            assert(b.subrange(1, 3) =~= u16_le_bytes(x as u16));
            lemma_field_within(d, p, b, 1, u16_le_bytes(x as u16));
            assert((x as u16) as i16 == x) by (bit_vector);
        },
        ValueModel::Int32(x) => {
            lemma_u32_le_roundtrip(x as u32);
            assert(b.subrange(1, 5) =~= u32_le_bytes(x as u32));
            lemma_field_within(d, p, b, 1, u32_le_bytes(x as u32));
            assert((x as u32) as i32 == x) by (bit_vector);
        },
        ValueModel::Int64(x) => {
            lemma_u64_le_roundtrip(x as u64);
            assert(b.subrange(1, 9) =~= u64_le_bytes(x as u64));
            lemma_field_within(d, p, b, 1, u64_le_bytes(x as u64));
            assert((x as u64) as i64 == x) by (bit_vector);
        },
        ValueModel::Number { i, .. } => {
            lemma_u64_le_roundtrip(i as u64);
            assert(b.subrange(1, 9) =~= u64_le_bytes(i as u64));
            lemma_field_within(d, p, b, 1, u64_le_bytes(i as u64));
            assert((i as u64) as i64 == i) by (bit_vector);
        },
        _ => {},
    }
}

/// Reading a property from the bytes written for a float value gives its
/// bits back, with their integer reading.
proof fn lemma_float_read_back(v: ValueModel, d: Seq<u8>, p: int)
    requires
        v is Float32 || v is Float64,
        0 <= p,
        p + value_bytes(v).len() <= d.len(),
        d.subrange(p, p + value_bytes(v).len()) == value_bytes(v),
    ensures
        property_at(d, p, false) == Ok::<(Option<ValueModel>, int), Fault>(
            (Some(value_read_back(v)), p + value_bytes(v).len()),
        ),
{
    reveal(scalar_at);
    let b = value_bytes(v);
    assert(d[p] == b[0]);
    match v {
        ValueModel::Float32(x) => {
            lemma_u32_le_roundtrip(x);
            assert(b.subrange(1, 5) =~= u32_le_bytes(x));
            lemma_field_within(d, p, b, 1, u32_le_bytes(x));
        },
        ValueModel::Float64(x) => {
            lemma_u64_le_roundtrip(x);
            assert(b.subrange(1, 9) =~= u64_le_bytes(x));
            lemma_field_within(d, p, b, 1, u64_le_bytes(x));
        },
        _ => {},
    }
}

/// Reading a property from the bytes written for a string gives the string.
proof fn lemma_string_read_back(t: Seq<char>, d: Seq<u8>, p: int)
    requires
        encode_utf8(t).len() <= u32::MAX,
        0 <= p,
        p + value_bytes(ValueModel::Str(t)).len() <= d.len(),
        d.subrange(p, p + value_bytes(ValueModel::Str(t)).len()) == value_bytes(ValueModel::Str(t)),
    ensures
        property_at(d, p, false) == Ok::<(Option<ValueModel>, int), Fault>(
            (Some(ValueModel::Str(t)), p + value_bytes(ValueModel::Str(t)).len()),
        ),
{
    reveal(scalar_at);
    let b = value_bytes(ValueModel::Str(t));
    let e = encode_utf8(t);
    assert(d[p] == b[0]);
    lemma_u32_le_roundtrip(e.len() as u32);
    assert(b.subrange(1, 5) =~= u32_le_bytes(e.len() as u32));
    lemma_field_within(d, p, b, 1, u32_le_bytes(e.len() as u32));
    assert(b.subrange(5, 5 + e.len() as int) =~= e);
    lemma_field_within(d, p, b, 5, e);
    encode_utf8_valid_utf8(t);
    encode_utf8_decode_utf8(t);
}

/// Reading a property from the bytes written for a value gives the value
/// back as [`value_read_back`] says, and ends right after those bytes.
pub proof fn lemma_value_read_back(v: ValueModel, d: Seq<u8>, p: int)
    requires
        value_fits(v),
        0 <= p,
        p + value_bytes(v).len() <= d.len(),
        d.subrange(p, p + value_bytes(v).len()) == value_bytes(v),
    ensures
        property_at(d, p, false) == Ok::<(Option<ValueModel>, int), Fault>(
            (Some(value_read_back(v)), p + value_bytes(v).len()),
        ),
{
    match v {
        ValueModel::Str(t) => lemma_string_read_back(t, d, p),
        ValueModel::Float32(_) => lemma_float_read_back(v, d, p),
        ValueModel::Float64(_) => lemma_float_read_back(v, d, p),
        _ => lemma_integer_read_back(v, d, p),
    }
}


/// Little-endian words laid out one after another: four bytes each.
proof fn lemma_le32_all(s: Seq<u32>)
    ensures
        le32_all(s).len() == 4 * s.len(),
        forall|k: int| 0 <= k < s.len() ==> #[trigger] field(le32_all(s), 4 * k, 4) == u32_le_bytes(s[k]),
    decreases s.len(),
{
    if s.len() > 0 {
        let t = s.drop_last();
        lemma_le32_all(t);
        lemma_u32_le_roundtrip(s.last());
        let all = le32_all(s);
        assert forall|k: int| 0 <= k < s.len() implies #[trigger] field(all, 4 * k, 4) == u32_le_bytes(s[k]) by {
            if k < t.len() {
                assert(field(all, 4 * k, 4) =~= field(le32_all(t), 4 * k, 4));
            } else {
                assert(field(all, 4 * k, 4) =~= u32_le_bytes(s.last()));
            }
        }
    }
}

/// Little-endian double words laid out one after another: eight bytes each.
proof fn lemma_le64_all(s: Seq<u64>)
    ensures
        le64_all(s).len() == 8 * s.len(),
        forall|k: int| 0 <= k < s.len() ==> #[trigger] field(le64_all(s), 8 * k, 8) == u64_le_bytes(s[k]),
    decreases s.len(),
{
    if s.len() > 0 {
        let t = s.drop_last();
        lemma_le64_all(t);
        lemma_u64_le_roundtrip(s.last());
        let all = le64_all(s);
        assert forall|k: int| 0 <= k < s.len() implies #[trigger] field(all, 8 * k, 8) == u64_le_bytes(s[k]) by {
            if k < t.len() {
                assert(field(all, 8 * k, 8) =~= field(le64_all(t), 8 * k, 8));
            } else {
                assert(field(all, 8 * k, 8) =~= u64_le_bytes(s.last()));
            }
        }
    }
}

/// Decoding the stored bytes of an array's elements gives the elements back.
pub proof fn lemma_elements_decode(a: ArrayModel)
    requires
        !(a is String),
    ensures
        is_array_code(array_code(a)),
        elements_bytes(a).len() == elem_size(array_code(a)) * a.len(),
        decode_array(elements_bytes(a), array_code(a), a.len(), false) == a,
{
    match a {
        ArrayModel::Bool(v) => {
            assert(decode_array(elements_bytes(a), array_code(a), a.len(), false)->Bool_0 =~= v);
        },
        ArrayModel::U8(v) => {},
        ArrayModel::I32(v) => {
            let w = v.map_values(|x: i32| x as u32);
            lemma_le32_all(w);
            assert forall|k: int| 0 <= k < v.len() implies u32_in(field(le32_all(w), 4 * k, 4), false) as i32 == v[k] by {
                lemma_u32_le_roundtrip(w[k]);
                let x = v[k];
                assert((x as u32) as i32 == x) by (bit_vector);
            }
            assert(decode_array(elements_bytes(a), array_code(a), a.len(), false)->I32_0 =~= v);
        },
        ArrayModel::I64(v) => {
            let w = v.map_values(|x: i64| x as u64);
            lemma_le64_all(w);
            assert forall|k: int| 0 <= k < v.len() implies u64_in(field(le64_all(w), 8 * k, 8), false) as i64 == v[k] by {
                lemma_u64_le_roundtrip(w[k]);
                let x = v[k];
                assert((x as u64) as i64 == x) by (bit_vector);
            }
            assert(decode_array(elements_bytes(a), array_code(a), a.len(), false)->I64_0 =~= v);
        },
        ArrayModel::F32(v) => {
            lemma_le32_all(v);
            assert forall|k: int| 0 <= k < v.len() implies u32_in(field(le32_all(v), 4 * k, 4), false) == v[k] by {
                lemma_u32_le_roundtrip(v[k]);
            }
            assert(decode_array(elements_bytes(a), array_code(a), a.len(), false)->F32_0 =~= v);
        },
        ArrayModel::F64(v) => {
            lemma_le64_all(v);
            assert forall|k: int| 0 <= k < v.len() implies u64_in(field(le64_all(v), 8 * k, 8), false) == v[k] by {
                lemma_u64_le_roundtrip(v[k]);
            }
            assert(decode_array(elements_bytes(a), array_code(a), a.len(), false)->F64_0 =~= v);
        },
        ArrayModel::String(_) => {},
    }
}


/// Whether an array's bytes can hold it: its element count, and when stored
/// compressed the compressed length, must fit their 32-bit fields.
pub open spec fn array_fits(a: ArrayModel, compress: bool) -> bool {
    &&& a.len() <= u32::MAX
    &&& compressed_when(a, compress) ==> zlib_compressed(elements_bytes(a)).len() <= u32::MAX
}

/// Whether compressing the stored bytes of an array's elements gives data
/// that decompresses back to them.
pub open spec fn inflates_back(a: ArrayModel) -> bool {
    zlib_prefix(zlib_compressed(elements_bytes(a)), elements_bytes(a).len()) == Some(elements_bytes(a))
}

/// Reading an array from the bytes written for it (after the type code) gives
/// the array back, with the type code it was written with, and ends right
/// after those bytes. Compressed data must decompress back to the elements.
pub proof fn lemma_array_read_back(a: ArrayModel, compress: bool, d: Seq<u8>, p: int)
    requires
        !(a is String),
        array_fits(a, compress),
        compressed_when(a, compress) ==> inflates_back(a) && elements_bytes(a).len() <= usize::MAX,
        array_bytes(a, compress) matches Some(b) && 0 <= p && p + b.len() <= d.len() && d.subrange(
            p,
            p + b.len(),
        ) == b,
    ensures
        d[p] == array_code(a),
        is_array_code(array_code(a)),
        array_at(d, p + 1, false, array_code(a)) == Ok::<(ValueArrayModel, int), Fault>(
            (
                ValueArrayModel { data: a, array_type: array_code(a) as char },
                p + array_bytes(a, compress)->0.len(),
            ),
        ),
{
    reveal(array_at);
    lemma_elements_decode(a);
    let b = array_bytes(a, compress)->0;
    let raw = elements_bytes(a);
    let n = a.len();
    assert(d.subrange(p, p + b.len())[0] == b[0]);
    lemma_u32_le_roundtrip(n as u32);
    lemma_u32_le_roundtrip(0);
    lemma_u32_le_roundtrip(1);
    assert(b.subrange(1, 5) =~= u32_le_bytes(n as u32));
    lemma_field_within(d, p, b, 1, u32_le_bytes(n as u32));
    if compressed_when(a, compress) {
        let c = zlib_compressed(raw);
        lemma_u32_le_roundtrip(c.len() as u32);
        assert(b.subrange(5, 9) =~= u32_le_bytes(1));
        lemma_field_within(d, p, b, 5, u32_le_bytes(1));
        assert(b.subrange(9, 13) =~= u32_le_bytes(c.len() as u32));
        lemma_field_within(d, p, b, 9, u32_le_bytes(c.len() as u32));
        assert(b.subrange(13, 13 + c.len() as int) =~= c);
        lemma_field_within(d, p, b, 13, c);
    } else {
        lemma_u32_le_roundtrip(raw.len() as u32);
        assert(b.subrange(5, 9) =~= u32_le_bytes(0));
        lemma_field_within(d, p, b, 5, u32_le_bytes(0));
        assert(b.subrange(13, 13 + raw.len() as int) =~= raw);
        lemma_field_within(d, p, b, 13, raw);
    }
}


/// A document written with no top-level nodes reads back as a document of the
/// writer's version, little-endian, with an empty root.
pub proof fn lemma_empty_document_read_back(version: u32, compress: bool)
    ensures
        document_bytes(Seq::empty(), version, compress) matches Some(b) && document_at(b, 0)
            == Ok::<DocModel, Fault>(
            DocModel { version, big_endian: false, root: root_model(Seq::empty()) },
        ),
{
    let b = document_bytes(Seq::empty(), version, compress)->0;
    let h = header_bytes(version);
    let hl = header_len(version);
    lemma_u32_le_roundtrip(version);
    assert(nodes_bytes(Seq::<NodeModel>::empty(), version, compress) == Some(Seq::<u8>::empty()));
    assert(b == h + Seq::<u8>::empty() + zeros(hl) + footer_bytes(version));
    assert(b.subrange(0, 27) =~= h);
    assert(b.subrange(0, b.len() as int) =~= b);
    assert(h.subrange(0, 22) =~= fbx_magic());
    assert(b.subrange(0, 22) =~= fbx_magic());
    lemma_field_within(b, 0, b, 0, fbx_magic());
    assert(b.subrange(23, 27) =~= u32_le_bytes(version));
    lemma_field_within(b, 0, b, 23, u32_le_bytes(version));
    assert(b[22] == 0);
    let fmt = format_of(version, false);
    lemma_zero_fields();
    if fmt.wide {
        assert(field(b, 27, 8) =~= zeros(8));
        assert(field(b, 35, 8) =~= zeros(8));
        assert(field(b, 43, 8) =~= zeros(8));
    } else {
        assert(field(b, 27, 4) =~= zeros(4));
        assert(field(b, 31, 4) =~= zeros(4));
        assert(field(b, 35, 4) =~= zeros(4));
    }
    assert(node_at(b, 27, 0, fmt) == Ok::<(Option<NodeModel>, int), Fault>((None, 27 + hl as int))) by {
        reveal(node_at);
    }
    assert(top_nodes_at(b, 27, fmt, Seq::empty()) == Ok::<Seq<NodeModel>, Fault>(Seq::empty()));
}

} // verus!
