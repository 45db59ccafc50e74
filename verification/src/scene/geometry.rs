//! Reading the geometry of an FBX mesh node: its positions, polygons,
//! normals, texture coordinates and colours, the numbers as stored.
use vstd::prelude::*;
use crate::ascii::chars_of;
use crate::binary::{ArrayData, ArrayModel, FbxNode};
use crate::error::Error;
use crate::obj::lines::chars_are;
use crate::types::Face;

verus! {

/// A floating-point number as an array stored it: the bits of a 32-bit or
/// of a 64-bit IEEE-754 number.
#[derive(Debug, Clone, Copy, PartialEq, Eq, Structural)]
pub enum StoredReal {
    Single(u32),
    Double(u64),
}

/// The stored number 1.0, as a 64-bit float.
pub open spec fn stored_one() -> StoredReal {
    StoredReal::Double(0x3FF0_0000_0000_0000)
}

/// Two stored numbers.
#[derive(Debug, Clone, Copy, PartialEq, Eq, Structural)]
pub struct Real2 {
    pub x: StoredReal,
    pub y: StoredReal,
}

/// Three stored numbers.
#[derive(Debug, Clone, Copy, PartialEq, Eq, Structural)]
pub struct Real3 {
    pub x: StoredReal,
    pub y: StoredReal,
    pub z: StoredReal,
}

/// Four stored numbers.
#[derive(Debug, Clone, Copy, PartialEq, Eq, Structural)]
pub struct Real4 {
    pub x: StoredReal,
    pub y: StoredReal,
    pub z: StoredReal,
    pub w: StoredReal,
}

/// Whether the text `s` is `lit`.
fn text_is(s: &String, lit: &str) -> (r: bool)
    ensures
        r == (s@ == lit@),
{
    let cs = chars_of(s.as_str());
    chars_are(&cs, lit)
}

/// The elements of the first of `children` called `name` that holds an
/// array.
pub open spec fn array_child(children: Seq<FbxNode>, name: Seq<char>) -> Option<ArrayModel>
    decreases children.len(),
{
    if children.len() == 0 {
        None
    } else if children[0].name@ == name && children[0].array is Some {
        Some(children[0].array->0.data@)
    } else {
        array_child(children.drop_first(), name)
    }
}

/// The elements of the first array child called `inner` of the first of
/// `children` called `outer` that has one.
pub open spec fn layer_array(children: Seq<FbxNode>, outer: Seq<char>, inner: Seq<char>) -> Option<
    ArrayModel,
>
    decreases children.len(),
{
    if children.len() == 0 {
        None
    } else if children[0].name@ == outer && array_child(children[0].children@, inner) is Some {
        array_child(children[0].children@, inner)
    } else {
        layer_array(children.drop_first(), outer, inner)
    }
}

/// The elements of the first of `children` called `name` that holds an
/// array.
fn find_array<'a>(children: &'a Vec<FbxNode>, name: &str) -> (r: Option<&'a ArrayData>)
    ensures
        match r {
            Some(a) => array_child(children@, name@) == Some(a@),
            None => array_child(children@, name@) is None,
        },
{
    let mut k: usize = 0;
    assert(children@.skip(0) =~= children@);
    while k < children.len()
        invariant
            k <= children@.len(),
            array_child(children@, name@) == array_child(children@.skip(k as int), name@),
        decreases children@.len() - k,
    {
        let child = &children[k];
        assert(children@.skip(k as int)[0] == *child);
        assert(children@.skip(k as int).drop_first() =~= children@.skip(k + 1));
        if text_is(&child.name, name) {
            match &child.array {
                Some(a) => {
                    return Some(&a.data);
                },
                None => {},
            }
        }
        k = k + 1;
    }
    None
}

/// The elements of the first array child called `inner` of the first of
/// `children` called `outer` that has one.
fn find_layer_array<'a>(children: &'a Vec<FbxNode>, outer: &str, inner: &str) -> (r: Option<
    &'a ArrayData,
>)
    ensures
        match r {
            Some(a) => layer_array(children@, outer@, inner@) == Some(a@),
            None => layer_array(children@, outer@, inner@) is None,
        },
{
    let mut k: usize = 0;
    assert(children@.skip(0) =~= children@);
    while k < children.len()
        invariant
            k <= children@.len(),
            layer_array(children@, outer@, inner@) == layer_array(children@.skip(k as int), outer@, inner@),
        decreases children@.len() - k,
    {
        let child = &children[k];
        assert(children@.skip(k as int)[0] == *child);
        assert(children@.skip(k as int).drop_first() =~= children@.skip(k + 1));
        if text_is(&child.name, outer) {
            match find_array(&child.children, inner) {
                Some(a) => {
                    return Some(a);
                },
                None => {},
            }
        }
        k = k + 1;
    }
    None
}

/// The numbers of a float array, `None` for another kind of array.
pub open spec fn stored_reals(a: ArrayModel) -> Option<Seq<StoredReal>> {
    match a {
        ArrayModel::F64(v) => Some(Seq::new(v.len(), |i: int| StoredReal::Double(v[i]))),
        ArrayModel::F32(v) => Some(Seq::new(v.len(), |i: int| StoredReal::Single(v[i]))),
        _ => None,
    }
}

/// The numbers of `s` in pairs; an unpaired last number is dropped.
pub open spec fn pairs_of(s: Seq<StoredReal>) -> Seq<Real2> {
    Seq::new(s.len() / 2, |i: int| Real2 { x: s[2 * i], y: s[2 * i + 1] })
}

/// The numbers of `s` in threes; a last incomplete three is dropped.
pub open spec fn triples_of(s: Seq<StoredReal>) -> Seq<Real3> {
    Seq::new(s.len() / 3, |i: int| Real3 { x: s[3 * i], y: s[3 * i + 1], z: s[3 * i + 2] })
}

/// The numbers of `s` in fours; a last three gets 1 as its fourth, fewer
/// are dropped.
pub open spec fn quads_of(s: Seq<StoredReal>) -> Seq<Real4> {
    let full = Seq::new(
        s.len() / 4,
        |i: int| Real4 { x: s[4 * i], y: s[4 * i + 1], z: s[4 * i + 2], w: s[4 * i + 3] },
    );
    if s.len() % 4 == 3 {
        let b = s.len() - 3;
        full.push(Real4 { x: s[b], y: s[b + 1], z: s[b + 2], w: stored_one() })
    } else {
        full
    }
}

/// Whether `e` is an unknown error described by `d`.
pub open spec fn unknown_error(e: Error, d: Seq<char>) -> bool {
    e matches Error::Unknown { description, stack } && stack is None && description@ == d
}

/// Whether `r` gives the elements `want` holds, or fails as it says.
pub open spec fn reads<T>(r: Result<Vec<T>, Error>, want: Result<Seq<T>, Seq<char>>) -> bool {
    match (r, want) {
        (Ok(v), Ok(s)) => v@ == s,
        (Err(e), Err(d)) => unknown_error(e, d),
        _ => false,
    }
}

/// The numbers of a float array grouped by `group`: nothing without the
/// array, an error naming `what` for an array of another kind.
pub open spec fn grouped<T>(
    found: Option<ArrayModel>,
    group: spec_fn(Seq<StoredReal>) -> Seq<T>,
    what: Seq<char>,
) -> Result<Seq<T>, Seq<char>> {
    match found {
        None => Ok(seq![]),
        Some(a) => match stored_reals(a) {
            Some(s) => Ok(group(s)),
            None => Err(what + " array has wrong type"@),
        },
    }
}

/// The positions of a mesh node with the children `cs`.
pub open spec fn positions_read(cs: Seq<FbxNode>) -> Result<Seq<Real3>, Seq<char>> {
    grouped(array_child(cs, "Vertices"@), |s: Seq<StoredReal>| triples_of(s), "Vertices"@)
}

/// The normals of a mesh node with the children `cs`.
pub open spec fn normals_read(cs: Seq<FbxNode>) -> Result<Seq<Real3>, Seq<char>> {
    grouped(
        layer_array(cs, "LayerElementNormal"@, "Normals"@),
        |s: Seq<StoredReal>| triples_of(s),
        "Normals"@,
    )
}

/// The texture coordinates of a mesh node with the children `cs`.
pub open spec fn uvs_read(cs: Seq<FbxNode>) -> Result<Seq<Real2>, Seq<char>> {
    grouped(layer_array(cs, "LayerElementUV"@, "UV"@), |s: Seq<StoredReal>| pairs_of(s), "UV"@)
}

/// The vertex colours of a mesh node with the children `cs`.
pub open spec fn colors_read(cs: Seq<FbxNode>) -> Result<Seq<Real4>, Seq<char>> {
    grouped(
        layer_array(cs, "LayerElementColor"@, "Colors"@),
        |s: Seq<StoredReal>| quads_of(s),
        "Colors"@,
    )
}

/// The integers of a polygon index array: 32-bit ones as they are, 64-bit
/// ones cut to 32 bits.
pub open spec fn polygon_ints(a: ArrayModel) -> Option<Seq<i32>> {
    match a {
        ArrayModel::I32(v) => Some(v),
        ArrayModel::I64(v) => Some(Seq::new(v.len(), |i: int| v[i] as i32)),
        _ => None,
    }
}

/// The polygon indices of a mesh node with the children `cs`.
pub open spec fn polygons_read(cs: Seq<FbxNode>) -> Result<Seq<i32>, Seq<char>> {
    match array_child(cs, "PolygonVertexIndex"@) {
        None => Ok(seq![]),
        Some(a) => match polygon_ints(a) {
            Some(p) => Ok(p),
            None => Err("PolygonVertexIndex array has wrong type"@),
        },
    }
}

/// The stored numbers of a float array, `None` for another kind.
fn reals_of(a: &ArrayData) -> (r: Option<Vec<StoredReal>>)
    ensures
        match r {
            Some(v) => stored_reals(a@) == Some(v@),
            None => stored_reals(a@) is None,
        },
{
    match a {
        ArrayData::F64(v) => {
            let mut out: Vec<StoredReal> = Vec::new();
            let mut i: usize = 0;
            while i < v.len()
                invariant
                    i <= v@.len(),
                    out@ == Seq::new(i as nat, |k: int| StoredReal::Double(v@[k])),
                decreases v@.len() - i,
            {
                out.push(StoredReal::Double(v[i]));
                i = i + 1;
                assert(out@ =~= Seq::new(i as nat, |k: int| StoredReal::Double(v@[k])));
            }
            Some(out)
        },
        ArrayData::F32(v) => {
            let mut out: Vec<StoredReal> = Vec::new();
            let mut i: usize = 0;
            while i < v.len()
                invariant
                    i <= v@.len(),
                    out@ == Seq::new(i as nat, |k: int| StoredReal::Single(v@[k])),
                decreases v@.len() - i,
            {
                out.push(StoredReal::Single(v[i]));
                i = i + 1;
                assert(out@ =~= Seq::new(i as nat, |k: int| StoredReal::Single(v@[k])));
            }
            Some(out)
        },
        _ => None,
    }
}

/// The numbers `s` in pairs.
fn pair_up(s: &Vec<StoredReal>) -> (r: Vec<Real2>)
    ensures
        r@ == pairs_of(s@),
{
    let mut out: Vec<Real2> = Vec::new();
    let mut j: usize = 0;
    while s.len() - j >= 2
        invariant
            j <= s@.len(),
            j == 2 * out@.len(),
            forall|i: int| 0 <= i < out@.len() ==> #[trigger] out@[i] == (Real2 { x: s@[2 * i], y: s@[2 * i + 1] }),
        decreases s@.len() - j,
    {
        out.push(Real2 { x: s[j], y: s[j + 1] });
        j = j + 2;
    }
    assert(out@ =~= pairs_of(s@));
    out
}

/// The numbers `s` in threes.
fn group_three(s: &Vec<StoredReal>) -> (r: Vec<Real3>)
    ensures
        r@ == triples_of(s@),
{
    let mut out: Vec<Real3> = Vec::new();
    let mut j: usize = 0;
    while s.len() - j >= 3
        invariant
            j <= s@.len(),
            j == 3 * out@.len(),
            forall|i: int| 0 <= i < out@.len() ==> #[trigger] out@[i] == (Real3 { x: s@[3 * i], y: s@[3 * i + 1], z: s@[3 * i + 2] }),
        decreases s@.len() - j,
    {
        out.push(Real3 { x: s[j], y: s[j + 1], z: s[j + 2] });
        j = j + 3;
    }
    assert(out@ =~= triples_of(s@));
    out
}

/// The numbers `s` in fours, a last three completed with 1.
fn group_four(s: &Vec<StoredReal>) -> (r: Vec<Real4>)
    ensures
        r@ == quads_of(s@),
{
    let mut out: Vec<Real4> = Vec::new();
    let mut j: usize = 0;
    while s.len() - j >= 4
        invariant
            j <= s@.len(),
            j == 4 * out@.len(),
            forall|i: int| 0 <= i < out@.len() ==> #[trigger] out@[i] == (Real4 { x: s@[4 * i], y: s@[4 * i + 1], z: s@[4 * i + 2], w: s@[4 * i + 3] }),
        decreases s@.len() - j,
    {
        out.push(Real4 { x: s[j], y: s[j + 1], z: s[j + 2], w: s[j + 3] });
        j = j + 4;
    }
    let ghost full = out@;
    assert(full =~= Seq::new(
        s@.len() / 4,
        |i: int| Real4 { x: s@[4 * i], y: s@[4 * i + 1], z: s@[4 * i + 2], w: s@[4 * i + 3] },
    ));
    if s.len() - j == 3 {
        out.push(Real4 { x: s[j], y: s[j + 1], z: s[j + 2], w: StoredReal::Double(0x3FF0_0000_0000_0000) });
    }
    out
}

/// The error for an array named `what` of the wrong kind.
fn wrong_kind(what: &str) -> (r: Error)
    ensures
        unknown_error(r, what@ + " array has wrong type"@),
{
    let mut d = crate::text::string_of(what);
    crate::text::push_str(&mut d, " array has wrong type");
    Error::Unknown { description: d, stack: None }
}

/// Reads the vertex positions of a mesh node from its `Vertices` array, in
/// threes.
pub fn read_vertex_positions(node: &FbxNode) -> (r: Result<Vec<Real3>, Error>)
    ensures
        reads(r, positions_read(node.children@)),
{
    match find_array(&node.children, "Vertices") {
        None => Ok(Vec::new()),
        Some(a) => match reals_of(a) {
            Some(s) => Ok(group_three(&s)),
            None => Err(wrong_kind("Vertices")),
        },
    }
}

/// Reads the normals of a mesh node from the `Normals` array of a
/// `LayerElementNormal` child, in threes.
pub fn read_vertex_normals(node: &FbxNode) -> (r: Result<Vec<Real3>, Error>)
    ensures
        reads(r, normals_read(node.children@)),
{
    match find_layer_array(&node.children, "LayerElementNormal", "Normals") {
        None => Ok(Vec::new()),
        Some(a) => match reals_of(a) {
            Some(s) => Ok(group_three(&s)),
            None => Err(wrong_kind("Normals")),
        },
    }
}

/// Reads the texture coordinates of a mesh node from the `UV` array of a
/// `LayerElementUV` child, in pairs.
pub fn read_vertex_uvs(node: &FbxNode) -> (r: Result<Vec<Real2>, Error>)
    ensures
        reads(r, uvs_read(node.children@)),
{
    match find_layer_array(&node.children, "LayerElementUV", "UV") {
        None => Ok(Vec::new()),
        Some(a) => match reals_of(a) {
            Some(s) => Ok(pair_up(&s)),
            None => Err(wrong_kind("UV")),
        },
    }
}

/// Reads the vertex colours of a mesh node from the `Colors` array of a
/// `LayerElementColor` child, in fours; a last three gets alpha 1.
pub fn read_vertex_colors(node: &FbxNode) -> (r: Result<Vec<Real4>, Error>)
    ensures
        reads(r, colors_read(node.children@)),
{
    match find_layer_array(&node.children, "LayerElementColor", "Colors") {
        None => Ok(Vec::new()),
        Some(a) => match reals_of(a) {
            Some(s) => Ok(group_four(&s)),
            None => Err(wrong_kind("Colors")),
        },
    }
}

/// Reads the polygon indices of a mesh node from its `PolygonVertexIndex`
/// array.
pub fn read_polygon_indices(node: &FbxNode) -> (r: Result<Vec<i32>, Error>)
    ensures
        reads(r, polygons_read(node.children@)),
{
    match find_array(&node.children, "PolygonVertexIndex") {
        None => Ok(Vec::new()),
        Some(a) => match a {
            ArrayData::I32(v) => {
                let mut out: Vec<i32> = Vec::new();
                let mut i: usize = 0;
                while i < v.len()
                    invariant
                        i <= v@.len(),
                        out@ == v@.take(i as int),
                    decreases v@.len() - i,
                {
                    out.push(v[i]);
                    i = i + 1;
                    assert(out@ =~= v@.take(i as int));
                }
                assert(v@.take(i as int) =~= v@);
                Ok(out)
            },
            ArrayData::I64(v) => {
                let mut out: Vec<i32> = Vec::new();
                let mut i: usize = 0;
                while i < v.len()
                    invariant
                        i <= v@.len(),
                        out@ == Seq::new(i as nat, |k: int| v@[k] as i32),
                    decreases v@.len() - i,
                {
                    out.push(v[i] as i32);
                    i = i + 1;
                    assert(out@ =~= Seq::new(i as nat, |k: int| v@[k] as i32));
                }
                Ok(out)
            },
            _ => Err(Error::unknown("PolygonVertexIndex array has wrong type")),
        },
    }
}

/// The vertex an FBX polygon index names: a negative index `~n`, which
/// closes a polygon, names `n`.
pub open spec fn decode_index(i: i32) -> u32 {
    if i < 0 {
        (-(i + 1)) as u32
    } else {
        i as u32
    }
}

/// The polygons that the indices `p` close, and where the open one begins:
/// each negative index closes a polygon running from the end of the one
/// before.
pub open spec fn closed_polygons(p: Seq<i32>) -> (Seq<Face>, nat)
    decreases p.len(),
{
    if p.len() == 0 {
        (seq![], 0)
    } else {
        let (fs, start) = closed_polygons(p.drop_last());
        if p.last() < 0 {
            (fs.push(Face { index_begin: start as u32, num_indices: (p.len() - start) as u32 }), p.len())
        } else {
            (fs, start)
        }
    }
}

/// The open polygon begins no later than the end.
proof fn lemma_closed_polygons(p: Seq<i32>)
    ensures
        closed_polygons(p).1 <= p.len(),
    decreases p.len(),
{
    if p.len() > 0 {
        lemma_closed_polygons(p.drop_last());
    }
}

/// Splits FBX polygon indices into faces and vertex indices: each index
/// names a vertex, and a negative one also closes a face. Indices after the
/// last negative one belong to no face.
pub fn build_faces(polygon_vertex_indices: &[i32]) -> (r: (Vec<Face>, Vec<u32>))
    requires
        polygon_vertex_indices@.len() <= u32::MAX,
    ensures
        r.0@ == closed_polygons(polygon_vertex_indices@).0,
        r.1@ == Seq::new(polygon_vertex_indices@.len(), |i: int| decode_index(polygon_vertex_indices@[i])),
{
    let ghost p = polygon_vertex_indices@;
    let mut faces: Vec<Face> = Vec::new();
    let mut vertex_indices: Vec<u32> = Vec::new();
    let mut current_face_start: u32 = 0;
    let mut k: usize = 0;
    assert(p.take(0) =~= Seq::<i32>::empty());
    while k < polygon_vertex_indices.len()
        invariant
            k <= p.len(),
            p.len() <= u32::MAX,
            p == polygon_vertex_indices@,
            faces@ == closed_polygons(p.take(k as int)).0,
            current_face_start == closed_polygons(p.take(k as int)).1,
            vertex_indices@ == Seq::new(k as nat, |i: int| decode_index(p[i])),
        decreases p.len() - k,
    {
        let poly_idx = polygon_vertex_indices[k];
        let actual_idx: u32 = if poly_idx < 0 {
            (-(poly_idx + 1)) as u32
        } else {
            poly_idx as u32
        };
        vertex_indices.push(actual_idx);
        proof {
            lemma_closed_polygons(p.take(k as int));
            assert(p.take(k + 1).drop_last() =~= p.take(k as int));
            assert(p.take(k + 1).last() == poly_idx);
        }
        if poly_idx < 0 {
            let num_indices = vertex_indices.len() as u32 - current_face_start;
            faces.push(Face { index_begin: current_face_start, num_indices });
            current_face_start = vertex_indices.len() as u32;
        }
        k = k + 1;
        assert(vertex_indices@ =~= Seq::new(k as nat, |i: int| decode_index(p[i])));
    }
    assert(p.take(k as int) =~= p);
    (faces, vertex_indices)
}

/// What the geometry of a mesh node holds, the numbers as stored.
#[derive(Debug)]
pub struct MeshGeometry {
    pub vertices: Vec<Real3>,
    pub polygon_vertex_indices: Vec<i32>,
    pub normals: Vec<Real3>,
    pub uvs: Vec<Real2>,
    pub colors: Vec<Real4>,
    pub faces: Vec<Face>,
    pub vertex_indices: Vec<u32>,
}

/// The error reading the geometry of a mesh node with children `cs` gives:
/// that of the first of positions, polygon indices, normals, texture
/// coordinates and colours that fails to read.
pub open spec fn geometry_error(cs: Seq<FbxNode>, e: Error) -> bool {
    if positions_read(cs) is Err {
        unknown_error(e, positions_read(cs)->Err_0)
    } else if polygons_read(cs) is Err {
        unknown_error(e, polygons_read(cs)->Err_0)
    } else if normals_read(cs) is Err {
        unknown_error(e, normals_read(cs)->Err_0)
    } else if uvs_read(cs) is Err {
        unknown_error(e, uvs_read(cs)->Err_0)
    } else {
        colors_read(cs) is Err && unknown_error(e, colors_read(cs)->Err_0)
    }
}

/// Reads the geometry of a mesh node: positions, polygon indices, normals,
/// texture coordinates and colours, failing at the first of them that
/// fails; then splits the polygons into faces.
pub fn extract_mesh_geometry(node: &FbxNode) -> (r: Result<MeshGeometry, Error>)
    requires
        polygons_read(node.children@) matches Ok(p) ==> p.len() <= u32::MAX,
    ensures
        ({
            let cs = node.children@;
            match r {
                Ok(g) => {
                    &&& positions_read(cs) == Ok::<Seq<Real3>, Seq<char>>(g.vertices@)
                    &&& polygons_read(cs) == Ok::<Seq<i32>, Seq<char>>(g.polygon_vertex_indices@)
                    &&& normals_read(cs) == Ok::<Seq<Real3>, Seq<char>>(g.normals@)
                    &&& uvs_read(cs) == Ok::<Seq<Real2>, Seq<char>>(g.uvs@)
                    &&& colors_read(cs) == Ok::<Seq<Real4>, Seq<char>>(g.colors@)
                    &&& g.faces@ == closed_polygons(g.polygon_vertex_indices@).0
                    &&& g.vertex_indices@ == Seq::new(
                        g.polygon_vertex_indices@.len(),
                        |i: int| decode_index(g.polygon_vertex_indices@[i]),
                    )
                },
                Err(e) => geometry_error(cs, e),
            }
        }),
{
    let vertices = read_vertex_positions(node)?;
    let polygon_vertex_indices = read_polygon_indices(node)?;
    let normals = read_vertex_normals(node)?;
    let uvs = read_vertex_uvs(node)?;
    let colors = read_vertex_colors(node)?;
    let (faces, vertex_indices) = build_faces(polygon_vertex_indices.as_slice());
    Ok(MeshGeometry { vertices, polygon_vertex_indices, normals, uvs, colors, faces, vertex_indices })
}

} // verus!
