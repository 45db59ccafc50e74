//! Mesh records built from mesh elements: their geometry, with each
//! attribute present just when it has values.
use vstd::prelude::*;
use crate::binary::FbxNode;
use crate::error::Error;
use crate::types::Face;
use crate::scene::elements::{ElementData, Prop, PropValue, prop_models};
use crate::scene::geometry::{
    Real2, Real3, Real4, extract_mesh_geometry, geometry_error, positions_read, polygons_read,
    normals_read, uvs_read, colors_read, closed_polygons, decode_index,
};

verus! {

/// Values of a vertex attribute and, for each mesh index or vertex, the
/// value it takes.
#[derive(Debug)]
pub struct VertexAttrib<T> {
    pub exists: bool,
    pub values: Vec<T>,
    pub indices: Vec<u32>,
    pub value_reals: usize,
    pub unique_per_vertex: bool,
}

/// A mesh built from a mesh element.
#[derive(Debug)]
pub struct MeshRecord {
    pub name: String,
    pub props: Vec<Prop>,
    pub element_id: u32,
    pub typed_id: u32,
    pub num_vertices: usize,
    pub num_indices: usize,
    pub num_faces: usize,
    pub faces: Vec<Face>,
    pub vertex_indices: Vec<u32>,
    pub vertices: Vec<Real3>,
    pub vertex_position: VertexAttrib<Real3>,
    pub vertex_normal: VertexAttrib<Real3>,
    pub vertex_uv: VertexAttrib<Real2>,
    pub vertex_color: VertexAttrib<Real4>,
}

/// `0, 1, ..., n - 1`, counted in 32 bits (`n` taken modulo 2^32).
pub open spec fn counting(n: usize) -> Seq<u32> {
    Seq::new((n as u32) as nat, |i: int| i as u32)
}

/// An attribute holding `values`, each index `i` below `count` taking
/// value `i`, with `reals` numbers per value; an absent, empty attribute
/// where there are no values.
pub open spec fn attribute_holds<T>(a: VertexAttrib<T>, values: Seq<T>, count: usize, reals: usize, unique: bool) -> bool {
    if values.len() > 0 {
        &&& a.exists
        &&& a.values@ == values
        &&& a.indices@ == counting(count)
        &&& a.value_reals == reals
        &&& a.unique_per_vertex == unique
    } else {
        &&& !a.exists
        &&& a.values@.len() == 0
        &&& a.indices@.len() == 0
        &&& a.value_reals == 0
        &&& !a.unique_per_vertex
    }
}

/// Whether the geometry of a mesh node with children `cs` reads.
pub open spec fn geometry_reads(cs: Seq<FbxNode>) -> bool {
    &&& positions_read(cs) is Ok
    &&& polygons_read(cs) is Ok
    &&& normals_read(cs) is Ok
    &&& uvs_read(cs) is Ok
    &&& colors_read(cs) is Ok
}

/// Whether `m` is the mesh built from the mesh element `data`, whose node
/// is child `data.index` of top-level node `data.group`, as mesh number
/// `mesh_index`: its geometry as read, positions indexed per vertex and the
/// other attributes per mesh index, each present just when it has values;
/// the element's name and properties.
pub open spec fn mesh_built(m: MeshRecord, top: Seq<FbxNode>, data: ElementData, mesh_index: u32) -> bool {
    let cs = top[data.group as int].children@[data.index as int].children@;
    &&& geometry_reads(cs)
    &&& ({
        let v = positions_read(cs)->Ok_0;
        let p = polygons_read(cs)->Ok_0;
        &&& m.vertices@ == v
        &&& m.faces@ == closed_polygons(p).0
        &&& m.vertex_indices@ == Seq::new(p.len(), |i: int| decode_index(p[i]))
        &&& m.num_vertices == v.len()
        &&& m.num_indices == p.len()
        &&& m.num_faces == closed_polygons(p).0.len()
        &&& attribute_holds(m.vertex_position, v, m.num_vertices, 3, true)
        &&& attribute_holds(m.vertex_normal, normals_read(cs)->Ok_0, m.num_indices, 3, false)
        &&& attribute_holds(m.vertex_uv, uvs_read(cs)->Ok_0, m.num_indices, 2, false)
        &&& attribute_holds(m.vertex_color, colors_read(cs)->Ok_0, m.num_indices, 4, false)
    })
    &&& m.element_id == mesh_index
    &&& m.typed_id == mesh_index
    &&& m.name@ == data.name@
    &&& prop_models(m.props@) == prop_models(data.props@)
}

/// `0, 1, ..., n - 1` in 32 bits.
fn counting_indices(n: usize) -> (r: Vec<u32>)
    ensures
        r@ == counting(n),
{
    let m = n as u32;
    let mut v: Vec<u32> = Vec::new();
    let mut i: u32 = 0;
    while i < m
        invariant
            i <= m,
            m == n as u32,
            v@ == Seq::new(i as nat, |k: int| k as u32),
        decreases m - i,
    {
        v.push(i);
        i = i + 1;
    }
    v
}

/// A copy of `v`.
fn copy_values<T: Copy>(v: &Vec<T>) -> (r: Vec<T>)
    ensures
        r@ == v@,
{
    let mut out: Vec<T> = Vec::new();
    let mut i: usize = 0;
    while i < v.len()
        invariant
            i <= v@.len(),
            out@ == v@.take(i as int),
        decreases v@.len() - i,
    {
        out.push(v[i]);
        i = i + 1;
    }
    assert(v@.take(v@.len() as int) =~= v@);
    out
}

/// A copy of a property.
fn copy_prop(p: &Prop) -> (r: Prop)
    ensures
        r@ == p@,
{
    let value = match &p.value {
        PropValue::Vec2(a, b) => PropValue::Vec2(*a, *b),
        PropValue::Vec3(a, b, c) => PropValue::Vec3(*a, *b, *c),
        PropValue::Vec4(a, b, c, d) => PropValue::Vec4(*a, *b, *c, *d),
        PropValue::Bool(b) => PropValue::Bool(*b),
        PropValue::Integer(i) => PropValue::Integer(*i),
        PropValue::Number(n) => PropValue::Number(*n),
        PropValue::String(t) => PropValue::String(t.clone()),
    };
    Prop { name: p.name.clone(), value, flags: p.flags }
}

/// A copy of properties.
pub(crate) fn copy_props(ps: &Vec<Prop>) -> (r: Vec<Prop>)
    ensures
        prop_models(r@) == prop_models(ps@),
{
    let mut out: Vec<Prop> = Vec::new();
    let mut i: usize = 0;
    while i < ps.len()
        invariant
            i <= ps@.len(),
            out@.len() == i,
            forall|k: int| 0 <= k < i ==> (#[trigger] out@[k])@ == ps@[k]@,
        decreases ps@.len() - i,
    {
        out.push(copy_prop(&ps[i]));
        i = i + 1;
    }
    assert(prop_models(out@) =~= prop_models(ps@));
    out
}

/// An attribute of `values`, each of the `count` indices taking its own
/// value; absent when there are no values.
fn attribute<T>(values: Vec<T>, count: usize, reals: usize, unique: bool) -> (r: VertexAttrib<T>)
    ensures
        attribute_holds(r, values@, count, reals, unique),
{
    if values.len() > 0 {
        VertexAttrib { exists: true, values, indices: counting_indices(count), value_reals: reals, unique_per_vertex: unique }
    } else {
        VertexAttrib { exists: false, values: Vec::new(), indices: Vec::new(), value_reals: 0, unique_per_vertex: false }
    }
}

/// Builds mesh number `mesh_index` of a scene from the mesh element `data`,
/// whose node is child `data.index` of top-level node `data.group`: its
/// geometry read as [`extract_mesh_geometry`] reads it, positions indexed
/// per vertex and the other attributes per mesh index, each present just
/// when it has values; the element's name and properties.
pub fn create_mesh(top: &Vec<FbxNode>, data: &ElementData, mesh_index: u32) -> (r: Result<MeshRecord, Error>)
    requires
        data.group < top@.len(),
        data.index < top@[data.group as int].children@.len(),
        polygons_read(top@[data.group as int].children@[data.index as int].children@) matches Ok(p) ==> p.len()
            <= u32::MAX,
    ensures
        match r {
            Err(e) => geometry_error(top@[data.group as int].children@[data.index as int].children@, e),
            Ok(m) => mesh_built(m, top@, *data, mesh_index),
        },
{
    let node = &top[data.group].children[data.index];
    let g = extract_mesh_geometry(node)?;
    let num_vertices = g.vertices.len();
    let num_indices = g.vertex_indices.len();
    let num_faces = g.faces.len();
    let positions = copy_values(&g.vertices);
    let vertex_position = attribute(positions, num_vertices, 3, true);
    let vertex_normal = attribute(g.normals, num_indices, 3, false);
    let vertex_uv = attribute(g.uvs, num_indices, 2, false);
    let vertex_color = attribute(g.colors, num_indices, 4, false);
    Ok(MeshRecord {
        name: data.name.clone(),
        props: copy_props(&data.props),
        element_id: mesh_index,
        typed_id: mesh_index,
        num_vertices,
        num_indices,
        num_faces,
        faces: g.faces,
        vertex_indices: g.vertex_indices,
        vertices: g.vertices,
        vertex_position,
        vertex_normal,
        vertex_uv,
        vertex_color,
    })
}

} // verus!
