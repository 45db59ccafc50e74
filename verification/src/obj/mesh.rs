//! Laying out the faces read from an OBJ file as mesh indices.
use vstd::prelude::*;
use crate::error::Error;
use crate::obj::FaceVertex;
use crate::obj::parser::{
    GeometryModel, ObjGeometry, ParserModel, obj_directive, obj_line, obj_lines, obj_tokens,
};
use crate::types::Face;

verus! {

/// How a mesh built from OBJ faces is laid out: the faces as runs of
/// indices, an index per corner into the positions and, when the file has
/// any, into the texture coordinates and normals, and counts of faces and
/// triangles. The vertex values themselves stay in the geometry as texts.
#[derive(Debug)]
pub struct ObjMesh {
    pub num_vertices: usize,
    pub num_indices: usize,
    pub num_faces: usize,
    pub num_triangles: usize,
    pub max_face_triangles: usize,
    pub num_empty_faces: usize,
    pub num_point_faces: usize,
    pub num_line_faces: usize,
    pub faces: Vec<Face>,
    pub face_smoothing: Vec<bool>,
    pub face_material: Vec<u32>,
    pub vertex_indices: Vec<u32>,
    pub uv_indices: Vec<u32>,
    pub normal_indices: Vec<u32>,
}

/// Number of triangles of a fan over a face of `n` corners.
pub open spec fn face_triangles(n: nat) -> nat {
    if n >= 3 {
        (n - 2) as nat
    } else {
        0
    }
}

/// Number of corners of all of `fs`.
pub open spec fn corner_total(fs: Seq<Seq<FaceVertex>>) -> nat
    decreases fs.len(),
{
    if fs.len() == 0 {
        0
    } else {
        corner_total(fs.drop_last()) + fs.last().len()
    }
}

/// Number of triangles of all of `fs`.
pub open spec fn triangle_total(fs: Seq<Seq<FaceVertex>>) -> nat
    decreases fs.len(),
{
    if fs.len() == 0 {
        0
    } else {
        triangle_total(fs.drop_last()) + face_triangles(fs.last().len())
    }
}

/// The most triangles of any of `fs`.
pub open spec fn max_triangles(fs: Seq<Seq<FaceVertex>>) -> nat
    decreases fs.len(),
{
    if fs.len() == 0 {
        0
    } else {
        let m = max_triangles(fs.drop_last());
        let t = face_triangles(fs.last().len());
        if t > m {
            t
        } else {
            m
        }
    }
}

/// Number of `fs` with `k` corners.
pub open spec fn faces_of_size(fs: Seq<Seq<FaceVertex>>, k: nat) -> nat
    decreases fs.len(),
{
    if fs.len() == 0 {
        0
    } else {
        faces_of_size(fs.drop_last(), k) + if fs.last().len() == k {
            1nat
        } else {
            0nat
        }
    }
}

/// The runs of indices of `fs`, one after another.
pub open spec fn face_runs(fs: Seq<Seq<FaceVertex>>) -> Seq<Face>
    decreases fs.len(),
{
    if fs.len() == 0 {
        seq![]
    } else {
        face_runs(fs.drop_last()).push(
            Face {
                index_begin: corner_total(fs.drop_last()) as u32,
                num_indices: fs.last().len() as u32,
            },
        )
    }
}

/// The index a corner field holds, as a `u32`, or 0.
pub open spec fn slot(i: Option<usize>) -> u32 {
    match i {
        Some(k) => k as u32,
        None => 0,
    }
}

/// Which index of a corner: its position, texture coordinate or normal.
pub open spec fn corner_slot(c: FaceVertex, which: nat) -> u32 {
    if which == 0 {
        slot(c.position)
    } else if which == 1 {
        slot(c.uv)
    } else {
        slot(c.normal)
    }
}

/// The indices `which` of all corners of `fs`, face after face.
pub open spec fn corner_slots(fs: Seq<Seq<FaceVertex>>, which: nat) -> Seq<u32>
    decreases fs.len(),
{
    if fs.len() == 0 {
        seq![]
    } else {
        corner_slots(fs.drop_last(), which) + Seq::new(
            fs.last().len(),
            |c: int| corner_slot(fs.last()[c], which),
        )
    }
}

/// Whether every corner of `fs` has a position.
pub open spec fn all_positioned(fs: Seq<Seq<FaceVertex>>) -> bool {
    forall|f: int, c: int| 0 <= f < fs.len() && 0 <= c < fs[f].len() ==> (#[trigger] fs[f][c]).position is Some
}

/// Whether `m` lays out the faces of `g`.
pub open spec fn lays_out(m: ObjMesh, g: GeometryModel) -> bool {
    let fs = g.faces;
    &&& m.num_vertices == g.positions.len()
    &&& m.num_indices == corner_total(fs)
    &&& m.num_faces == fs.len()
    &&& m.num_triangles == triangle_total(fs)
    &&& m.max_face_triangles == max_triangles(fs)
    &&& m.num_empty_faces == faces_of_size(fs, 0)
    &&& m.num_point_faces == faces_of_size(fs, 1)
    &&& m.num_line_faces == faces_of_size(fs, 2)
    &&& m.faces@ == face_runs(fs)
    &&& m.face_smoothing@ == g.face_smoothing
    &&& m.face_material@ == Seq::new(
        g.face_materials.len(),
        |f: int| slot(g.face_materials[f]),
    )
    &&& m.vertex_indices@ == corner_slots(fs, 0)
    &&& m.uv_indices@ == (if g.uvs.len() > 0 {
        corner_slots(fs, 1)
    } else {
        seq![]
    })
    &&& m.normal_indices@ == (if g.normals.len() > 0 {
        corner_slots(fs, 2)
    } else {
        seq![]
    })
}

/// Whether each face of `g` has its material and smoothing entry.
pub open spec fn geometry_wf(g: GeometryModel) -> bool {
    g.face_materials.len() == g.faces.len() && g.face_smoothing.len() == g.faces.len()
}

/// The corners of some first faces are no more than those of all.
proof fn lemma_corner_total_prefix(fs: Seq<Seq<FaceVertex>>, k: int)
    requires
        0 <= k <= fs.len(),
    ensures
        corner_total(fs.take(k)) <= corner_total(fs),
    decreases fs.len() - k,
{
    if k < fs.len() {
        lemma_corner_total_prefix(fs, k + 1);
        assert(fs.take(k + 1).drop_last() =~= fs.take(k));
    } else {
        assert(fs.take(k) =~= fs);
    }
}

/// Appends the position index of each corner of `face` to `vi` and, when
/// asked, its texture coordinate and normal indices (0 when missing) to
/// `ui` and `ni`; fails at a corner without a position.
fn push_corners(
    face: &Vec<FaceVertex>,
    has_uv: bool,
    has_normal: bool,
    vi: &mut Vec<u32>,
    ui: &mut Vec<u32>,
    ni: &mut Vec<u32>,
) -> (r: Result<(), ()>)
    ensures
        r is Ok <==> forall|k: int| 0 <= k < face@.len() ==> (#[trigger] face@[k]).position is Some,
        r is Ok ==> {
            &&& final(vi)@ == old(vi)@ + Seq::new(face@.len(), |k: int| corner_slot(face@[k], 0))
            &&& final(ui)@ == (if has_uv {
                old(ui)@ + Seq::new(face@.len(), |k: int| corner_slot(face@[k], 1))
            } else {
                old(ui)@
            })
            &&& final(ni)@ == (if has_normal {
                old(ni)@ + Seq::new(face@.len(), |k: int| corner_slot(face@[k], 2))
            } else {
                old(ni)@
            })
        },
{
    let nv = face.len();
    let mut c: usize = 0;
    while c < nv
        invariant
            nv == face@.len(),
            0 <= c <= nv,
            vi@ == old(vi)@ + Seq::new(c as nat, |k: int| corner_slot(face@[k], 0)),
            ui@ == (if has_uv {
                old(ui)@ + Seq::new(c as nat, |k: int| corner_slot(face@[k], 1))
            } else {
                old(ui)@
            }),
            ni@ == (if has_normal {
                old(ni)@ + Seq::new(c as nat, |k: int| corner_slot(face@[k], 2))
            } else {
                old(ni)@
            }),
            forall|k: int| 0 <= k < c ==> (#[trigger] face@[k]).position is Some,
        decreases nv - c,
    {
        let corner = face[c];
        match corner.position {
            Some(p) => {
                vi.push(p as u32);
                if has_uv {
                    let u: u32 = match corner.uv {
                        Some(i) => i as u32,
                        None => 0,
                    };
                    ui.push(u);
                }
                if has_normal {
                    let n: u32 = match corner.normal {
                        Some(i) => i as u32,
                        None => 0,
                    };
                    ni.push(n);
                }
            },
            None => {
                return Err(());
            },
        }
        c = c + 1;
        assert(vi@ =~= old(vi)@ + Seq::new(c as nat, |k: int| corner_slot(face@[k], 0)));
        assert(has_uv ==> ui@ =~= old(ui)@ + Seq::new(c as nat, |k: int| corner_slot(face@[k], 1)));
        assert(has_normal ==> ni@ =~= old(ni)@ + Seq::new(c as nat, |k: int| corner_slot(face@[k], 2)));
    }
    Ok(())
}

impl ObjGeometry {
    /// Lays out the faces read so far as a mesh: each face a run of
    /// indices after the previous one, triangulated as a fan, in its
    /// material (0 when none) and smooth as read. Texture coordinate and
    /// normal indices are laid out only when the file has any of them, a
    /// missing one giving 0. A corner without a position is an error.
    pub fn into_mesh(&self) -> (r: Result<ObjMesh, Error>)
        requires
            geometry_wf(self@),
            corner_total(self@.faces) <= u32::MAX,
        ensures
            match r {
                Ok(m) => all_positioned(self@.faces) && lays_out(m, self@),
                Err(e) => !all_positioned(self@.faces) && (e matches Error::Unknown {
                    description,
                    stack,
                } && stack is None && description@ == "Face vertex missing position index"@),
            },
    {
        let ghost g = self@;
        let ghost fs = g.faces;
        let has_uv = self.uvs.len() > 0;
        let has_normal = self.normals.len() > 0;
        let mut m = ObjMesh {
            num_vertices: self.positions.len(),
            num_indices: 0,
            num_faces: self.faces.len(),
            num_triangles: 0,
            max_face_triangles: 0,
            num_empty_faces: 0,
            num_point_faces: 0,
            num_line_faces: 0,
            faces: Vec::new(),
            face_smoothing: Vec::new(),
            face_material: Vec::new(),
            vertex_indices: Vec::new(),
            uv_indices: Vec::new(),
            normal_indices: Vec::new(),
        };
        let mut index_begin: u32 = 0;
        let mut f: usize = 0;
        assert(fs.take(0) =~= Seq::<Seq<FaceVertex>>::empty());
        while f < self.faces.len()
            invariant
                g == self@,
                fs == g.faces,
                geometry_wf(g),
                corner_total(fs) <= u32::MAX,
                0 <= f <= fs.len(),
                has_uv == (g.uvs.len() > 0),
                has_normal == (g.normals.len() > 0),
                m.num_vertices == g.positions.len(),
                m.num_faces == fs.len(),
                index_begin == corner_total(fs.take(f as int)),
                m.num_indices == corner_total(fs.take(f as int)),
                m.num_triangles == triangle_total(fs.take(f as int)),
                m.num_triangles <= m.num_indices,
                m.max_face_triangles == max_triangles(fs.take(f as int)),
                m.num_empty_faces == faces_of_size(fs.take(f as int), 0),
                m.num_point_faces == faces_of_size(fs.take(f as int), 1),
                m.num_line_faces == faces_of_size(fs.take(f as int), 2),
                m.num_empty_faces <= f,
                m.num_point_faces <= f,
                m.num_line_faces <= f,
                m.faces@ == face_runs(fs.take(f as int)),
                m.face_smoothing@ == g.face_smoothing.take(f as int),
                m.face_material@ == Seq::new(f as nat, |k: int| slot(g.face_materials[k])),
                m.vertex_indices@ == corner_slots(fs.take(f as int), 0),
                m.uv_indices@ == (if has_uv {
                    corner_slots(fs.take(f as int), 1)
                } else {
                    seq![]
                }),
                m.normal_indices@ == (if has_normal {
                    corner_slots(fs.take(f as int), 2)
                } else {
                    seq![]
                }),
                all_positioned(fs.take(f as int)),
            decreases fs.len() - f,
        {
            let ghost pre = fs.take(f as int);
            let ghost next = fs.take(f + 1);
            assert(next.drop_last() =~= pre);
            assert(next.last() == fs[f as int]);
            proof {
                lemma_corner_total_prefix(fs, f + 1);
            }
            let face = &self.faces[f];
            assert(face@ == fs[f as int]);
            let nv = face.len();
            let num_verts = nv as u32;
            if nv == 0 {
                m.num_empty_faces = m.num_empty_faces + 1;
            } else if nv == 1 {
                m.num_point_faces = m.num_point_faces + 1;
            } else if nv == 2 {
                m.num_line_faces = m.num_line_faces + 1;
            } else {
                let t = nv - 2;
                m.num_triangles = m.num_triangles + t;
                if t > m.max_face_triangles {
                    m.max_face_triangles = t;
                }
            }
            m.faces.push(Face { index_begin, num_indices: num_verts });
            let ghost vi0 = m.vertex_indices@;
            let ghost ui0 = m.uv_indices@;
            let ghost ni0 = m.normal_indices@;
            match push_corners(
                face,
                has_uv,
                has_normal,
                &mut m.vertex_indices,
                &mut m.uv_indices,
                &mut m.normal_indices,
            ) {
                Ok(()) => {},
                Err(()) => {
                    return Err(Error::unknown("Face vertex missing position index"));
                },
            }
            proof {
                assert(corner_slots(next, 0) =~= vi0 + Seq::new(nv as nat, |k: int| corner_slot(face@[k], 0)));
                assert(corner_slots(next, 1) =~= corner_slots(pre, 1) + Seq::new(nv as nat, |k: int| corner_slot(face@[k], 1)));
                assert(corner_slots(next, 2) =~= corner_slots(pre, 2) + Seq::new(nv as nat, |k: int| corner_slot(face@[k], 2)));
            }
            m.num_indices = m.num_indices + nv;
            index_begin = index_begin + num_verts;
            let mat: u32 = match self.face_materials[f] {
                Some(i) => i as u32,
                None => 0,
            };
            m.face_material.push(mat);
            m.face_smoothing.push(self.face_smoothing[f]);
            f = f + 1;
            assert(m.face_material@ =~= Seq::new(f as nat, |k: int| slot(g.face_materials[k])));
            assert(m.face_smoothing@ =~= g.face_smoothing.take(f as int));
            assert forall|a: int, b: int| 0 <= a < next.len() && 0 <= b < next[a].len() implies (#[trigger] next[a][b]).position is Some by {
                if a < f - 1 {
                    assert(next[a] == pre[a]);
                }
            }
        }
        assert(fs.take(f as int) =~= fs);
        assert(g.face_smoothing.take(f as int) =~= g.face_smoothing);
        Ok(m)
    }
}

/// Every OBJ line keeps one material and smoothing entry per face.
pub proof fn lemma_obj_directive_wf(p: ParserModel, ts: Seq<Seq<char>>)
    requires
        geometry_wf(p.geometry),
    ensures
        geometry_wf(obj_directive(p, ts).model.geometry),
{
}

/// Reading OBJ lines keeps one material and smoothing entry per face, so
/// that what is read can be laid out as a mesh.
pub proof fn lemma_obj_lines_wf(p: ParserModel, ls: Seq<Seq<char>>)
    requires
        geometry_wf(p.geometry),
    ensures
        geometry_wf(obj_lines(p, ls).model.geometry),
    decreases ls.len(),
{
    if ls.len() > 0 {
        let q = ParserModel { line_number: p.line_number + 1, ..p };
        lemma_obj_directive_wf(q, obj_tokens(ls[0]));
        let s = obj_line(q, ls[0]);
        if s.error is None {
            lemma_obj_lines_wf(s.model, ls.drop_first());
        }
    }
}

} // verus!
