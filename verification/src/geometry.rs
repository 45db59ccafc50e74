//! Mesh topology: half-edges with their twins, faces and mesh edges, and
//! walking around a vertex; index generation by merging equal vertices.
use vstd::prelude::*;
use crate::error::Error;
use crate::types::{Edge, Face};

verus! {

/// Flags of a half-edge.
#[derive(Debug, Clone, Copy, PartialEq, Eq, Default, Structural)]
pub struct TopoFlags {
    /// More than two half-edges join the same two vertices.
    pub non_manifold: bool,
}

/// A half-edge of a mesh: one per mesh index.
#[derive(Debug, Clone, Copy)]
pub struct TopoEdge {
    /// The mesh index that starts the half-edge.
    pub index: u32,
    /// The next mesh index of the same face.
    pub next: u32,
    /// The previous mesh index of the same face.
    pub prev: u32,
    /// The half-edge on the other side, when exactly one shares the edge.
    pub twin: Option<u32>,
    /// The face the half-edge belongs to.
    pub face: u32,
    /// The mesh edge between the same two vertices, if any.
    pub edge: Option<u32>,
    /// Flags of the half-edge.
    pub flags: TopoFlags,
}

impl TopoEdge {
    /// The absence of a twin or an edge.
    pub const NONE: Option<u32> = None;
}

/// First mesh index of face `f` when the faces follow each other.
pub open spec fn face_start(faces: Seq<Face>, f: int) -> int
    decreases f,
{
    if f <= 0 {
        0
    } else {
        face_start(faces, f - 1) + faces[f - 1].num_indices
    }
}

/// The faces follow each other: each begins where the one before ends.
pub open spec fn tiles(faces: Seq<Face>) -> bool {
    forall|f: int| 0 <= f < faces.len() ==> #[trigger] faces[f].index_begin == face_start(faces, f)
}

/// Number of mesh indices that the faces cover.
pub open spec fn corner_count(faces: Seq<Face>) -> int {
    face_start(faces, faces.len() as int)
}

/// Mesh index `i` belongs to face `f`.
pub open spec fn in_face(faces: Seq<Face>, f: int, i: int) -> bool {
    0 <= f < faces.len() && faces[f].index_begin <= i < faces[f].index_begin + faces[f].num_indices
}

/// The face that mesh index `i` belongs to.
pub open spec fn face_of(faces: Seq<Face>, i: int) -> int {
    choose|f: int| in_face(faces, f, i)
}

/// The mesh index after `i` around its face.
pub open spec fn next_corner(faces: Seq<Face>, i: int) -> int {
    let fc = faces[face_of(faces, i)];
    fc.index_begin + (i - fc.index_begin + 1) % (fc.num_indices as int)
}

/// The mesh index before `i` around its face.
pub open spec fn prev_corner(faces: Seq<Face>, i: int) -> int {
    let fc = faces[face_of(faces, i)];
    fc.index_begin + (i - fc.index_begin + fc.num_indices - 1) % (fc.num_indices as int)
}

/// The vertices at mesh indices `a` and `b`, smaller first.
pub open spec fn vertex_pair(vi: Seq<u32>, a: int, b: int) -> (u32, u32) {
    if vi[b] < vi[a] {
        (vi[b], vi[a])
    } else {
        (vi[a], vi[b])
    }
}

/// The two vertices that the half-edge from mesh index `i` joins.
pub open spec fn half_key(faces: Seq<Face>, vi: Seq<u32>, i: int) -> (u32, u32) {
    vertex_pair(vi, i, next_corner(faces, i))
}

/// Number of half-edges among the first `n` that join the same vertices as `i`.
pub open spec fn key_count(faces: Seq<Face>, vi: Seq<u32>, i: int, n: int) -> nat
    decreases n,
{
    if n <= 0 {
        0
    } else {
        key_count(faces, vi, i, n - 1) + if half_key(faces, vi, n - 1) == half_key(faces, vi, i) {
            1nat
        } else {
            0nat
        }
    }
}

/// The last half-edge among the first `n`, other than `i`, joining the same
/// vertices as `i`.
pub open spec fn last_other(faces: Seq<Face>, vi: Seq<u32>, i: int, n: int) -> Option<int>
    decreases n,
{
    if n <= 0 {
        None
    } else if n - 1 != i && half_key(faces, vi, n - 1) == half_key(faces, vi, i) {
        Some(n - 1)
    } else {
        last_other(faces, vi, i, n - 1)
    }
}

/// The last mesh edge among the first `m` that joins the vertices `key`.
pub open spec fn last_edge(vi: Seq<u32>, edges: Seq<Edge>, key: (u32, u32), m: int) -> Option<int>
    decreases m,
{
    if m <= 0 {
        None
    } else if vertex_pair(vi, edges[m - 1].a as int, edges[m - 1].b as int) == key {
        Some(m - 1)
    } else {
        last_edge(vi, edges, key, m - 1)
    }
}

/// The half-edge of mesh index `i`: its face neighbours, its twin when
/// exactly two half-edges join its vertices, the last mesh edge joining
/// them, and whether more than two half-edges do.
pub open spec fn topo_edge_at(faces: Seq<Face>, vi: Seq<u32>, edges: Seq<Edge>, i: int) -> TopoEdge {
    let key = half_key(faces, vi, i);
    let c = key_count(faces, vi, i, corner_count(faces));
    TopoEdge {
        index: i as u32,
        next: next_corner(faces, i) as u32,
        prev: prev_corner(faces, i) as u32,
        twin: if c == 2 {
            Some(last_other(faces, vi, i, corner_count(faces))->0 as u32)
        } else {
            None
        },
        face: face_of(faces, i) as u32,
        edge: match last_edge(vi, edges, key, edges.len() as int) {
            Some(e) => Some(e as u32),
            None => None,
        },
        flags: TopoFlags { non_manifold: c > 2 },
    }
}

/// Face starts grow with the face number.
proof fn lemma_face_start_mono(faces: Seq<Face>, f: int, g: int)
    requires
        0 <= f <= g <= faces.len(),
    ensures
        face_start(faces, f) <= face_start(faces, g),
    decreases g - f,
{
    if f < g {
        lemma_face_start_mono(faces, f, g - 1);
    }
}

/// With tiling faces, the face of an index is the one that holds it.
proof fn lemma_face_of(faces: Seq<Face>, f: int, i: int)
    requires
        tiles(faces),
        in_face(faces, f, i),
    ensures
        face_of(faces, i) == f,
{
    let g = face_of(faces, i);
    assert(in_face(faces, g, i));
    if g < f {
        lemma_face_start_mono(faces, g + 1, f);
        assert(faces[g].index_begin == face_start(faces, g));
        assert(faces[f].index_begin == face_start(faces, f));
    } else if f < g {
        lemma_face_start_mono(faces, f + 1, g);
        assert(faces[g].index_begin == face_start(faces, g));
        assert(faces[f].index_begin == face_start(faces, f));
    }
}

/// The next and previous positions around a face of `n` corners.
proof fn lemma_corner_steps(pi: int, n: int)
    requires
        0 <= pi < n,
    ensures
        (pi + 1) % n == (if pi + 1 < n { pi + 1 } else { 0 }),
        (pi + n - 1) % n == (if pi == 0 { n - 1 } else { pi - 1 }),
{
    if pi + 1 < n {
        vstd::arithmetic::div_mod::lemma_small_mod((pi + 1) as nat, n as nat);
    } else {
        vstd::arithmetic::div_mod::lemma_mod_self_0(n);
    }
    if pi == 0 {
        vstd::arithmetic::div_mod::lemma_small_mod((n - 1) as nat, n as nat);
    } else {
        vstd::arithmetic::div_mod::lemma_mod_add_multiples_vanish(pi - 1, n);
        vstd::arithmetic::div_mod::lemma_small_mod((pi - 1) as nat, n as nat);
    }
}

/// Per mesh index: the next and previous index of its face, its face and
/// the two vertices of its half-edge, smaller first.
struct Corners {
    next: Vec<u32>,
    prev: Vec<u32>,
    face: Vec<u32>,
    lo: Vec<u32>,
    hi: Vec<u32>,
}

/// The per-index facts of `c` for the first `n` mesh indices.
spec fn corners_hold(c: Corners, faces: Seq<Face>, vi: Seq<u32>, n: int) -> bool {
    &&& c.next@.len() == n && c.prev@.len() == n && c.face@.len() == n
    &&& c.lo@.len() == n && c.hi@.len() == n
    &&& forall|j: int|
        #![trigger c.next@[j]]
        #![trigger c.prev@[j]]
        #![trigger c.face@[j]]
        #![trigger c.lo@[j]]
        #![trigger c.hi@[j]]
        0 <= j < n ==> {
            &&& c.next@[j] == next_corner(faces, j)
            &&& c.prev@[j] == prev_corner(faces, j)
            &&& c.face@[j] == face_of(faces, j) as u32
            &&& (c.lo@[j], c.hi@[j]) == half_key(faces, vi, j)
        }
}

/// Walks the faces in order and records, for each mesh index, its face
/// neighbours, its face and the vertices of its half-edge.
fn collect_corners(faces: &[Face], vertex_indices: &[u32]) -> (c: Corners)
    requires
        tiles(faces@),
        corner_count(faces@) <= vertex_indices@.len(),
        corner_count(faces@) <= u32::MAX,
    ensures
        corners_hold(c, faces@, vertex_indices@, corner_count(faces@)),
{
    let mut c = Corners { next: Vec::new(), prev: Vec::new(), face: Vec::new(), lo: Vec::new(), hi: Vec::new() };
    let mut f: usize = 0;
    while f < faces.len()
        invariant
            tiles(faces@),
            corner_count(faces@) <= vertex_indices@.len(),
            corner_count(faces@) <= u32::MAX,
            f <= faces@.len(),
            corners_hold(c, faces@, vertex_indices@, face_start(faces@, f as int)),
        decreases faces@.len() - f,
    {
        let fc = faces[f];
        proof {
            lemma_face_start_mono(faces@, f as int + 1, faces@.len() as int);
            assert(faces@[f as int].index_begin == face_start(faces@, f as int));
        }
        let mut pi: u32 = 0;
        while pi < fc.num_indices
            invariant
                tiles(faces@),
                corner_count(faces@) <= vertex_indices@.len(),
                corner_count(faces@) <= u32::MAX,
                f < faces@.len(),
                fc == faces@[f as int],
                fc.index_begin == face_start(faces@, f as int),
                face_start(faces@, f as int + 1) <= corner_count(faces@),
                pi <= fc.num_indices,
                corners_hold(c, faces@, vertex_indices@, fc.index_begin + pi),
            decreases fc.num_indices - pi,
        {
            let i = fc.index_begin + pi;
            let n = fc.num_indices;
            let ni: u32 = if pi + 1 < n { pi + 1 } else { 0 };
            let pv: u32 = if pi == 0 { n - 1 } else { pi - 1 };
            let va = vertex_indices[i as usize];
            let vb = vertex_indices[(fc.index_begin + ni) as usize];
            proof {
                lemma_face_of(faces@, f as int, i as int);
                lemma_corner_steps(pi as int, n as int);
            }
            c.next.push(fc.index_begin + ni);
            c.prev.push(fc.index_begin + pv);
            c.face.push(f as u32);
            if vb < va {
                c.lo.push(vb);
                c.hi.push(va);
            } else {
                c.lo.push(va);
                c.hi.push(vb);
            }
            pi = pi + 1;
        }
        f = f + 1;
    }
    c
}

/// Computes the half-edges of a mesh given by its faces, its vertex index
/// per mesh index and its edges (pairs of mesh indices). There is one
/// half-edge per mesh index, in order.
pub fn compute_topology(faces: &[Face], vertex_indices: &[u32], edges: &[Edge]) -> (r: Vec<TopoEdge>)
    requires
        tiles(faces@),
        corner_count(faces@) <= vertex_indices@.len(),
        corner_count(faces@) <= u32::MAX,
        forall|f: int| 0 <= f < faces@.len() ==> #[trigger] faces@[f].num_indices <= 0x8000_0000,
        forall|e: int|
            0 <= e < edges@.len() ==> #[trigger] edges@[e].a < vertex_indices@.len() && edges@[e].b
                < vertex_indices@.len(),
    ensures
        r@.len() == corner_count(faces@),
        forall|i: int|
            0 <= i < r@.len() ==> #[trigger] r@[i] == topo_edge_at(faces@, vertex_indices@, edges@, i),
{
    let c = collect_corners(faces, vertex_indices);
    let total = c.next.len();
    let mut topo: Vec<TopoEdge> = Vec::new();
    let mut i: usize = 0;
    while i < total
        invariant
            total == corner_count(faces@),
            total <= u32::MAX,
            corners_hold(c, faces@, vertex_indices@, total as int),
            forall|e: int|
                0 <= e < edges@.len() ==> #[trigger] edges@[e].a < vertex_indices@.len()
                    && edges@[e].b < vertex_indices@.len(),
            i <= total,
            topo@.len() == i,
            forall|k: int| 0 <= k < i ==> #[trigger] topo@[k] == topo_edge_at(faces@, vertex_indices@, edges@, k),
        decreases total - i,
    {
        let lo = c.lo[i];
        let hi = c.hi[i];
        let ghost key = half_key(faces@, vertex_indices@, i as int);
        assert(key == (lo, hi));
        let mut count: usize = 0;
        let mut other: u32 = 0;
        let mut j: usize = 0;
        while j < total
            invariant
                total == corner_count(faces@),
                total <= u32::MAX,
                corners_hold(c, faces@, vertex_indices@, total as int),
                i < total,
                key == half_key(faces@, vertex_indices@, i as int),
                key == (lo, hi),
                j <= total,
                count == key_count(faces@, vertex_indices@, i as int, j as int),
                count <= j,
                match last_other(faces@, vertex_indices@, i as int, j as int) {
                    Some(o) => other == o,
                    None => true,
                },
            decreases total - j,
        {
            assert((c.lo@[j as int], c.hi@[j as int]) == half_key(faces@, vertex_indices@, j as int));
            if c.lo[j] == lo && c.hi[j] == hi {
                count = count + 1;
                if j != i {
                    other = j as u32;
                }
            }
            j = j + 1;
        }
        let mut edge: Option<u32> = None;
        let mut e: usize = 0;
        while e < edges.len()
            invariant
                forall|e: int|
                    0 <= e < edges@.len() ==> #[trigger] edges@[e].a < vertex_indices@.len()
                        && edges@[e].b < vertex_indices@.len(),
                key == (lo, hi),
                e <= edges@.len(),
                edge == (match last_edge(vertex_indices@, edges@, key, e as int) {
                    Some(x) => Some(x as u32),
                    None => None,
                }),
            decreases edges@.len() - e,
        {
            let ed = edges[e];
            let va = vertex_indices[ed.a as usize];
            let vb = vertex_indices[ed.b as usize];
            let (ea, eb) = if vb < va { (vb, va) } else { (va, vb) };
            if ea == lo && eb == hi {
                edge = Some(e as u32);
            }
            e = e + 1;
        }
        let t = TopoEdge {
            index: i as u32,
            next: c.next[i],
            prev: c.prev[i],
            twin: if count == 2 { Some(other) } else { None },
            face: c.face[i],
            edge,
            flags: TopoFlags { non_manifold: count > 2 },
        };
        proof {
            if count == 2 {
                lemma_last_other_found(faces@, vertex_indices@, i as int, total as int);
            }
        }
        topo.push(t);
        i = i + 1;
    }
    topo
}

/// When two half-edges among the first `n` join the vertices of `i`, one
/// of them `i` itself, the other is found.
proof fn lemma_last_other_found(faces: Seq<Face>, vi: Seq<u32>, i: int, n: int)
    requires
        0 <= i < n,
        key_count(faces, vi, i, n) == 2,
    ensures
        last_other(faces, vi, i, n) is Some,
{
    lemma_count_without_other(faces, vi, i, n);
}

/// Without another half-edge joining the vertices of `i` among the first
/// `n`, only `i` itself is counted.
proof fn lemma_count_without_other(faces: Seq<Face>, vi: Seq<u32>, i: int, n: int)
    requires
        0 <= i,
    ensures
        last_other(faces, vi, i, n) is None ==> key_count(faces, vi, i, n) == (if i < n { 1nat } else { 0nat }),
    decreases n,
{
    if n > 0 {
        lemma_count_without_other(faces, vi, i, n - 1);
    }
}

/// What `last_other` finds is another half-edge joining the same vertices.
proof fn lemma_last_other_valid(faces: Seq<Face>, vi: Seq<u32>, i: int, n: int)
    ensures
        last_other(faces, vi, i, n) matches Some(z) ==> 0 <= z < n && z != i && half_key(faces, vi, z)
            == half_key(faces, vi, i),
    decreases n,
{
    if n > 0 {
        lemma_last_other_valid(faces, vi, i, n - 1);
    }
}

/// Half-edges joining the same vertices are counted alike.
proof fn lemma_key_count_same(faces: Seq<Face>, vi: Seq<u32>, i: int, j: int, n: int)
    requires
        half_key(faces, vi, i) == half_key(faces, vi, j),
    ensures
        key_count(faces, vi, i, n) == key_count(faces, vi, j, n),
    decreases n,
{
    if n > 0 {
        lemma_key_count_same(faces, vi, i, j, n - 1);
    }
}

/// Three distinct half-edges below `n` joining the vertices of `i` make a
/// count of at least three.
proof fn lemma_key_count_three(faces: Seq<Face>, vi: Seq<u32>, i: int, x: int, y: int, z: int, n: int)
    requires
        x != y && y != z && x != z,
        0 <= x && 0 <= y && 0 <= z,
        half_key(faces, vi, x) == half_key(faces, vi, i),
        half_key(faces, vi, y) == half_key(faces, vi, i),
        half_key(faces, vi, z) == half_key(faces, vi, i),
    ensures
        key_count(faces, vi, i, n) >= (if x < n { 1int } else { 0 }) + (if y < n { 1int } else { 0 }) + (
        if z < n { 1int } else { 0 }),
    decreases n,
{
    if n > 0 {
        lemma_key_count_three(faces, vi, i, x, y, z, n - 1);
    }
}

/// Twins pair up: when the half-edge of mesh index `i` has a twin, the
/// twin's twin is `i` again.
pub proof fn lemma_twin_symmetric(faces: Seq<Face>, vi: Seq<u32>, edges: Seq<Edge>, i: int)
    requires
        corner_count(faces) <= u32::MAX,
        0 <= i < corner_count(faces),
        topo_edge_at(faces, vi, edges, i).twin is Some,
    ensures
        ({
            let j = topo_edge_at(faces, vi, edges, i).twin->0 as int;
            &&& 0 <= j < corner_count(faces)
            &&& j != i
            &&& topo_edge_at(faces, vi, edges, j).twin == Some(i as u32)
        }),
{
    let n = corner_count(faces);
    lemma_last_other_found(faces, vi, i, n);
    lemma_last_other_valid(faces, vi, i, n);
    let j = last_other(faces, vi, i, n)->0;
    lemma_key_count_same(faces, vi, i, j, n);
    lemma_last_other_found(faces, vi, j, n);
    lemma_last_other_valid(faces, vi, j, n);
    let z = last_other(faces, vi, j, n)->0;
    if z != i {
        lemma_key_count_three(faces, vi, i, i, j, z, n);
    }
}

/// Around a face, the index before the next one is the index itself, and
/// the index after the previous one too.
pub proof fn lemma_next_prev_inverse(faces: Seq<Face>, vi: Seq<u32>, edges: Seq<Edge>, i: int)
    requires
        tiles(faces),
        corner_count(faces) <= u32::MAX,
        0 <= i < corner_count(faces),
    ensures
        topo_edge_at(faces, vi, edges, topo_edge_at(faces, vi, edges, i).next as int).prev == i,
        topo_edge_at(faces, vi, edges, topo_edge_at(faces, vi, edges, i).prev as int).next == i,
{
    let f = lemma_index_in_face(faces, i, faces.len() as int);
    lemma_face_of(faces, f, i);
    let fc = faces[f];
    let pi = i - fc.index_begin;
    let n = fc.num_indices as int;
    lemma_corner_steps(pi, n);
    let nx = next_corner(faces, i);
    let pv = prev_corner(faces, i);
    lemma_face_start_mono(faces, f + 1, faces.len() as int);
    assert(fc.index_begin == face_start(faces, f));
    assert(in_face(faces, f, nx));
    assert(in_face(faces, f, pv));
    lemma_face_of(faces, f, nx);
    lemma_face_of(faces, f, pv);
    lemma_corner_steps(nx - fc.index_begin, n);
    lemma_corner_steps(pv - fc.index_begin, n);
}

/// Around a vertex, stepping back undoes stepping on: from a half-edge
/// with a twin, the next half-edge around its start vertex (the one after
/// the twin) steps back (the twin of the one before it) to the first.
pub proof fn lemma_vertex_steps_inverse(faces: Seq<Face>, vi: Seq<u32>, edges: Seq<Edge>, i: int)
    requires
        tiles(faces),
        corner_count(faces) <= u32::MAX,
        0 <= i < corner_count(faces),
        topo_edge_at(faces, vi, edges, i).twin is Some,
    ensures
        ({
            let t = topo_edge_at(faces, vi, edges, i).twin->0 as int;
            let e = topo_edge_at(faces, vi, edges, t).next as int;
            let p = topo_edge_at(faces, vi, edges, e).prev as int;
            &&& 0 <= e < corner_count(faces)
            &&& 0 <= p < corner_count(faces)
            &&& topo_edge_at(faces, vi, edges, topo_edge_at(faces, vi, edges, p).index as int).twin == Some(i as u32)
        }),
{
    lemma_twin_symmetric(faces, vi, edges, i);
    let t = topo_edge_at(faces, vi, edges, i).twin->0 as int;
    lemma_next_prev_inverse(faces, vi, edges, t);
    let f = lemma_index_in_face(faces, t, faces.len() as int);
    lemma_face_of(faces, f, t);
    lemma_corner_steps(t - faces[f].index_begin, faces[f].num_indices as int);
    lemma_face_start_mono(faces, f + 1, faces.len() as int);
    assert(faces[f].index_begin == face_start(faces, f));
}

/// Each mesh index below the faces' end belongs to one of them.
proof fn lemma_index_in_face(faces: Seq<Face>, i: int, m: int) -> (f: int)
    requires
        tiles(faces),
        0 <= m <= faces.len(),
        0 <= i < face_start(faces, m),
    ensures
        0 <= f < m,
        in_face(faces, f, i),
    decreases m,
{
    if i >= face_start(faces, m - 1) {
        assert(faces[m - 1].index_begin == face_start(faces, m - 1));
        m - 1
    } else {
        lemma_index_in_face(faces, i, m - 1)
    }
}

/// For the half-edges that `compute_topology` gives, stepping to the
/// previous half-edge around a vertex undoes stepping to the next one: from a
/// half-edge `i` with a twin, `topo_next_vertex_edge` gives `e`, and
/// `topo_prev_vertex_edge` of `e` gives `i` back. The indices each call
/// reads are in range.
pub proof fn lemma_prev_vertex_edge_undoes_next(
    faces: Seq<Face>,
    vi: Seq<u32>,
    edges: Seq<Edge>,
    topo: Seq<TopoEdge>,
    i: int,
)
    requires
        tiles(faces),
        corner_count(faces) <= u32::MAX,
        topo.len() == corner_count(faces),
        forall|k: int| 0 <= k < topo.len() ==> #[trigger] topo[k] == topo_edge_at(faces, vi, edges, k),
        0 <= i < topo.len(),
        topo[i].twin is Some,
    ensures
        ({
            let t = topo[i].twin->0;
            let e = topo[t as int].next;
            let p = topo[e as int].prev;
            &&& t < topo.len()
            &&& e < topo.len()
            &&& p < topo.len()
            &&& topo[p as int].index < topo.len()
            &&& topo[topo[p as int].index as int].twin == Some(i as u32)
        }),
{
    lemma_twin_symmetric(faces, vi, edges, i);
    lemma_vertex_steps_inverse(faces, vi, edges, i);
    let t = topo[i].twin->0 as int;
    let e = topo[t].next as int;
    let p = topo[e].prev as int;
    assert(topo[t] == topo_edge_at(faces, vi, edges, t));
    assert(topo[e] == topo_edge_at(faces, vi, edges, e));
    assert(topo[p] == topo_edge_at(faces, vi, edges, p));
    let q = topo[p].index as int;
    assert(topo[q] == topo_edge_at(faces, vi, edges, q));
}

/// The half-edge that continues around the start vertex of half-edge
/// `index`: the next one after its twin, when it has a twin.
pub fn topo_next_vertex_edge(topo: &[TopoEdge], index: u32) -> (r: Option<u32>)
    requires
        index < topo@.len(),
        topo@[index as int].twin matches Some(t) ==> t < topo@.len(),
    ensures
        r == (match topo@[index as int].twin {
            Some(t) => Some(topo@[t as int].next),
            None => None,
        }),
{
    let edge = &topo[index as usize];
    match edge.twin {
        Some(twin) => Some(topo[twin as usize].next),
        None => None,
    }
}

/// The half-edge that goes back around the start vertex of half-edge
/// `index`: the twin of the one before it in its face.
pub fn topo_prev_vertex_edge(topo: &[TopoEdge], index: u32) -> (r: Option<u32>)
    requires
        index < topo@.len(),
        topo@[index as int].prev < topo@.len(),
        topo@[topo@[index as int].prev as int].index < topo@.len(),
    ensures
        r == topo@[topo@[topo@[index as int].prev as int].index as int].twin,
{
    let edge = &topo[index as usize];
    let prev = topo[edge.prev as usize].index;
    topo[prev as usize].twin
}


/// Triangulates a triangle or a quad into `output` (a fan from the first
/// corner) and gives the number of triangles; other faces are left to the
/// polygon triangulation, and give 0 here with nothing written. Faces of
/// fewer than three corners give no triangle.
pub fn triangulate_face(face: Face, output: &mut Vec<u32>) -> (r: usize)
    requires
        face.index_begin + face.num_indices <= u32::MAX,
        face.num_indices == 3 ==> old(output)@.len() >= 3,
        face.num_indices == 4 ==> old(output)@.len() >= 6,
    ensures
        final(output)@.len() == old(output)@.len(),
        face.num_indices < 3 ==> r == 0 && final(output)@ == old(output)@,
        face.num_indices == 3 ==> r == 1 && final(output)@.take(3) == seq![face.index_begin, (face.index_begin + 1) as u32, (face.index_begin + 2) as u32]
            && final(output)@.skip(3) == old(output)@.skip(3),
        face.num_indices == 4 ==> r == 2 && final(output)@.take(6) == seq![
            face.index_begin,
            (face.index_begin + 1) as u32,
            (face.index_begin + 2) as u32,
            face.index_begin,
            (face.index_begin + 2) as u32,
            (face.index_begin + 3) as u32,
        ] && final(output)@.skip(6) == old(output)@.skip(6),
        face.num_indices > 4 ==> r == 0 && final(output)@ == old(output)@,
{
    let b = face.index_begin;
    if face.num_indices == 3 {
        output.set(0, b);
        output.set(1, b + 1);
        output.set(2, b + 2);
        assert(output@.take(3) =~= seq![b, (b + 1) as u32, (b + 2) as u32]);
        assert(output@.skip(3) =~= old(output)@.skip(3));
        return 1;
    }
    if face.num_indices == 4 {
        output.set(0, b);
        output.set(1, b + 1);
        output.set(2, b + 2);
        output.set(3, b);
        output.set(4, b + 2);
        output.set(5, b + 3);
        assert(output@.take(6) =~= seq![b, (b + 1) as u32, (b + 2) as u32, b, (b + 2) as u32, (b + 3) as u32]);
        assert(output@.skip(6) =~= old(output)@.skip(6));
        return 2;
    }
    0
}

/// The smoothing flags of a mesh that decide whether an edge is smooth.
pub struct SmoothingFlags {
    pub edge_smoothing: Vec<bool>,
    pub face_smoothing: Vec<bool>,
}

/// What the smoothing flags say of the edge of half-edge `e`: `Some(true)`
/// where the edge or either of its faces is marked smooth, `Some(false)`
/// where there are flags and none marks it, `None` where there are no flags
/// at all (the normals decide then).
pub open spec fn smooth_by_flags(es: Seq<bool>, fs: Seq<bool>, topo: Seq<TopoEdge>, e: int) -> Option<bool> {
    let t = topo[e];
    if es.len() > 0 && (t.edge matches Some(k) && es[k as int]) {
        Some(true)
    } else if fs.len() > 0 && (fs[t.face as int] || (t.twin matches Some(w) && fs[topo[w as int].face as int])) {
        Some(true)
    } else if es.len() == 0 && fs.len() == 0 {
        None
    } else {
        Some(false)
    }
}

/// Decides from the smoothing flags whether the edge of half-edge `index`
/// is smooth, as [`smooth_by_flags`] states; where there are no flags the
/// vertex normals decide, which is float work done elsewhere.
pub fn is_edge_smooth(flags: &SmoothingFlags, topo: &[TopoEdge], index: u32) -> (r: Option<bool>)
    requires
        index < topo@.len(),
        flags.edge_smoothing@.len() > 0 ==> (topo@[index as int].edge matches Some(k) ==> k < flags.edge_smoothing@.len()),
        flags.face_smoothing@.len() > 0 ==> topo@[index as int].face < flags.face_smoothing@.len(),
        topo@[index as int].twin matches Some(w) ==> w < topo@.len(),
        flags.face_smoothing@.len() > 0 ==> (topo@[index as int].twin matches Some(w) ==> topo@[w as int].face
            < flags.face_smoothing@.len()),
    ensures
        r == smooth_by_flags(flags.edge_smoothing@, flags.face_smoothing@, topo@, index as int),
{
    let edge = &topo[index as usize];
    if flags.edge_smoothing.len() > 0 {
        if let Some(k) = edge.edge {
            if flags.edge_smoothing[k as usize] {
                return Some(true);
            }
        }
    }
    if flags.face_smoothing.len() > 0 {
        if flags.face_smoothing[edge.face as usize] {
            return Some(true);
        }
        if let Some(w) = edge.twin {
            let twin_face = topo[w as usize].face;
            if flags.face_smoothing[twin_face as usize] {
                return Some(true);
            }
        }
    }
    if flags.edge_smoothing.len() == 0 && flags.face_smoothing.len() == 0 {
        return None;
    }
    Some(false)
}

/// One attribute stream of a vertex buffer: `vertex_size` bytes per vertex.
#[derive(Debug, Clone)]
pub struct VertexStream<'a> {
    pub data: &'a [u8],
    pub vertex_size: usize,
}

/// The bytes of vertex `i` in `stream`.
pub open spec fn vertex_slice(stream: VertexStream, i: int) -> Seq<u8> {
    stream.data@.subrange(i * stream.vertex_size, (i + 1) * stream.vertex_size)
}

/// The bytes of vertex `i` in each of the first `m` streams, one after another.
pub open spec fn packed_vertex(streams: Seq<VertexStream>, i: int, m: int) -> Seq<u8>
    decreases m,
{
    if m <= 0 {
        Seq::empty()
    } else {
        packed_vertex(streams, i, m - 1) + vertex_slice(streams[m - 1], i)
    }
}

/// Where stream `m` starts in a packed vertex.
pub open spec fn stream_offset(streams: Seq<VertexStream>, m: int) -> int
    decreases m,
{
    if m <= 0 {
        0
    } else {
        stream_offset(streams, m - 1) + streams[m - 1].vertex_size
    }
}

/// The whole packed vertex `i`.
pub open spec fn packed(streams: Seq<VertexStream>, i: int) -> Seq<u8> {
    packed_vertex(streams, i, streams.len() as int)
}

/// The distinct packed vertices among the first `n`, in order of first
/// appearance.
pub open spec fn unique_vertices(streams: Seq<VertexStream>, n: int) -> Seq<Seq<u8>>
    decreases n,
{
    if n <= 0 {
        Seq::empty()
    } else {
        let u = unique_vertices(streams, n - 1);
        if u.contains(packed(streams, n - 1)) {
            u
        } else {
            u.push(packed(streams, n - 1))
        }
    }
}

/// Position of the first `x` in `s`.
pub open spec fn first_pos(s: Seq<Seq<u8>>, x: Seq<u8>) -> int
    decreases s.len(),
{
    if s.len() == 0 {
        0
    } else if s[0] == x {
        0
    } else {
        1 + first_pos(s.drop_first(), x)
    }
}

/// Every stream holds `n` vertices.
pub open spec fn streams_hold(streams: Seq<VertexStream>, n: int) -> bool {
    forall|s: int| 0 <= s < streams.len() ==> n * #[trigger] streams[s].vertex_size <= streams[s].data@.len()
}

/// A packed vertex is the slices of its streams, one after another.
proof fn lemma_packed_vertex(streams: Seq<VertexStream>, i: int, n: int, m: int)
    requires
        0 <= i < n,
        0 <= m <= streams.len(),
        streams_hold(streams, n),
    ensures
        packed_vertex(streams, i, m).len() == stream_offset(streams, m),
        forall|s: int|
            0 <= s < m ==> #[trigger] packed_vertex(streams, i, m).subrange(
                stream_offset(streams, s),
                stream_offset(streams, s + 1),
            ) == vertex_slice(streams[s], i),
    decreases m,
{
    if m > 0 {
        lemma_packed_vertex(streams, i, n, m - 1);
        let p = packed_vertex(streams, i, m - 1);
        let v = vertex_slice(streams[m - 1], i);
        assert(streams_hold(streams, n));
        assert(n * streams[m - 1].vertex_size <= streams[m - 1].data@.len());
        assert((i + 1) * streams[m - 1].vertex_size <= n * streams[m - 1].vertex_size) by (nonlinear_arith)
            requires
                i + 1 <= n,
        ;
        assert(0 <= i * streams[m - 1].vertex_size) by (nonlinear_arith)
            requires
                0 <= i,
        ;
        assert((i + 1) * streams[m - 1].vertex_size == i * streams[m - 1].vertex_size
            + streams[m - 1].vertex_size) by (nonlinear_arith);
        assert forall|s: int| 0 <= s < m implies #[trigger] packed_vertex(streams, i, m).subrange(
            stream_offset(streams, s),
            stream_offset(streams, s + 1),
        ) == vertex_slice(streams[s], i) by {
            lemma_offset_mono(streams, s + 1, m - 1);
            lemma_offset_mono(streams, 0, s);
            if s < m - 1 {
                assert((p + v).subrange(stream_offset(streams, s), stream_offset(streams, s + 1))
                    =~= p.subrange(stream_offset(streams, s), stream_offset(streams, s + 1)));
            } else {
                assert((p + v).subrange(stream_offset(streams, s), stream_offset(streams, s + 1))
                    =~= v);
            }
        }
    }
}

/// Stream offsets grow with the stream number.
proof fn lemma_offset_mono(streams: Seq<VertexStream>, a: int, b: int)
    requires
        0 <= a,
    ensures
        a <= b ==> stream_offset(streams, a) <= stream_offset(streams, b),
    decreases b - a,
{
    if a < b {
        lemma_offset_mono(streams, a, b - 1);
    }
}

/// The first position of an element that occurs is where it occurs.
proof fn lemma_first_pos(s: Seq<Seq<u8>>, x: Seq<u8>)
    ensures
        s.contains(x) ==> 0 <= first_pos(s, x) < s.len() && s[first_pos(s, x)] == x,
        !s.contains(x) ==> first_pos(s, x) == s.len(),
        forall|k: int| 0 <= k < first_pos(s, x) && k < s.len() ==> s[k] != x,
    decreases s.len(),
{
    if s.len() > 0 && s[0] != x {
        lemma_first_pos(s.drop_first(), x);
        if s.contains(x) {
            let k = choose|k: int| 0 <= k < s.len() && s[k] == x;
            assert(s.drop_first()[k - 1] == x);
        }
        assert forall|k: int| 0 <= k < first_pos(s, x) && k < s.len() implies s[k] != x by {
            if k > 0 {
                assert(s[k] == s.drop_first()[k - 1]);
            }
        }
        if !s.contains(x) {
            assert(!s.drop_first().contains(x)) by {
                if s.drop_first().contains(x) {
                    let k = choose|k: int| 0 <= k < s.drop_first().len() && s.drop_first()[k] == x;
                    assert(s[k + 1] == x);
                }
            }
        }
    } else if s.len() > 0 {
        assert(s[0] == x);
    }
}

/// The list of distinct vertices only grows.
proof fn lemma_unique_prefix(streams: Seq<VertexStream>, a: int, b: int)
    requires
        0 <= a <= b,
    ensures
        unique_vertices(streams, a).len() <= unique_vertices(streams, b).len(),
        forall|k: int|
            0 <= k < unique_vertices(streams, a).len() ==> #[trigger] unique_vertices(streams, b)[k]
                == unique_vertices(streams, a)[k],
    decreases b - a,
{
    if a < b {
        lemma_unique_prefix(streams, a, b - 1);
    }
}

/// Every vertex seen so far is among the distinct ones.
proof fn lemma_unique_contains(streams: Seq<VertexStream>, i: int, n: int)
    requires
        0 <= i < n,
    ensures
        unique_vertices(streams, n).contains(packed(streams, i)),
        first_pos(unique_vertices(streams, n), packed(streams, i)) == first_pos(
            unique_vertices(streams, i + 1),
            packed(streams, i),
        ),
{
    let u = unique_vertices(streams, i + 1);
    let x = packed(streams, i);
    assert(u.contains(x)) by {
        let w = unique_vertices(streams, i);
        if !w.contains(x) {
            assert(u[w.len() as int] == x);
        }
    }
    lemma_unique_prefix(streams, i + 1, n);
    let v = unique_vertices(streams, n);
    lemma_first_pos(u, x);
    let p = first_pos(u, x);
    assert(v[p] == x);
    lemma_first_pos(v, x);
    lemma_first_pos_at(v, x, p);
}

/// When `x` stands at `p` and nowhere before, `p` is its first position.
proof fn lemma_first_pos_at(s: Seq<Seq<u8>>, x: Seq<u8>, p: int)
    requires
        0 <= p < s.len(),
        s[p] == x,
        forall|k: int| 0 <= k < p ==> s[k] != x,
    ensures
        first_pos(s, x) == p,
    decreases p,
{
    if p > 0 {
        assert forall|k: int| 0 <= k < p - 1 implies s.drop_first()[k] != x by {
            assert(s.drop_first()[k] == s[k + 1]);
        }
        lemma_first_pos_at(s.drop_first(), x, p - 1);
    }
}

/// Whether two byte vectors hold the same bytes.
fn same_bytes(a: &Vec<u8>, b: &Vec<u8>) -> (r: bool)
    ensures
        r == (a@ == b@),
{
    if a.len() != b.len() {
        return false;
    }
    let mut i: usize = 0;
    while i < a.len()
        invariant
            a@.len() == b@.len(),
            i <= a@.len(),
            forall|k: int| 0 <= k < i ==> a@[k] == b@[k],
        decreases a@.len() - i,
    {
        if a[i] != b[i] {
            return false;
        }
        i = i + 1;
    }
    assert(a@ =~= b@);
    true
}

/// Gives the position of `x` among `seen`, or `seen`'s length if absent.
fn find_vertex(seen: &Vec<Vec<u8>>, x: &Vec<u8>) -> (r: usize)
    ensures
        r == first_pos(seen@.map_values(|v: Vec<u8>| v@), x@),
{
    let ghost s = seen@.map_values(|v: Vec<u8>| v@);
    proof {
        lemma_first_pos(s, x@);
    }
    let mut k: usize = 0;
    while k < seen.len()
        invariant
            s == seen@.map_values(|v: Vec<u8>| v@),
            k <= seen@.len(),
            forall|j: int| 0 <= j < k ==> s[j] != x@,
        decreases seen@.len() - k,
    {
        if same_bytes(&seen[k], x) {
            proof {
                lemma_first_pos_at(s, x@, k as int);
            }
            return k;
        }
        k = k + 1;
    }
    proof {
        assert(!s.contains(x@));
    }
    k
}

/// The bytes of vertex `i` of `stream`.
fn copy_vertex(stream: &VertexStream, i: usize) -> (r: Vec<u8>)
    requires
        (i + 1) * stream.vertex_size <= stream.data@.len(),
    ensures
        r@ == vertex_slice(*stream, i as int),
{
    let vs = stream.vertex_size;
    let dl = stream.data.len();
    proof {
        assert(i * vs <= (i + 1) * vs) by (nonlinear_arith);
        assert((i + 1) * vs == i * vs + vs) by (nonlinear_arith);
    }
    let start = i * vs;
    let end = start + vs;
    let mut out: Vec<u8> = Vec::new();
    let mut j = start;
    while j < end
        invariant
            start <= j <= end <= stream.data@.len(),
            start == i * vs,
            end == (i + 1) * vs,
            vs == stream.vertex_size,
            out@ == stream.data@.subrange(start as int, j as int),
        decreases end - j,
    {
        out.push(stream.data[j]);
        j = j + 1;
    }
    out
}

/// The error for a call without vertex streams.
pub open spec fn no_streams_error(e: Error) -> bool {
    e matches Error::Unknown { description, stack } && stack is None && description@
        == "No vertex streams provided"@
}

/// The error for a stream that holds fewer vertices than asked.
pub open spec fn truncated_stream_error(e: Error) -> bool {
    e matches Error::Unknown { description, stack } && stack is None && description@
        == "Truncated vertex stream"@
}

/// Merges equal vertices: vertex `i` is the bytes of vertex `i` in every
/// stream, one stream after another. Gives, per stream, the slices of the
/// distinct vertices in order of first appearance, and per vertex the
/// position of its distinct vertex.
pub fn generate_indices(streams: &[VertexStream], num_vertices: usize) -> (r: Result<
    (Vec<Vec<Vec<u8>>>, Vec<u32>),
    Error,
>)
    requires
        forall|s: int|
            0 <= s < streams@.len() ==> num_vertices * #[trigger] streams@[s].vertex_size <= usize::MAX,
    ensures
        streams@.len() == 0 ==> (r matches Err(e) && no_streams_error(e)),
        streams@.len() > 0 && !streams_hold(streams@, num_vertices as int) ==> (r matches Err(e)
            && truncated_stream_error(e)),
        streams@.len() > 0 && streams_hold(streams@, num_vertices as int) ==> (r matches Ok(
            (per_stream, indices),
        ) && {
            let u = unique_vertices(streams@, num_vertices as int);
            &&& indices@.len() == num_vertices
            &&& forall|i: int|
                0 <= i < num_vertices ==> #[trigger] indices@[i] == first_pos(u, packed(streams@, i))
                    as u32
            &&& per_stream@.len() == streams@.len()
            &&& forall|s: int|
                0 <= s < streams@.len() ==> #[trigger] per_stream@[s]@.len() == u.len()
            &&& forall|s: int, k: int|
                0 <= s < streams@.len() && 0 <= k < u.len() ==> #[trigger] per_stream@[s]@[k]@
                    == u[k].subrange(stream_offset(streams@, s), stream_offset(streams@, s + 1))
            &&& u.len() <= u32::MAX ==> forall|s: int, i: int|
                0 <= s < streams@.len() && 0 <= i < num_vertices ==> #[trigger] per_stream@[s]@[indices@[i] as int]@
                    == vertex_slice(streams@[s], i)
        }),
{
    if streams.len() == 0 {
        return Err(Error::unknown("No vertex streams provided"));
    }
    let mut s: usize = 0;
    while s < streams.len()
        invariant
            s <= streams@.len(),
            forall|t: int|
                0 <= t < s ==> num_vertices * #[trigger] streams@[t].vertex_size <= streams@[t].data@.len(),
            forall|t: int|
                0 <= t < streams@.len() ==> num_vertices * #[trigger] streams@[t].vertex_size <= usize::MAX,
        decreases streams@.len() - s,
    {
        if streams[s].data.len() < num_vertices * streams[s].vertex_size {
            return Err(Error::unknown("Truncated vertex stream"));
        }
        s = s + 1;
    }
    let ghost ss = streams@;
    let mut seen: Vec<Vec<u8>> = Vec::new();
    let mut indices: Vec<u32> = Vec::new();
    let mut per_stream: Vec<Vec<Vec<u8>>> = Vec::new();
    let mut t: usize = 0;
    while t < streams.len()
        invariant
            t <= ss.len(),
            ss == streams@,
            per_stream@.len() == t,
            forall|q: int| 0 <= q < t ==> #[trigger] per_stream@[q]@.len() == 0,
        decreases ss.len() - t,
    {
        per_stream.push(Vec::new());
        t = t + 1;
    }
    let mut i: usize = 0;
    while i < num_vertices
        invariant
            ss == streams@,
            ss.len() > 0,
            streams_hold(ss, num_vertices as int),
            i <= num_vertices,
            seen@.map_values(|v: Vec<u8>| v@) == unique_vertices(ss, i as int),
            indices@.len() == i,
            forall|k: int|
                0 <= k < i ==> #[trigger] indices@[k] == first_pos(
                    unique_vertices(ss, num_vertices as int),
                    packed(ss, k),
                ) as u32,
            per_stream@.len() == ss.len(),
            forall|q: int| 0 <= q < ss.len() ==> #[trigger] per_stream@[q]@.len() == seen@.len(),
            forall|q: int, k: int|
                0 <= q < ss.len() && 0 <= k < seen@.len() ==> #[trigger] per_stream@[q]@[k]@
                    == unique_vertices(ss, i as int)[k].subrange(
                    stream_offset(ss, q),
                    stream_offset(ss, q + 1),
                ),
        decreases num_vertices - i,
    {
        let mut pk: Vec<u8> = Vec::new();
        let mut q: usize = 0;
        while q < streams.len()
            invariant
                ss == streams@,
                streams_hold(ss, num_vertices as int),
                i < num_vertices,
                q <= ss.len(),
                pk@ == packed_vertex(ss, i as int, q as int),
            decreases ss.len() - q,
        {
            proof {
                assert(num_vertices * ss[q as int].vertex_size <= ss[q as int].data@.len());
                assert((i + 1) * ss[q as int].vertex_size <= num_vertices * ss[q as int].vertex_size)
                    by (nonlinear_arith)
                    requires
                        i + 1 <= num_vertices,
                ;
            }
            let v = copy_vertex(&streams[q], i);
            let mut j: usize = 0;
            let ghost before = pk@;
            while j < v.len()
                invariant
                    j <= v@.len(),
                    pk@ == before + v@.subrange(0, j as int),
                decreases v@.len() - j,
            {
                pk.push(v[j]);
                j = j + 1;
            }
            proof {
                assert(v@.subrange(0, v@.len() as int) =~= v@);
            }
            q = q + 1;
        }
        proof {
            lemma_packed_vertex(ss, i as int, num_vertices as int, ss.len() as int);
            lemma_unique_contains(ss, i as int, num_vertices as int);
        }
        let ghost u_before = unique_vertices(ss, i as int);
        let pos = find_vertex(&seen, &pk);
        proof {
            lemma_first_pos(u_before, pk@);
        }
        if pos < seen.len() {
            indices.push(pos as u32);
            proof {
                assert(unique_vertices(ss, i + 1) == u_before);
                lemma_first_pos(unique_vertices(ss, i + 1), packed(ss, i as int));
            }
        } else {
            let new_idx = seen.len() as u32;
            let mut q: usize = 0;
            let ghost ps_before = per_stream@;
            while q < streams.len()
                invariant
                    ss == streams@,
                    streams_hold(ss, num_vertices as int),
                    i < num_vertices,
                    q <= ss.len(),
                    pk@ == packed(ss, i as int),
                    per_stream@.len() == ss.len(),
                    forall|r: int|
                        0 <= r < q ==> #[trigger] per_stream@[r]@.len() == ps_before[r]@.len() + 1
                            && per_stream@[r]@.drop_last() == ps_before[r]@
                            && per_stream@[r]@.last()@ == vertex_slice(ss[r], i as int),
                    forall|r: int| q <= r < ss.len() ==> #[trigger] per_stream@[r] == ps_before[r],
                decreases ss.len() - q,
            {
                proof {
                    assert(num_vertices * ss[q as int].vertex_size <= ss[q as int].data@.len());
                    assert((i + 1) * ss[q as int].vertex_size <= num_vertices
                        * ss[q as int].vertex_size) by (nonlinear_arith)
                        requires
                            i + 1 <= num_vertices,
                    ;
                }
                let v = copy_vertex(&streams[q], i);
                let mut list = per_stream.remove(q);
                list.push(v);
                per_stream.insert(q, list);
                q = q + 1;
            }
            seen.push(pk);
            indices.push(new_idx);
            proof {
                assert(seen@.map_values(|v: Vec<u8>| v@) =~= unique_vertices(ss, i + 1));
                lemma_first_pos(unique_vertices(ss, i + 1), packed(ss, i as int));
                lemma_first_pos_at(unique_vertices(ss, i + 1), packed(ss, i as int), u_before.len() as int);
                assert forall|r: int, k: int|
                    0 <= r < ss.len() && 0 <= k < seen@.len() implies #[trigger] per_stream@[r]@[k]@
                    == unique_vertices(ss, i + 1)[k].subrange(
                    stream_offset(ss, r),
                    stream_offset(ss, r + 1),
                ) by {
                    if k < u_before.len() {
                        assert(per_stream@[r]@[k] == per_stream@[r]@.drop_last()[k]);
                    } else {
                        assert(per_stream@[r]@[k] == per_stream@[r]@.last());
                        assert(unique_vertices(ss, i + 1)[k] == packed(ss, i as int));
                        assert(packed_vertex(ss, i as int, ss.len() as int).subrange(
                            stream_offset(ss, r),
                            stream_offset(ss, r + 1),
                        ) == vertex_slice(ss[r], i as int));
                    }
                }
            }
        }
        i = i + 1;
    }
    proof {
        let u = unique_vertices(ss, num_vertices as int);
        if u.len() <= u32::MAX {
            assert forall|q: int, k: int|
                0 <= q < ss.len() && 0 <= k < num_vertices implies #[trigger] per_stream@[q]@[indices@[k] as int]@
                == vertex_slice(ss[q], k) by {
                lemma_unique_contains(ss, k, num_vertices as int);
                lemma_first_pos(u, packed(ss, k));
                lemma_packed_vertex(ss, k, num_vertices as int, ss.len() as int);
                let p = first_pos(u, packed(ss, k));
                assert(indices@[k] as int == p);
                assert(packed_vertex(ss, k, ss.len() as int).subrange(
                    stream_offset(ss, q),
                    stream_offset(ss, q + 1),
                ) == vertex_slice(ss[q], k));
            }
        }
    }
    Ok((per_stream, indices))
}

/// The faces and corner indices that replacing each face of more than three
/// corners by its triangles gives, over the first `n` faces: `triangles[f]`
/// holds the corners of the triangles of face `f`, three by three; smaller
/// faces stay as they are.
pub open spec fn triangulated(faces: Seq<Face>, triangles: Seq<Seq<u32>>, n: nat) -> (Seq<Face>, Seq<u32>)
    decreases n,
{
    if n == 0 {
        (Seq::empty(), Seq::empty())
    } else {
        let prev = triangulated(faces, triangles, (n - 1) as nat);
        let f = faces[n - 1];
        if f.num_indices <= 3 {
            (prev.0.push(f), prev.1)
        } else {
            let t = triangles[n - 1];
            (
                prev.0 + Seq::new(
                    t.len() / 3,
                    |i: int| Face { index_begin: (prev.1.len() + 3 * i) as u32, num_indices: 3 },
                ),
                prev.1 + t,
            )
        }
    }
}

/// Number of corners that the triangles of the first `n` faces hold.
pub open spec fn corner_total(triangles: Seq<Seq<u32>>, n: nat) -> nat
    decreases n,
{
    if n == 0 {
        0
    } else {
        corner_total(triangles, (n - 1) as nat) + triangles[n - 1].len()
    }
}

/// Number of faces with three corners.
pub open spec fn count_triangles(fs: Seq<Face>) -> nat
    decreases fs.len(),
{
    if fs.len() == 0 {
        0
    } else {
        count_triangles(fs.drop_last()) + if fs.last().num_indices == 3 {
            1nat
        } else {
            0nat
        }
    }
}

/// The corners of the first faces' triangles are no more than those of all.
proof fn lemma_corner_total_mono(triangles: Seq<Seq<u32>>, m: nat, n: nat)
    requires
        m <= n,
    ensures
        corner_total(triangles, m) <= corner_total(triangles, n),
    decreases n,
{
    if m < n {
        lemma_corner_total_mono(triangles, m, (n - 1) as nat);
    }
}

/// The corner indices kept are never more than the triangles hold.
proof fn lemma_triangulated_len(faces: Seq<Face>, triangles: Seq<Seq<u32>>, n: nat)
    requires
        n <= faces.len(),
        n <= triangles.len(),
    ensures
        triangulated(faces, triangles, n).1.len() <= corner_total(triangles, n),
    decreases n,
{
    if n > 0 {
        lemma_triangulated_len(faces, triangles, (n - 1) as nat);
    }
}

/// A mesh's faces with those of more than three corners replaced by
/// triangles, the corner indices of those triangles, and the counts.
#[derive(Debug, Clone)]
pub struct TriangulatedFaces {
    pub faces: Vec<Face>,
    pub indices: Vec<u32>,
    pub num_faces: usize,
    pub num_triangles: usize,
}

/// Replaces each face of more than three corners by its triangles, taken
/// from `triangles` (the corners of face `f`'s triangles, three by three, as
/// the triangulation of that face gives them). Each new triangle refers to
/// its three corners in the new index list; faces of three corners or fewer
/// are kept. Gives the faces, the new indices, the number of faces and the
/// number of triangles among them.
pub fn triangulate_faces(faces: &Vec<Face>, triangles: &Vec<Vec<u32>>) -> (r: TriangulatedFaces)
    requires
        triangles@.len() == faces@.len(),
        forall|f: int| 0 <= f < triangles@.len() ==> #[trigger] triangles@[f]@.len() % 3 == 0,
        corner_total(triangles@.map_values(|t: Vec<u32>| t@), faces@.len() as nat) <= u32::MAX,
    ensures
        ({
            let res = triangulated(faces@, triangles@.map_values(|t: Vec<u32>| t@), faces@.len() as nat);
            &&& r.faces@ == res.0
            &&& r.indices@ == res.1
        }),
        r.num_faces == r.faces@.len(),
        r.num_triangles == count_triangles(r.faces@),
{
    let ghost ts = triangles@.map_values(|t: Vec<u32>| t@);
    let mut new_faces: Vec<Face> = Vec::new();
    let mut new_indices: Vec<u32> = Vec::new();
    let mut f: usize = 0;
    while f < faces.len()
        invariant
            f <= faces@.len(),
            triangles@.len() == faces@.len(),
            ts == triangles@.map_values(|t: Vec<u32>| t@),
            forall|g: int| 0 <= g < triangles@.len() ==> #[trigger] triangles@[g]@.len() % 3 == 0,
            corner_total(ts, faces@.len() as nat) <= u32::MAX,
            new_faces@ == triangulated(faces@, ts, f as nat).0,
            new_indices@ == triangulated(faces@, ts, f as nat).1,
        decreases faces@.len() - f,
    {
        proof {
            lemma_triangulated_len(faces@, ts, (f + 1) as nat);
            lemma_corner_total_mono(ts, (f + 1) as nat, faces@.len() as nat);
            lemma_triangulated_len(faces@, ts, f as nat);
        }
        let face = faces[f];
        if face.num_indices <= 3 {
            new_faces.push(face);
        } else {
            let t = &triangles[f];
            assert(t@ == ts[f as int]);
            let ghost fs0 = new_faces@;
            let ghost ix0 = new_indices@;
            let count = t.len() / 3;
            let mut i: usize = 0;
            while i < count
                invariant
                    i <= count,
                    count == t@.len() / 3,
                    t@.len() % 3 == 0,
                    ix0.len() + t@.len() <= u32::MAX,
                    new_faces@ == fs0 + Seq::new(
                        i as nat,
                        |k: int| Face { index_begin: (ix0.len() + 3 * k) as u32, num_indices: 3 },
                    ),
                    new_indices@ == ix0 + t@.take(3 * i),
                decreases count - i,
            {
                let start = new_indices.len() as u32;
                new_indices.push(t[3 * i]);
                new_indices.push(t[3 * i + 1]);
                new_indices.push(t[3 * i + 2]);
                new_faces.push(Face { index_begin: start, num_indices: 3 });
                proof {
                    assert(new_indices@ =~= ix0 + t@.take(3 * (i + 1)));
                    assert(new_faces@ =~= fs0 + Seq::new(
                        (i + 1) as nat,
                        |k: int| Face { index_begin: (ix0.len() + 3 * k) as u32, num_indices: 3 },
                    ));
                }
                i = i + 1;
            }
            proof {
                assert(t@.take(3 * count) =~= t@);
            }
        }
        f = f + 1;
    }
    let mut num_triangles: usize = 0;
    let mut k: usize = 0;
    while k < new_faces.len()
        invariant
            k <= new_faces@.len(),
            num_triangles == count_triangles(new_faces@.take(k as int)),
            num_triangles <= k,
        decreases new_faces@.len() - k,
    {
        proof {
            assert(new_faces@.take(k + 1).drop_last() =~= new_faces@.take(k as int));
        }
        if new_faces[k].num_indices == 3 {
            num_triangles = num_triangles + 1;
        }
        k = k + 1;
    }
    proof {
        assert(new_faces@.take(new_faces@.len() as int) =~= new_faces@);
    }
    let num_faces = new_faces.len();
    TriangulatedFaces { faces: new_faces, indices: new_indices, num_faces, num_triangles }
}

} // verus!
