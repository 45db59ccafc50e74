//! Catmull-Clark subdivision: the half-edge topology of a mesh and the
//! layout of the subdivided mesh, which corner becomes which quad of face,
//! edge and vertex points. The points themselves are averages of floating
//! point values, which the layout says how to form.
use vstd::prelude::*;
use crate::types::Face;

verus! {

/// Catmull-Clark subdivision of meshes.
#[derive(Debug, Clone, Copy)]
pub struct SubdivisionEvaluator;

/// A corner of a mesh seen as the half-edge that leaves it: the next and
/// previous corner of its face, the opposite half-edge, and its face.
#[derive(Debug, Clone, Copy, PartialEq, Eq, Structural)]
pub struct TopoEdge {
    pub next: u32,
    pub prev: u32,
    /// The half-edge running the other way, or [`NO_INDEX`] on a border.
    pub twin: u32,
    pub face: u32,
}

/// No index: the twin of a half-edge on a border.
pub const NO_INDEX: u32 = 0xFFFF_FFFF;

/// A half-edge not yet linked.
pub open spec fn blank_edge() -> TopoEdge {
    TopoEdge { next: 0, prev: 0, twin: NO_INDEX, face: 0 }
}

/// The corner `idx` of `face` linked to its neighbours in the face, its
/// twin kept from `old`. The face number is the face's first index divided
/// by its size, which names the face when all faces have the same size.
pub open spec fn corner_link(face: Face, idx: int, old: TopoEdge) -> TopoEdge {
    let begin = face.index_begin as int;
    let count = face.num_indices as int;
    let i = idx - begin;
    TopoEdge {
        next: (begin + (i + 1) % count) as u32,
        prev: (begin + (i + count - 1) % count) as u32,
        twin: old.twin,
        face: (face.index_begin / face.num_indices) as u32,
    }
}

/// Whether `idx` is a corner of `face`.
pub open spec fn in_face(face: Face, idx: int) -> bool {
    face.index_begin <= idx < face.index_begin + face.num_indices
}

/// `n` half-edges linked face after face, a later face linking again the
/// corners it shares with an earlier one.
pub open spec fn linked(faces: Seq<Face>, n: nat) -> Seq<TopoEdge>
    decreases faces.len(),
{
    if faces.len() == 0 {
        Seq::new(n, |idx: int| blank_edge())
    } else {
        let s = linked(faces.drop_last(), n);
        let f = faces.last();
        Seq::new(
            n,
            |idx: int|
                if in_face(f, idx) {
                    corner_link(f, idx, s[idx])
                } else {
                    s[idx]
                },
        )
    }
}

/// Whether every face of `faces` lies within the first `n` corners.
pub open spec fn faces_within(faces: Seq<Face>, n: nat) -> bool {
    forall|f: int| 0 <= f < faces.len() ==> #[trigger] faces[f].index_begin + faces[f].num_indices <= n
}

/// Links the corners of each face to their neighbours in it.
fn link_faces(faces: &[Face], n: usize) -> (r: Vec<TopoEdge>)
    requires
        faces_within(faces@, n as nat),
    ensures
        r@ == linked(faces@, n as nat),
{
    let mut topo: Vec<TopoEdge> = Vec::new();
    let mut k: usize = 0;
    while k < n
        invariant
            k <= n,
            topo@ == Seq::new(k as nat, |idx: int| blank_edge()),
        decreases n - k,
    {
        topo.push(TopoEdge { next: 0, prev: 0, twin: NO_INDEX, face: 0 });
        k = k + 1;
        assert(topo@ =~= Seq::new(k as nat, |idx: int| blank_edge()));
    }
    assert(faces@.take(0) =~= Seq::<Face>::empty());
    let mut f: usize = 0;
    while f < faces.len()
        invariant
            f <= faces@.len(),
            faces_within(faces@, n as nat),
            topo@ == linked(faces@.take(f as int), n as nat),
        decreases faces@.len() - f,
    {
        let face = faces[f];
        let ghost base = topo@;
        assert(faces@.take(f + 1).drop_last() =~= faces@.take(f as int));
        assert(faces@.take(f + 1).last() == face);
        assert(face.index_begin + face.num_indices <= n);
        let begin = face.index_begin as usize;
        let count = face.num_indices as usize;
        let mut i: usize = 0;
        assert(topo@ =~= Seq::new(
            n as nat,
            |idx: int|
                if begin <= idx < begin + i {
                    corner_link(face, idx, base[idx])
                } else {
                    base[idx]
                },
        ));
        while i < count
            invariant
                i <= count,
                begin == face.index_begin,
                count == face.num_indices,
                begin + count <= n,
                base.len() == n,
                topo@ == Seq::new(
                    n as nat,
                    |idx: int|
                        if begin <= idx < begin + i {
                            corner_link(face, idx, base[idx])
                        } else {
                            base[idx]
                        },
                ),
            decreases count - i,
        {
            let idx = begin + i;
            let next_idx = begin + (i + 1) % count;
            let prev_idx = if i == 0 {
                begin + count - 1
            } else {
                begin + i - 1
            };
            assert(prev_idx == begin + (i + count - 1) % (count as int)) by (nonlinear_arith)
                requires
                    i < count,
                    prev_idx == (if i == 0 {
                        begin + count - 1
                    } else {
                        begin + i - 1
                    }),
            ;
            let old = topo[idx];
            topo.set(
                idx,
                TopoEdge {
                    next: next_idx as u32,
                    prev: prev_idx as u32,
                    twin: old.twin,
                    face: face.index_begin / face.num_indices,
                },
            );
            i = i + 1;
            assert(topo@ =~= Seq::new(
                n as nat,
                |j: int|
                    if begin <= j < begin + i {
                        corner_link(face, j, base[j])
                    } else {
                        base[j]
                    },
            ));
        }
        f = f + 1;
        assert(topo@ =~= linked(faces@.take(f as int), n as nat));
    }
    assert(faces@.take(f as int) =~= faces@);
    topo
}

/// The search for twins over the first `k` half-edges: the half-edge from
/// corner value `v0` to `v1` pairs with a recorded one from `v1` to `v0`,
/// or is recorded under `(v0, v1)`, in place of one recorded before.
pub struct TwinScan {
    pub map: Map<(u32, u32), u32>,
    pub pairs: Seq<(u32, u32)>,
}

/// The twin search over the first `k` half-edges `t` of the corners `vi`.
pub open spec fn twin_scan(t: Seq<TopoEdge>, vi: Seq<u32>, k: nat) -> TwinScan
    decreases k,
{
    if k == 0 {
        TwinScan { map: Map::empty(), pairs: seq![] }
    } else {
        let s = twin_scan(t, vi, (k - 1) as nat);
        let idx = k - 1;
        let v0 = vi[idx];
        let v1 = vi[t[idx].next as int];
        if s.map.contains_key((v1, v0)) {
            TwinScan { map: s.map, pairs: s.pairs.push((idx as u32, s.map[(v1, v0)])) }
        } else {
            TwinScan { map: s.map.insert((v0, v1), idx as u32), pairs: s.pairs }
        }
    }
}

/// `t` with each pair of `pairs`, in order, made twins of each other.
pub open spec fn pair_twins(t: Seq<TopoEdge>, pairs: Seq<(u32, u32)>) -> Seq<TopoEdge>
    decreases pairs.len(),
{
    if pairs.len() == 0 {
        t
    } else {
        let t1 = pair_twins(t, pairs.drop_last());
        let a = pairs.last().0 as int;
        let b = pairs.last().1 as int;
        let t2 = t1.update(a, TopoEdge { twin: b as u32, ..t1[a] });
        t2.update(b, TopoEdge { twin: a as u32, ..t2[b] })
    }
}

/// The half-edge topology of `n` corners with the corner values `vi`,
/// grouped into `faces`.
pub open spec fn topology(faces: Seq<Face>, vi: Seq<u32>, n: nat) -> Seq<TopoEdge> {
    let l = linked(faces, n);
    pair_twins(l, twin_scan(l, vi, n).pairs)
}

/// Whether the recorded entries `es` hold the map `m`, each key once.
pub open spec fn holds_map(es: Seq<((u32, u32), u32)>, m: Map<(u32, u32), u32>) -> bool {
    &&& forall|i: int| 0 <= i < es.len() ==> m.contains_key(#[trigger] es[i].0) && m[es[i].0] == es[i].1
    &&& forall|key: (u32, u32)| #[trigger] m.contains_key(key) ==> exists|i: int| #![trigger es[i]] 0 <= i < es.len() && es[i].0 == key
    &&& forall|i: int, j: int| 0 <= i < j < es.len() ==> (#[trigger] es[i]).0 != (#[trigger] es[j]).0
}

/// Index of the entry of `es` under `key`.
fn find_entry(es: &Vec<((u32, u32), u32)>, key: (u32, u32)) -> (r: Option<usize>)
    ensures
        match r {
            Some(i) => i < es@.len() && es@[i as int].0 == key,
            None => forall|i: int| 0 <= i < es@.len() ==> (#[trigger] es@[i]).0 != key,
        },
{
    let mut i: usize = 0;
    while i < es.len()
        invariant
            0 <= i <= es@.len(),
            forall|j: int| 0 <= j < i ==> (#[trigger] es@[j]).0 != key,
        decreases es@.len() - i,
    {
        let e = es[i];
        if e.0.0 == key.0 && e.0.1 == key.1 {
            return Some(i);
        }
        i = i + 1;
    }
    None
}

/// Every link of `linked(faces, n)` stays within the `n` corners.
proof fn lemma_linked_within(faces: Seq<Face>, n: nat)
    requires
        faces_within(faces, n),
        n <= u32::MAX,
    ensures
        forall|idx: int| 0 <= idx < n ==> (#[trigger] linked(faces, n)[idx]).next < n && linked(faces, n)[idx].prev < n,
    decreases faces.len(),
{
    if faces.len() > 0 {
        lemma_linked_within(faces.drop_last(), n);
        let f = faces.last();
        assert(f == faces[faces.len() - 1]);
        assert forall|idx: int| 0 <= idx < n implies (#[trigger] linked(faces, n)[idx]).next < n && linked(faces, n)[idx].prev < n by {
            let s = linked(faces.drop_last(), n);
            if in_face(f, idx) {
                let begin = f.index_begin as int;
                let count = f.num_indices as int;
                let i = idx - begin;
                assert(0 <= (i + 1) % count < count) by (nonlinear_arith)
                    requires
                        0 <= i < count,
                ;
                assert(0 <= (i + count - 1) % count < count) by (nonlinear_arith)
                    requires
                        0 <= i < count,
                ;
                assert(linked(faces, n)[idx] == corner_link(f, idx, s[idx]));
            } else {
                assert(linked(faces, n)[idx] == s[idx]);
            }
        }
    }
}

/// Finds the twins of the linked half-edges `topo`.
fn find_twins(topo: &mut Vec<TopoEdge>, vertex_indices: &[u32])
    requires
        vertex_indices@.len() >= old(topo)@.len(),
        old(topo)@.len() <= u32::MAX,
        forall|idx: int| 0 <= idx < old(topo)@.len() ==> (#[trigger] old(topo)@[idx]).next < old(topo)@.len(),
    ensures
        final(topo)@ == pair_twins(old(topo)@, twin_scan(old(topo)@, vertex_indices@, old(topo)@.len()).pairs),
{
    let ghost l = topo@;
    let n = topo.len();
    let mut entries: Vec<((u32, u32), u32)> = Vec::new();
    let mut pairs: Vec<(u32, u32)> = Vec::new();
    let mut idx: usize = 0;
    while idx < n
        invariant
            l == topo@,
            n == l.len(),
            idx <= n,
            n <= u32::MAX,
            vertex_indices@.len() >= n,
            forall|k: int| 0 <= k < n ==> (#[trigger] l[k]).next < n,
            holds_map(entries@, twin_scan(l, vertex_indices@, idx as nat).map),
            pairs@ == twin_scan(l, vertex_indices@, idx as nat).pairs,
            forall|i: int| 0 <= i < entries@.len() ==> (#[trigger] entries@[i]).1 < n,
            forall|i: int| 0 <= i < pairs@.len() ==> (#[trigger] pairs@[i]).0 < n && pairs@[i].1 < n,
        decreases n - idx,
    {
        let ghost s = twin_scan(l, vertex_indices@, idx as nat);
        let v0 = vertex_indices[idx];
        let nx = topo[idx].next;
        let v1 = vertex_indices[nx as usize];
        match find_entry(&entries, (v1, v0)) {
            Some(j) => {
                let found = entries[j].1;
                assert(s.map.contains_key((v1, v0)));
                pairs.push((idx as u32, found));
            },
            None => {
                assert(!s.map.contains_key((v1, v0))) by {
                    if s.map.contains_key((v1, v0)) {
                        let i = choose|i: int| #![trigger entries@[i]] 0 <= i < entries@.len() && entries@[i].0 == (v1, v0);
                        assert(entries@[i].0 != (v1, v0));
                    }
                }
                let ghost m2 = s.map.insert((v0, v1), idx as u32);
                match find_entry(&entries, (v0, v1)) {
                    Some(j) => {
                        let ghost before = entries@;
                        entries.set(j, ((v0, v1), idx as u32));
                        assert(holds_map(entries@, m2)) by {
                            assert forall|key: (u32, u32)| #[trigger] m2.contains_key(key) implies exists|i: int| #![trigger entries@[i]] 0 <= i < entries@.len() && entries@[i].0 == key by {
                                if key == (v0, v1) {
                                    assert(entries@[j as int].0 == key);
                                } else {
                                    assert(s.map.contains_key(key));
                                    let i = choose|i: int| #![trigger before[i]] 0 <= i < before.len() && before[i].0 == key;
                                    assert(i != j);
                                    assert(entries@[i] == before[i]);
                                }
                            }
                        }
                    },
                    None => {
                        assert(!s.map.contains_key((v0, v1))) by {
                            if s.map.contains_key((v0, v1)) {
                                let i = choose|i: int| #![trigger entries@[i]] 0 <= i < entries@.len() && entries@[i].0 == (v0, v1);
                                assert(entries@[i].0 != (v0, v1));
                            }
                        }
                        let ghost before = entries@;
                        entries.push(((v0, v1), idx as u32));
                        assert(holds_map(entries@, m2)) by {
                            assert forall|i: int| 0 <= i < entries@.len() implies m2.contains_key(#[trigger] entries@[i].0) && m2[entries@[i].0] == entries@[i].1 by {
                                if i < before.len() {
                                    assert(entries@[i] == before[i]);
                                }
                            }
                            assert forall|key: (u32, u32)| #[trigger] m2.contains_key(key) implies exists|i: int| #![trigger entries@[i]] 0 <= i < entries@.len() && entries@[i].0 == key by {
                                if key == (v0, v1) {
                                    assert(entries@[before.len() as int].0 == key);
                                } else {
                                    assert(s.map.contains_key(key));
                                    let i = choose|i: int| #![trigger before[i]] 0 <= i < before.len() && before[i].0 == key;
                                    assert(entries@[i] == before[i]);
                                }
                            }
                            assert forall|i: int, j: int| 0 <= i < j < entries@.len() implies (#[trigger] entries@[i]).0 != (#[trigger] entries@[j]).0 by {
                                if j < before.len() {
                                    assert(entries@[i] == before[i]);
                                    assert(entries@[j] == before[j]);
                                } else {
                                    assert(entries@[i] == before[i]);
                                }
                            }
                        }
                    },
                }
            },
        }
        idx = idx + 1;
    }
    let mut p: usize = 0;
    assert(pairs@.take(0) =~= Seq::<(u32, u32)>::empty());
    while p < pairs.len()
        invariant
            p <= pairs@.len(),
            n == l.len(),
            topo@.len() == n,
            forall|i: int| 0 <= i < pairs@.len() ==> (#[trigger] pairs@[i]).0 < n && pairs@[i].1 < n,
            topo@ == pair_twins(l, pairs@.take(p as int)),
        decreases pairs@.len() - p,
    {
        let (a, b) = pairs[p];
        assert(pairs@.take(p + 1).drop_last() =~= pairs@.take(p as int));
        assert(pairs@.take(p + 1).last() == (a, b));
        let ta = topo[a as usize];
        topo.set(a as usize, TopoEdge { twin: b, ..ta });
        let tb = topo[b as usize];
        topo.set(b as usize, TopoEdge { twin: a, ..tb });
        p = p + 1;
    }
    assert(pairs@.take(p as int) =~= pairs@);
}

impl SubdivisionEvaluator {
    /// The half-edge topology of a mesh with `num_indices` corners, whose
    /// corner values are `vertex_indices`, grouped into `faces`: each corner
    /// linked to its neighbours in its face, and paired with the half-edge
    /// that runs the other way between the same values, if any.
    pub fn build_topology(faces: &[Face], num_indices: usize, vertex_indices: &[u32]) -> (r: Result<
        Vec<TopoEdge>,
        crate::error::Error,
    >)
        requires
            faces_within(faces@, num_indices as nat),
            vertex_indices@.len() >= num_indices,
            num_indices <= u32::MAX,
        ensures
            r matches Ok(t) && t@ == topology(faces@, vertex_indices@, num_indices as nat),
    {
        let mut topo = link_faces(faces, num_indices);
        proof {
            lemma_linked_within(faces@, num_indices as nat);
        }
        find_twins(&mut topo, vertex_indices);
        Ok(topo)
    }
}

/// Whether the half-edges `t` are linked within themselves: each next and
/// previous corner is one of them, each twin one of them or none.
pub open spec fn topo_wf(t: Seq<TopoEdge>) -> bool {
    forall|i: int|
        0 <= i < t.len() ==> (#[trigger] t[i]).next < t.len() && t[i].prev < t.len() && (t[i].twin
            == NO_INDEX || t[i].twin < t.len())
}

/// The numbering of edge points over the first `k` corners: a corner whose
/// twin comes before it shares the twin's edge point, any other starts a
/// new one. Gives each corner's edge point and each edge point's corner.
pub open spec fn edge_numbering(t: Seq<TopoEdge>, k: nat) -> (Seq<u32>, Seq<usize>)
    decreases k,
{
    if k == 0 {
        (seq![], seq![])
    } else {
        let (ei, ue) = edge_numbering(t, (k - 1) as nat);
        let idx = k - 1;
        let twin = t[idx].twin;
        if twin != NO_INDEX && (twin as int) < idx {
            (ei.push(ei[twin as int]), ue)
        } else {
            (ei.push(ue.len() as u32), ue.push(idx as usize))
        }
    }
}

/// The first corner from `i` on whose value is `v`.
pub open spec fn first_from(indices: Seq<u32>, v: nat, i: nat) -> Option<usize>
    decreases indices.len() - i,
{
    if i >= indices.len() {
        None
    } else if indices[i as int] == v {
        Some(i as usize)
    } else {
        first_from(indices, v, i + 1)
    }
}

/// The corners met walking around the vertex of corner `start` from `cur`:
/// from a corner to the twin of the previous corner of its face, until a
/// border or `start` again; `None` when that takes more than `fuel` steps.
pub open spec fn ring_from(t: Seq<TopoEdge>, start: usize, cur: usize, fuel: nat) -> Option<Seq<usize>>
    decreases fuel,
{
    if fuel == 0 {
        None
    } else {
        let prev = t[cur as int].prev as int;
        if t[prev].twin == NO_INDEX {
            Some(seq![cur])
        } else {
            let nx = t[prev].twin as usize;
            if nx == start {
                Some(seq![cur])
            } else {
                match ring_from(t, start, nx, (fuel - 1) as nat) {
                    Some(r) => Some(seq![cur] + r),
                    None => None,
                }
            }
        }
    }
}

/// Whether one of the corners `cs` lies on a border.
pub open spec fn ring_boundary(t: Seq<TopoEdge>, cs: Seq<usize>) -> bool {
    exists|k: int| 0 <= k < cs.len() && (#[trigger] t[cs[k] as int]).twin == NO_INDEX
}

/// A vertex point: the value it is made from, the corners around it and
/// whether one of them lies on a border, in which case the point keeps the
/// value.
pub struct RingModel {
    pub value: nat,
    pub corners: Seq<usize>,
    pub boundary: bool,
}

/// The vertex points of the values below `k` that some corner uses, in
/// order of value.
pub open spec fn vertex_rings(t: Seq<TopoEdge>, indices: Seq<u32>, k: nat) -> Seq<RingModel>
    decreases k,
{
    if k == 0 {
        seq![]
    } else {
        let s = vertex_rings(t, indices, (k - 1) as nat);
        match first_from(indices, (k - 1) as nat, 0) {
            None => s,
            Some(start) => {
                let cs = ring_from(t, start, start, t.len())->0;
                s.push(RingModel { value: (k - 1) as nat, corners: cs, boundary: ring_boundary(t, cs) })
            },
        }
    }
}

/// Whether the walk around the vertex of each value's first corner ends.
pub open spec fn rings_end(t: Seq<TopoEdge>, indices: Seq<u32>, num_values: nat) -> bool {
    forall|v: nat|
        v < num_values ==> (#[trigger] first_from(indices, v, 0) matches Some(start) ==> ring_from(
            t,
            start,
            start,
            t.len(),
        ) is Some)
}

/// The four output indices of each of the first `k` corners: its vertex
/// point, its edge point, its face point and the edge point of the previous
/// corner, after the face points from `face_start`, the edge points from
/// `edge_start` and the vertex points from `vert_start`.
pub open spec fn quad_indices(
    t: Seq<TopoEdge>,
    ei: Seq<u32>,
    vpi: Seq<u32>,
    face_start: nat,
    edge_start: nat,
    vert_start: nat,
    k: nat,
) -> Seq<u32>
    decreases k,
{
    if k == 0 {
        seq![]
    } else {
        let idx = k - 1;
        quad_indices(t, ei, vpi, face_start, edge_start, vert_start, (k - 1) as nat) + seq![
            (vert_start + vpi[idx]) as u32,
            (edge_start + ei[idx]) as u32,
            (face_start + t[idx].face) as u32,
            (edge_start + ei[t[idx].prev as int]) as u32,
        ]
    }
}

/// A vertex point of a subdivided mesh: the value it is made from, the
/// corners around it, and whether one of them lies on a border.
#[derive(Debug, Clone)]
pub struct VertexRing {
    pub value: usize,
    pub corners: Vec<usize>,
    pub boundary: bool,
}

impl View for VertexRing {
    type V = RingModel;

    open spec fn view(&self) -> RingModel {
        RingModel { value: self.value as nat, corners: self.corners@, boundary: self.boundary }
    }
}

/// How one step of subdivision lays out the new mesh. Its values are, in
/// order: a zero value, a face point per face, an edge point per edge and a
/// vertex point per used value; each corner of the old mesh becomes a quad
/// of its vertex point, its edge point, its face point and the edge point
/// of the previous corner.
#[derive(Debug)]
pub struct SubdivisionLayout {
    /// The edge point of each corner.
    pub edge_indices: Vec<u32>,
    /// The corner that starts each edge point.
    pub edge_corners: Vec<usize>,
    pub vertex_points: Vec<VertexRing>,
    /// The vertex point of each corner.
    pub vertex_point_indices: Vec<u32>,
    pub face_start: usize,
    pub edge_start: usize,
    pub vert_start: usize,
    /// Four indices per corner of the old mesh.
    pub indices: Vec<u32>,
}

/// Numbers the edge points of the corners.
fn number_edges(topo: &[TopoEdge]) -> (r: (Vec<u32>, Vec<usize>))
    requires
        topo@.len() <= u32::MAX,
    ensures
        (r.0@, r.1@) == edge_numbering(topo@, topo@.len()),
        r.0@.len() == topo@.len(),
        forall|i: int| 0 <= i < r.0@.len() ==> (#[trigger] r.0@[i]) < r.1@.len(),
        r.1@.len() <= topo@.len(),
{
    let n = topo.len();
    let mut ei: Vec<u32> = Vec::new();
    let mut ue: Vec<usize> = Vec::new();
    let mut idx: usize = 0;
    while idx < n
        invariant
            n == topo@.len(),
            n <= u32::MAX,
            idx <= n,
            (ei@, ue@) == edge_numbering(topo@, idx as nat),
            ei@.len() == idx,
            ue@.len() <= idx,
            forall|i: int| 0 <= i < ei@.len() ==> (#[trigger] ei@[i]) < ue@.len(),
        decreases n - idx,
    {
        let twin = topo[idx].twin;
        if twin != NO_INDEX && (twin as usize) < idx {
            let e = ei[twin as usize];
            ei.push(e);
        } else {
            let k = ue.len() as u32;
            ei.push(k);
            ue.push(idx);
        }
        idx = idx + 1;
    }
    (ei, ue)
}

/// The first corner whose value is `v`.
fn first_use(indices: &[u32], v: usize) -> (r: Option<usize>)
    ensures
        r == first_from(indices@, v as nat, 0),
{
    let mut i: usize = 0;
    while i < indices.len()
        invariant
            i <= indices@.len(),
            first_from(indices@, v as nat, 0) == first_from(indices@, v as nat, i as nat),
        decreases indices@.len() - i,
    {
        if indices[i] as usize == v {
            return Some(i);
        }
        i = i + 1;
    }
    None
}

/// Walks around the vertex of corner `start`.
fn walk_ring(topo: &[TopoEdge], start: usize) -> (r: (Vec<usize>, bool))
    requires
        topo_wf(topo@),
        start < topo@.len(),
        ring_from(topo@, start, start, topo@.len()) is Some,
    ensures
        ring_from(topo@, start, start, topo@.len()) == Some(r.0@),
        r.1 == ring_boundary(topo@, r.0@),
{
    let ghost t = topo@;
    let mut corners: Vec<usize> = Vec::new();
    let mut boundary = false;
    let mut cur = start;
    let ghost mut fuel: nat = t.len();
    assert(corners@ + ring_from(t, start, cur, fuel)->0 =~= ring_from(t, start, cur, fuel)->0);
    loop
        invariant_except_break
            ring_from(t, start, start, t.len()) == Some(corners@ + ring_from(t, start, cur, fuel)->0),
        invariant
            t == topo@,
            topo_wf(t),
            start < t.len(),
            cur < t.len(),
            ring_from(t, start, cur, fuel) is Some,
            boundary == ring_boundary(t, corners@),
        ensures
            ring_from(t, start, start, t.len()) == Some(corners@),
            boundary == ring_boundary(t, corners@),
        decreases fuel,
    {
        let ghost before = corners@;
        corners.push(cur);
        assert(t[cur as int] == topo[cur as int]);
        if topo[cur].twin == NO_INDEX {
            boundary = true;
        }
        proof {
            if boundary {
                if ring_boundary(t, before) {
                    let k = choose|k: int| 0 <= k < before.len() && (#[trigger] t[before[k] as int]).twin == NO_INDEX;
                    assert(corners@[k] == before[k]);
                } else {
                    assert(corners@[before.len() as int] == cur);
                }
            } else {
                assert forall|k: int| 0 <= k < corners@.len() implies (#[trigger] t[corners@[k] as int]).twin != NO_INDEX by {
                    if k < before.len() {
                        assert(corners@[k] == before[k]);
                    }
                }
            }
        }
        let prev = topo[cur].prev as usize;
        if topo[prev].twin == NO_INDEX {
            assert(ring_from(t, start, cur, fuel)->0 =~= seq![cur]);
            assert(before + seq![cur] =~= corners@);
            break;
        }
        let nx = topo[prev].twin as usize;
        if nx == start {
            assert(before + seq![cur] =~= corners@);
            break;
        }
        proof {
            let rest = ring_from(t, start, nx, (fuel - 1) as nat)->0;
            assert(before + (seq![cur] + rest) =~= corners@ + rest);
            fuel = (fuel - 1) as nat;
        }
        cur = nx;
    }
    (corners, boundary)
}

/// The values of the vertex points `rs`.
pub open spec fn ring_models(rs: Seq<VertexRing>) -> Seq<RingModel> {
    Seq::new(rs.len(), |k: int| rs[k]@)
}

/// Where the first corner from `i` on with value `v` stands.
proof fn lemma_first_from(indices: Seq<u32>, v: nat, i: nat)
    requires
        indices.len() <= usize::MAX,
    ensures
        first_from(indices, v, i) matches Some(s) ==> i <= s < indices.len() && indices[s as int] == v,
        first_from(indices, v, i) is None ==> forall|j: int| i <= j < indices.len() ==> indices[j] != v,
    decreases indices.len() - i,
{
    if i < indices.len() && indices[i as int] != v {
        lemma_first_from(indices, v, i + 1);
    }
}

/// Makes a vertex point of each value that a corner uses, and gives each
/// corner its vertex point.
fn place_vertex_points(topo: &[TopoEdge], indices: &[u32], num_values: usize) -> (r: (
    Vec<VertexRing>,
    Vec<u32>,
))
    requires
        topo_wf(topo@),
        topo@.len() == indices@.len(),
        rings_end(topo@, indices@, num_values as nat),
        num_values < u32::MAX,
    ensures
        ring_models(r.0@) == vertex_rings(topo@, indices@, num_values as nat),
        r.1@ == Seq::new(
            indices@.len(),
            |i: int|
                if indices[i] < num_values {
                    vertex_rings(topo@, indices@, indices[i] as nat).len() as u32
                } else {
                    NO_INDEX
                },
        ),
{
    let ghost t = topo@;
    let ghost ind = indices@;
    let n = indices.len();
    let mut rings: Vec<VertexRing> = Vec::new();
    let mut vpi: Vec<u32> = Vec::new();
    let mut k: usize = 0;
    while k < n
        invariant
            k <= n,
            n == ind.len(),
            vpi@ == Seq::new(k as nat, |i: int| NO_INDEX),
        decreases n - k,
    {
        vpi.push(NO_INDEX);
        k = k + 1;
        assert(vpi@ =~= Seq::new(k as nat, |i: int| NO_INDEX));
    }
    assert(vpi@ =~= Seq::new(
        n as nat,
        |i: int|
            if ind[i] < 0 {
                vertex_rings(t, ind, ind[i] as nat).len() as u32
            } else {
                NO_INDEX
            },
    ));
    let mut vi: usize = 0;
    while vi < num_values
        invariant
            t == topo@,
            ind == indices@,
            n == ind.len(),
            n == t.len(),
            topo_wf(t),
            rings_end(t, ind, num_values as nat),
            num_values < u32::MAX,
            vi <= num_values,
            rings@.len() <= vi,
            ring_models(rings@) == vertex_rings(t, ind, vi as nat),
            vpi@ == Seq::new(
                n as nat,
                |i: int|
                    if ind[i] < vi {
                        vertex_rings(t, ind, ind[i] as nat).len() as u32
                    } else {
                        NO_INDEX
                    },
            ),
        decreases num_values - vi,
    {
        proof {
            lemma_first_from(ind, vi as nat, 0);
        }
        let ghost old_vpi = vpi@;
        match first_use(indices, vi) {
            None => {
                assert(vertex_rings(t, ind, (vi + 1) as nat) == vertex_rings(t, ind, vi as nat));
                assert(vpi@ =~= Seq::new(
                    n as nat,
                    |i: int|
                        if ind[i] < vi + 1 {
                            vertex_rings(t, ind, ind[i] as nat).len() as u32
                        } else {
                            NO_INDEX
                        },
                ));
            },
            Some(start) => {
                assert(first_from(ind, vi as nat, 0) matches Some(s) ==> ring_from(t, s, s, t.len()) is Some);
                let new_idx = rings.len() as u32;
                let (corners, boundary) = walk_ring(topo, start);
                let ghost before = rings@;
                rings.push(VertexRing { value: vi, corners, boundary });
                assert(ring_models(rings@) =~= ring_models(before).push(rings@[before.len() as int]@));
                assert(ring_models(rings@) == vertex_rings(t, ind, (vi + 1) as nat));
                let mut i: usize = 0;
                while i < n
                    invariant
                        i <= n,
                        n == ind.len(),
                        ind == indices@,
                        new_idx == vertex_rings(t, ind, vi as nat).len(),
                        vpi@ == Seq::new(
                            n as nat,
                            |j: int|
                                if j < i && ind[j] == vi {
                                    new_idx
                                } else {
                                    old_vpi[j]
                                },
                        ),
                    decreases n - i,
                {
                    if indices[i] as usize == vi {
                        vpi.set(i, new_idx);
                    }
                    i = i + 1;
                    assert(vpi@ =~= Seq::new(
                        n as nat,
                        |j: int|
                            if j < i && ind[j] == vi {
                                new_idx
                            } else {
                                old_vpi[j]
                            },
                    ));
                }
                assert(vpi@ =~= Seq::new(
                    n as nat,
                    |j: int|
                        if ind[j] < vi + 1 {
                            vertex_rings(t, ind, ind[j] as nat).len() as u32
                        } else {
                            NO_INDEX
                        },
                ));
            },
        }
        vi = vi + 1;
    }
    (rings, vpi)
}

/// The output indices of the corners.
fn quad_layout(
    topo: &[TopoEdge],
    ei: &Vec<u32>,
    vpi: &Vec<u32>,
    face_start: usize,
    edge_start: usize,
    vert_start: usize,
) -> (r: Vec<u32>)
    requires
        topo_wf(topo@),
        ei@.len() == topo@.len(),
        vpi@.len() == topo@.len(),
        face_start <= u32::MAX,
        edge_start <= u32::MAX,
        vert_start <= u32::MAX,
    ensures
        r@ == quad_indices(
            topo@,
            ei@,
            vpi@,
            face_start as nat,
            edge_start as nat,
            vert_start as nat,
            topo@.len(),
        ),
{
    let n = topo.len();
    let mut out: Vec<u32> = Vec::new();
    let mut idx: usize = 0;
    while idx < n
        invariant
            idx <= n,
            n == topo@.len(),
            topo_wf(topo@),
            ei@.len() == n,
            vpi@.len() == n,
            face_start <= u32::MAX,
            edge_start <= u32::MAX,
            vert_start <= u32::MAX,
            out@ == quad_indices(
                topo@,
                ei@,
                vpi@,
                face_start as nat,
                edge_start as nat,
                vert_start as nat,
                idx as nat,
            ),
        decreases n - idx,
    {
        let e = topo[idx];
        assert(e == topo@[idx as int]);
        let a = ((vert_start as u64) + (vpi[idx] as u64)) as u32;
        let b = ((edge_start as u64) + (ei[idx] as u64)) as u32;
        let c = ((face_start as u64) + (e.face as u64)) as u32;
        let d = ((edge_start as u64) + (ei[e.prev as usize] as u64)) as u32;
        let ghost before = out@;
        out.push(a);
        out.push(b);
        out.push(c);
        out.push(d);
        idx = idx + 1;
        assert(out@ =~= before + seq![a, b, c, d]);
    }
    out
}

impl SubdivisionEvaluator {
    /// Lays out one step of subdivision of a mesh whose corners use the
    /// values `indices` (each below `num_values`), with `num_faces` faces
    /// and the half-edge topology `topo`: numbers its edge points and vertex
    /// points and gives the four indices of the quad of each corner.
    pub fn subdivision_layout(
        indices: &[u32],
        num_values: usize,
        num_faces: usize,
        topo: &[TopoEdge],
    ) -> (r: SubdivisionLayout)
        requires
            topo@.len() == indices@.len(),
            topo_wf(topo@),
            forall|i: int| 0 <= i < indices@.len() ==> #[trigger] indices@[i] < num_values,
            rings_end(topo@, indices@, num_values as nat),
            num_faces + num_values + 2 * indices@.len() < u32::MAX,
        ensures
            (r.edge_indices@, r.edge_corners@) == edge_numbering(topo@, topo@.len()),
            ring_models(r.vertex_points@) == vertex_rings(topo@, indices@, num_values as nat),
            r.vertex_point_indices@ == Seq::new(
                indices@.len(),
                |i: int| vertex_rings(topo@, indices@, indices[i] as nat).len() as u32,
            ),
            r.face_start == 1,
            r.edge_start == 1 + num_faces,
            r.vert_start == r.edge_start + r.edge_corners@.len(),
            r.indices@ == quad_indices(
                topo@,
                r.edge_indices@,
                r.vertex_point_indices@,
                1,
                r.edge_start as nat,
                r.vert_start as nat,
                topo@.len(),
            ),
    {
        let (edge_indices, edge_corners) = number_edges(topo);
        let (vertex_points, vertex_point_indices) = place_vertex_points(topo, indices, num_values);
        assert(vertex_point_indices@ =~= Seq::new(
            indices@.len(),
            |i: int| vertex_rings(topo@, indices@, indices[i] as nat).len() as u32,
        ));
        let face_start: usize = 1;
        let edge_start = face_start + num_faces;
        let vert_start = edge_start + edge_corners.len();
        let out = quad_layout(topo, &edge_indices, &vertex_point_indices, face_start, edge_start, vert_start);
        SubdivisionLayout {
            edge_indices,
            edge_corners,
            vertex_points,
            vertex_point_indices,
            face_start,
            edge_start,
            vert_start,
            indices: out,
        }
    }
}

/// The quads of a subdivided mesh with `k` corners before: four indices
/// each, one after another.
pub open spec fn quad_faces(k: nat) -> Seq<Face>
    decreases k,
{
    if k == 0 {
        seq![]
    } else {
        quad_faces((k - 1) as nat).push(Face { index_begin: ((k - 1) * 4) as u32, num_indices: 4 })
    }
}

/// The entry of `per_face` at each face's first index, once per corner of
/// the face.
pub open spec fn spread<T>(faces: Seq<Face>, per_face: Seq<T>) -> Seq<T>
    decreases faces.len(),
{
    if faces.len() == 0 {
        seq![]
    } else {
        let f = faces.last();
        spread(faces.drop_last(), per_face) + Seq::new(
            f.num_indices as nat,
            |j: int| per_face[f.index_begin as int],
        )
    }
}

impl SubdivisionEvaluator {
    /// The faces of a subdivided mesh whose old mesh had `num_corners`
    /// corners: a quad per old corner.
    pub fn subdivided_faces(num_corners: usize) -> (r: Vec<Face>)
        requires
            num_corners <= u32::MAX,
        ensures
            r@ == quad_faces(num_corners as nat),
    {
        let mut out: Vec<Face> = Vec::new();
        let mut i: usize = 0;
        while i < num_corners
            invariant
                i <= num_corners,
                num_corners <= u32::MAX,
                out@ == quad_faces(i as nat),
            decreases num_corners - i,
        {
            let begin = ((i as u64) * 4) as u32;
            out.push(Face { index_begin: begin, num_indices: 4 });
            i = i + 1;
        }
        out
    }

    /// A per-face entry of the old mesh for each face of the subdivided
    /// one: the entry at each old face's first index, once per corner of
    /// that face; nothing when there are no entries.
    pub fn spread_per_face<T: Copy>(faces: &[Face], per_face: &[T]) -> (r: Vec<T>)
        requires
            per_face@.len() > 0 ==> forall|f: int| 0 <= f < faces@.len() ==> (#[trigger] faces@[f]).index_begin < per_face@.len(),
        ensures
            r@ == (if per_face@.len() == 0 {
                seq![]
            } else {
                spread(faces@, per_face@)
            }),
    {
        let mut out: Vec<T> = Vec::new();
        if per_face.len() == 0 {
            return out;
        }
        let mut f: usize = 0;
        assert(faces@.take(0) =~= Seq::<Face>::empty());
        while f < faces.len()
            invariant
                f <= faces@.len(),
                per_face@.len() > 0,
                forall|g: int| 0 <= g < faces@.len() ==> (#[trigger] faces@[g]).index_begin < per_face@.len(),
                out@ == spread(faces@.take(f as int), per_face@),
            decreases faces@.len() - f,
        {
            let face = faces[f];
            let v = per_face[face.index_begin as usize];
            let ghost before = out@;
            let mut j: u32 = 0;
            while j < face.num_indices
                invariant
                    j <= face.num_indices,
                    out@ == before + Seq::new(j as nat, |k: int| v),
                decreases face.num_indices - j,
            {
                out.push(v);
                j = j + 1;
                assert(out@ =~= before + Seq::new(j as nat, |k: int| v));
            }
            assert(faces@.take(f + 1).drop_last() =~= faces@.take(f as int));
            assert(faces@.take(f + 1).last() == face);
            f = f + 1;
            assert(out@ =~= spread(faces@.take(f as int), per_face@));
        }
        assert(faces@.take(f as int) =~= faces@);
        out
    }
}

/// Whether the walk around the vertex of corner `start` ends.
fn ring_ends(topo: &[TopoEdge], start: usize) -> (r: bool)
    requires
        topo_wf(topo@),
        start < topo@.len(),
    ensures
        r == ring_from(topo@, start, start, topo@.len()) is Some,
{
    let ghost t = topo@;
    let n = topo.len();
    let mut cur = start;
    let mut fuel = n;
    while fuel > 0
        invariant
            t == topo@,
            n == t.len(),
            topo_wf(t),
            start < n,
            cur < n,
            fuel <= n,
            (ring_from(t, start, start, n as nat) is Some) == (ring_from(t, start, cur, fuel as nat) is Some),
        decreases fuel,
    {
        let prev = topo[cur].prev as usize;
        if topo[prev].twin == NO_INDEX {
            return true;
        }
        let nx = topo[prev].twin as usize;
        if nx == start {
            return true;
        }
        cur = nx;
        fuel = fuel - 1;
    }
    false
}

impl SubdivisionEvaluator {
    /// Whether the half-edges `topo` are linked within themselves.
    pub fn topology_is_linked(topo: &[TopoEdge]) -> (r: bool)
        ensures
            r == topo_wf(topo@),
    {
        let n = topo.len();
        let mut i: usize = 0;
        while i < n
            invariant
                i <= n,
                n == topo@.len(),
                forall|j: int|
                    0 <= j < i ==> (#[trigger] topo@[j]).next < n && topo@[j].prev < n && (
                    topo@[j].twin == NO_INDEX || topo@[j].twin < n),
            decreases n - i,
        {
            let e = topo[i];
            if !((e.next as usize) < n && (e.prev as usize) < n && (e.twin == NO_INDEX || (e.twin as usize) < n)) {
                return false;
            }
            i = i + 1;
        }
        true
    }

    /// Whether, in the linked half-edges `topo`, the walk around the vertex
    /// of the first corner of each value below `num_values` ends.
    pub fn rings_close(topo: &[TopoEdge], indices: &[u32], num_values: usize) -> (r: bool)
        requires
            topo_wf(topo@),
            topo@.len() == indices@.len(),
        ensures
            r == rings_end(topo@, indices@, num_values as nat),
    {
        let n = indices.len();
        let mut v: usize = 0;
        while v < num_values
            invariant
                v <= num_values,
                n == indices@.len(),
                topo_wf(topo@),
                topo@.len() == indices@.len(),
                forall|u: nat|
                    u < v ==> (#[trigger] first_from(indices@, u, 0) matches Some(start) ==> ring_from(
                        topo@,
                        start,
                        start,
                        topo@.len(),
                    ) is Some),
            decreases num_values - v,
        {
            proof {
                lemma_first_from(indices@, v as nat, 0);
            }
            match first_use(indices, v) {
                Some(start) => {
                    if !ring_ends(topo, start) {
                        assert(!(first_from(indices@, v as nat, 0) matches Some(s) ==> ring_from(
                            topo@,
                            s,
                            s,
                            topo@.len(),
                        ) is Some));
                        return false;
                    }
                },
                None => {},
            }
            v = v + 1;
        }
        true
    }
}

/// Subdivision makes one quad of each old corner: `k` faces of four
/// corners, each starting where the one before ends.
pub proof fn lemma_quad_faces(k: nat)
    requires
        k <= u32::MAX,
    ensures
        quad_faces(k).len() == k,
        forall|i: int| 0 <= i < k ==> #[trigger] quad_faces(k)[i] == (Face { index_begin: (i * 4) as u32, num_indices: 4 }),
    decreases k,
{
    if k > 0 {
        lemma_quad_faces((k - 1) as nat);
    }
}

/// The subdivided mesh has four indices per old corner.
pub proof fn lemma_quad_indices_len(
    t: Seq<TopoEdge>,
    ei: Seq<u32>,
    vpi: Seq<u32>,
    face_start: nat,
    edge_start: nat,
    vert_start: nat,
    k: nat,
)
    ensures
        quad_indices(t, ei, vpi, face_start, edge_start, vert_start, k).len() == 4 * k,
    decreases k,
{
    if k > 0 {
        lemma_quad_indices_len(t, ei, vpi, face_start, edge_start, vert_start, (k - 1) as nat);
    }
}

/// The quad made for corner `i` runs from the vertex point of the corner,
/// to the edge point of its edge, to the face point of the face holding the
/// corner, to the edge point of the edge before it; corners of different
/// faces get different face points.
pub proof fn lemma_quad_of_corner(
    t: Seq<TopoEdge>,
    ei: Seq<u32>,
    vpi: Seq<u32>,
    face_start: nat,
    edge_start: nat,
    vert_start: nat,
    k: nat,
    i: int,
    j: int,
)
    requires
        0 <= i < k,
        0 <= j < k,
    ensures
        ({
            let q = quad_indices(t, ei, vpi, face_start, edge_start, vert_start, k);
            &&& q.len() == 4 * k
            &&& q[4 * i] == (vert_start + vpi[i]) as u32
            &&& q[4 * i + 1] == (edge_start + ei[i]) as u32
            &&& q[4 * i + 2] == (face_start + t[i].face) as u32
            &&& q[4 * i + 3] == (edge_start + ei[t[i].prev as int]) as u32
            &&& (face_start + t[i].face <= u32::MAX && face_start + t[j].face <= u32::MAX && t[i].face
                != t[j].face ==> q[4 * i + 2] != q[4 * j + 2])
        }),
    decreases k,
{
    lemma_quad_indices_len(t, ei, vpi, face_start, edge_start, vert_start, k);
    let q = quad_indices(t, ei, vpi, face_start, edge_start, vert_start, k);
    let p = quad_indices(t, ei, vpi, face_start, edge_start, vert_start, (k - 1) as nat);
    lemma_quad_indices_len(t, ei, vpi, face_start, edge_start, vert_start, (k - 1) as nat);
    if i < k - 1 {
        lemma_quad_of_corner(t, ei, vpi, face_start, edge_start, vert_start, (k - 1) as nat, i, i);
        assert(q[4 * i] == p[4 * i]);
        assert(q[4 * i + 1] == p[4 * i + 1]);
        assert(q[4 * i + 2] == p[4 * i + 2]);
        assert(q[4 * i + 3] == p[4 * i + 3]);
    }
    if j < k - 1 {
        lemma_quad_of_corner(t, ei, vpi, face_start, edge_start, vert_start, (k - 1) as nat, j, j);
        assert(q[4 * j + 2] == p[4 * j + 2]);
    }
}

} // verus!
