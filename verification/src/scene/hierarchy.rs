//! The node hierarchy of a scene: parents and children set from the
//! connections between nodes, every other node hanging from the root.
use vstd::prelude::*;
use crate::types::{Connection, ElementType};
use crate::scene::elements::{ElementData, Prop, prop_models};
use crate::scene::mesh::copy_props;
use crate::text::string_of;

verus! {

/// Whether a connection joins two objects (no property on either end).
pub open spec fn is_object(c: Connection) -> bool {
    c.src_prop is None && c.dst_prop is None
}

/// The node whose element id is `x`, among the first `n` of `ids`: the last
/// one with that id.
pub open spec fn node_at(ids: Seq<u32>, x: usize, n: int) -> Option<int>
    decreases n,
{
    if n <= 0 {
        None
    } else if ids[n - 1] as usize == x {
        Some(n - 1)
    } else {
        node_at(ids, x, n - 1)
    }
}

/// The values of lists of children.
pub open spec fn child_lists(cs: Seq<Vec<usize>>) -> Seq<Seq<usize>> {
    Seq::new(cs.len(), |i: int| cs[i]@)
}

/// Parents and children after making `b` the parent of `a`, where `a` is
/// another node with no parent yet; unchanged otherwise.
pub open spec fn link(ps: Seq<Option<usize>>, cs: Seq<Seq<usize>>, a: int, b: int) -> (Seq<Option<usize>>, Seq<Seq<usize>>) {
    if a != b && ps[a] is None {
        (ps.update(a, Some(b as usize)), if cs[b].contains(a as usize) {
            cs
        } else {
            cs.update(b, cs[b].push(a as usize))
        })
    } else {
        (ps, cs)
    }
}

/// Parents and children after the first `m` connections: each connection
/// between two objects that are nodes makes its destination the parent of
/// its source.
pub open spec fn linked(ids: Seq<u32>, conns: Seq<Connection>, ps: Seq<Option<usize>>, cs: Seq<Seq<usize>>, m: int) -> (Seq<Option<usize>>, Seq<Seq<usize>>)
    decreases m,
{
    if m <= 0 {
        (ps, cs)
    } else {
        let (p2, c2) = linked(ids, conns, ps, cs, m - 1);
        let c = conns[m - 1];
        if is_object(c) {
            match (node_at(ids, c.src, ids.len() as int), node_at(ids, c.dst, ids.len() as int)) {
                (Some(a), Some(b)) => link(p2, c2, a, b),
                _ => (p2, c2),
            }
        } else {
            (p2, c2)
        }
    }
}

/// Parents and children after the first `m` nodes without a parent, other
/// than the root, were hung from the root.
pub open spec fn adopted(ps: Seq<Option<usize>>, cs: Seq<Seq<usize>>, root: int, m: int) -> (Seq<Option<usize>>, Seq<Seq<usize>>)
    decreases m,
{
    if m <= 0 {
        (ps, cs)
    } else {
        let (p2, c2) = adopted(ps, cs, root, m - 1);
        let k = m - 1;
        if k != root && p2[k] is None {
            link(p2, c2, k, root)
        } else {
            (p2, c2)
        }
    }
}

/// Whether parents and children agree: `k` is a child of `d` just when `d`
/// is the parent of `k`, no node is its own parent, and every index is a
/// node.
pub open spec fn consistent(ps: Seq<Option<usize>>, cs: Seq<Seq<usize>>) -> bool {
    &&& ps.len() == cs.len()
    &&& ps.len() <= usize::MAX
    &&& forall|k: int| 0 <= k < ps.len() ==> (#[trigger] ps[k] matches Some(d) ==> d < ps.len() && d != k)
    &&& forall|d: int, k: int| 0 <= d < cs.len() && 0 <= k < ps.len() ==> (#[trigger] cs[d].contains(k as usize) <==> #[trigger] ps[k] == Some(d as usize))
    &&& forall|d: int, j: int| 0 <= d < cs.len() && 0 <= j < cs[d].len() ==> #[trigger] cs[d][j] < ps.len()
}

/// Linking keeps parents and children consistent.
proof fn lemma_link_consistent(ps: Seq<Option<usize>>, cs: Seq<Seq<usize>>, a: int, b: int)
    requires
        consistent(ps, cs),
        0 <= a < ps.len(),
        0 <= b < ps.len(),
    ensures
        consistent(link(ps, cs, a, b).0, link(ps, cs, a, b).1),
        link(ps, cs, a, b).0.len() == ps.len(),
        link(ps, cs, a, b).1.len() == cs.len(),
        link(ps, cs, a, b).1 == (if a != b && ps[a] is None { cs.update(b, cs[b].push(a as usize)) } else { cs }),
        forall|k: int| 0 <= k < ps.len() && ps[k] is Some ==> link(ps, cs, a, b).0[k] == ps[k],
        ps[a] is None && a != b ==> link(ps, cs, a, b).0[a] == Some(b as usize),
{
    if a != b && ps[a] is None {
        assert(!cs[b].contains(a as usize)) by {
            if cs[b].contains(a as usize) {
                assert(ps[a] == Some(b as usize));
            }
        }
        let p2 = ps.update(a, Some(b as usize));
        let c2 = cs.update(b, cs[b].push(a as usize));
        assert forall|d: int, k: int| 0 <= d < c2.len() && 0 <= k < p2.len() implies (#[trigger] c2[d].contains(k as usize) <==> #[trigger] p2[k] == Some(d as usize)) by {
            if d == b {
                if k == a {
                    assert(c2[d][cs[b].len() as int] == a as usize);
                } else {
                    if c2[d].contains(k as usize) {
                        let j = choose|j: int| 0 <= j < c2[d].len() && c2[d][j] == k as usize;
                        if j < cs[b].len() {
                            assert(cs[b][j] == k as usize);
                        }
                    }
                    if cs[b].contains(k as usize) {
                        let j = choose|j: int| 0 <= j < cs[b].len() && cs[b][j] == k as usize;
                        assert(c2[d][j] == k as usize);
                    }
                }
            } else {
                if k == a {
                    assert(!cs[d].contains(a as usize));
                }
            }
        }
        assert forall|d: int, j: int| 0 <= d < c2.len() && 0 <= j < c2[d].len() implies #[trigger] c2[d][j] < p2.len() by {
            if d == b && j == cs[b].len() {
            } else if d == b {
                assert(c2[d][j] == cs[b][j]);
            }
        }
    }
}

/// A node found lies among the first `n`.
proof fn lemma_node_at_range(ids: Seq<u32>, x: usize, n: int)
    requires
        n <= ids.len(),
    ensures
        node_at(ids, x, n) matches Some(k) ==> 0 <= k < n,
    decreases n,
{
    if n > 0 {
        lemma_node_at_range(ids, x, n - 1);
    }
}

/// Where the node with element id `x` lies, if any.
fn find_node(ids: &Vec<u32>, x: usize) -> (r: Option<usize>)
    ensures
        r == (match node_at(ids@, x, ids@.len() as int) {
            Some(k) => Some(k as usize),
            None => None::<usize>,
        }),
        r matches Some(k) ==> k < ids@.len(),
{
    let mut n = ids.len();
    while n > 0
        invariant
            n <= ids@.len(),
            node_at(ids@, x, ids@.len() as int) == node_at(ids@, x, n as int),
        decreases n,
    {
        if ids[n - 1] as usize == x {
            return Some(n - 1);
        }
        n = n - 1;
    }
    None
}

/// Whether `v` holds `x`.
fn holds(v: &Vec<usize>, x: usize) -> (r: bool)
    ensures
        r == v@.contains(x),
{
    let mut i: usize = 0;
    while i < v.len()
        invariant
            i <= v@.len(),
            forall|j: int| 0 <= j < i ==> v@[j] != x,
        decreases v@.len() - i,
    {
        if v[i] == x {
            assert(v@[i as int] == x);
            return true;
        }
        i = i + 1;
    }
    false
}

/// Makes `b` the parent of `a` when `a` is another node without a parent.
fn link_nodes(parents: &mut Vec<Option<usize>>, children: &mut Vec<Vec<usize>>, a: usize, b: usize)
    requires
        a < old(parents)@.len(),
        b < old(parents)@.len(),
        old(children)@.len() == old(parents)@.len(),
    ensures
        (final(parents)@, child_lists(final(children)@)) == link(old(parents)@, child_lists(old(children)@), a as int, b as int),
        final(children)@.len() == old(children)@.len(),
{
    if a != b && parents[a].is_none() {
        parents.set(a, Some(b));
        if !holds(&children[b], a) {
            let mut c: Vec<usize> = Vec::new();
            let mut i: usize = 0;
            while i < children[b].len()
                invariant
                    b < children@.len(),
                    i <= children@[b as int]@.len(),
                    c@ == children@[b as int]@.take(i as int),
                decreases children@[b as int]@.len() - i,
            {
                c.push(children[b][i]);
                i = i + 1;
            }
            assert(c@ =~= children@[b as int]@);
            c.push(a);
            let ghost before = child_lists(children@);
            children.set(b, c);
            assert(child_lists(children@) =~= before.update(b as int, before[b as int].push(a)));
        }
    }
}

/// Sets the parents and children of the nodes, whose element ids are
/// `ids`: each connection between two objects that are nodes, in order,
/// makes its destination the parent of its source where the source is
/// another node with no parent yet (and then one of its destination's
/// children); after that every node but the root without a parent hangs
/// from the root. Every node but the root ends with a parent, and where
/// parents and children agreed before they agree after.
pub fn build_node_hierarchy(
    ids: &Vec<u32>,
    parents: &mut Vec<Option<usize>>,
    children: &mut Vec<Vec<usize>>,
    connections: &Vec<Connection>,
    root: usize,
)
    requires
        old(parents)@.len() == ids@.len(),
        old(children)@.len() == ids@.len(),
        root < ids@.len(),
    ensures
        ({
            let l = linked(ids@, connections@, old(parents)@, child_lists(old(children)@), connections@.len() as int);
            let a = adopted(l.0, l.1, root as int, ids@.len() as int);
            final(parents)@ == a.0 && child_lists(final(children)@) == a.1
        }),
        forall|k: int| 0 <= k < ids@.len() && k != root ==> #[trigger] final(parents)@[k] is Some,
        consistent(old(parents)@, child_lists(old(children)@)) ==> consistent(final(parents)@, child_lists(final(children)@)),
{
    let n = ids.len();
    let ghost p0 = parents@;
    let ghost c0 = child_lists(children@);
    let ghost was = consistent(p0, c0);
    let mut i: usize = 0;
    while i < connections.len()
        invariant
            n == ids@.len(),
            root < n,
            i <= connections@.len(),
            parents@.len() == n,
            children@.len() == n,
            (parents@, child_lists(children@)) == linked(ids@, connections@, p0, c0, i as int),
            was ==> consistent(parents@, child_lists(children@)),
        decreases connections@.len() - i,
    {
        let c = &connections[i];
        let ghost st = (parents@, child_lists(children@));
        proof {
            assert(linked(ids@, connections@, p0, c0, i + 1) == ({
                let c = connections@[i as int];
                if is_object(c) {
                    match (node_at(ids@, c.src, ids@.len() as int), node_at(ids@, c.dst, ids@.len() as int)) {
                        (Some(a), Some(b)) => link(st.0, st.1, a, b),
                        _ => st,
                    }
                } else {
                    st
                }
            }));
        }
        if c.src_prop.is_none() && c.dst_prop.is_none() {
            let s = find_node(ids, c.src);
            let d = find_node(ids, c.dst);
            match (s, d) {
                (Some(a), Some(b)) => {
                    proof {
                        lemma_node_at_range(ids@, c.src, ids@.len() as int);
                        lemma_node_at_range(ids@, c.dst, ids@.len() as int);
                        assert(node_at(ids@, c.src, ids@.len() as int) == Some(a as int));
                        assert(node_at(ids@, c.dst, ids@.len() as int) == Some(b as int));
                        if was {
                            lemma_link_consistent(parents@, child_lists(children@), a as int, b as int);
                        }
                    }
                    link_nodes(parents, children, a, b);
                    assert((parents@, child_lists(children@)) == linked(ids@, connections@, p0, c0, i + 1));
                },
                _ => {
                    assert((parents@, child_lists(children@)) == linked(ids@, connections@, p0, c0, i + 1));
                },
            }
        } else {
            assert((parents@, child_lists(children@)) == linked(ids@, connections@, p0, c0, i + 1));
        }
        i = i + 1;
    }
    let ghost l = linked(ids@, connections@, p0, c0, connections@.len() as int);
    let mut k: usize = 0;
    while k < n
        invariant
            n == ids@.len(),
            root < n,
            k <= n,
            parents@.len() == n,
            children@.len() == n,
            l.0.len() == n,
            l.1.len() == n,
            (parents@, child_lists(children@)) == adopted(l.0, l.1, root as int, k as int),
            forall|j: int| 0 <= j < k && j != root ==> #[trigger] parents@[j] is Some,
            was ==> consistent(parents@, child_lists(children@)),
        decreases n - k,
    {
        proof {
            if was {
                lemma_link_consistent(parents@, child_lists(children@), k as int, root as int);
            }
        }
        let ghost before = parents@;
        if k != root && parents[k].is_none() {
            link_nodes(parents, children, k, root);
        }
        proof {
            assert forall|j: int| 0 <= j < k + 1 && j != root implies #[trigger] parents@[j] is Some by {
                if j < k {
                    assert(before[j] is Some);
                }
            }
        }
        k = k + 1;
    }
}

/// A node of a scene, without its transforms; its parent, children and
/// attributes are kept beside the nodes.
#[derive(Debug)]
pub struct NodeRecord {
    pub name: String,
    pub props: Vec<Prop>,
    pub element_id: u32,
    pub typed_id: u32,
    pub is_root: bool,
}

/// Whether `n` is the node built from `data` as node number `index`.
pub open spec fn node_built(n: NodeRecord, data: ElementData, index: u32) -> bool {
    &&& n.name@ == data.name@
    &&& prop_models(n.props@) == prop_models(data.props@)
    &&& n.element_id == index
    &&& n.typed_id == index
    &&& !n.is_root
}

/// Whether `n` is the root node that is added when no element is the root.
pub open spec fn root_built(n: NodeRecord) -> bool {
    &&& n.name@ == "RootNode"@
    &&& n.props@.len() == 0
    &&& n.element_id == 0
    &&& n.typed_id == 0
    &&& n.is_root
}

/// Builds node number `node_index` of a scene from the node element
/// `data`: its name and properties, its number as element and typed id,
/// and nothing attached yet.
pub fn create_node(data: &ElementData, node_index: u32) -> (r: NodeRecord)
    ensures
        node_built(r, *data, node_index),
{
    NodeRecord { name: data.name.clone(), props: copy_props(&data.props), element_id: node_index, typed_id: node_index, is_root: false }
}

/// Whether some element has the id zero, the id of the root.
pub open spec fn has_root_element(es: Seq<ElementData>) -> bool {
    exists|k: int| 0 <= k < es.len() && #[trigger] es[k].fbx_id == 0
}

/// Adds a root node named `RootNode` when no element has the id zero, and
/// gives its place; gives `None` and leaves the nodes as they are when one
/// does.
pub fn ensure_root_node(elements: &Vec<ElementData>, nodes: &mut Vec<NodeRecord>) -> (r: Option<usize>)
    ensures
        has_root_element(elements@) ==> r is None && final(nodes)@ == old(nodes)@,
        !has_root_element(elements@) ==> r == Some(old(nodes)@.len() as usize) && final(nodes)@.len() == old(nodes)@.len() + 1
            && final(nodes)@.take(old(nodes)@.len() as int) == old(nodes)@ && root_built(final(nodes)@[old(nodes)@.len() as int]),
{
    let mut k: usize = 0;
    while k < elements.len()
        invariant
            k <= elements@.len(),
            forall|j: int| 0 <= j < k ==> elements@[j].fbx_id != 0,
        decreases elements@.len() - k,
    {
        if elements[k].fbx_id == 0 {
            assert(elements@[k as int].fbx_id == 0);
            return None;
        }
        k = k + 1;
    }
    let at = nodes.len();
    nodes.push(NodeRecord { name: string_of("RootNode"), props: Vec::new(), element_id: 0, typed_id: 0, is_root: true });
    assert(nodes@.take(at as int) =~= old(nodes)@);
    Some(at)
}

/// What is attached to a node: a mesh, light or camera (by its place among
/// its kind), the element of the last one attached, and its kind.
#[derive(Debug, Clone, Copy, PartialEq, Eq, Structural)]
pub struct Attached {
    pub mesh: Option<usize>,
    pub light: Option<usize>,
    pub camera: Option<usize>,
    pub attrib: Option<usize>,
    pub attrib_type: ElementType,
}

/// `lists` with `x` added to list `at` where it is not there yet.
pub open spec fn push_new(lists: Seq<Seq<usize>>, at: int, x: usize) -> Seq<Seq<usize>> {
    if lists[at].contains(x) {
        lists
    } else {
        lists.update(at, lists[at].push(x))
    }
}

/// Attachments and instance lists (of meshes, lights, cameras).
pub type AttachState = (Seq<Attached>, Seq<Seq<usize>>, Seq<Seq<usize>>, Seq<Seq<usize>>);

/// The state after connection `c`: a connection between objects from a
/// mesh, light or camera (looked up in that order) to a node attaches it to
/// the node, and adds the node to its instances.
pub open spec fn attach_one(
    st: AttachState,
    c: Connection,
    node_ids: Seq<u32>,
    mesh_ids: Seq<u32>,
    light_ids: Seq<u32>,
    camera_ids: Seq<u32>,
) -> AttachState {
    let (atts, mi, li, ci) = st;
    if !is_object(c) {
        st
    } else {
        match node_at(node_ids, c.dst, node_ids.len() as int) {
            None => st,
            Some(n) => {
                let a = atts[n];
                match node_at(mesh_ids, c.src, mesh_ids.len() as int) {
                    Some(m) => (
                        atts.update(n, Attached { mesh: Some(m as usize), attrib: Some(c.src), attrib_type: ElementType::Mesh, ..a }),
                        push_new(mi, m, n as usize),
                        li,
                        ci,
                    ),
                    None => match node_at(light_ids, c.src, light_ids.len() as int) {
                        Some(l) => (
                            atts.update(n, Attached { light: Some(l as usize), attrib: Some(c.src), attrib_type: ElementType::Light, ..a }),
                            mi,
                            push_new(li, l, n as usize),
                            ci,
                        ),
                        None => match node_at(camera_ids, c.src, camera_ids.len() as int) {
                            Some(k) => (
                                atts.update(n, Attached { camera: Some(k as usize), attrib: Some(c.src), attrib_type: ElementType::Camera, ..a }),
                                mi,
                                li,
                                push_new(ci, k, n as usize),
                            ),
                            None => st,
                        },
                    },
                }
            },
        }
    }
}

/// The state after the first `m` connections.
pub open spec fn attached(
    st: AttachState,
    conns: Seq<Connection>,
    node_ids: Seq<u32>,
    mesh_ids: Seq<u32>,
    light_ids: Seq<u32>,
    camera_ids: Seq<u32>,
    m: int,
) -> AttachState
    decreases m,
{
    if m <= 0 {
        st
    } else {
        attach_one(attached(st, conns, node_ids, mesh_ids, light_ids, camera_ids, m - 1), conns[m - 1], node_ids, mesh_ids, light_ids, camera_ids)
    }
}

/// Adds `x` to list `at` where it is not there yet.
fn push_new_exec(lists: &mut Vec<Vec<usize>>, at: usize, x: usize)
    requires
        at < old(lists)@.len(),
    ensures
        child_lists(final(lists)@) == push_new(child_lists(old(lists)@), at as int, x),
        final(lists)@.len() == old(lists)@.len(),
{
    if !holds(&lists[at], x) {
        let mut c: Vec<usize> = Vec::new();
        let mut i: usize = 0;
        while i < lists[at].len()
            invariant
                at < lists@.len(),
                i <= lists@[at as int]@.len(),
                c@ == lists@[at as int]@.take(i as int),
            decreases lists@[at as int]@.len() - i,
        {
            c.push(lists[at][i]);
            i = i + 1;
        }
        assert(c@ =~= lists@[at as int]@);
        c.push(x);
        let ghost before = child_lists(lists@);
        lists.set(at, c);
        assert(child_lists(lists@) =~= before.update(at as int, before[at as int].push(x)));
    } else {
        assert(child_lists(lists@) =~= child_lists(old(lists)@));
    }
}

/// Attaches meshes, lights and cameras to nodes through the connections,
/// in order, as [`attached`] states: `atts` holds what each node has, the
/// instance lists the nodes of each mesh, light and camera. The tables of
/// ids give the element id of each node, mesh, light and camera.
pub fn attach_attributes(
    node_ids: &Vec<u32>,
    mesh_ids: &Vec<u32>,
    light_ids: &Vec<u32>,
    camera_ids: &Vec<u32>,
    connections: &Vec<Connection>,
    atts: &mut Vec<Attached>,
    mesh_instances: &mut Vec<Vec<usize>>,
    light_instances: &mut Vec<Vec<usize>>,
    camera_instances: &mut Vec<Vec<usize>>,
)
    requires
        old(atts)@.len() == node_ids@.len(),
        old(mesh_instances)@.len() == mesh_ids@.len(),
        old(light_instances)@.len() == light_ids@.len(),
        old(camera_instances)@.len() == camera_ids@.len(),
    ensures
        (final(atts)@, child_lists(final(mesh_instances)@), child_lists(final(light_instances)@), child_lists(
            final(camera_instances)@,
        )) == attached(
            (old(atts)@, child_lists(old(mesh_instances)@), child_lists(old(light_instances)@), child_lists(
                old(camera_instances)@,
            )),
            connections@,
            node_ids@,
            mesh_ids@,
            light_ids@,
            camera_ids@,
            connections@.len() as int,
        ),
{
    let ghost st0 = (atts@, child_lists(mesh_instances@), child_lists(light_instances@), child_lists(camera_instances@));
    let counts = (node_ids.len(), mesh_ids.len(), light_ids.len(), camera_ids.len());
    let mut i: usize = 0;
    while i < connections.len()
        invariant
            counts == (node_ids@.len() as usize, mesh_ids@.len() as usize, light_ids@.len() as usize, camera_ids@.len() as usize),
            node_ids@.len() <= usize::MAX,
            mesh_ids@.len() <= usize::MAX,
            light_ids@.len() <= usize::MAX,
            camera_ids@.len() <= usize::MAX,
            i <= connections@.len(),
            atts@.len() == node_ids@.len(),
            mesh_instances@.len() == mesh_ids@.len(),
            light_instances@.len() == light_ids@.len(),
            camera_instances@.len() == camera_ids@.len(),
            (atts@, child_lists(mesh_instances@), child_lists(light_instances@), child_lists(camera_instances@))
                == attached(st0, connections@, node_ids@, mesh_ids@, light_ids@, camera_ids@, i as int),
        decreases connections@.len() - i,
    {
        let c = &connections[i];
        let ghost st = (atts@, child_lists(mesh_instances@), child_lists(light_instances@), child_lists(camera_instances@));
        proof {
            lemma_node_at_range(node_ids@, c.dst, node_ids@.len() as int);
            lemma_node_at_range(mesh_ids@, c.src, mesh_ids@.len() as int);
            lemma_node_at_range(light_ids@, c.src, light_ids@.len() as int);
            lemma_node_at_range(camera_ids@, c.src, camera_ids@.len() as int);
        }
        if c.src_prop.is_none() && c.dst_prop.is_none() {
            let found_node = find_node(node_ids, c.dst);
            match found_node {
                Some(n) => {
                    proof { lemma_node_at_range(node_ids@, c.dst, node_ids@.len() as int); }
                    assert(node_at(node_ids@, c.dst, node_ids@.len() as int) == Some(n as int));
                    let a = atts[n];
                    let found_mesh = find_node(mesh_ids, c.src);
                    let found_light = find_node(light_ids, c.src);
                    let found_camera = find_node(camera_ids, c.src);
                    match found_mesh {
                        Some(m) => {
                            proof { lemma_node_at_range(mesh_ids@, c.src, mesh_ids@.len() as int); }
                    assert(node_at(mesh_ids@, c.src, mesh_ids@.len() as int) == Some(m as int));
                            atts.set(n, Attached { mesh: Some(m), attrib: Some(c.src), attrib_type: ElementType::Mesh, ..a });
                            push_new_exec(mesh_instances, m, n);
                        },
                        None => match found_light {
                            Some(l) => {
                                proof { lemma_node_at_range(light_ids@, c.src, light_ids@.len() as int); }
                    assert(node_at(light_ids@, c.src, light_ids@.len() as int) == Some(l as int));
                                atts.set(n, Attached { light: Some(l), attrib: Some(c.src), attrib_type: ElementType::Light, ..a });
                                push_new_exec(light_instances, l, n);
                            },
                            None => match found_camera {
                                Some(k) => {
                                    proof { lemma_node_at_range(camera_ids@, c.src, camera_ids@.len() as int); }
                    assert(node_at(camera_ids@, c.src, camera_ids@.len() as int) == Some(k as int));
                                    atts.set(n, Attached { camera: Some(k), attrib: Some(c.src), attrib_type: ElementType::Camera, ..a });
                                    push_new_exec(camera_instances, k, n);
                                },
                                None => {},
                            },
                        },
                    }
                },
                None => {},
            }
        }
        proof {
            assert((atts@, child_lists(mesh_instances@), child_lists(light_instances@), child_lists(camera_instances@))
                == attach_one(st, connections@[i as int], node_ids@, mesh_ids@, light_ids@, camera_ids@));
        }
        i = i + 1;
    }
}

} // verus!
