//! Options for saving scenes.
use vstd::prelude::*;
use crate::binary::{FbxNode, Value, ValueModel};
use crate::text::string_of;
use crate::types::{CoordinateAxes, FbxString};
use std::collections::HashMap;

verus! {

/// Format for saving FBX files.
#[derive(Debug, Clone, Copy, PartialEq, Eq, Structural)]
pub enum SaveFormat {
    /// Binary FBX format.
    Binary,
    /// ASCII FBX format.
    Ascii,
    /// Chosen when saving; binary unless something else decides.
    Auto,
}

impl Default for SaveFormat {
    fn default() -> (r: Self)
        ensures
            r == SaveFormat::Binary,
    {
        SaveFormat::Binary
    }
}

/// Options for saving FBX files.
#[derive(Debug, Clone)]
pub struct SaveOpts {
    /// Output format.
    pub format: SaveFormat,
    /// FBX version to write.
    pub version: u32,
    /// Application name written in the metadata.
    pub exporter_name: String,
    /// Whether arrays of more than 128 elements are stored compressed.
    pub compress_arrays: bool,
    /// Indentation used by the ASCII format.
    pub ascii_indent: String,
    /// Coordinate system to convert the scene to before writing.
    pub target_axes: Option<CoordinateAxes>,
}

impl Default for SaveOpts {
    fn default() -> (r: Self)
        ensures
            r.format == SaveFormat::Binary,
            r.version == 7400,
            r.exporter_name@ == "ufbx-rust"@,
            r.compress_arrays,
            r.ascii_indent@ == "    "@,
            r.target_axes is None,
    {
        SaveOpts {
            format: SaveFormat::Binary,
            version: 7400,
            exporter_name: string_of("ufbx-rust"),
            compress_arrays: true,
            ascii_indent: string_of("    "),
            target_axes: None,
        }
    }
}

/// The format actually written for a requested one: `Auto` becomes binary.
pub fn resolve_format(format: SaveFormat) -> (r: SaveFormat)
    ensures
        r == (if format == SaveFormat::Auto {
            SaveFormat::Binary
        } else {
            format
        }),
{
    match format {
        SaveFormat::Auto => SaveFormat::Binary,
        other => other,
    }
}

// ---------------------------------------------------------------------------
// Identifiers and connections of a scene being saved
// ---------------------------------------------------------------------------

/// First identifier given to a written object; the root is 0.
pub const FIRST_FBX_ID: u64 = 100000000;

/// Offset of a mesh's key among the element keys.
pub const MESH_KEY_BASE: usize = 1000000;

/// Offset of a material's key among the element keys.
pub const MATERIAL_KEY_BASE: usize = 2000000;

/// What the writer reads of a mesh: the nodes that instance it and its first material.
#[derive(Debug, Clone)]
pub struct MeshLinks {
    pub instances: Vec<usize>,
    pub first_material: Option<usize>,
}

/// What the writer reads of a scene's structure: the parent of each node,
/// the root node, the meshes and the number of materials.
#[derive(Debug, Clone)]
pub struct SceneLinks {
    pub root_node: usize,
    pub node_parents: Vec<Option<usize>>,
    pub meshes: Vec<MeshLinks>,
    pub num_materials: usize,
}

/// Keys of the nodes below `n`, the root left out, in order.
pub open spec fn node_keys(n: nat, root: int) -> Seq<usize>
    decreases n,
{
    if n == 0 {
        Seq::empty()
    } else {
        let s = node_keys((n - 1) as nat, root);
        if n - 1 == root {
            s
        } else {
            s.push((n - 1) as usize)
        }
    }
}

/// The keys `base`, `base + 1`, ... , `n` of them.
pub open spec fn range_keys(base: int, n: nat) -> Seq<usize> {
    Seq::new(n, |i: int| (base + i) as usize)
}

/// The keys of a scene's elements in the order identifiers are handed out:
/// its nodes but the root, then its meshes, then its materials.
pub open spec fn element_keys(l: SceneLinks) -> Seq<usize> {
    node_keys(l.node_parents@.len(), l.root_node as int) + range_keys(MESH_KEY_BASE as int, l.meshes@.len())
        + range_keys(MATERIAL_KEY_BASE as int, l.num_materials as nat)
}

/// The keys known after asking for each key of `s` in turn, starting from
/// `start`: a key not known yet is added at the end.
pub open spec fn seen_after(start: Seq<usize>, s: Seq<usize>) -> Seq<usize>
    decreases s.len(),
{
    if s.len() == 0 {
        start
    } else {
        let d = seen_after(start, s.drop_last());
        if d.contains(s.last()) {
            d
        } else {
            d.push(s.last())
        }
    }
}

/// Index of the first `k` in `s`, or -1.
pub open spec fn position(s: Seq<usize>, k: usize) -> int
    decreases s.len(),
{
    if s.len() == 0 {
        -1
    } else {
        let p = position(s.drop_last(), k);
        if p >= 0 {
            p
        } else if s.last() == k {
            s.len() - 1
        } else {
            -1
        }
    }
}

/// The identifier of key `k` among the known keys `keys`.
pub open spec fn id_of(keys: Seq<usize>, k: usize) -> int {
    FIRST_FBX_ID + position(keys, k)
}

/// `position` finds the first occurrence, and -1 exactly when there is none.
pub proof fn lemma_position(s: Seq<usize>, k: usize)
    ensures
        position(s, k) == -1 <==> !s.contains(k),
        position(s, k) >= 0 ==> 0 <= position(s, k) < s.len() && s[position(s, k)] == k && forall|i: int|
            0 <= i < position(s, k) ==> s[i] != k,
    decreases s.len(),
{
    if s.len() > 0 {
        lemma_position(s.drop_last(), k);
        if position(s.drop_last(), k) == -1 {
            assert forall|i: int| 0 <= i < s.len() - 1 implies s[i] != k by {
                assert(s.drop_last()[i] == s[i]);
            }
            if s.contains(k) {
                let j = choose|j: int| 0 <= j < s.len() && s[j] == k;
                if j < s.len() - 1 {
                    assert(s.drop_last()[j] == k);
                }
            }
        } else {
            assert(s.drop_last().contains(k));
            let j = choose|j: int| 0 <= j < s.drop_last().len() && s.drop_last()[j] == k;
            assert(s[j] == k);
            let p = position(s.drop_last(), k);
            assert(s[p] == s.drop_last()[p]);
            assert forall|i: int| 0 <= i < p implies s[i] != k by {
                assert(s.drop_last()[i] == s[i]);
            }
        }
    }
}

/// Keys seen stay seen, and each key asked for is among them.
pub proof fn lemma_seen_after(start: Seq<usize>, s: Seq<usize>)
    ensures
        start.len() <= seen_after(start, s).len() <= start.len() + s.len(),
        forall|k: usize| start.contains(k) ==> #[trigger] seen_after(start, s).contains(k),
        forall|i: int| 0 <= i < s.len() ==> seen_after(start, s).contains(#[trigger] s[i]),
        forall|i: int| 0 <= i < start.len() ==> #[trigger] seen_after(start, s)[i] == start[i],
    decreases s.len(),
{
    if s.len() > 0 {
        let d = seen_after(start, s.drop_last());
        lemma_seen_after(start, s.drop_last());
        assert forall|i: int| 0 <= i < s.len() implies seen_after(start, s).contains(#[trigger] s[i]) by {
            if i < s.len() - 1 {
                assert(s.drop_last()[i] == s[i]);
                assert(d.contains(s[i]));
                if !d.contains(s.last()) {
                    let j = choose|j: int| 0 <= j < d.len() && d[j] == s[i];
                    assert(d.push(s.last())[j] == s[i]);
                }
            } else {
                if !d.contains(s.last()) {
                    assert(d.push(s.last())[d.len() as int] == s.last());
                }
            }
        }
        assert forall|i: int| 0 <= i < start.len() implies #[trigger] seen_after(start, s)[i] == start[i] by {
            if !d.contains(s.last()) {
                assert(d.push(s.last())[i] == d[i]);
            }
        }
        assert forall|k: usize| start.contains(k) implies #[trigger] seen_after(start, s).contains(k) by {
            assert(d.contains(k));
            if !d.contains(s.last()) {
                let j = choose|j: int| 0 <= j < d.len() && d[j] == k;
                assert(d.push(s.last())[j] == k);
            }
        }
    }
}

/// At most `n` nodes have a key.
pub proof fn lemma_node_keys_len(n: nat, root: int)
    ensures
        node_keys(n, root).len() <= n,
    decreases n,
{
    if n > 0 {
        lemma_node_keys_len((n - 1) as nat, root);
    }
}

/// Asking for one more key after the keys of `t`.
pub proof fn lemma_seen_push(start: Seq<usize>, t: Seq<usize>, x: usize)
    ensures
        seen_after(start, t.push(x)) == (if seen_after(start, t).contains(x) {
            seen_after(start, t)
        } else {
            seen_after(start, t).push(x)
        }),
{
    assert(t.push(x).drop_last() =~= t);
}

/// The parent's identifier written for a node: 0, the root's, when it has
/// none or when its parent is the root.
pub open spec fn parent_id(keys: Seq<usize>, l: SceneLinks, p: Option<usize>) -> int {
    match p {
        Some(q) => if q == l.root_node {
            0
        } else {
            id_of(keys, q)
        },
        None => 0,
    }
}

/// Links of the nodes below `n` to their parents, the root left out.
pub open spec fn node_links(keys: Seq<usize>, l: SceneLinks, n: nat) -> Seq<(int, int)>
    decreases n,
{
    if n == 0 {
        Seq::empty()
    } else {
        let s = node_links(keys, l, (n - 1) as nat);
        if n - 1 == l.root_node {
            s
        } else {
            s.push((id_of(keys, (n - 1) as usize), parent_id(keys, l, l.node_parents@[n - 1])))
        }
    }
}

/// Links of a mesh to the nodes that instance it, the root left out.
pub open spec fn instance_links(keys: Seq<usize>, l: SceneLinks, mesh_id: int, inst: Seq<usize>) -> Seq<(int, int)>
    decreases inst.len(),
{
    if inst.len() == 0 {
        Seq::empty()
    } else {
        let s = instance_links(keys, l, mesh_id, inst.drop_last());
        if inst.last() == l.root_node {
            s
        } else {
            s.push((mesh_id, id_of(keys, inst.last())))
        }
    }
}

/// Links of the meshes below `m` to their nodes.
pub open spec fn mesh_links(keys: Seq<usize>, l: SceneLinks, m: nat) -> Seq<(int, int)>
    decreases m,
{
    if m == 0 {
        Seq::empty()
    } else {
        mesh_links(keys, l, (m - 1) as nat) + instance_links(
            keys,
            l,
            id_of(keys, (MESH_KEY_BASE + m - 1) as usize),
            l.meshes@[m - 1].instances@,
        )
    }
}

/// Links of the first material of each mesh below `m` to the mesh.
pub open spec fn material_links(keys: Seq<usize>, l: SceneLinks, m: nat) -> Seq<(int, int)>
    decreases m,
{
    if m == 0 {
        Seq::empty()
    } else {
        let s = material_links(keys, l, (m - 1) as nat);
        match l.meshes@[m - 1].first_material {
            Some(t) => s.push(
                (id_of(keys, (MATERIAL_KEY_BASE + t) as usize), id_of(keys, (MESH_KEY_BASE + m - 1) as usize)),
            ),
            None => s,
        }
    }
}

/// Every connection of a scene, as (child, parent) identifiers: nodes to
/// parents, meshes to nodes, materials to meshes.
pub open spec fn scene_links(keys: Seq<usize>, l: SceneLinks) -> Seq<(int, int)> {
    node_links(keys, l, l.node_parents@.len()) + mesh_links(keys, l, l.meshes@.len()) + material_links(
        keys,
        l,
        l.meshes@.len(),
    )
}

/// Every key that writing the connections looks up has an identifier.
pub open spec fn lookups_present(keys: Seq<usize>, l: SceneLinks) -> bool {
    &&& l.meshes@.len() <= usize::MAX - MESH_KEY_BASE
    &&& forall|i: int|
        0 <= i < l.node_parents@.len() && i != l.root_node ==> keys.contains(i as usize) && match #[trigger] l.node_parents@[i] {
            Some(q) => q != l.root_node ==> keys.contains(q),
            None => true,
        }
    &&& forall|m: int|
        #![trigger l.meshes@[m]]
        0 <= m < l.meshes@.len() ==> keys.contains((MESH_KEY_BASE + m) as usize) && (forall|j: int|
            0 <= j < l.meshes@[m].instances@.len() && #[trigger] l.meshes@[m].instances@[j] != l.root_node
                ==> keys.contains(l.meshes@[m].instances@[j])) && match #[trigger] l.meshes@[m].first_material {
            Some(t) => t <= usize::MAX - MATERIAL_KEY_BASE && keys.contains((MATERIAL_KEY_BASE + t) as usize),
            None => true,
        }
}

/// The indices a scene's structure holds are in range: parents and
/// instances name nodes, first materials name materials, and the keys of
/// meshes and materials fit in `usize`.
pub open spec fn links_valid(l: SceneLinks) -> bool {
    &&& l.meshes@.len() <= usize::MAX - MESH_KEY_BASE
    &&& l.num_materials <= usize::MAX - MATERIAL_KEY_BASE
    &&& forall|i: int|
        0 <= i < l.node_parents@.len() ==> match #[trigger] l.node_parents@[i] {
            Some(q) => q < l.node_parents@.len(),
            None => true,
        }
    &&& forall|m: int, j: int|
        0 <= m < l.meshes@.len() && 0 <= j < l.meshes@[m].instances@.len() ==> #[trigger] l.meshes@[m].instances@[j]
            < l.node_parents@.len()
    &&& forall|m: int|
        0 <= m < l.meshes@.len() ==> match #[trigger] l.meshes@[m].first_material {
            Some(t) => t < l.num_materials,
            None => true,
        }
}

/// Every node but the root has a key.
pub proof fn lemma_node_keys_contains(n: nat, root: int, i: int)
    requires
        0 <= i < n,
        i != root,
    ensures
        node_keys(n, root).contains(i as usize),
    decreases n,
{
    let s = node_keys((n - 1) as nat, root);
    if i == n - 1 {
        assert(s.push((n - 1) as usize)[s.len() as int] == i as usize);
    } else {
        lemma_node_keys_contains((n - 1) as nat, root, i);
        let j = choose|j: int| 0 <= j < s.len() && s[j] == i as usize;
        if n - 1 != root {
            assert(s.push((n - 1) as usize)[j] == i as usize);
        }
    }
}

/// Once identifiers are handed out for a scene whose indices are in range,
/// every key that writing its connections looks up has one.
pub proof fn lemma_assigned_keys_cover(start: Seq<usize>, l: SceneLinks)
    requires
        links_valid(l),
    ensures
        lookups_present(seen_after(start, element_keys(l)), l),
{
    let e = element_keys(l);
    let keys = seen_after(start, e);
    let n = l.node_parents@.len();
    let nk = node_keys(n, l.root_node as int);
    let mk = range_keys(MESH_KEY_BASE as int, l.meshes@.len());
    lemma_seen_after(start, e);
    assert forall|i: int|
        #![trigger l.node_parents@[i]]
        0 <= i < n && i != l.root_node implies keys.contains(i as usize) by {
        lemma_node_keys_contains(n, l.root_node as int, i);
        let j = choose|j: int| 0 <= j < nk.len() && nk[j] == i as usize;
        assert(e[j] == nk[j]);
    }
    assert forall|m: int|
        #![trigger l.meshes@[m]]
        0 <= m < l.meshes@.len() implies keys.contains((MESH_KEY_BASE + m) as usize) by {
        assert(e[nk.len() + m] == mk[m]);
    }
    assert forall|t: int|
        #![trigger range_keys(MATERIAL_KEY_BASE as int, l.num_materials as nat)[t]]
        0 <= t < l.num_materials implies keys.contains((MATERIAL_KEY_BASE + t) as usize) by {
        assert(e[nk.len() + mk.len() + t] == range_keys(MATERIAL_KEY_BASE as int, l.num_materials as nat)[t]);
    }
    assert forall|i: int|
        0 <= i < l.node_parents@.len() && i != l.root_node implies keys.contains(i as usize) && match #[trigger] l.node_parents@[i] {
            Some(q) => q != l.root_node ==> keys.contains(q),
            None => true,
        } by {
        match l.node_parents@[i] {
            Some(q) => {
                if q != l.root_node {
                    assert(l.node_parents@[q as int] == l.node_parents@[q as int]);
                }
            },
            None => {},
        }
    }
    assert forall|m: int|
        #![trigger l.meshes@[m]]
        0 <= m < l.meshes@.len() implies keys.contains((MESH_KEY_BASE + m) as usize) && (forall|j: int|
            0 <= j < l.meshes@[m].instances@.len() && #[trigger] l.meshes@[m].instances@[j] != l.root_node
                ==> keys.contains(l.meshes@[m].instances@[j])) && match #[trigger] l.meshes@[m].first_material {
            Some(t) => t <= usize::MAX - MATERIAL_KEY_BASE && keys.contains((MATERIAL_KEY_BASE + t) as usize),
            None => true,
        } by {
        assert forall|j: int|
            0 <= j < l.meshes@[m].instances@.len() && #[trigger] l.meshes@[m].instances@[j] != l.root_node implies keys.contains(
            l.meshes@[m].instances@[j],
        ) by {
            let q = l.meshes@[m].instances@[j];
            assert(l.node_parents@[q as int] == l.node_parents@[q as int]);
        }
        match l.meshes@[m].first_material {
            Some(t) => {
                assert(range_keys(MATERIAL_KEY_BASE as int, l.num_materials as nat)[t as int] == (MATERIAL_KEY_BASE
                    + t) as usize);
            },
            None => {},
        }
    }
}

/// Different keys that have identifiers have different ones, each among
/// those handed out so far.
pub proof fn lemma_ids_distinct(keys: Seq<usize>, a: usize, b: usize)
    requires
        keys.contains(a),
        keys.contains(b),
        a != b,
    ensures
        id_of(keys, a) != id_of(keys, b),
        FIRST_FBX_ID <= id_of(keys, a) < FIRST_FBX_ID + keys.len(),
{
    lemma_position(keys, a);
    lemma_position(keys, b);
}

/// A connection record `C: "OO", child, parent`.
pub open spec fn is_link(c: FbxNode, p: (int, int)) -> bool {
    &&& c.name@ == "C"@
    &&& c.values@.len() == 3
    &&& c.values@[0]@ == ValueModel::Str("OO"@)
    &&& c.values@[1]@ == ValueModel::Int64(p.0 as i64)
    &&& c.values@[2]@ == ValueModel::Int64(p.1 as i64)
    &&& c.array is None
    &&& c.children@.len() == 0
}

/// The connection record of `child` to `parent`.
fn link_node(child: u64, parent: u64) -> (r: FbxNode)
    requires
        child <= i64::MAX,
        parent <= i64::MAX,
    ensures
        is_link(r, (child as int, parent as int)),
{
    let mut c = FbxNode::new(string_of("C"));
    c.values.push(Value::String(FbxString::new("OO")));
    c.values.push(Value::Int64(child as i64));
    c.values.push(Value::Int64(parent as i64));
    c
}

/// Appending to known keys keeps the position of each key already known,
/// and a new key takes the next position.
pub proof fn lemma_position_push(s: Seq<usize>, x: usize, k: usize)
    ensures
        s.contains(k) ==> position(s.push(x), k) == position(s, k),
        !s.contains(x) ==> position(s.push(x), x) == s.len(),
{
    assert(s.push(x).drop_last() =~= s);
    lemma_position(s, k);
    lemma_position(s, x);
}

/// Serializes a scene's structure into the records of an FBX document: it
/// hands out one identifier per element key, in the order the keys are
/// first asked for, and writes the connections between them.
pub struct SceneSerializer {
    opts: SaveOpts,
    next_fbx_id: u64,
    element_to_fbx_id: HashMap<usize, u64>,
    keys_seen: Ghost<Seq<usize>>,
    root_fbx_id: u64,
}

impl SceneSerializer {
    /// The keys that have an identifier, in the order they got it.
    pub closed spec fn keys(&self) -> Seq<usize> {
        self.keys_seen@
    }

    /// The options it saves with.
    pub closed spec fn options(&self) -> SaveOpts {
        self.opts
    }

    /// The identifier the next new key gets follows the ones handed out, and
    /// the map holds exactly the keys seen, each with its identifier.
    pub closed spec fn well_formed(&self) -> bool {
        &&& self.next_fbx_id == FIRST_FBX_ID + self.keys_seen@.len()
        &&& self.keys_seen@.len() <= i64::MAX - FIRST_FBX_ID
        &&& self.root_fbx_id == 0
        &&& forall|k: usize| #[trigger] self.element_to_fbx_id@.contains_key(k) <==> self.keys_seen@.contains(k)
        &&& forall|k: usize|
            self.keys_seen@.contains(k) ==> #[trigger] self.element_to_fbx_id@[k] == id_of(self.keys_seen@, k)
    }

    /// A serializer with no identifiers handed out yet.
    pub fn new(opts: SaveOpts) -> (r: Self)
        ensures
            r.well_formed(),
            r.keys() == Seq::<usize>::empty(),
            r.options() == opts,
    {
        SceneSerializer {
            opts,
            next_fbx_id: FIRST_FBX_ID,
            element_to_fbx_id: HashMap::new(),
            keys_seen: Ghost(Seq::empty()),
            root_fbx_id: 0,
        }
    }

    /// Hands out the next identifier.
    fn allocate_fbx_id(&mut self) -> (r: u64)
        requires
            old(self).next_fbx_id < u64::MAX,
        ensures
            r == old(self).next_fbx_id,
            final(self).next_fbx_id == old(self).next_fbx_id + 1,
            final(self).element_to_fbx_id == old(self).element_to_fbx_id,
            final(self).keys_seen == old(self).keys_seen,
            final(self).root_fbx_id == old(self).root_fbx_id,
            final(self).options() == old(self).options(),
    {
        let id = self.next_fbx_id;
        self.next_fbx_id = self.next_fbx_id + 1;
        id
    }

    /// The identifier of `key`, handed out now if it has none.
    pub fn get_fbx_id(&mut self, key: usize) -> (r: u64)
        requires
            old(self).well_formed(),
            old(self).keys().len() < i64::MAX - FIRST_FBX_ID,
        ensures
            final(self).well_formed(),
            final(self).options() == old(self).options(),
            final(self).keys() == (if old(self).keys().contains(key) {
                old(self).keys()
            } else {
                old(self).keys().push(key)
            }),
            r == id_of(final(self).keys(), key),
    {
        broadcast use vstd::std_specs::hash::group_hash_axioms;

        match self.element_to_fbx_id.get(&key) {
            Some(id) => {
                return *id;
            },
            None => {},
        }
        let ghost old_keys = self.keys_seen@;
        let id = self.allocate_fbx_id();
        self.element_to_fbx_id.insert(key, id);
        self.keys_seen = Ghost(self.keys_seen@.push(key));
        proof {
            lemma_position_push(old_keys, key, key);
            assert forall|k: usize| self.keys_seen@.contains(k) implies #[trigger] self.element_to_fbx_id@[k]
                == id_of(self.keys_seen@, k) by {
                lemma_position_push(old_keys, key, k);
                if k != key {
                    let j = choose|j: int| 0 <= j < self.keys_seen@.len() && self.keys_seen@[j] == k;
                    assert(old_keys[j] == k);
                }
            }
            assert forall|k: usize| #[trigger] self.element_to_fbx_id@.contains_key(k) <==> self.keys_seen@.contains(k) by {
                if k != key && self.keys_seen@.contains(k) {
                    let j = choose|j: int| 0 <= j < self.keys_seen@.len() && self.keys_seen@[j] == k;
                    assert(old_keys[j] == k);
                }
                if old_keys.contains(k) {
                    let j = choose|j: int| 0 <= j < old_keys.len() && old_keys[j] == k;
                    assert(self.keys_seen@[j] == k);
                }
                if k == key {
                    assert(self.keys_seen@[old_keys.len() as int] == key);
                }
            }
        }
        id
    }

    /// The identifier of a key that has one.
    fn lookup(&self, key: usize) -> (r: u64)
        requires
            self.well_formed(),
            self.keys().contains(key),
        ensures
            r == id_of(self.keys(), key),
            r <= i64::MAX,
    {
        broadcast use vstd::std_specs::hash::group_hash_axioms;

        proof {
            lemma_position(self.keys_seen@, key);
        }
        match self.element_to_fbx_id.get(&key) {
            Some(id) => *id,
            None => FIRST_FBX_ID,
        }
    }

    /// The `Connections` record: each node but the root to its parent (0,
    /// the root, where it has none), each mesh to the nodes that instance
    /// it, and the first material of each mesh to the mesh.
    pub fn build_connections(&self, l: &SceneLinks) -> (r: FbxNode)
        requires
            self.well_formed(),
            lookups_present(self.keys(), *l),
        ensures
            r.name@ == "Connections"@,
            r.values@.len() == 0,
            r.array is None,
            r.children@.len() == scene_links(self.keys(), *l).len(),
            forall|k: int|
                0 <= k < r.children@.len() ==> is_link(#[trigger] r.children@[k], scene_links(self.keys(), *l)[k]),
    {
        let ghost keys = self.keys();
        let mut conns = FbxNode::new(string_of("Connections"));
        let ghost mut pre: Seq<(int, int)> = Seq::empty();
        let n = l.node_parents.len();
        let mut idx: usize = 0;
        while idx < n
            invariant
                idx <= n,
                n == l.node_parents@.len(),
                self.well_formed(),
                keys == self.keys(),
                lookups_present(keys, *l),
                conns.name@ == "Connections"@,
                conns.values@.len() == 0,
                conns.array is None,
                pre == node_links(keys, *l, idx as nat),
                conns.children@.len() == pre.len(),
                forall|k: int| 0 <= k < pre.len() ==> is_link(#[trigger] conns.children@[k], pre[k]),
            decreases n - idx,
        {
            if idx != l.root_node {
                let parent_of = l.node_parents[idx];
                let child = self.lookup(idx);
                let parent = match parent_of {
                    Some(p) => if p == l.root_node {
                        self.root_fbx_id
                    } else {
                        self.lookup(p)
                    },
                    None => self.root_fbx_id,
                };
                let c = link_node(child, parent);
                conns.children.push(c);
                proof {
                    pre = pre.push((child as int, parent as int));
                }
            }
            idx = idx + 1;
        }
        let ghost nl = pre;
        let meshes = l.meshes.len();
        let mut m: usize = 0;
        while m < meshes
            invariant
                m <= meshes,
                meshes == l.meshes@.len(),
                n == l.node_parents@.len(),
                self.well_formed(),
                keys == self.keys(),
                lookups_present(keys, *l),
                conns.name@ == "Connections"@,
                conns.values@.len() == 0,
                conns.array is None,
                nl == node_links(keys, *l, n as nat),
                pre == nl + mesh_links(keys, *l, m as nat),
                conns.children@.len() == pre.len(),
                forall|k: int| 0 <= k < pre.len() ==> is_link(#[trigger] conns.children@[k], pre[k]),
            decreases meshes - m,
        {
            proof {
                let mesh = l.meshes@[m as int];
            }
            let mesh_id = self.lookup(MESH_KEY_BASE + m);
            let inst = &l.meshes[m].instances;
            let ghost before = pre;
            let mut j: usize = 0;
            while j < inst.len()
                invariant
                    j <= inst@.len(),
                    m < meshes,
                    meshes == l.meshes@.len(),
                    inst@ == l.meshes@[m as int].instances@,
                    self.well_formed(),
                    keys == self.keys(),
                    lookups_present(keys, *l),
                    mesh_id == id_of(keys, (MESH_KEY_BASE + m) as usize),
                    mesh_id <= i64::MAX,
                    conns.name@ == "Connections"@,
                    conns.values@.len() == 0,
                    conns.array is None,
                    pre == before + instance_links(keys, *l, mesh_id as int, inst@.take(j as int)),
                    conns.children@.len() == pre.len(),
                    forall|k: int| 0 <= k < pre.len() ==> is_link(#[trigger] conns.children@[k], pre[k]),
                decreases inst@.len() - j,
            {
                let node = inst[j];
                proof {
                    assert(inst@.take(j + 1).drop_last() =~= inst@.take(j as int));
                    assert(inst@.take(j + 1).last() == node);
                }
                if node != l.root_node {
                    assert(l.meshes@[m as int].instances@[j as int] == node);
                    let node_id = self.lookup(node);
                    conns.children.push(link_node(mesh_id, node_id));
                    proof {
                        let old_pre = pre;
                        pre = pre.push((mesh_id as int, node_id as int));
                        assert(pre =~= before + instance_links(keys, *l, mesh_id as int, inst@.take(j + 1)));
                    }
                } else {
                    proof {
                        assert(pre =~= before + instance_links(keys, *l, mesh_id as int, inst@.take(j + 1)));
                    }
                }
                j = j + 1;
            }
            proof {
                assert(inst@.take(inst@.len() as int) =~= inst@);
                assert(pre =~= nl + mesh_links(keys, *l, (m + 1) as nat));
            }
            m = m + 1;
        }
        let ghost ml = pre;
        let mut m: usize = 0;
        while m < meshes
            invariant
                m <= meshes,
                meshes == l.meshes@.len(),
                self.well_formed(),
                keys == self.keys(),
                lookups_present(keys, *l),
                conns.name@ == "Connections"@,
                conns.values@.len() == 0,
                conns.array is None,
                ml == node_links(keys, *l, n as nat) + mesh_links(keys, *l, meshes as nat),
                pre == ml + material_links(keys, *l, m as nat),
                conns.children@.len() == pre.len(),
                forall|k: int| 0 <= k < pre.len() ==> is_link(#[trigger] conns.children@[k], pre[k]),
            decreases meshes - m,
        {
            match l.meshes[m].first_material {
                Some(t) => {
                    let mesh_id = self.lookup(MESH_KEY_BASE + m);
                    let material_id = self.lookup(MATERIAL_KEY_BASE + t);
                    conns.children.push(link_node(material_id, mesh_id));
                    proof {
                        pre = pre.push((material_id as int, mesh_id as int));
                        assert(pre =~= ml + material_links(keys, *l, (m + 1) as nat));
                    }
                },
                None => {
                    proof {
                        assert(pre =~= ml + material_links(keys, *l, (m + 1) as nat));
                    }
                },
            }
            m = m + 1;
        }
        proof {
            assert(pre =~= scene_links(keys, *l));
        }
        conns
    }

    /// The `Takes` record, with an empty current take.
    pub fn build_takes(&self) -> (r: FbxNode)
        ensures
            r.name@ == "Takes"@,
            r.values@.len() == 0,
            r.array is None,
            r.children@.len() == 1,
            r.children@[0].name@ == "Current"@,
            r.children@[0].values@.len() == 1,
            r.children@[0].values@[0]@ == ValueModel::Str(""@),
            r.children@[0].array is None,
            r.children@[0].children@.len() == 0,
    {
        let mut takes = FbxNode::new(string_of("Takes"));
        let mut current = FbxNode::new(string_of("Current"));
        current.values.push(Value::String(FbxString::new("")));
        takes.children.push(current);
        takes
    }

    /// Hands out identifiers to the scene's nodes but the root, then to its
    /// meshes, then to its materials.
    pub fn assign_fbx_ids(&mut self, l: &SceneLinks)
        requires
            old(self).well_formed(),
            old(self).keys().len() + l.node_parents@.len() + l.meshes@.len() + l.num_materials < i64::MAX
                - FIRST_FBX_ID,
            l.meshes@.len() <= usize::MAX - MESH_KEY_BASE,
            l.num_materials <= usize::MAX - MATERIAL_KEY_BASE,
        ensures
            final(self).well_formed(),
            final(self).options() == old(self).options(),
            final(self).keys() == seen_after(old(self).keys(), element_keys(*l)),
    {
        let ghost k0 = self.keys();
        let n = l.node_parents.len();
        let mut idx: usize = 0;
        while idx < n
            invariant
                idx <= n,
                n == l.node_parents@.len(),
                self.well_formed(),
                self.options() == old(self).options(),
                k0.len() + l.node_parents@.len() + l.meshes@.len() + l.num_materials < i64::MAX - FIRST_FBX_ID,
                self.keys() == seen_after(k0, node_keys(idx as nat, l.root_node as int)),
            decreases n - idx,
        {
            proof {
                lemma_node_keys_len(idx as nat, l.root_node as int);
                lemma_seen_after(k0, node_keys(idx as nat, l.root_node as int));
                lemma_seen_push(k0, node_keys(idx as nat, l.root_node as int), idx);
            }
            if idx != l.root_node {
                self.get_fbx_id(idx);
            }
            idx = idx + 1;
        }
        let ghost nk = node_keys(n as nat, l.root_node as int);
        proof {
            lemma_node_keys_len(n as nat, l.root_node as int);
        }
        let meshes = l.meshes.len();
        let mut m: usize = 0;
        while m < meshes
            invariant
                m <= meshes,
                meshes == l.meshes@.len(),
                meshes <= usize::MAX - MESH_KEY_BASE,
                nk.len() <= l.node_parents@.len(),
                self.well_formed(),
                self.options() == old(self).options(),
                k0.len() + l.node_parents@.len() + l.meshes@.len() + l.num_materials < i64::MAX - FIRST_FBX_ID,
                self.keys() == seen_after(k0, nk + range_keys(MESH_KEY_BASE as int, m as nat)),
            decreases meshes - m,
        {
            let ghost t = nk + range_keys(MESH_KEY_BASE as int, m as nat);
            proof {
                lemma_seen_after(k0, t);
                lemma_seen_push(k0, t, (MESH_KEY_BASE + m) as usize);
                assert(nk + range_keys(MESH_KEY_BASE as int, (m + 1) as nat) =~= t.push(
                    (MESH_KEY_BASE + m) as usize,
                ));
            }
            self.get_fbx_id(MESH_KEY_BASE + m);
            m = m + 1;
        }
        let ghost mk = nk + range_keys(MESH_KEY_BASE as int, meshes as nat);
        let mut t: usize = 0;
        while t < l.num_materials
            invariant
                t <= l.num_materials,
                l.num_materials <= usize::MAX - MATERIAL_KEY_BASE,
                mk.len() <= l.node_parents@.len() + l.meshes@.len(),
                self.well_formed(),
                self.options() == old(self).options(),
                k0.len() + l.node_parents@.len() + l.meshes@.len() + l.num_materials < i64::MAX - FIRST_FBX_ID,
                self.keys() == seen_after(k0, mk + range_keys(MATERIAL_KEY_BASE as int, t as nat)),
            decreases l.num_materials - t,
        {
            let ghost u = mk + range_keys(MATERIAL_KEY_BASE as int, t as nat);
            proof {
                lemma_seen_after(k0, u);
                lemma_seen_push(k0, u, (MATERIAL_KEY_BASE + t) as usize);
                assert(mk + range_keys(MATERIAL_KEY_BASE as int, (t + 1) as nat) =~= u.push(
                    (MATERIAL_KEY_BASE + t) as usize,
                ));
            }
            self.get_fbx_id(MATERIAL_KEY_BASE + t);
            t = t + 1;
        }
        proof {
            assert(mk + range_keys(MATERIAL_KEY_BASE as int, l.num_materials as nat) =~= element_keys(*l));
        }
    }
}

} // verus!
