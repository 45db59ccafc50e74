//! A scene's records built from its elements and connections: nodes with
//! their hierarchy, meshes, lights, cameras and materials, and what hangs
//! from each node.
use vstd::prelude::*;
use crate::binary::FbxNode;
use crate::error::Error;
use crate::text::{push_str, string_of};
use crate::types::{Connection, ElementType};
use crate::scene::elements::{ElementData, Prop, prop_models};
use crate::scene::geometry::{geometry_error, unknown_error, polygons_read};
use crate::scene::mesh::{MeshRecord, create_mesh, mesh_built, geometry_reads, copy_props};
use crate::scene::hierarchy::{
    NodeRecord, Attached, create_node, ensure_root_node, build_node_hierarchy, attach_attributes,
    node_built, root_built, has_root_element, child_lists, linked, adopted, attached, consistent,
};

verus! {

/// The name of an element type, as in messages.
pub open spec fn element_type_text(t: ElementType) -> Seq<char> {
    match t {
        ElementType::Unknown => seq!['U', 'n', 'k', 'n', 'o', 'w', 'n'],
        ElementType::Node => seq!['N', 'o', 'd', 'e'],
        ElementType::Mesh => seq!['M', 'e', 's', 'h'],
        ElementType::Light => seq!['L', 'i', 'g', 'h', 't'],
        ElementType::Camera => seq!['C', 'a', 'm', 'e', 'r', 'a'],
        ElementType::Bone => seq!['B', 'o', 'n', 'e'],
        ElementType::Empty => seq!['E', 'm', 'p', 't', 'y'],
        ElementType::LineCurve => seq!['L', 'i', 'n', 'e', 'C', 'u', 'r', 'v', 'e'],
        ElementType::NurbsCurve => seq!['N', 'u', 'r', 'b', 's', 'C', 'u', 'r', 'v', 'e'],
        ElementType::NurbsSurface => seq!['N', 'u', 'r', 'b', 's', 'S', 'u', 'r', 'f', 'a', 'c', 'e'],
        ElementType::NurbsTrimSurface => seq!['N', 'u', 'r', 'b', 's', 'T', 'r', 'i', 'm', 'S', 'u', 'r', 'f', 'a', 'c', 'e'],
        ElementType::NurbsTrimBoundary => seq!['N', 'u', 'r', 'b', 's', 'T', 'r', 'i', 'm', 'B', 'o', 'u', 'n', 'd', 'a', 'r', 'y'],
        ElementType::ProceduralGeometry => seq!['P', 'r', 'o', 'c', 'e', 'd', 'u', 'r', 'a', 'l', 'G', 'e', 'o', 'm', 'e', 't', 'r', 'y'],
        ElementType::StereoCamera => seq!['S', 't', 'e', 'r', 'e', 'o', 'C', 'a', 'm', 'e', 'r', 'a'],
        ElementType::CameraSwitcher => seq!['C', 'a', 'm', 'e', 'r', 'a', 'S', 'w', 'i', 't', 'c', 'h', 'e', 'r'],
        ElementType::Marker => seq!['M', 'a', 'r', 'k', 'e', 'r'],
        ElementType::LodGroup => seq!['L', 'o', 'd', 'G', 'r', 'o', 'u', 'p'],
        ElementType::SkinDeformer => seq!['S', 'k', 'i', 'n', 'D', 'e', 'f', 'o', 'r', 'm', 'e', 'r'],
        ElementType::SkinCluster => seq!['S', 'k', 'i', 'n', 'C', 'l', 'u', 's', 't', 'e', 'r'],
        ElementType::BlendDeformer => seq!['B', 'l', 'e', 'n', 'd', 'D', 'e', 'f', 'o', 'r', 'm', 'e', 'r'],
        ElementType::BlendChannel => seq!['B', 'l', 'e', 'n', 'd', 'C', 'h', 'a', 'n', 'n', 'e', 'l'],
        ElementType::BlendShape => seq!['B', 'l', 'e', 'n', 'd', 'S', 'h', 'a', 'p', 'e'],
        ElementType::CacheDeformer => seq!['C', 'a', 'c', 'h', 'e', 'D', 'e', 'f', 'o', 'r', 'm', 'e', 'r'],
        ElementType::CacheFile => seq!['C', 'a', 'c', 'h', 'e', 'F', 'i', 'l', 'e'],
        ElementType::Material => seq!['M', 'a', 't', 'e', 'r', 'i', 'a', 'l'],
        ElementType::Texture => seq!['T', 'e', 'x', 't', 'u', 'r', 'e'],
        ElementType::Video => seq!['V', 'i', 'd', 'e', 'o'],
        ElementType::Shader => seq!['S', 'h', 'a', 'd', 'e', 'r'],
        ElementType::ShaderBinding => seq!['S', 'h', 'a', 'd', 'e', 'r', 'B', 'i', 'n', 'd', 'i', 'n', 'g'],
        ElementType::AnimStack => seq!['A', 'n', 'i', 'm', 'S', 't', 'a', 'c', 'k'],
        ElementType::AnimLayer => seq!['A', 'n', 'i', 'm', 'L', 'a', 'y', 'e', 'r'],
        ElementType::AnimValue => seq!['A', 'n', 'i', 'm', 'V', 'a', 'l', 'u', 'e'],
        ElementType::AnimCurve => seq!['A', 'n', 'i', 'm', 'C', 'u', 'r', 'v', 'e'],
        ElementType::DisplayLayer => seq!['D', 'i', 's', 'p', 'l', 'a', 'y', 'L', 'a', 'y', 'e', 'r'],
        ElementType::SelectionSet => seq!['S', 'e', 'l', 'e', 'c', 't', 'i', 'o', 'n', 'S', 'e', 't'],
        ElementType::SelectionNode => seq!['S', 'e', 'l', 'e', 'c', 't', 'i', 'o', 'n', 'N', 'o', 'd', 'e'],
        ElementType::Character => seq!['C', 'h', 'a', 'r', 'a', 'c', 't', 'e', 'r'],
        ElementType::Constraint => seq!['C', 'o', 'n', 's', 't', 'r', 'a', 'i', 'n', 't'],
        ElementType::AudioLayer => seq!['A', 'u', 'd', 'i', 'o', 'L', 'a', 'y', 'e', 'r'],
        ElementType::AudioClip => seq!['A', 'u', 'd', 'i', 'o', 'C', 'l', 'i', 'p'],
        ElementType::Pose => seq!['P', 'o', 's', 'e'],
        ElementType::MetadataObject => seq!['M', 'e', 't', 'a', 'd', 'a', 't', 'a', 'O', 'b', 'j', 'e', 'c', 't'],
    }
}

/// Appends the name of an element type.
fn push_type_name(out: &mut String, t: ElementType)
    ensures
        final(out)@ == old(out)@ + element_type_text(t),
{
    match t {
        ElementType::Unknown => {
            proof {
                reveal_strlit("Unknown");
            }
            push_str(out, "Unknown");
        },
        ElementType::Node => {
            proof {
                reveal_strlit("Node");
            }
            push_str(out, "Node");
        },
        ElementType::Mesh => {
            proof {
                reveal_strlit("Mesh");
            }
            push_str(out, "Mesh");
        },
        ElementType::Light => {
            proof {
                reveal_strlit("Light");
            }
            push_str(out, "Light");
        },
        ElementType::Camera => {
            proof {
                reveal_strlit("Camera");
            }
            push_str(out, "Camera");
        },
        ElementType::Bone => {
            proof {
                reveal_strlit("Bone");
            }
            push_str(out, "Bone");
        },
        ElementType::Empty => {
            proof {
                reveal_strlit("Empty");
            }
            push_str(out, "Empty");
        },
        ElementType::LineCurve => {
            proof {
                reveal_strlit("LineCurve");
            }
            push_str(out, "LineCurve");
        },
        ElementType::NurbsCurve => {
            proof {
                reveal_strlit("NurbsCurve");
            }
            push_str(out, "NurbsCurve");
        },
        ElementType::NurbsSurface => {
            proof {
                reveal_strlit("NurbsSurface");
            }
            push_str(out, "NurbsSurface");
        },
        ElementType::NurbsTrimSurface => {
            proof {
                reveal_strlit("NurbsTrimSurface");
            }
            push_str(out, "NurbsTrimSurface");
        },
        ElementType::NurbsTrimBoundary => {
            proof {
                reveal_strlit("NurbsTrimBoundary");
            }
            push_str(out, "NurbsTrimBoundary");
        },
        ElementType::ProceduralGeometry => {
            proof {
                reveal_strlit("ProceduralGeometry");
            }
            push_str(out, "ProceduralGeometry");
        },
        ElementType::StereoCamera => {
            proof {
                reveal_strlit("StereoCamera");
            }
            push_str(out, "StereoCamera");
        },
        ElementType::CameraSwitcher => {
            proof {
                reveal_strlit("CameraSwitcher");
            }
            push_str(out, "CameraSwitcher");
        },
        ElementType::Marker => {
            proof {
                reveal_strlit("Marker");
            }
            push_str(out, "Marker");
        },
        ElementType::LodGroup => {
            proof {
                reveal_strlit("LodGroup");
            }
            push_str(out, "LodGroup");
        },
        ElementType::SkinDeformer => {
            proof {
                reveal_strlit("SkinDeformer");
            }
            push_str(out, "SkinDeformer");
        },
        ElementType::SkinCluster => {
            proof {
                reveal_strlit("SkinCluster");
            }
            push_str(out, "SkinCluster");
        },
        ElementType::BlendDeformer => {
            proof {
                reveal_strlit("BlendDeformer");
            }
            push_str(out, "BlendDeformer");
        },
        ElementType::BlendChannel => {
            proof {
                reveal_strlit("BlendChannel");
            }
            push_str(out, "BlendChannel");
        },
        ElementType::BlendShape => {
            proof {
                reveal_strlit("BlendShape");
            }
            push_str(out, "BlendShape");
        },
        ElementType::CacheDeformer => {
            proof {
                reveal_strlit("CacheDeformer");
            }
            push_str(out, "CacheDeformer");
        },
        ElementType::CacheFile => {
            proof {
                reveal_strlit("CacheFile");
            }
            push_str(out, "CacheFile");
        },
        ElementType::Material => {
            proof {
                reveal_strlit("Material");
            }
            push_str(out, "Material");
        },
        ElementType::Texture => {
            proof {
                reveal_strlit("Texture");
            }
            push_str(out, "Texture");
        },
        ElementType::Video => {
            proof {
                reveal_strlit("Video");
            }
            push_str(out, "Video");
        },
        ElementType::Shader => {
            proof {
                reveal_strlit("Shader");
            }
            push_str(out, "Shader");
        },
        ElementType::ShaderBinding => {
            proof {
                reveal_strlit("ShaderBinding");
            }
            push_str(out, "ShaderBinding");
        },
        ElementType::AnimStack => {
            proof {
                reveal_strlit("AnimStack");
            }
            push_str(out, "AnimStack");
        },
        ElementType::AnimLayer => {
            proof {
                reveal_strlit("AnimLayer");
            }
            push_str(out, "AnimLayer");
        },
        ElementType::AnimValue => {
            proof {
                reveal_strlit("AnimValue");
            }
            push_str(out, "AnimValue");
        },
        ElementType::AnimCurve => {
            proof {
                reveal_strlit("AnimCurve");
            }
            push_str(out, "AnimCurve");
        },
        ElementType::DisplayLayer => {
            proof {
                reveal_strlit("DisplayLayer");
            }
            push_str(out, "DisplayLayer");
        },
        ElementType::SelectionSet => {
            proof {
                reveal_strlit("SelectionSet");
            }
            push_str(out, "SelectionSet");
        },
        ElementType::SelectionNode => {
            proof {
                reveal_strlit("SelectionNode");
            }
            push_str(out, "SelectionNode");
        },
        ElementType::Character => {
            proof {
                reveal_strlit("Character");
            }
            push_str(out, "Character");
        },
        ElementType::Constraint => {
            proof {
                reveal_strlit("Constraint");
            }
            push_str(out, "Constraint");
        },
        ElementType::AudioLayer => {
            proof {
                reveal_strlit("AudioLayer");
            }
            push_str(out, "AudioLayer");
        },
        ElementType::AudioClip => {
            proof {
                reveal_strlit("AudioClip");
            }
            push_str(out, "AudioClip");
        },
        ElementType::Pose => {
            proof {
                reveal_strlit("Pose");
            }
            push_str(out, "Pose");
        },
        ElementType::MetadataObject => {
            proof {
                reveal_strlit("MetadataObject");
            }
            push_str(out, "MetadataObject");
        },
    }
}

/// A light, camera or material of a scene, without its float settings.
#[derive(Debug)]
pub struct ElementRecord {
    pub name: String,
    pub props: Vec<Prop>,
    pub element_id: u32,
    pub typed_id: u32,
}

/// Whether `r` is the record built from `data` as number `index` of its kind.
pub open spec fn record_built(r: ElementRecord, data: ElementData, index: u32) -> bool {
    &&& r.name@ == data.name@
    &&& prop_models(r.props@) == prop_models(data.props@)
    &&& r.element_id == index
    &&& r.typed_id == index
}

/// Builds record number `index` of its kind from `data`.
pub fn create_record(data: &ElementData, index: u32) -> (r: ElementRecord)
    ensures
        record_built(r, *data, index),
{
    ElementRecord { name: data.name.clone(), props: copy_props(&data.props), element_id: index, typed_id: index }
}

/// The records of a scene.
#[derive(Debug)]
pub struct SceneRecords {
    pub nodes: Vec<NodeRecord>,
    pub root_node: usize,
    pub node_parents: Vec<Option<usize>>,
    pub node_children: Vec<Vec<usize>>,
    pub node_attached: Vec<Attached>,
    pub meshes: Vec<MeshRecord>,
    pub mesh_instances: Vec<Vec<usize>>,
    pub lights: Vec<ElementRecord>,
    pub light_instances: Vec<Vec<usize>>,
    pub cameras: Vec<ElementRecord>,
    pub camera_instances: Vec<Vec<usize>>,
    pub materials: Vec<ElementRecord>,
}

/// Whether elements of type `t` are turned into records.
pub open spec fn handled(t: ElementType) -> bool {
    t == ElementType::Node || t == ElementType::Mesh || t == ElementType::Light || t == ElementType::Camera
        || t == ElementType::Material
}

/// The children of the node of element `d`.
pub open spec fn element_children(top: Seq<FbxNode>, d: ElementData) -> Seq<FbxNode> {
    top[d.group as int].children@[d.index as int].children@
}

/// Whether element `d` stops the building: a mesh whose geometry does not
/// read, or, when `strict`, an element of a type that has no records.
pub open spec fn element_fails(top: Seq<FbxNode>, d: ElementData, strict: bool) -> bool {
    (d.element_type == ElementType::Mesh && !geometry_reads(element_children(top, d))) || (strict && !handled(
        d.element_type,
    ))
}

/// The error element `d` stops the building with.
pub open spec fn element_error(top: Seq<FbxNode>, d: ElementData, e: Error) -> bool {
    if d.element_type == ElementType::Mesh {
        geometry_error(element_children(top, d), e)
    } else {
        unknown_error(e, "Unknown element type: "@ + element_type_text(d.element_type))
    }
}

/// The places of the elements of type `t` among the first `n`.
pub open spec fn of_type(es: Seq<ElementData>, t: ElementType, n: int) -> Seq<int>
    decreases n,
{
    if n <= 0 {
        Seq::empty()
    } else if es[n - 1].element_type == t {
        of_type(es, t, n - 1).push(n - 1)
    } else {
        of_type(es, t, n - 1)
    }
}

/// The element ids of nodes.
pub open spec fn node_ids(ns: Seq<NodeRecord>) -> Seq<u32> {
    Seq::new(ns.len(), |k: int| ns[k].element_id)
}

/// The element ids of meshes.
pub open spec fn mesh_ids(ms: Seq<MeshRecord>) -> Seq<u32> {
    Seq::new(ms.len(), |k: int| ms[k].element_id)
}

/// The element ids of records.
pub open spec fn record_ids(rs: Seq<ElementRecord>) -> Seq<u32> {
    Seq::new(rs.len(), |k: int| rs[k].element_id)
}

/// Nothing attached.
pub open spec fn nothing_attached() -> Attached {
    Attached { mesh: None, light: None, camera: None, attrib: None, attrib_type: ElementType::Unknown }
}

/// `n` empty lists.
pub open spec fn empty_lists(n: nat) -> Seq<Seq<usize>> {
    Seq::new(n, |k: int| Seq::<usize>::empty())
}

/// Whether `sc` is the scene built from the elements `es` (nodes of `top`)
/// and the connections `conns`: a root node first when no element is the
/// root; then a node, mesh, light, camera or material for each element of
/// that type, in order; the node hierarchy and the attachments set from the
/// connections, starting from nothing.
pub open spec fn scene_built(sc: SceneRecords, top: Seq<FbxNode>, es: Seq<ElementData>, conns: Seq<Connection>) -> bool {
    let extra: int = if has_root_element(es) {
        0
    } else {
        1
    };
    let ns = of_type(es, ElementType::Node, es.len() as int);
    let ms = of_type(es, ElementType::Mesh, es.len() as int);
    let ls = of_type(es, ElementType::Light, es.len() as int);
    let cs = of_type(es, ElementType::Camera, es.len() as int);
    let mats = of_type(es, ElementType::Material, es.len() as int);
    let n = sc.nodes@.len();
    let ids = node_ids(sc.nodes@);
    let l = linked(ids, conns, Seq::new(n, |k: int| None::<usize>), empty_lists(n), conns.len() as int);
    let h = adopted(l.0, l.1, 0, n as int);
    &&& n == extra + ns.len()
    &&& sc.root_node == 0
    &&& extra == 1 ==> root_built(sc.nodes@[0])
    &&& forall|j: int| 0 <= j < ns.len() ==> node_built(#[trigger] sc.nodes@[extra + j], es[ns[j]], (extra + j) as u32)
    &&& sc.meshes@.len() == ms.len()
    &&& forall|j: int| 0 <= j < ms.len() ==> mesh_built(#[trigger] sc.meshes@[j], top, es[ms[j]], j as u32)
    &&& sc.lights@.len() == ls.len()
    &&& forall|j: int| 0 <= j < ls.len() ==> record_built(#[trigger] sc.lights@[j], es[ls[j]], j as u32)
    &&& sc.cameras@.len() == cs.len()
    &&& forall|j: int| 0 <= j < cs.len() ==> record_built(#[trigger] sc.cameras@[j], es[cs[j]], j as u32)
    &&& sc.materials@.len() == mats.len()
    &&& forall|j: int| 0 <= j < mats.len() ==> record_built(#[trigger] sc.materials@[j], es[mats[j]], j as u32)
    &&& n > 0 ==> sc.node_parents@ == h.0 && child_lists(sc.node_children@) == h.1
    &&& n == 0 ==> sc.node_parents@.len() == 0 && sc.node_children@.len() == 0
    &&& (sc.node_attached@, child_lists(sc.mesh_instances@), child_lists(sc.light_instances@), child_lists(
        sc.camera_instances@,
    )) == attached(
        (
            Seq::new(n, |k: int| nothing_attached()),
            empty_lists(sc.meshes@.len()),
            empty_lists(sc.lights@.len()),
            empty_lists(sc.cameras@.len()),
        ),
        conns,
        ids,
        mesh_ids(sc.meshes@),
        record_ids(sc.lights@),
        record_ids(sc.cameras@),
        conns.len() as int,
    )
}

/// Whether every element's node lies in `top`, and every mesh element's
/// polygon list, where it reads, fits 32-bit indices.
pub open spec fn elements_placed(top: Seq<FbxNode>, es: Seq<ElementData>) -> bool {
    forall|k: int|
        0 <= k < es.len() ==> {
            &&& (#[trigger] es[k]).group < top.len()
            &&& es[k].index < top[es[k].group as int].children@.len()
            &&& es[k].element_type == ElementType::Mesh ==> (polygons_read(element_children(top, es[k])) matches Ok(p)
                ==> p.len() <= u32::MAX)
        }
}

/// The records of each kind built so far.
#[derive(Debug)]
pub struct TypedRecords {
    pub meshes: Vec<MeshRecord>,
    pub lights: Vec<ElementRecord>,
    pub cameras: Vec<ElementRecord>,
    pub materials: Vec<ElementRecord>,
}

/// Whether the records built from the first `i` elements are as
/// [`scene_built`] states, `nodes` after the `extra` root.
pub open spec fn typed_so_far(
    nodes: Seq<NodeRecord>,
    t: TypedRecords,
    top: Seq<FbxNode>,
    es: Seq<ElementData>,
    extra: int,
    i: int,
) -> bool {
    let ns = of_type(es, ElementType::Node, i);
    let ms = of_type(es, ElementType::Mesh, i);
    let ls = of_type(es, ElementType::Light, i);
    let cs = of_type(es, ElementType::Camera, i);
    let mats = of_type(es, ElementType::Material, i);
    &&& nodes.len() == extra + ns.len()
    &&& forall|j: int| 0 <= j < ns.len() ==> node_built(#[trigger] nodes[extra + j], es[ns[j]], (extra + j) as u32)
    &&& t.meshes@.len() == ms.len()
    &&& forall|j: int| 0 <= j < ms.len() ==> mesh_built(#[trigger] t.meshes@[j], top, es[ms[j]], j as u32)
    &&& t.lights@.len() == ls.len()
    &&& forall|j: int| 0 <= j < ls.len() ==> record_built(#[trigger] t.lights@[j], es[ls[j]], j as u32)
    &&& t.cameras@.len() == cs.len()
    &&& forall|j: int| 0 <= j < cs.len() ==> record_built(#[trigger] t.cameras@[j], es[cs[j]], j as u32)
    &&& t.materials@.len() == mats.len()
    &&& forall|j: int| 0 <= j < mats.len() ==> record_built(#[trigger] t.materials@[j], es[mats[j]], j as u32)
}

/// The places of elements of one type number at most the elements.
proof fn lemma_of_type_len(es: Seq<ElementData>, t: ElementType, n: int)
    requires
        0 <= n,
    ensures
        of_type(es, t, n).len() <= n,
    decreases n,
{
    if n > 0 {
        lemma_of_type_len(es, t, n - 1);
    }
}

/// Builds a record for each element of a handled type, in order, nodes
/// after those already in `nodes`; stops at the first element that fails.
#[verifier::rlimit(80)]
fn create_typed_elements(
    top: &Vec<FbxNode>,
    elements: &Vec<ElementData>,
    strict: bool,
    nodes: &mut Vec<NodeRecord>,
    Ghost(extra): Ghost<int>,
) -> (r: Result<TypedRecords, Error>)
    requires
        elements_placed(top@, elements@),
        elements@.len() < u32::MAX,
        old(nodes)@.len() == extra,
        extra == 0 || extra == 1,
    ensures
        match r {
            Ok(t) => typed_so_far(final(nodes)@, t, top@, elements@, extra, elements@.len() as int)
                && final(nodes)@.take(extra) == old(nodes)@
                && forall|k: int| 0 <= k < elements@.len() ==> !element_fails(top@, #[trigger] elements@[k], strict),
            Err(e) => exists|k: int|
                0 <= k < elements@.len() && element_fails(top@, #[trigger] elements@[k], strict) && element_error(
                    top@,
                    elements@[k],
                    e,
                ) && forall|j: int| 0 <= j < k ==> !element_fails(top@, #[trigger] elements@[j], strict),
        },
{
    let ghost es = elements@;
    let ghost start = nodes@;
    let mut t = TypedRecords { meshes: Vec::new(), lights: Vec::new(), cameras: Vec::new(), materials: Vec::new() };
    let mut i: usize = 0;
    while i < elements.len()
        invariant
            es == elements@,
            elements_placed(top@, es),
            es.len() < u32::MAX,
            extra == 0 || extra == 1,
            i <= es.len(),
            typed_so_far(nodes@, t, top@, es, extra, i as int),
            nodes@.take(extra) == start,
            start.len() == extra,
            forall|k: int| 0 <= k < i ==> !element_fails(top@, #[trigger] es[k], strict),
        decreases es.len() - i,
    {
        let d = &elements[i];
        proof {
            lemma_of_type_len(es, ElementType::Node, i as int);
            lemma_of_type_len(es, ElementType::Mesh, i as int);
            lemma_of_type_len(es, ElementType::Light, i as int);
            lemma_of_type_len(es, ElementType::Camera, i as int);
            lemma_of_type_len(es, ElementType::Material, i as int);
            assert(es[i as int] == *d);
        }
        let ghost nodes0 = nodes@;
        match d.element_type {
            ElementType::Node => {
                let index = nodes.len() as u32;
                let n = create_node(d, index);
                nodes.push(n);
                proof {
                    assert(nodes@.take(extra) =~= nodes0.take(extra));
                }
            },
            ElementType::Mesh => {
                let index = t.meshes.len() as u32;
                match create_mesh(top, d, index) {
                    Ok(m) => {
                        t.meshes.push(m);
                    },
                    Err(e) => {
                        return Err(e);
                    },
                }
            },
            ElementType::Light => {
                let index = t.lights.len() as u32;
                t.lights.push(create_record(d, index));
            },
            ElementType::Camera => {
                let index = t.cameras.len() as u32;
                t.cameras.push(create_record(d, index));
            },
            ElementType::Material => {
                let index = t.materials.len() as u32;
                t.materials.push(create_record(d, index));
            },
            _ => {
                if strict {
                    let mut text = string_of("Unknown element type: ");
                    push_type_name(&mut text, d.element_type);
                    return Err(Error::unknown(text.as_str()));
                }
            },
        }
        i = i + 1;
    }
    Ok(t)
}

/// `n` nodes without parents.
fn no_parents(n: usize) -> (r: Vec<Option<usize>>)
    ensures
        r@ == Seq::new(n as nat, |k: int| None::<usize>),
{
    let mut v: Vec<Option<usize>> = Vec::new();
    let mut i: usize = 0;
    while i < n
        invariant
            i <= n,
            v@ == Seq::new(i as nat, |k: int| None::<usize>),
        decreases n - i,
    {
        v.push(None);
        i = i + 1;
    }
    v
}

/// `n` empty lists.
fn no_lists(n: usize) -> (r: Vec<Vec<usize>>)
    ensures
        r@.len() == n,
        child_lists(r@) == empty_lists(n as nat),
{
    let mut v: Vec<Vec<usize>> = Vec::new();
    let mut i: usize = 0;
    while i < n
        invariant
            i <= n,
            v@.len() == i,
            forall|k: int| 0 <= k < i ==> (#[trigger] v@[k])@.len() == 0,
        decreases n - i,
    {
        v.push(Vec::new());
        i = i + 1;
    }
    assert forall|k: int| 0 <= k < n implies #[trigger] child_lists(v@)[k] == empty_lists(n as nat)[k] by {
        assert(v@[k]@ =~= Seq::<usize>::empty());
    }
    assert(child_lists(v@) =~= empty_lists(n as nat));
    v
}

/// `n` nodes with nothing attached.
fn no_attachments(n: usize) -> (r: Vec<Attached>)
    ensures
        r@ == Seq::new(n as nat, |k: int| nothing_attached()),
{
    let mut v: Vec<Attached> = Vec::new();
    let mut i: usize = 0;
    while i < n
        invariant
            i <= n,
            v@ == Seq::new(i as nat, |k: int| nothing_attached()),
        decreases n - i,
    {
        v.push(Attached { mesh: None, light: None, camera: None, attrib: None, attrib_type: ElementType::Unknown });
        i = i + 1;
    }
    v
}

/// The element ids of nodes.
fn collect_node_ids(ns: &Vec<NodeRecord>) -> (r: Vec<u32>)
    ensures
        r@ == node_ids(ns@),
{
    let mut v: Vec<u32> = Vec::new();
    let mut i: usize = 0;
    while i < ns.len()
        invariant
            i <= ns@.len(),
            v@ == node_ids(ns@).take(i as int),
        decreases ns@.len() - i,
    {
        v.push(ns[i].element_id);
        i = i + 1;
    }
    assert(v@ =~= node_ids(ns@));
    v
}

/// The element ids of meshes.
fn collect_mesh_ids(ms: &Vec<MeshRecord>) -> (r: Vec<u32>)
    ensures
        r@ == mesh_ids(ms@),
{
    let mut v: Vec<u32> = Vec::new();
    let mut i: usize = 0;
    while i < ms.len()
        invariant
            i <= ms@.len(),
            v@ == mesh_ids(ms@).take(i as int),
        decreases ms@.len() - i,
    {
        v.push(ms[i].element_id);
        i = i + 1;
    }
    assert(v@ =~= mesh_ids(ms@));
    v
}

/// The element ids of records.
fn collect_record_ids(rs: &Vec<ElementRecord>) -> (r: Vec<u32>)
    ensures
        r@ == record_ids(rs@),
{
    let mut v: Vec<u32> = Vec::new();
    let mut i: usize = 0;
    while i < rs.len()
        invariant
            i <= rs@.len(),
            v@ == record_ids(rs@).take(i as int),
        decreases rs@.len() - i,
    {
        v.push(rs[i].element_id);
        i = i + 1;
    }
    assert(v@ =~= record_ids(rs@));
    v
}

/// Builds the records of a scene from its elements (nodes of `top`) and
/// connections, as [`scene_built`] states: a root node when no element is
/// the root, a record for each node, mesh, light, camera and material
/// element in order, the node hierarchy and the attachments. Fails at the
/// first element that fails: a mesh whose geometry does not read, with that
/// error, or, when `strict`, an element of another type, with an unknown
/// error naming its type. Every node but the root ends with a parent, and
/// parents and children agree.
pub fn build_scene_records(
    top: &Vec<FbxNode>,
    elements: &Vec<ElementData>,
    connections: &Vec<Connection>,
    strict: bool,
) -> (r: Result<SceneRecords, Error>)
    requires
        elements_placed(top@, elements@),
        elements@.len() < u32::MAX,
    ensures
        match r {
            Ok(sc) => {
                &&& scene_built(sc, top@, elements@, connections@)
                &&& forall|k: int| 0 <= k < elements@.len() ==> !element_fails(top@, #[trigger] elements@[k], strict)
                &&& forall|k: int| 0 < k < sc.nodes@.len() ==> #[trigger] sc.node_parents@[k] is Some
                &&& consistent(sc.node_parents@, child_lists(sc.node_children@))
            },
            Err(e) => exists|k: int|
                0 <= k < elements@.len() && element_fails(top@, #[trigger] elements@[k], strict) && element_error(
                    top@,
                    elements@[k],
                    e,
                ) && forall|j: int| 0 <= j < k ==> !element_fails(top@, #[trigger] elements@[j], strict),
        },
{
    let mut nodes: Vec<NodeRecord> = Vec::new();
    let added = ensure_root_node(elements, &mut nodes);
    let ghost extra: int = if added is Some {
        1
    } else {
        0
    };
    let ghost with_root = nodes@;
    let typed = create_typed_elements(top, elements, strict, &mut nodes, Ghost(extra))?;
    let n = nodes.len();
    let ids = collect_node_ids(&nodes);
    let mut parents = no_parents(n);
    let mut children = no_lists(n);
    proof {
        assert(consistent(parents@, child_lists(children@)));
    }
    if n > 0 {
        build_node_hierarchy(&ids, &mut parents, &mut children, connections, 0);
    }
    let mesh_id_table = collect_mesh_ids(&typed.meshes);
    let light_id_table = collect_record_ids(&typed.lights);
    let camera_id_table = collect_record_ids(&typed.cameras);
    let mut atts = no_attachments(n);
    let mut mesh_instances = no_lists(typed.meshes.len());
    let mut light_instances = no_lists(typed.lights.len());
    let mut camera_instances = no_lists(typed.cameras.len());
    attach_attributes(
        &ids,
        &mesh_id_table,
        &light_id_table,
        &camera_id_table,
        connections,
        &mut atts,
        &mut mesh_instances,
        &mut light_instances,
        &mut camera_instances,
    );
    proof {
        if extra == 1 {
            assert(nodes@[0] == nodes@.take(1)[0]);
        }
    }
    Ok(SceneRecords {
        nodes,
        root_node: 0,
        node_parents: parents,
        node_children: children,
        node_attached: atts,
        meshes: typed.meshes,
        mesh_instances,
        lights: typed.lights,
        light_instances,
        cameras: typed.cameras,
        camera_instances,
        materials: typed.materials,
    })
}

} // verus!
