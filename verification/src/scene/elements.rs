//! The first passes of building a scene: reading the objects of a document
//! as elements with their properties, and the connections between them.
use vstd::prelude::*;
use crate::ascii::chars_of;
use crate::binary::{FbxNode, StoredNumber, Value, ValueModel};
use crate::error::Error;
use crate::obj::lines::{chars_are, string_of_chars};
use crate::scene::geometry::unknown_error;
use crate::types::{Connection, ElementType};

verus! {

/// The kind of element that an object of class `class_name` and sub-type
/// `sub_type` is: every `Model` is a node, every `Geometry` a mesh, and
/// node attributes and deformers go by their sub-type.
pub open spec fn element_type_of(class_name: Seq<char>, sub_type: Seq<char>) -> ElementType {
    if class_name == "Model"@ {
        ElementType::Node
    } else if class_name == "Geometry"@ {
        ElementType::Mesh
    } else if class_name == "NodeAttribute"@ {
        if sub_type == "Light"@ {
            ElementType::Light
        } else if sub_type == "Camera"@ {
            ElementType::Camera
        } else {
            ElementType::Unknown
        }
    } else if class_name == "Material"@ {
        ElementType::Material
    } else if class_name == "Texture"@ {
        ElementType::Texture
    } else if class_name == "Video"@ {
        ElementType::Video
    } else if class_name == "Deformer"@ {
        if sub_type == "Skin"@ {
            ElementType::SkinDeformer
        } else if sub_type == "Cluster"@ {
            ElementType::SkinCluster
        } else if sub_type == "BlendShape"@ {
            ElementType::BlendDeformer
        } else if sub_type == "BlendShapeChannel"@ {
            ElementType::BlendChannel
        } else {
            ElementType::Unknown
        }
    } else if class_name == "AnimationStack"@ {
        ElementType::AnimStack
    } else if class_name == "AnimationLayer"@ {
        ElementType::AnimLayer
    } else if class_name == "AnimationCurveNode"@ {
        ElementType::AnimValue
    } else if class_name == "AnimationCurve"@ {
        ElementType::AnimCurve
    } else {
        ElementType::Unknown
    }
}

/// The FBX class table: each object class names its kind of element,
/// whatever its sub-type; node attributes and deformers go by their
/// sub-type; every other class is unknown.
pub proof fn lemma_element_class_table(class_name: Seq<char>, sub_type: Seq<char>)
    ensures
        element_type_of("Model"@, sub_type) == ElementType::Node,
        element_type_of("Geometry"@, sub_type) == ElementType::Mesh,
        element_type_of("Material"@, sub_type) == ElementType::Material,
        element_type_of("Texture"@, sub_type) == ElementType::Texture,
        element_type_of("Video"@, sub_type) == ElementType::Video,
        element_type_of("AnimationStack"@, sub_type) == ElementType::AnimStack,
        element_type_of("AnimationLayer"@, sub_type) == ElementType::AnimLayer,
        element_type_of("AnimationCurveNode"@, sub_type) == ElementType::AnimValue,
        element_type_of("AnimationCurve"@, sub_type) == ElementType::AnimCurve,
        element_type_of("NodeAttribute"@, "Light"@) == ElementType::Light,
        element_type_of("NodeAttribute"@, "Camera"@) == ElementType::Camera,
        sub_type != "Light"@ && sub_type != "Camera"@ ==> element_type_of("NodeAttribute"@, sub_type)
            == ElementType::Unknown,
        element_type_of("Deformer"@, "Skin"@) == ElementType::SkinDeformer,
        element_type_of("Deformer"@, "Cluster"@) == ElementType::SkinCluster,
        element_type_of("Deformer"@, "BlendShape"@) == ElementType::BlendDeformer,
        element_type_of("Deformer"@, "BlendShapeChannel"@) == ElementType::BlendChannel,
        sub_type != "Skin"@ && sub_type != "Cluster"@ && sub_type != "BlendShape"@ && sub_type
            != "BlendShapeChannel"@ ==> element_type_of("Deformer"@, sub_type) == ElementType::Unknown,
        class_name != "Model"@ && class_name != "Geometry"@ && class_name != "NodeAttribute"@ && class_name
            != "Material"@ && class_name != "Texture"@ && class_name != "Video"@ && class_name != "Deformer"@
            && class_name != "AnimationStack"@ && class_name != "AnimationLayer"@ && class_name
            != "AnimationCurveNode"@ && class_name != "AnimationCurve"@ ==> element_type_of(class_name, sub_type)
            == ElementType::Unknown,
{
    reveal_strlit("Model");
    reveal_strlit("Geometry");
    reveal_strlit("NodeAttribute");
    reveal_strlit("Material");
    reveal_strlit("Texture");
    reveal_strlit("Video");
    reveal_strlit("Deformer");
    reveal_strlit("AnimationStack");
    reveal_strlit("AnimationLayer");
    reveal_strlit("AnimationCurveNode");
    reveal_strlit("AnimationCurve");
    reveal_strlit("Light");
    reveal_strlit("Camera");
    reveal_strlit("Skin");
    reveal_strlit("Cluster");
    reveal_strlit("BlendShape");
    reveal_strlit("BlendShapeChannel");
    assert("Geometry"@.len() != "Model"@.len());
    assert("NodeAttribute"@.len() != "Model"@.len());
    assert("NodeAttribute"@.len() != "Geometry"@.len());
    assert("Material"@.len() != "Model"@.len());
    assert("Material"@[0] != "Geometry"@[0]);
    assert("Material"@.len() != "NodeAttribute"@.len());
    assert("Texture"@.len() != "Model"@.len());
    assert("Texture"@.len() != "Geometry"@.len());
    assert("Texture"@.len() != "NodeAttribute"@.len());
    assert("Texture"@.len() != "Material"@.len());
    assert("Video"@[0] != "Model"@[0]);
    assert("Video"@.len() != "Geometry"@.len());
    assert("Video"@.len() != "NodeAttribute"@.len());
    assert("Video"@.len() != "Material"@.len());
    assert("Video"@.len() != "Texture"@.len());
    assert("Deformer"@.len() != "Model"@.len());
    assert("Deformer"@[0] != "Geometry"@[0]);
    assert("Deformer"@.len() != "NodeAttribute"@.len());
    assert("Deformer"@[0] != "Material"@[0]);
    assert("Deformer"@.len() != "Texture"@.len());
    assert("Deformer"@.len() != "Video"@.len());
    assert("AnimationStack"@.len() != "Model"@.len());
    assert("AnimationStack"@.len() != "Geometry"@.len());
    assert("AnimationStack"@.len() != "NodeAttribute"@.len());
    assert("AnimationStack"@.len() != "Material"@.len());
    assert("AnimationStack"@.len() != "Texture"@.len());
    assert("AnimationStack"@.len() != "Video"@.len());
    assert("AnimationStack"@.len() != "Deformer"@.len());
    assert("AnimationLayer"@.len() != "Model"@.len());
    assert("AnimationLayer"@.len() != "Geometry"@.len());
    assert("AnimationLayer"@.len() != "NodeAttribute"@.len());
    assert("AnimationLayer"@.len() != "Material"@.len());
    assert("AnimationLayer"@.len() != "Texture"@.len());
    assert("AnimationLayer"@.len() != "Video"@.len());
    assert("AnimationLayer"@.len() != "Deformer"@.len());
    assert("AnimationLayer"@[9] != "AnimationStack"@[9]);
    assert("AnimationCurveNode"@.len() != "Model"@.len());
    assert("AnimationCurveNode"@.len() != "Geometry"@.len());
    assert("AnimationCurveNode"@.len() != "NodeAttribute"@.len());
    assert("AnimationCurveNode"@.len() != "Material"@.len());
    assert("AnimationCurveNode"@.len() != "Texture"@.len());
    assert("AnimationCurveNode"@.len() != "Video"@.len());
    assert("AnimationCurveNode"@.len() != "Deformer"@.len());
    assert("AnimationCurveNode"@.len() != "AnimationStack"@.len());
    assert("AnimationCurveNode"@.len() != "AnimationLayer"@.len());
    assert("AnimationCurve"@.len() != "Model"@.len());
    assert("AnimationCurve"@.len() != "Geometry"@.len());
    assert("AnimationCurve"@.len() != "NodeAttribute"@.len());
    assert("AnimationCurve"@.len() != "Material"@.len());
    assert("AnimationCurve"@.len() != "Texture"@.len());
    assert("AnimationCurve"@.len() != "Video"@.len());
    assert("AnimationCurve"@.len() != "Deformer"@.len());
    assert("AnimationCurve"@[9] != "AnimationStack"@[9]);
    assert("AnimationCurve"@[9] != "AnimationLayer"@[9]);
    assert("AnimationCurve"@.len() != "AnimationCurveNode"@.len());
    assert("Camera"@.len() != "Light"@.len());
    assert("Cluster"@.len() != "Skin"@.len());
    assert("BlendShape"@.len() != "Skin"@.len());
    assert("BlendShape"@.len() != "Cluster"@.len());
    assert("BlendShapeChannel"@.len() != "Skin"@.len());
    assert("BlendShapeChannel"@.len() != "Cluster"@.len());
    assert("BlendShapeChannel"@.len() != "BlendShape"@.len());
}

/// Whether the text `s` is `lit`.
fn str_is(s: &str, lit: &str) -> (r: bool)
    ensures
        r == (s@ == lit@),
{
    let cs = chars_of(s);
    chars_are(&cs, lit)
}

/// The kind of element that an object of class `class_name` and sub-type
/// `sub_type` is.
pub fn name_to_element_type(class_name: &str, sub_type: &str) -> (r: ElementType)
    ensures
        r == element_type_of(class_name@, sub_type@),
{
    if str_is(class_name, "Model") {
        ElementType::Node
    } else if str_is(class_name, "Geometry") {
        ElementType::Mesh
    } else if str_is(class_name, "NodeAttribute") {
        if str_is(sub_type, "Light") {
            ElementType::Light
        } else if str_is(sub_type, "Camera") {
            ElementType::Camera
        } else {
            ElementType::Unknown
        }
    } else if str_is(class_name, "Material") {
        ElementType::Material
    } else if str_is(class_name, "Texture") {
        ElementType::Texture
    } else if str_is(class_name, "Video") {
        ElementType::Video
    } else if str_is(class_name, "Deformer") {
        if str_is(sub_type, "Skin") {
            ElementType::SkinDeformer
        } else if str_is(sub_type, "Cluster") {
            ElementType::SkinCluster
        } else if str_is(sub_type, "BlendShape") {
            ElementType::BlendDeformer
        } else if str_is(sub_type, "BlendShapeChannel") {
            ElementType::BlendChannel
        } else {
            ElementType::Unknown
        }
    } else if str_is(class_name, "AnimationStack") {
        ElementType::AnimStack
    } else if str_is(class_name, "AnimationLayer") {
        ElementType::AnimLayer
    } else if str_is(class_name, "AnimationCurveNode") {
        ElementType::AnimValue
    } else if str_is(class_name, "AnimationCurve") {
        ElementType::AnimCurve
    } else {
        ElementType::Unknown
    }
}

/// Where the first `a` followed by `b` stands in `s`.
pub open spec fn pair_at(s: Seq<char>, a: char, b: char, i: nat) -> Option<nat>
    decreases s.len() - i,
{
    if i + 1 >= s.len() {
        None
    } else if s[i as int] == a && s[i + 1int] == b {
        Some(i)
    } else {
        pair_at(s, a, b, i + 1)
    }
}

/// The name and the type that an object's name text holds: split at the
/// first `\0\x01` of a binary file, else at the first `::` of an ASCII one;
/// without either, all of it is the name.
pub open spec fn object_name_parts(s: Seq<char>) -> (Seq<char>, Seq<char>) {
    match pair_at(s, '\u{0}', '\u{1}', 0) {
        Some(i) => (s.take(i as int), s.skip(i + 2int)),
        None => match pair_at(s, ':', ':', 0) {
            Some(i) => (s.take(i as int), s.skip(i + 2int)),
            None => (s, seq![]),
        },
    }
}

/// Where the first `a` followed by `b` stands in `cs`.
fn find_pair(cs: &Vec<char>, a: char, b: char) -> (r: Option<usize>)
    ensures
        match r {
            Some(i) => pair_at(cs@, a, b, 0) == Some(i as nat),
            None => pair_at(cs@, a, b, 0) is None,
        },
{
    let mut i: usize = 0;
    let n = cs.len();
    while n > 1 && i < n - 1
        invariant
            n == cs@.len(),
            i <= cs@.len(),
            pair_at(cs@, a, b, 0) == pair_at(cs@, a, b, i as nat),
        decreases cs@.len() - i,
    {
        if cs[i] == a && cs[i + 1] == b {
            return Some(i);
        }
        i = i + 1;
    }
    None
}

/// The name and the type that an object's name text holds.
pub fn split_object_name(s: &str) -> (r: (String, String))
    ensures
        (r.0@, r.1@) == object_name_parts(s@),
{
    let cs = chars_of(s);
    let found = match find_pair(&cs, '\u{0}', '\u{1}') {
        Some(i) => Some(i),
        None => find_pair(&cs, ':', ':'),
    };
    match found {
        Some(i) => {
            proof {
                assert(i + 1 < cs@.len()) by {
                    lemma_pair_at(cs@, '\u{0}', '\u{1}', 0);
                    lemma_pair_at(cs@, ':', ':', 0);
                }
            }
            let name = string_of_chars(&crate::obj::lines::copy_chars(&cs, 0, i));
            let n = cs.len();
            let rest = string_of_chars(&crate::obj::lines::copy_chars(&cs, i + 2, n));
            assert(cs@.subrange(0, i as int) =~= cs@.take(i as int));
            assert(cs@.subrange(i + 2, cs@.len() as int) =~= cs@.skip(i + 2));
            (name, rest)
        },
        None => (string_of_chars(&cs), String::new()),
    }
}

/// A pair found stands within the text.
proof fn lemma_pair_at(s: Seq<char>, a: char, b: char, i: nat)
    ensures
        pair_at(s, a, b, i) matches Some(k) ==> i <= k && k + 1 < s.len(),
    decreases s.len() - i,
{
    if i + 1 < s.len() && !(s[i as int] == a && s[i + 1int] == b) {
        lemma_pair_at(s, a, b, i + 1);
    }
}

/// The value of a property, its numbers as stored; a number that is absent
/// or not a number counts as zero.
#[derive(Debug, Clone)]
pub enum PropValue {
    Vec2(Option<StoredNumber>, Option<StoredNumber>),
    Vec3(Option<StoredNumber>, Option<StoredNumber>, Option<StoredNumber>),
    Vec4(Option<StoredNumber>, Option<StoredNumber>, Option<StoredNumber>, Option<StoredNumber>),
    Bool(bool),
    Integer(i64),
    Number(Option<StoredNumber>),
    String(String),
}

/// The value of a [`PropValue`].
pub enum PropValueModel {
    Vec2(Option<StoredNumber>, Option<StoredNumber>),
    Vec3(Option<StoredNumber>, Option<StoredNumber>, Option<StoredNumber>),
    Vec4(Option<StoredNumber>, Option<StoredNumber>, Option<StoredNumber>, Option<StoredNumber>),
    Bool(bool),
    Integer(i64),
    Number(Option<StoredNumber>),
    String(Seq<char>),
}

impl View for PropValue {
    type V = PropValueModel;

    open spec fn view(&self) -> PropValueModel {
        match self {
            PropValue::Vec2(a, b) => PropValueModel::Vec2(*a, *b),
            PropValue::Vec3(a, b, c) => PropValueModel::Vec3(*a, *b, *c),
            PropValue::Vec4(a, b, c, d) => PropValueModel::Vec4(*a, *b, *c, *d),
            PropValue::Bool(b) => PropValueModel::Bool(*b),
            PropValue::Integer(i) => PropValueModel::Integer(*i),
            PropValue::Number(n) => PropValueModel::Number(*n),
            PropValue::String(t) => PropValueModel::String(t@),
        }
    }
}

/// A property of an element.
#[derive(Debug, Clone)]
pub struct Prop {
    pub name: String,
    pub value: PropValue,
    pub flags: crate::types::PropFlags,
}

/// The value of a [`Prop`].
pub struct PropModel {
    pub name: Seq<char>,
    pub value: PropValueModel,
    pub flags: crate::types::PropFlags,
}

impl View for Prop {
    type V = PropModel;

    open spec fn view(&self) -> PropModel {
        PropModel { name: self.name@, value: self.value@, flags: self.flags }
    }
}

/// A collection of properties.
pub struct Props {
    pub props: Vec<Prop>,
}

/// The place of the first property of `ps` named `name`, from `i` on.
pub open spec fn first_prop(ps: Seq<Prop>, name: Seq<char>, i: int) -> Option<int>
    decreases ps.len() - i,
{
    if i < 0 || i >= ps.len() {
        None
    } else if ps[i].name@ == name {
        Some(i)
    } else {
        first_prop(ps, name, i + 1)
    }
}

impl Props {
    /// No properties.
    pub fn new() -> (r: Self)
        ensures
            r.props@.len() == 0,
    {
        Props { props: Vec::new() }
    }

    /// The first property named `name`, if any.
    pub fn find(&self, name: &str) -> (r: Option<&Prop>)
        ensures
            match first_prop(self.props@, name@, 0) {
                Some(k) => r == Some(&self.props@[k]),
                None => r is None,
            },
    {
        let mut i: usize = 0;
        while i < self.props.len()
            invariant
                i <= self.props@.len(),
                first_prop(self.props@, name@, 0) == first_prop(self.props@, name@, i as int),
            decreases self.props@.len() - i,
        {
            if crate::strings::str_equal(self.props[i].name.as_str(), name) {
                return Some(&self.props[i]);
            }
            i = i + 1;
        }
        None
    }
}

/// The values of the properties `ps`.
pub open spec fn prop_models(ps: Seq<Prop>) -> Seq<PropModel> {
    Seq::new(ps.len(), |i: int| ps[i]@)
}

/// Flags with none set.
pub open spec fn no_flags() -> crate::types::PropFlags {
    crate::types::PropFlags {
        animated: false,
        user_defined: false,
        hidden: false,
        lock: false,
        mute: false,
        synthetic: false,
        no_value: false,
        not_found: false,
        connected: false,
        overridden: false,
    }
}

/// The stored number of value `k` of `vs`, if it is a number.
pub open spec fn number_at(vs: Seq<Value>, k: int) -> Option<StoredNumber> {
    if 0 <= k < vs.len() {
        match vs[k]@ {
            ValueModel::Number { f, .. } => Some(f),
            _ => None,
        }
    } else {
        None
    }
}

/// The integer of value `k` of `vs`, or zero.
pub open spec fn integer_at(vs: Seq<Value>, k: int) -> i64 {
    match vs[k]@ {
        ValueModel::Number { i, .. } => i,
        _ => 0,
    }
}

/// The text of value `k` of `vs`, if it is a string.
pub open spec fn text_at(vs: Seq<Value>, k: int) -> Option<Seq<char>> {
    match vs[k]@ {
        ValueModel::Str(t) => Some(t),
        _ => None,
    }
}

/// The type text of a property whose values are `vs`: the second value,
/// or empty when that is no string.
pub open spec fn prop_type(vs: Seq<Value>) -> Seq<char> {
    match text_at(vs, 1) {
        Some(t) => t,
        None => ""@,
    }
}

/// The value of a property node whose values are `vs`: read from the fifth
/// value on as its type asks, zero without a fifth value.
pub open spec fn prop_value(vs: Seq<Value>) -> PropValueModel {
    let t = prop_type(vs);
    if vs.len() < 5 {
        PropValueModel::Integer(0)
    } else if t == "Vector3D"@ || t == "Vector"@ || t == "Lcl Translation"@ || t == "Lcl Rotation"@
        || t == "Lcl Scaling"@ || t == "Color"@ || t == "ColorRGB"@ {
        PropValueModel::Vec3(number_at(vs, 4), number_at(vs, 5), number_at(vs, 6))
    } else if t == "Vector2D"@ {
        PropValueModel::Vec2(number_at(vs, 4), number_at(vs, 5))
    } else if t == "Vector4D"@ || t == "ColorRGBA"@ {
        PropValueModel::Vec4(number_at(vs, 4), number_at(vs, 5), number_at(vs, 6), number_at(vs, 7))
    } else if t == "bool"@ || t == "Bool"@ {
        PropValueModel::Bool(integer_at(vs, 4) != 0)
    } else if t == "int"@ || t == "Integer"@ || t == "enum"@ || t == "Enum"@ {
        PropValueModel::Integer(integer_at(vs, 4))
    } else if t == "double"@ || t == "Double"@ || t == "Number"@ || t == "Float"@ || t == "double2"@
        || t == "double3"@ || t == "double4"@ {
        PropValueModel::Number(number_at(vs, 4))
    } else if t == "KString"@ || t == "String"@ || t == "object"@ || t == "KTime"@ || t == "DateTime"@
        || t == "Compound"@ {
        PropValueModel::String(
            match text_at(vs, 4) {
                Some(x) => x,
                None => ""@,
            },
        )
    } else {
        match vs[4]@ {
            ValueModel::Number { f, .. } => PropValueModel::Number(Some(f)),
            ValueModel::Str(x) => PropValueModel::String(x),
            _ => PropValueModel::Integer(0),
        }
    }
}

/// What a property node whose values are `vs` gives: its name from the
/// first value and its value, or the error.
pub open spec fn prop_read(vs: Seq<Value>) -> Result<PropModel, Seq<char>> {
    if vs.len() < 4 {
        Err("Property node has too few values"@)
    } else {
        match text_at(vs, 0) {
            None => Err("Property name is not a string"@),
            Some(name) => Ok(PropModel { name, value: prop_value(vs), flags: no_flags() }),
        }
    }
}

/// The stored number of value `k` of `vs`, if it is a number.
fn number_of(vs: &Vec<Value>, k: usize) -> (r: Option<StoredNumber>)
    ensures
        r == number_at(vs@, k as int),
{
    if k < vs.len() {
        vs[k].as_stored()
    } else {
        None
    }
}

/// Whether `t` is one of the texts `a`, `b`, `c`, `d`.
fn one_of(t: &str, a: &str, b: &str, c: &str, d: &str) -> (r: bool)
    ensures
        r == (t@ == a@ || t@ == b@ || t@ == c@ || t@ == d@),
{
    str_is(t, a) || str_is(t, b) || str_is(t, c) || str_is(t, d)
}

/// The value of a property node whose values are `vs`.
fn read_prop_value(vs: &Vec<Value>, t: &str) -> (r: PropValue)
    requires
        t@ == prop_type(vs@),
    ensures
        r@ == prop_value(vs@),
{
    if vs.len() < 5 {
        PropValue::Integer(0)
    } else if one_of(t, "Vector3D", "Vector", "Lcl Translation", "Lcl Rotation") || one_of(
        t,
        "Lcl Scaling",
        "Color",
        "ColorRGB",
        "ColorRGB",
    ) {
        PropValue::Vec3(number_of(vs, 4), number_of(vs, 5), number_of(vs, 6))
    } else if str_is(t, "Vector2D") {
        PropValue::Vec2(number_of(vs, 4), number_of(vs, 5))
    } else if str_is(t, "Vector4D") || str_is(t, "ColorRGBA") {
        PropValue::Vec4(number_of(vs, 4), number_of(vs, 5), number_of(vs, 6), number_of(vs, 7))
    } else if str_is(t, "bool") || str_is(t, "Bool") {
        let i = match vs[4].as_i64() {
            Some(i) => i,
            None => 0,
        };
        PropValue::Bool(i != 0)
    } else if one_of(t, "int", "Integer", "enum", "Enum") {
        let i = match vs[4].as_i64() {
            Some(i) => i,
            None => 0,
        };
        PropValue::Integer(i)
    } else if one_of(t, "double", "Double", "Number", "Float") || one_of(
        t,
        "double2",
        "double3",
        "double4",
        "double4",
    ) {
        PropValue::Number(number_of(vs, 4))
    } else if one_of(t, "KString", "String", "object", "KTime") || str_is(t, "DateTime") || str_is(
        t,
        "Compound",
    ) {
        match vs[4].as_string() {
            Some(x) => PropValue::String(crate::text::string_of(x)),
            None => PropValue::String(crate::text::string_of("")),
        }
    } else {
        match vs[4].as_stored() {
            Some(f) => PropValue::Number(Some(f)),
            None => match vs[4].as_string() {
                Some(x) => PropValue::String(crate::text::string_of(x)),
                None => PropValue::Integer(0),
            },
        }
    }
}

/// Reads a property node `P`: its name, and its value as its type asks.
pub fn parse_property_binary(node: &FbxNode) -> (r: Result<Prop, Error>)
    ensures
        match r {
            Ok(p) => prop_read(node.values@) == Ok::<PropModel, Seq<char>>(p@),
            Err(e) => prop_read(node.values@) is Err && unknown_error(e, prop_read(node.values@)->Err_0),
        },
{
    let vs = &node.values;
    if vs.len() < 4 {
        return Err(Error::unknown("Property node has too few values"));
    }
    let name = match vs[0].as_string() {
        Some(s) => crate::text::string_of(s),
        None => {
            return Err(Error::unknown("Property name is not a string"));
        },
    };
    let t: &str = match vs[1].as_string() {
        Some(s) => s,
        None => "",
    };
    let value = read_prop_value(vs, t);
    Ok(Prop {
        name,
        value,
        flags: crate::types::PropFlags {
            animated: false,
            user_defined: false,
            hidden: false,
            lock: false,
            mute: false,
            synthetic: false,
            no_value: false,
            not_found: false,
            connected: false,
            overridden: false,
        },
    })
}

/// The properties that the `P` children among `cs` give, in order, or the
/// first error.
pub open spec fn props_collect(cs: Seq<FbxNode>) -> Result<Seq<PropModel>, Seq<char>>
    decreases cs.len(),
{
    if cs.len() == 0 {
        Ok(seq![])
    } else if cs[0].name@ == "P"@ {
        match prop_read(cs[0].values@) {
            Err(e) => Err(e),
            Ok(p) => match props_collect(cs.drop_first()) {
                Ok(ps) => Ok(seq![p] + ps),
                Err(e) => Err(e),
            },
        }
    } else {
        props_collect(cs.drop_first())
    }
}

/// Index of the first of `s` whose name comes after `name`, from `i` on,
/// or the length.
pub open spec fn first_after(s: Seq<PropModel>, name: Seq<char>, i: nat) -> nat
    decreases s.len() - i,
{
    if i >= s.len() {
        s.len()
    } else if crate::strings::chars_less(name, s[i as int].name) {
        i
    } else {
        first_after(s, name, i + 1)
    }
}

/// `s` with `p` placed after every property whose name does not come after
/// its own.
pub open spec fn insert_by_name(s: Seq<PropModel>, p: PropModel) -> Seq<PropModel> {
    s.insert(first_after(s, p.name, 0) as int, p)
}

/// `s` sorted by name, properties of the same name keeping their order.
pub open spec fn sort_by_name(s: Seq<PropModel>) -> Seq<PropModel>
    decreases s.len(),
{
    if s.len() == 0 {
        s
    } else {
        insert_by_name(sort_by_name(s.drop_last()), s.last())
    }
}

/// The first position is within the sequence.
proof fn lemma_first_after(s: Seq<PropModel>, name: Seq<char>, i: nat)
    requires
        i <= s.len(),
    ensures
        i <= first_after(s, name, i) <= s.len(),
    decreases s.len() - i,
{
    if i < s.len() && !crate::strings::chars_less(name, s[i as int].name) {
        lemma_first_after(s, name, i + 1);
    }
}

/// Whether no name in `s` comes before the name of a property ahead of it.
pub open spec fn names_sorted(s: Seq<PropModel>) -> bool {
    forall|i: int, j: int|
        0 <= i < j < s.len() ==> !crate::strings::chars_less(#[trigger] s[j].name, #[trigger] s[i].name)
}

/// Not coming before is transitive.
proof fn lemma_not_less_trans(a: Seq<char>, b: Seq<char>, c: Seq<char>)
    requires
        !crate::strings::chars_less(b, a),
        !crate::strings::chars_less(c, b),
    ensures
        !crate::strings::chars_less(c, a),
{
    crate::strings::lemma_chars_less_total(a, b);
    crate::strings::lemma_chars_less_total(b, c);
    crate::strings::lemma_chars_less_total(a, c);
    if a != b && b != c {
        crate::strings::lemma_chars_less_trans(a, b, c);
    }
}

/// Where the first name after `name` lies: none before it comes after
/// `name`, and the one there does.
proof fn lemma_first_after_bounds(s: Seq<PropModel>, name: Seq<char>, i: nat)
    requires
        i <= s.len(),
    ensures
        i <= first_after(s, name, i) <= s.len(),
        forall|k: int| i <= k < first_after(s, name, i) ==> !crate::strings::chars_less(name, #[trigger] s[k].name),
        first_after(s, name, i) < s.len() ==> crate::strings::chars_less(name, s[first_after(s, name, i) as int].name),
    decreases s.len() - i,
{
    if i < s.len() && !crate::strings::chars_less(name, s[i as int].name) {
        lemma_first_after_bounds(s, name, i + 1);
    }
}

/// Inserting by name keeps names sorted.
proof fn lemma_insert_sorted(s: Seq<PropModel>, p: PropModel)
    requires
        names_sorted(s),
    ensures
        names_sorted(insert_by_name(s, p)),
        insert_by_name(s, p).to_multiset() == s.to_multiset().insert(p),
{
    let f = first_after(s, p.name, 0);
    lemma_first_after_bounds(s, p.name, 0);
    let r = s.insert(f as int, p);
    vstd::seq_lib::to_multiset_insert(s, f as int, p);
    assert forall|i: int, j: int| 0 <= i < j < r.len() implies !crate::strings::chars_less(
        #[trigger] r[j].name,
        #[trigger] r[i].name,
    ) by {
        if j < f {
            assert(r[i] == s[i] && r[j] == s[j]);
        } else if j == f {
            assert(r[j] == p && r[i] == s[i]);
            assert(!crate::strings::chars_less(p.name, s[i].name));
            crate::strings::lemma_chars_less_total(p.name, s[i].name);
            crate::strings::lemma_chars_less_total(s[i].name, p.name);
        } else if i == f {
            assert(r[i] == p && r[j] == s[j - 1]);
            assert(crate::strings::chars_less(p.name, s[f as int].name));
            if j - 1 > f {
                assert(!crate::strings::chars_less(s[j - 1].name, s[f as int].name));
            }
            crate::strings::lemma_chars_less_total(p.name, s[f as int].name);
            crate::strings::lemma_chars_less_total(s[f as int].name, s[j - 1].name);
            lemma_not_less_trans(p.name, s[f as int].name, s[j - 1].name);
        } else if i < f {
            assert(r[i] == s[i] && r[j] == s[j - 1]);
        } else {
            assert(r[i] == s[i - 1] && r[j] == s[j - 1]);
        }
    }
}

/// Sorting by name orders the properties by name and keeps every one of
/// them.
pub proof fn lemma_sort_by_name(s: Seq<PropModel>)
    ensures
        names_sorted(sort_by_name(s)),
        sort_by_name(s).to_multiset() == s.to_multiset(),
    decreases s.len(),
{
    if s.len() == 0 {
    } else {
        lemma_sort_by_name(s.drop_last());
        lemma_insert_sorted(sort_by_name(s.drop_last()), s.last());
        vstd::seq_lib::to_multiset_build(s.drop_last(), s.last());
        assert(s.drop_last().push(s.last()) =~= s);
    }
}

/// The first of `cs` called `name`.
pub open spec fn first_named(cs: Seq<FbxNode>, name: Seq<char>) -> Option<FbxNode>
    decreases cs.len(),
{
    if cs.len() == 0 {
        None
    } else if cs[0].name@ == name {
        Some(cs[0])
    } else {
        first_named(cs.drop_first(), name)
    }
}

/// The properties of an object node with the children `cs`: those of its
/// first `Properties70` child, sorted by name; none without one.
pub open spec fn properties_read(cs: Seq<FbxNode>) -> Result<Seq<PropModel>, Seq<char>> {
    match first_named(cs, "Properties70"@) {
        None => Ok(seq![]),
        Some(p70) => match props_collect(p70.children@) {
            Ok(ps) => Ok(sort_by_name(ps)),
            Err(e) => Err(e),
        },
    }
}

/// Sorts `ps` by name, properties of the same name keeping their order.
fn sort_props(ps: Vec<Prop>) -> (r: Vec<Prop>)
    ensures
        prop_models(r@) == sort_by_name(prop_models(ps@)),
{
    let ghost src = prop_models(ps@);
    let mut out: Vec<Prop> = Vec::new();
    let mut rest = ps;
    let n = rest.len();
    let mut k: usize = 0;
    assert(src.take(0) =~= Seq::<PropModel>::empty());
    assert(prop_models(out@) =~= sort_by_name(src.take(0)));
    assert(prop_models(rest@) =~= src.skip(0));
    while k < n
        invariant
            k <= n,
            n == src.len(),
            prop_models(rest@) == src.skip(k as int),
            prop_models(out@) == sort_by_name(src.take(k as int)),
        decreases n - k,
    {
        let ghost before = rest@;
        assert(prop_models(before).len() == before.len());
        assert(src.skip(k as int).len() == n - k);
        assert(prop_models(before)[0] == before[0]@);
        assert(src.skip(k as int)[0] == src[k as int]);
        let p = rest.remove(0);
        assert(p@ == src[k as int]);
        assert forall|i: int| 0 <= i < rest@.len() implies prop_models(rest@)[i] == src.skip(k + 1)[i] by {
            assert(rest@[i] == before[i + 1]);
            assert(prop_models(before)[i + 1] == before[i + 1]@);
            assert(src.skip(k as int)[i + 1] == src.skip(k + 1)[i]);
        }
        assert(prop_models(rest@) =~= src.skip(k + 1));
        let ghost sorted = prop_models(out@);
        let mut j: usize = 0;
        proof {
            lemma_first_after(sorted, p@.name, 0);
        }
        while j < out.len() && !crate::strings::str_less(p.name.as_str(), out[j].name.as_str())
            invariant
                j <= out@.len(),
                sorted == prop_models(out@),
                first_after(sorted, p@.name, 0) == first_after(sorted, p@.name, j as nat),
            decreases out@.len() - j,
        {
            j = j + 1;
        }
        let ghost pm = p@;
        out.insert(j, p);
        assert(src.take(k + 1).drop_last() =~= src.take(k as int));
        assert(src.take(k + 1).last() == src[k as int]);
        assert(prop_models(out@) =~= sorted.insert(j as int, pm));
        k = k + 1;
    }
    assert(src.take(k as int) =~= src);
    out
}

/// Reads the `P` children of a `Properties70` node, sorted by name.
pub fn parse_properties70_binary(node: &FbxNode) -> (r: Result<Vec<Prop>, Error>)
    ensures
        match r {
            Ok(ps) => props_collect(node.children@) matches Ok(want) && prop_models(ps@)
                == sort_by_name(want),
            Err(e) => props_collect(node.children@) is Err && unknown_error(
                e,
                props_collect(node.children@)->Err_0,
            ),
        },
{
    let cs = &node.children;
    let mut props: Vec<Prop> = Vec::new();
    let mut k: usize = 0;
    assert(cs@.skip(0) =~= cs@);
    assert(prop_models(props@) + seq![] =~= prop_models(props@));
    while k < cs.len()
        invariant
            k <= cs@.len(),
            cs@ == node.children@,
            props_collect(cs@) == (match props_collect(cs@.skip(k as int)) {
                Ok(rest) => Ok(prop_models(props@) + rest),
                Err(e) => Err::<Seq<PropModel>, Seq<char>>(e),
            }),
        decreases cs@.len() - k,
    {
        let child = &cs[k];
        assert(cs@.skip(k as int)[0] == *child);
        assert(cs@.skip(k as int).drop_first() =~= cs@.skip(k + 1));
        if text_of_is(&child.name, "P") {
            let ghost before = prop_models(props@);
            match parse_property_binary(child) {
                Ok(p) => {
                    let ghost pm = p@;
                    props.push(p);
                    assert(prop_models(props@) =~= before.push(pm));
                    proof {
                        match props_collect(cs@.skip(k + 1)) {
                            Ok(rest) => {
                                assert(before + (seq![pm] + rest) =~= prop_models(props@) + rest);
                            },
                            Err(e) => {},
                        }
                    }
                },
                Err(e) => {
                    return Err(e);
                },
            }
        }
        k = k + 1;
    }
    assert(cs@.skip(k as int) =~= Seq::<FbxNode>::empty());
    assert(prop_models(props@) + seq![] =~= prop_models(props@));
    Ok(sort_props(props))
}

/// Whether the text `s` is `lit`.
fn text_of_is(s: &String, lit: &str) -> (r: bool)
    ensures
        r == (s@ == lit@),
{
    str_is(s.as_str(), lit)
}

/// Reads the properties of an object node: those of its first
/// `Properties70` child, sorted by name.
pub fn read_properties_binary(node: &FbxNode) -> (r: Result<Vec<Prop>, Error>)
    ensures
        match r {
            Ok(ps) => properties_read(node.children@) == Ok::<Seq<PropModel>, Seq<char>>(
                prop_models(ps@),
            ),
            Err(e) => properties_read(node.children@) is Err && unknown_error(
                e,
                properties_read(node.children@)->Err_0,
            ),
        },
{
    let cs = &node.children;
    let mut k: usize = 0;
    assert(cs@.skip(0) =~= cs@);
    while k < cs.len()
        invariant
            k <= cs@.len(),
            cs@ == node.children@,
            first_named(cs@, "Properties70"@) == first_named(cs@.skip(k as int), "Properties70"@),
        decreases cs@.len() - k,
    {
        let child = &cs[k];
        assert(cs@.skip(k as int)[0] == *child);
        assert(cs@.skip(k as int).drop_first() =~= cs@.skip(k + 1));
        if text_of_is(&child.name, "Properties70") {
            return parse_properties70_binary(child);
        }
        k = k + 1;
    }
    assert(cs@.skip(k as int) =~= Seq::<FbxNode>::empty());
    let none: Vec<Prop> = Vec::new();
    assert(prop_models(none@) =~= Seq::<PropModel>::empty());
    Ok(none)
}

/// An object of the document read as an element: its ID, kind, class,
/// sub-type, name and properties, and where its node stands: the index of
/// the top-level node that holds it and its index among that node's
/// children.
#[derive(Debug, Clone)]
pub struct ElementData {
    pub fbx_id: u64,
    pub element_type: ElementType,
    pub class_name: String,
    pub sub_type: String,
    pub name: String,
    pub props: Vec<Prop>,
    pub group: usize,
    pub index: usize,
}

/// The value of an [`ElementData`], without where its node stands.
pub struct ElementModel {
    pub fbx_id: u64,
    pub element_type: ElementType,
    pub class_name: Seq<char>,
    pub sub_type: Seq<char>,
    pub name: Seq<char>,
    pub props: Seq<PropModel>,
}

/// The value of `e`.
pub open spec fn element_model(e: ElementData) -> ElementModel {
    ElementModel {
        fbx_id: e.fbx_id,
        element_type: e.element_type,
        class_name: e.class_name@,
        sub_type: e.sub_type@,
        name: e.name@,
        props: prop_models(e.props@),
    }
}

/// The name and the type that the second value of `vs` holds.
pub open spec fn object_names(vs: Seq<Value>) -> (Seq<char>, Seq<char>) {
    if vs.len() > 1 {
        match text_at(vs, 1) {
            Some(t) => object_name_parts(t),
            None => (seq![], seq![]),
        }
    } else {
        (seq![], seq![])
    }
}

/// The element that the object node `n` gives: its ID from the first
/// value, its name and type from the second, a sub-type from a third that
/// is a string, and its properties; or the error.
pub open spec fn element_read(n: FbxNode) -> Result<ElementModel, Seq<char>> {
    let vs = n.values@;
    if vs.len() == 0 {
        Err("Object node missing FBX ID"@)
    } else {
        match vs[0]@ {
            ValueModel::Number { i, .. } => {
                let (name, sub1) = object_names(vs);
                let sub = if vs.len() > 2 && text_at(vs, 2) is Some {
                    text_at(vs, 2)->0
                } else {
                    sub1
                };
                match properties_read(n.children@) {
                    Err(e) => Err(e),
                    Ok(props) => Ok(
                        ElementModel {
                            fbx_id: i as u64,
                            element_type: element_type_of(n.name@, sub),
                            class_name: n.name@,
                            sub_type: sub,
                            name,
                            props,
                        },
                    ),
                }
            },
            _ => Err("FBX ID is not a number"@),
        }
    }
}

/// Reads an object node as an element.
pub fn create_element_from_binary(node: &FbxNode, group: usize, index: usize) -> (r: Result<
    ElementData,
    Error,
>)
    ensures
        match r {
            Ok(e) => element_read(*node) == Ok::<ElementModel, Seq<char>>(element_model(e))
                && e.group == group && e.index == index,
            Err(e) => element_read(*node) is Err && unknown_error(e, element_read(*node)->Err_0),
        },
{
    let vs = &node.values;
    if vs.len() == 0 {
        return Err(Error::unknown("Object node missing FBX ID"));
    }
    let id: i64 = match vs[0].as_i64() {
        Some(i) => i,
        None => {
            return Err(Error::unknown("FBX ID is not a number"));
        },
    };
    let (name, sub1) = if vs.len() > 1 {
        match vs[1].as_string() {
            Some(t) => split_object_name(t),
            None => (String::new(), String::new()),
        }
    } else {
        (String::new(), String::new())
    };
    let sub_type = if vs.len() > 2 {
        match vs[2].as_string() {
            Some(t) => crate::text::string_of(t),
            None => sub1,
        }
    } else {
        sub1
    };
    let props = read_properties_binary(node)?;
    let element_type = name_to_element_type(node.name.as_str(), sub_type.as_str());
    let class_name = crate::text::string_of(node.name.as_str());
    Ok(ElementData { fbx_id: id as u64, element_type, class_name, sub_type, name, props, group, index })
}

/// A connection as the document states it, by the IDs of its ends.
#[derive(Debug, Clone)]
pub struct TempConnection {
    pub src_fbx_id: u64,
    pub dst_fbx_id: u64,
    pub src_prop: Option<String>,
    pub dst_prop: Option<String>,
}

/// The value of a [`TempConnection`].
pub struct TempConnectionModel {
    pub src_fbx_id: u64,
    pub dst_fbx_id: u64,
    pub src_prop: Option<Seq<char>>,
    pub dst_prop: Option<Seq<char>>,
}

impl View for TempConnection {
    type V = TempConnectionModel;

    open spec fn view(&self) -> TempConnectionModel {
        TempConnectionModel {
            src_fbx_id: self.src_fbx_id,
            dst_fbx_id: self.dst_fbx_id,
            src_prop: self.src_prop.deep_view(),
            dst_prop: self.dst_prop.deep_view(),
        }
    }
}

/// The connection that a `C` node with the values `vs` states: the IDs of
/// its source and destination from the second and third values, and the
/// property names of the fourth and fifth when they are strings.
pub open spec fn connection_read(vs: Seq<Value>) -> Result<TempConnectionModel, Seq<char>> {
    if vs.len() < 3 {
        Err("Connection node has too few properties"@)
    } else {
        match (vs[1]@, vs[2]@) {
            (ValueModel::Number { i: s, .. }, ValueModel::Number { i: d, .. }) => Ok(
                TempConnectionModel {
                    src_fbx_id: s as u64,
                    dst_fbx_id: d as u64,
                    src_prop: if vs.len() > 3 {
                        text_at(vs, 3)
                    } else {
                        None
                    },
                    dst_prop: if vs.len() > 4 {
                        text_at(vs, 4)
                    } else {
                        None
                    },
                },
            ),
            (ValueModel::Number { .. }, _) => Err("Connection destination ID is not a number"@),
            _ => Err("Connection source ID is not a number"@),
        }
    }
}

/// The text of value `k` of `vs`, if it is a string.
fn text_value(vs: &Vec<Value>, k: usize) -> (r: Option<String>)
    requires
        k < vs@.len(),
    ensures
        r.deep_view() == text_at(vs@, k as int),
{
    match vs[k].as_string() {
        Some(t) => Some(crate::text::string_of(t)),
        None => None,
    }
}

/// Reads a connection node `C`.
pub fn parse_connection_binary(node: &FbxNode) -> (r: Result<TempConnection, Error>)
    ensures
        match r {
            Ok(c) => connection_read(node.values@) == Ok::<TempConnectionModel, Seq<char>>(c@),
            Err(e) => connection_read(node.values@) is Err && unknown_error(
                e,
                connection_read(node.values@)->Err_0,
            ),
        },
{
    let vs = &node.values;
    if vs.len() < 3 {
        return Err(Error::unknown("Connection node has too few properties"));
    }
    let src: i64 = match vs[1].as_i64() {
        Some(i) => i,
        None => {
            return Err(Error::unknown("Connection source ID is not a number"));
        },
    };
    let dst: i64 = match vs[2].as_i64() {
        Some(i) => i,
        None => {
            return Err(Error::unknown("Connection destination ID is not a number"));
        },
    };
    let src_prop = if vs.len() > 3 {
        text_value(vs, 3)
    } else {
        None
    };
    let dst_prop = if vs.len() > 4 {
        text_value(vs, 4)
    } else {
        None
    };
    Ok(TempConnection { src_fbx_id: src as u64, dst_fbx_id: dst as u64, src_prop, dst_prop })
}

/// The elements that the object nodes `cs` give, in order, or the first
/// error.
pub open spec fn objects_read(cs: Seq<FbxNode>) -> Result<Seq<ElementModel>, Seq<char>>
    decreases cs.len(),
{
    if cs.len() == 0 {
        Ok(seq![])
    } else {
        match element_read(cs[0]) {
            Err(e) => Err(e),
            Ok(el) => match objects_read(cs.drop_first()) {
                Ok(es) => Ok(seq![el] + es),
                Err(e) => Err(e),
            },
        }
    }
}

/// The connections that the `C` nodes among `cs` state, in order, or the
/// first error.
pub open spec fn connections_read(cs: Seq<FbxNode>) -> Result<Seq<TempConnectionModel>, Seq<char>>
    decreases cs.len(),
{
    if cs.len() == 0 {
        Ok(seq![])
    } else if cs[0].name@ == "C"@ {
        match connection_read(cs[0].values@) {
            Err(e) => Err(e),
            Ok(c) => match connections_read(cs.drop_first()) {
                Ok(rest) => Ok(seq![c] + rest),
                Err(e) => Err(e),
            },
        }
    } else {
        connections_read(cs.drop_first())
    }
}

/// The elements and connections that the top-level nodes `top` give:
/// those of each `Objects` and `Connections` node in turn, or the first
/// error.
pub open spec fn document_read(top: Seq<FbxNode>) -> Result<
    (Seq<ElementModel>, Seq<TempConnectionModel>),
    Seq<char>,
>
    decreases top.len(),
{
    if top.len() == 0 {
        Ok((seq![], seq![]))
    } else {
        let n = top[0];
        let here: Result<(Seq<ElementModel>, Seq<TempConnectionModel>), Seq<char>> = if n.name@
            == "Objects"@ {
            match objects_read(n.children@) {
                Ok(es) => Ok((es, seq![])),
                Err(e) => Err(e),
            }
        } else if n.name@ == "Connections"@ {
            match connections_read(n.children@) {
                Ok(cs) => Ok((seq![], cs)),
                Err(e) => Err(e),
            }
        } else {
            Ok((seq![], seq![]))
        };
        match here {
            Err(e) => Err(e),
            Ok((es, cs)) => match document_read(top.drop_first()) {
                Ok((es2, cs2)) => Ok((es + es2, cs + cs2)),
                Err(e) => Err(e),
            },
        }
    }
}

/// The values of the elements `es`.
pub open spec fn element_models(es: Seq<ElementData>) -> Seq<ElementModel> {
    Seq::new(es.len(), |i: int| element_model(es[i]))
}

/// The values of the connections `cs`.
pub open spec fn temp_models(cs: Seq<TempConnection>) -> Seq<TempConnectionModel> {
    Seq::new(cs.len(), |i: int| cs[i]@)
}

/// Reads the children of an `Objects` node, the top-level node `group`, as
/// elements, appending them to `elements`.
fn process_objects_binary(nodes: &Vec<FbxNode>, group: usize, elements: &mut Vec<ElementData>) -> (r: Result<(), Error>)
    ensures
        match r {
            Ok(_) => objects_read(nodes@) matches Ok(es) && element_models(final(elements)@)
                == element_models(old(elements)@) + es,
            Err(e) => objects_read(nodes@) is Err && unknown_error(e, objects_read(nodes@)->Err_0),
        },
        forall|k: int|
            0 <= k < old(elements)@.len() ==> #[trigger] final(elements)@[k] == old(elements)@[k],
        forall|k: int|
            old(elements)@.len() <= k < final(elements)@.len() ==> (#[trigger] final(elements)@[k]).group
                == group && final(elements)@[k].index < nodes@.len() && element_read(
                nodes@[final(elements)@[k].index as int],
            ) == Ok::<ElementModel, Seq<char>>(element_model(final(elements)@[k])),
{
    let ghost start = element_models(elements@);
    let mut k: usize = 0;
    assert(nodes@.skip(0) =~= nodes@);
    assert(element_models(elements@) =~= start + seq![]);
    while k < nodes.len()
        invariant
            k <= nodes@.len(),
            elements@.len() >= old(elements)@.len(),
            forall|j: int| 0 <= j < old(elements)@.len() ==> #[trigger] elements@[j] == old(elements)@[j],
            forall|j: int|
                old(elements)@.len() <= j < elements@.len() ==> (#[trigger] elements@[j]).group == group
                    && elements@[j].index < nodes@.len() && element_read(nodes@[elements@[j].index as int])
                    == Ok::<ElementModel, Seq<char>>(element_model(elements@[j])),
            start == element_models(old(elements)@),
            objects_read(nodes@) == (match objects_read(nodes@.skip(k as int)) {
                Ok(rest) => Ok(element_models(elements@).skip(start.len() as int) + rest),
                Err(e) => Err::<Seq<ElementModel>, Seq<char>>(e),
            }),
            element_models(elements@).take(start.len() as int) == start,
        decreases nodes@.len() - k,
    {
        let child = &nodes[k];
        assert(nodes@.skip(k as int)[0] == *child);
        assert(nodes@.skip(k as int).drop_first() =~= nodes@.skip(k + 1));
        let ghost before = element_models(elements@);
        match create_element_from_binary(child, group, k) {
            Ok(e) => {
                let ghost em = element_model(e);
                elements.push(e);
                assert(element_models(elements@) =~= before.push(em));
                assert(element_models(elements@).take(start.len() as int) =~= before.take(start.len() as int));
                proof {
                    match objects_read(nodes@.skip(k + 1)) {
                        Ok(rest) => {
                            assert(before.skip(start.len() as int) + (seq![em] + rest) =~= element_models(
                                elements@,
                            ).skip(start.len() as int) + rest);
                        },
                        Err(e) => {},
                    }
                }
            },
            Err(e) => {
                return Err(e);
            },
        }
        k = k + 1;
    }
    assert(nodes@.skip(k as int) =~= Seq::<FbxNode>::empty());
    assert(element_models(elements@) =~= element_models(elements@).take(start.len() as int)
        + element_models(elements@).skip(start.len() as int));
    assert(element_models(elements@).skip(start.len() as int) + seq![] =~= element_models(
        elements@,
    ).skip(start.len() as int));
    Ok(())
}

/// Reads the `C` children of a `Connections` node, appending them to
/// `connections`.
fn process_connections_binary(nodes: &Vec<FbxNode>, connections: &mut Vec<TempConnection>) -> (r: Result<
    (),
    Error,
>)
    ensures
        match r {
            Ok(_) => connections_read(nodes@) matches Ok(cs) && temp_models(final(connections)@)
                == temp_models(old(connections)@) + cs,
            Err(e) => connections_read(nodes@) is Err && unknown_error(
                e,
                connections_read(nodes@)->Err_0,
            ),
        },
{
    let ghost start = temp_models(connections@);
    let mut k: usize = 0;
    assert(nodes@.skip(0) =~= nodes@);
    assert(temp_models(connections@) =~= start + seq![]);
    while k < nodes.len()
        invariant
            k <= nodes@.len(),
            start == temp_models(old(connections)@),
            connections_read(nodes@) == (match connections_read(nodes@.skip(k as int)) {
                Ok(rest) => Ok(temp_models(connections@).skip(start.len() as int) + rest),
                Err(e) => Err::<Seq<TempConnectionModel>, Seq<char>>(e),
            }),
            temp_models(connections@).take(start.len() as int) == start,
            temp_models(connections@).len() >= start.len(),
        decreases nodes@.len() - k,
    {
        let child = &nodes[k];
        assert(nodes@.skip(k as int)[0] == *child);
        assert(nodes@.skip(k as int).drop_first() =~= nodes@.skip(k + 1));
        if text_of_is(&child.name, "C") {
            let ghost before = temp_models(connections@);
            match parse_connection_binary(child) {
                Ok(c) => {
                    let ghost cm = c@;
                    connections.push(c);
                    assert(temp_models(connections@) =~= before.push(cm));
                    assert(temp_models(connections@).take(start.len() as int) =~= before.take(
                        start.len() as int,
                    ));
                    proof {
                        match connections_read(nodes@.skip(k + 1)) {
                            Ok(rest) => {
                                assert(before.skip(start.len() as int) + (seq![cm] + rest)
                                    =~= temp_models(connections@).skip(start.len() as int) + rest);
                            },
                            Err(e) => {},
                        }
                    }
                },
                Err(e) => {
                    return Err(e);
                },
            }
        }
        k = k + 1;
    }
    assert(nodes@.skip(k as int) =~= Seq::<FbxNode>::empty());
    assert(temp_models(connections@) =~= temp_models(connections@).take(start.len() as int)
        + temp_models(connections@).skip(start.len() as int));
    assert(temp_models(connections@).skip(start.len() as int) + seq![] =~= temp_models(
        connections@,
    ).skip(start.len() as int));
    Ok(())
}

/// Reads the top-level nodes of a document: the objects of each `Objects`
/// node as elements and the `C` nodes of each `Connections` node as
/// connections; other nodes are passed over.
pub fn process_binary_nodes(top: &Vec<FbxNode>) -> (r: Result<(Vec<ElementData>, Vec<TempConnection>), Error>)
    ensures
        match r {
            Ok((es, cs)) => {
                &&& document_read(top@) == Ok::<
                    (Seq<ElementModel>, Seq<TempConnectionModel>),
                    Seq<char>,
                >((element_models(es@), temp_models(cs@)))
                &&& forall|k: int|
                    0 <= k < es@.len() ==> (#[trigger] es@[k]).group < top@.len() && es@[k].index
                        < top@[es@[k].group as int].children@.len() && element_read(
                        top@[es@[k].group as int].children@[es@[k].index as int],
                    ) == Ok::<ElementModel, Seq<char>>(element_model(es@[k]))
            },
            Err(e) => document_read(top@) is Err && unknown_error(e, document_read(top@)->Err_0),
        },
{
    let mut elements: Vec<ElementData> = Vec::new();
    let mut connections: Vec<TempConnection> = Vec::new();
    let mut k: usize = 0;
    assert(top@.skip(0) =~= top@);
    assert(element_models(elements@) =~= Seq::<ElementModel>::empty());
    assert(temp_models(connections@) =~= Seq::<TempConnectionModel>::empty());
    while k < top.len()
        invariant
            k <= top@.len(),
            document_read(top@) == (match document_read(top@.skip(k as int)) {
                Ok((es2, cs2)) => Ok(
                    (element_models(elements@) + es2, temp_models(connections@) + cs2),
                ),
                Err(e) => Err::<(Seq<ElementModel>, Seq<TempConnectionModel>), Seq<char>>(e),
            }),
            forall|j: int|
                0 <= j < elements@.len() ==> (#[trigger] elements@[j]).group < top@.len()
                    && elements@[j].index < top@[elements@[j].group as int].children@.len()
                    && element_read(top@[elements@[j].group as int].children@[elements@[j].index as int])
                    == Ok::<ElementModel, Seq<char>>(element_model(elements@[j])),
        decreases top@.len() - k,
    {
        let node = &top[k];
        assert(top@.skip(k as int)[0] == *node);
        assert(top@.skip(k as int).drop_first() =~= top@.skip(k + 1));
        let ghost e0 = element_models(elements@);
        let ghost c0 = temp_models(connections@);
        let ghost old_elements = elements@;
        if text_of_is(&node.name, "Objects") {
            match process_objects_binary(&node.children, k, &mut elements) {
                Ok(()) => {
                    proof {
                        let es = objects_read(node.children@)->Ok_0;
                        match document_read(top@.skip(k + 1)) {
                            Ok((es2, cs2)) => {
                                assert(e0 + (es + es2) =~= element_models(elements@) + es2);
                                assert(c0 + (seq![] + cs2) =~= temp_models(connections@) + cs2);
                            },
                            Err(e) => {},
                        }
                        assert forall|j: int| 0 <= j < elements@.len() implies (#[trigger] elements@[j]).group < top@.len()
                            && elements@[j].index < top@[elements@[j].group as int].children@.len()
                            && element_read(top@[elements@[j].group as int].children@[elements@[j].index as int])
                            == Ok::<ElementModel, Seq<char>>(element_model(elements@[j])) by {
                            if j < old_elements.len() {
                                assert(elements@[j] == old_elements[j]);
                            }
                        }
                    }
                },
                Err(e) => {
                    return Err(e);
                },
            }
        } else if text_of_is(&node.name, "Connections") {
            match process_connections_binary(&node.children, &mut connections) {
                Ok(()) => {
                    proof {
                        let cs = connections_read(node.children@)->Ok_0;
                        match document_read(top@.skip(k + 1)) {
                            Ok((es2, cs2)) => {
                                assert(e0 + (seq![] + es2) =~= element_models(elements@) + es2);
                                assert(c0 + (cs + cs2) =~= temp_models(connections@) + cs2);
                            },
                            Err(e) => {},
                        }
                    }
                },
                Err(e) => {
                    return Err(e);
                },
            }
        } else {
            proof {
                match document_read(top@.skip(k + 1)) {
                    Ok((es2, cs2)) => {
                        assert(e0 + (seq![] + es2) =~= element_models(elements@) + es2);
                        assert(c0 + (seq![] + cs2) =~= temp_models(connections@) + cs2);
                    },
                    Err(e) => {},
                }
            }
        }
        k = k + 1;
    }
    assert(top@.skip(k as int) =~= Seq::<FbxNode>::empty());
    assert(element_models(elements@) + seq![] =~= element_models(elements@));
    assert(temp_models(connections@) + seq![] =~= temp_models(connections@));
    Ok((elements, connections))
}

/// Index of the last of `es` with the ID `id`: an ID names the last element
/// read with it.
pub open spec fn last_with_id(es: Seq<ElementModel>, id: u64) -> Option<nat>
    decreases es.len(),
{
    if es.len() == 0 {
        None
    } else if es.last().fbx_id == id {
        Some((es.len() - 1) as nat)
    } else {
        last_with_id(es.drop_last(), id)
    }
}

/// A connection between two elements, by their indices.
pub struct ConnectionModel {
    pub src: usize,
    pub dst: usize,
    pub src_prop: Option<Seq<char>>,
    pub dst_prop: Option<Seq<char>>,
}

/// The text of an optional string.
pub open spec fn opt_text(s: Option<crate::types::FbxString>) -> Option<Seq<char>> {
    match s {
        Some(t) => Some(t.data@),
        None => None,
    }
}

/// The value of a [`Connection`].
pub open spec fn connection_model(c: Connection) -> ConnectionModel {
    ConnectionModel {
        src: c.src,
        dst: c.dst,
        src_prop: opt_text(c.src_prop),
        dst_prop: opt_text(c.dst_prop),
    }
}

/// The values of the connections `cs`.
pub open spec fn connection_models(cs: Seq<Connection>) -> Seq<ConnectionModel> {
    Seq::new(cs.len(), |i: int| connection_model(cs[i]))
}

/// The connections `cs` between the elements `es`, by element index: a
/// connection with an end that names no element is dropped, or in strict
/// mode is an error.
pub open spec fn resolved(es: Seq<ElementModel>, cs: Seq<TempConnectionModel>, strict: bool) -> Result<
    Seq<ConnectionModel>,
    Seq<char>,
>
    decreases cs.len(),
{
    if cs.len() == 0 {
        Ok(seq![])
    } else {
        let c = cs[0];
        match (last_with_id(es, c.src_fbx_id), last_with_id(es, c.dst_fbx_id)) {
            (Some(s), Some(d)) => match resolved(es, cs.drop_first(), strict) {
                Ok(rest) => Ok(
                    seq![
                        ConnectionModel {
                            src: s as usize,
                            dst: d as usize,
                            src_prop: c.src_prop,
                            dst_prop: c.dst_prop,
                        },
                    ] + rest,
                ),
                Err(e) => Err(e),
            },
            _ => if strict {
                Err("Connection references non-existent element"@)
            } else {
                resolved(es, cs.drop_first(), strict)
            },
        }
    }
}

/// Whether connection `a` comes before `b`: by source, then destination.
pub open spec fn conn_before(a: ConnectionModel, b: ConnectionModel) -> bool {
    a.src < b.src || (a.src == b.src && a.dst < b.dst)
}

/// Index of the first of `s` that comes after `c`, from `i` on.
pub open spec fn first_conn_after(s: Seq<ConnectionModel>, c: ConnectionModel, i: nat) -> nat
    decreases s.len() - i,
{
    if i >= s.len() {
        s.len()
    } else if conn_before(c, s[i as int]) {
        i
    } else {
        first_conn_after(s, c, i + 1)
    }
}

/// `s` sorted by source and destination, equal ones keeping their order.
pub open spec fn sort_connections(s: Seq<ConnectionModel>) -> Seq<ConnectionModel>
    decreases s.len(),
{
    if s.len() == 0 {
        s
    } else {
        let t = sort_connections(s.drop_last());
        t.insert(first_conn_after(t, s.last(), 0) as int, s.last())
    }
}

/// The first position is within the sequence.
proof fn lemma_first_conn_after(s: Seq<ConnectionModel>, c: ConnectionModel, i: nat)
    requires
        i <= s.len(),
    ensures
        i <= first_conn_after(s, c, i) <= s.len(),
    decreases s.len() - i,
{
    if i < s.len() && !conn_before(c, s[i as int]) {
        lemma_first_conn_after(s, c, i + 1);
    }
}

/// Sorts `cs` by source and destination, equal ones keeping their order.
fn sort_connection_list(cs: Vec<Connection>) -> (r: Vec<Connection>)
    ensures
        connection_models(r@) == sort_connections(connection_models(cs@)),
{
    let ghost src = connection_models(cs@);
    let mut out: Vec<Connection> = Vec::new();
    let mut rest = cs;
    let n = rest.len();
    let mut k: usize = 0;
    assert(src.take(0) =~= Seq::<ConnectionModel>::empty());
    assert(connection_models(out@) =~= sort_connections(src.take(0)));
    assert(connection_models(rest@) =~= src.skip(0));
    while k < n
        invariant
            k <= n,
            n == src.len(),
            connection_models(rest@) == src.skip(k as int),
            connection_models(out@) == sort_connections(src.take(k as int)),
        decreases n - k,
    {
        let ghost before = rest@;
        assert(connection_models(before).len() == before.len());
        assert(src.skip(k as int).len() == n - k);
        assert(connection_models(before)[0] == connection_model(before[0]));
        assert(src.skip(k as int)[0] == src[k as int]);
        let c = rest.remove(0);
        assert forall|i: int| 0 <= i < rest@.len() implies connection_models(rest@)[i] == src.skip(k + 1)[i] by {
            assert(rest@[i] == before[i + 1]);
            assert(connection_models(before)[i + 1] == connection_model(before[i + 1]));
            assert(src.skip(k as int)[i + 1] == src.skip(k + 1)[i]);
        }
        assert(connection_models(rest@) =~= src.skip(k + 1));
        let ghost sorted = connection_models(out@);
        let ghost cm = connection_model(c);
        let mut j: usize = 0;
        proof {
            lemma_first_conn_after(sorted, cm, 0);
        }
        while j < out.len() && !(c.src < out[j].src || (c.src == out[j].src && c.dst < out[j].dst))
            invariant
                j <= out@.len(),
                sorted == connection_models(out@),
                cm == connection_model(c),
                first_conn_after(sorted, cm, 0) == first_conn_after(sorted, cm, j as nat),
            decreases out@.len() - j,
        {
            j = j + 1;
        }
        out.insert(j, c);
        assert(src.take(k + 1).drop_last() =~= src.take(k as int));
        assert(src.take(k + 1).last() == src[k as int]);
        assert(connection_models(out@) =~= sorted.insert(j as int, cm));
        k = k + 1;
    }
    assert(src.take(k as int) =~= src);
    out
}

/// Index of the last element with the ID `id`.
fn find_element(es: &Vec<ElementData>, id: u64) -> (r: Option<usize>)
    ensures
        match r {
            Some(i) => last_with_id(element_models(es@), id) == Some(i as nat),
            None => last_with_id(element_models(es@), id) is None,
        },
{
    let ghost ms = element_models(es@);
    let mut k = es.len();
    assert(ms.take(k as int) =~= ms);
    while k > 0
        invariant
            k <= es@.len(),
            ms == element_models(es@),
            last_with_id(ms, id) == last_with_id(ms.take(k as int), id),
        decreases k,
    {
        assert(ms.take(k as int).last() == element_model(es@[k - 1]));
        assert(ms.take(k as int).drop_last() =~= ms.take(k - 1));
        if es[k - 1].fbx_id == id {
            return Some(k - 1);
        }
        k = k - 1;
    }
    None
}

/// The text of an optional property name, as a string of the scene.
fn scene_text(s: &Option<String>) -> (r: Option<crate::types::FbxString>)
    ensures
        opt_text(r) == s.deep_view(),
{
    match s {
        Some(t) => Some(crate::types::FbxString::new(t.as_str())),
        None => None,
    }
}

/// Resolves the connections `conns` between the elements `elements` to
/// element indices, then sorts them by source and destination. A
/// connection with an end that names no element is dropped, or in strict
/// mode fails the whole.
pub fn resolve_connections(elements: &Vec<ElementData>, conns: &Vec<TempConnection>, strict: bool) -> (r:
    Result<Vec<Connection>, Error>)
    ensures
        ({
            let want = resolved(element_models(elements@), temp_models(conns@), strict);
            match r {
                Ok(cs) => want matches Ok(rs) && connection_models(cs@) == sort_connections(rs),
                Err(e) => want is Err && unknown_error(e, want->Err_0),
            }
        }),
{
    let ghost es = element_models(elements@);
    let ghost tm = temp_models(conns@);
    let mut out: Vec<Connection> = Vec::new();
    let mut k: usize = 0;
    assert(tm.skip(0) =~= tm);
    assert(connection_models(out@) + seq![] =~= connection_models(out@));
    while k < conns.len()
        invariant
            k <= conns@.len(),
            es == element_models(elements@),
            tm == temp_models(conns@),
            resolved(es, tm, strict) == (match resolved(es, tm.skip(k as int), strict) {
                Ok(rest) => Ok(connection_models(out@) + rest),
                Err(e) => Err::<Seq<ConnectionModel>, Seq<char>>(e),
            }),
        decreases conns@.len() - k,
    {
        let c = &conns[k];
        assert(tm.skip(k as int)[0] == c@);
        assert(tm.skip(k as int).drop_first() =~= tm.skip(k + 1));
        let src = find_element(elements, c.src_fbx_id);
        let dst = find_element(elements, c.dst_fbx_id);
        match (src, dst) {
            (Some(s), Some(d)) => {
                let ghost before = connection_models(out@);
                let conn = Connection {
                    src: s,
                    dst: d,
                    src_prop: scene_text(&c.src_prop),
                    dst_prop: scene_text(&c.dst_prop),
                };
                let ghost cm = connection_model(conn);
                out.push(conn);
                assert(connection_models(out@) =~= before.push(cm));
                proof {
                    match resolved(es, tm.skip(k + 1), strict) {
                        Ok(rest) => {
                            assert(before + (seq![cm] + rest) =~= connection_models(out@) + rest);
                        },
                        Err(e) => {},
                    }
                }
            },
            _ => {
                if strict {
                    return Err(Error::unknown("Connection references non-existent element"));
                }
            },
        }
        k = k + 1;
    }
    assert(tm.skip(k as int) =~= Seq::<TempConnectionModel>::empty());
    assert(connection_models(out@) + seq![] =~= connection_models(out@));
    Ok(sort_connection_list(out))
}

/// Whether no connection of `s` comes before an earlier one.
pub open spec fn conns_sorted(s: Seq<ConnectionModel>) -> bool {
    forall|i: int, j: int| 0 <= i < j < s.len() ==> !conn_before(#[trigger] s[j], #[trigger] s[i])
}

/// Where a connection is placed: after all that do not come after it,
/// before one that does.
proof fn lemma_first_conn_after_place(s: Seq<ConnectionModel>, c: ConnectionModel, i: nat)
    requires
        i <= s.len(),
    ensures
        forall|k: int| i <= k < first_conn_after(s, c, i) ==> !conn_before(c, #[trigger] s[k]),
        first_conn_after(s, c, i) < s.len() ==> conn_before(c, s[first_conn_after(s, c, i) as int]),
    decreases s.len() - i,
{
    if i < s.len() && !conn_before(c, s[i as int]) {
        lemma_first_conn_after_place(s, c, i + 1);
    }
}

/// Sorting connections orders them by source, then destination.
pub proof fn lemma_sort_connections_sorted(s: Seq<ConnectionModel>)
    ensures
        conns_sorted(sort_connections(s)),
        sort_connections(s).len() == s.len(),
    decreases s.len(),
{
    if s.len() > 0 {
        let t = sort_connections(s.drop_last());
        lemma_sort_connections_sorted(s.drop_last());
        let c = s.last();
        lemma_first_conn_after(t, c, 0);
        lemma_first_conn_after_place(t, c, 0);
        let p = first_conn_after(t, c, 0) as int;
        let r = t.insert(p, c);
        assert forall|i: int, j: int| 0 <= i < j < r.len() implies !conn_before(#[trigger] r[j], #[trigger] r[i]) by {
            if j < p {
                assert(r[i] == t[i] && r[j] == t[j]);
            } else if j == p {
                assert(r[i] == t[i]);
            } else if i < p {
                assert(r[i] == t[i] && r[j] == t[j - 1]);
                if p < t.len() {
                    assert(!conn_before(t[j - 1], t[p]) || j - 1 == p);
                }
                assert(!conn_before(c, t[i]));
            } else if i == p {
                assert(r[j] == t[j - 1]);
                assert(conn_before(c, t[p]));
                assert(!conn_before(t[j - 1], t[p]) || j - 1 == p);
            } else {
                assert(r[i] == t[i - 1] && r[j] == t[j - 1]);
            }
        }
    }
}

/// An ID names an element that has it.
pub proof fn lemma_last_with_id(es: Seq<ElementModel>, id: u64)
    ensures
        last_with_id(es, id) matches Some(i) ==> i < es.len() && es[i as int].fbx_id == id,
    decreases es.len(),
{
    if es.len() > 0 && es.last().fbx_id != id {
        lemma_last_with_id(es.drop_last(), id);
    }
}

/// Every resolved connection joins two elements, and each end is an
/// element with the ID that the connection stated.
pub proof fn lemma_resolved_ends(es: Seq<ElementModel>, cs: Seq<TempConnectionModel>, strict: bool)
    requires
        es.len() <= usize::MAX,
    ensures
        resolved(es, cs, strict) matches Ok(rs) ==> forall|k: int| 0 <= k < rs.len() ==> (#[trigger] rs[k]).src < es.len() && rs[k].dst < es.len(),
    decreases cs.len(),
{
    if cs.len() > 0 {
        lemma_resolved_ends(es, cs.drop_first(), strict);
        lemma_last_with_id(es, cs[0].src_fbx_id);
        lemma_last_with_id(es, cs[0].dst_fbx_id);
        if let Ok(rs) = resolved(es, cs, strict) {
            if let (Some(a), Some(b)) = (last_with_id(es, cs[0].src_fbx_id), last_with_id(es, cs[0].dst_fbx_id)) {
                let rest = resolved(es, cs.drop_first(), strict)->Ok_0;
                assert forall|k: int| 0 <= k < rs.len() implies (#[trigger] rs[k]).src < es.len() && rs[k].dst < es.len() by {
                    if k > 0 {
                        assert(rs[k] == rest[k - 1]);
                    }
                }
            }
        }
    }
}

} // verus!
