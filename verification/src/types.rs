//! Scene data shared by the readers and writers: strings, blobs and the
//! enumerations and index records of the scene graph.
//!
//! Records that carry real-valued geometry live with the code that computes
//! on them; the ones here hold only text, flags and indices.
use vstd::prelude::*;
use crate::text::string_of;

verus! {

/// UTF-8 text read from an FBX file.
#[derive(Debug, Clone)]
pub struct FbxString {
    pub data: String,
}

impl FbxString {
    /// A string holding the text of `s`.
    pub fn new(s: &str) -> (r: Self)
        ensures
            r.data@ == s@,
    {
        FbxString { data: string_of(s) }
    }

    /// Wraps an owned string.
    pub fn from_string(s: String) -> (r: Self)
        ensures
            r.data == s,
    {
        FbxString { data: s }
    }

    /// The text of the string.
    pub fn as_str(&self) -> (r: &str)
        ensures
            r@ == self.data@,
    {
        self.data.as_str()
    }
}

impl<'a> From<&'a str> for FbxString {
    /// A string holding the text of `s`.
    fn from(s: &'a str) -> (r: Self)
        ensures
            r.data@ == s@,
    {
        FbxString::new(s)
    }
}

impl<'a> vstd::std_specs::convert::FromSpecImpl<&'a str> for FbxString {
    open spec fn obeys_from_spec() -> bool {
        false
    }

    open spec fn from_spec(v: &'a str) -> Self {
        vstd::pervasive::arbitrary()
    }
}

impl From<String> for FbxString {
    /// Wraps an owned string.
    fn from(s: String) -> (r: Self)
        ensures
            r.data == s,
    {
        FbxString { data: s }
    }
}

impl vstd::std_specs::convert::FromSpecImpl<String> for FbxString {
    open spec fn obeys_from_spec() -> bool {
        true
    }

    open spec fn from_spec(v: String) -> Self {
        FbxString { data: v }
    }
}

/// Opaque byte buffer.
#[derive(Debug, Clone)]
pub struct Blob {
    pub data: Vec<u8>,
}

impl Blob {
    /// A blob holding `data`.
    pub fn new(data: Vec<u8>) -> (r: Self)
        ensures
            r.data@ == data@,
    {
        Blob { data }
    }

    /// The bytes of the blob.
    pub fn as_slice(&self) -> (r: &[u8])
        ensures
            r@ == self.data@,
    {
        self.data.as_slice()
    }

    /// Number of bytes in the blob.
    pub fn len(&self) -> (r: usize)
        ensures
            r == self.data@.len(),
    {
        self.data.len()
    }

    /// Whether the blob holds no bytes.
    pub fn is_empty(&self) -> (r: bool)
        ensures
            r == (self.data@.len() == 0),
    {
        self.data.len() == 0
    }
}

/// Order in which Euler-angle rotation axes are applied for a transform.
///
/// The order in the name refers to the order of axes *applied*,
/// not the multiplication order: e.g., `XYZ` is `Z*Y*X`.
#[derive(Debug, Clone, Copy, PartialEq, Eq, Structural)]
pub enum RotationOrder {
    XYZ,
    XZY,
    YZX,
    YXZ,
    ZXY,
    ZYX,
    Spheric,
}

/// Property value type.
#[derive(Debug, Clone, Copy, PartialEq, Eq, Structural)]
pub enum PropType {
    Number,
    Vec2,
    Vec3,
    Vec4,
    String,
    Bool,
    Integer,
    Unknown,
}

/// Property flags.
#[derive(Debug, Clone, Copy, PartialEq, Eq, Structural, Default)]
pub struct PropFlags {
    pub animated: bool,
    pub user_defined: bool,
    pub hidden: bool,
    pub lock: bool,
    pub mute: bool,
    pub synthetic: bool,
    pub no_value: bool,
    pub not_found: bool,
    pub connected: bool,
    pub overridden: bool,
}

/// Kind of a scene element.
#[derive(Debug, Clone, Copy, PartialEq, Eq, Structural)]
pub enum ElementType {
    Unknown,
    Node,
    Mesh,
    Light,
    Camera,
    Bone,
    Empty,
    LineCurve,
    NurbsCurve,
    NurbsSurface,
    NurbsTrimSurface,
    NurbsTrimBoundary,
    ProceduralGeometry,
    StereoCamera,
    CameraSwitcher,
    Marker,
    LodGroup,
    SkinDeformer,
    SkinCluster,
    BlendDeformer,
    BlendChannel,
    BlendShape,
    CacheDeformer,
    CacheFile,
    Material,
    Texture,
    Video,
    Shader,
    ShaderBinding,
    AnimStack,
    AnimLayer,
    AnimValue,
    AnimCurve,
    DisplayLayer,
    SelectionSet,
    SelectionNode,
    Character,
    Constraint,
    AudioLayer,
    AudioClip,
    Pose,
    MetadataObject,
}

/// Connection between two elements, by element index.
#[derive(Debug, Clone)]
pub struct Connection {
    pub src: usize,
    pub dst: usize,
    pub src_prop: Option<FbxString>,
    pub dst_prop: Option<FbxString>,
}

/// How hierarchical node transforms are combined.
#[derive(Debug, Clone, Copy, PartialEq, Eq, Structural)]
pub enum InheritMode {
    /// Normal matrix composition: `R*S*r*s`
    Normal,
    /// Ignore parent scale: `R*r*s` (segment scale compensate)
    IgnoreParentScale,
    /// Apply parent scale component-wise: `R*r*S*s`
    ComponentwiseScale,
}

/// Axis used to mirror transformations for handedness conversion.
#[derive(Debug, Clone, Copy, PartialEq, Eq, Structural)]
pub enum MirrorAxis {
    NoMirror,
    X,
    Y,
    Z,
}

/// Mesh edge between two mesh indices.
#[derive(Debug, Clone, Copy, PartialEq, Eq, Structural)]
pub struct Edge {
    pub a: u32,
    pub b: u32,
}

/// Polygonal face: a run of `num_indices` mesh indices from `index_begin`.
#[derive(Debug, Clone, Copy, PartialEq, Eq, Structural)]
pub struct Face {
    pub index_begin: u32,
    pub num_indices: u32,
}

/// Mesh part (subset for material or group).
#[derive(Debug, Clone)]
pub struct MeshPart {
    pub index: u32,
    pub num_faces: usize,
    pub num_triangles: usize,
    pub num_empty_faces: usize,
    pub num_point_faces: usize,
    pub num_line_faces: usize,
    pub face_indices: Vec<u32>,
}

/// Face group.
#[derive(Debug, Clone)]
pub struct FaceGroup {
    pub id: i32,
    pub name: FbxString,
}

/// Subdivision display mode.
#[derive(Debug, Clone, Copy, PartialEq, Eq, Structural)]
pub enum SubdivisionDisplayMode {
    Disabled,
    Hull,
    HullAndSmooth,
    Smooth,
}

/// Subdivision boundary mode.
#[derive(Debug, Clone, Copy, PartialEq, Eq, Structural)]
pub enum SubdivisionBoundary {
    Default,
    Legacy,
    SharpCorners,
    SharpNone,
    SharpBoundary,
    SharpInterior,
}

/// Light source type.
#[derive(Debug, Clone, Copy, PartialEq, Eq, Structural)]
pub enum LightType {
    Point,
    Directional,
    Spot,
    Area,
    Volume,
}

/// Light intensity decay mode.
#[derive(Debug, Clone, Copy, PartialEq, Eq, Structural)]
pub enum LightDecay {
    NoDecay,
    Linear,
    Quadratic,
    Cubic,
}

/// Area light shape.
#[derive(Debug, Clone, Copy, PartialEq, Eq, Structural)]
pub enum LightAreaShape {
    Rectangle,
    Sphere,
}

/// Camera projection mode.
#[derive(Debug, Clone, Copy, PartialEq, Eq, Structural)]
pub enum ProjectionMode {
    Perspective,
    Orthographic,
}

/// Aspect ratio mode.
#[derive(Debug, Clone, Copy, PartialEq, Eq, Structural)]
pub enum AspectMode {
    WindowSize,
    FixedRatio,
    FixedResolution,
    FixedWidth,
    FixedHeight,
}

/// Aperture mode.
#[derive(Debug, Clone, Copy, PartialEq, Eq, Structural)]
pub enum ApertureMode {
    HorizontalAndVertical,
    Horizontal,
    Vertical,
    FocalLength,
}

/// Gate fit mode.
#[derive(Debug, Clone, Copy, PartialEq, Eq, Structural)]
pub enum GateFit {
    NoFit,
    Vertical,
    Horizontal,
    Fill,
    Overscan,
    Stretch,
}

/// Shader type.
#[derive(Debug, Clone, Copy, PartialEq, Eq, Structural)]
pub enum ShaderType {
    Unknown,
    FbxLambert,
    FbxPhong,
    OslStandardSurface,
    ArnoldStandardSurface,
    ThreeDsMaxPhysicalMaterial,
    ThreeDsMaxPbrMetalRough,
    ThreeDsMaxPbrSpecGloss,
    GltfMaterial,
    OpenPbrMaterial,
    ShaderfxGraph,
    BlenderPhong,
    WavefrontMtl,
}

/// Material feature info.
#[derive(Debug, Clone, Copy, PartialEq, Eq, Structural)]
pub struct MaterialFeatureInfo {
    pub enabled: bool,
    pub is_explicit: bool,
}

/// Texture type.
#[derive(Debug, Clone, Copy, PartialEq, Eq, Structural)]
pub enum TextureType {
    File,
    Layered,
    Procedural,
    ShaderTexture,
}

/// Blend mode for layered textures.
#[derive(Debug, Clone, Copy, PartialEq, Eq, Structural)]
pub enum BlendMode {
    Translucent,
    Additive,
    Modulate,
    Modulate2,
    Over,
    Normal,
    Dissolve,
    Darken,
    ColorBurn,
    LinearBurn,
    DarkerColor,
    Lighten,
    Screen,
    ColorDodge,
    LinearDodge,
    LighterColor,
    SoftLight,
    HardLight,
    VividLight,
    LinearLight,
    PinLight,
    HardMix,
    Difference,
    Exclusion,
    Subtract,
    Divide,
    Hue,
    Saturation,
    Color,
    Luminosity,
    Overlay,
    MaxBlendModes,
}

/// Texture wrapping mode.
#[derive(Debug, Clone, Copy, PartialEq, Eq, Structural)]
pub enum WrapMode {
    Repeat,
    Clamp,
}

/// Texture file reference.
#[derive(Debug, Clone)]
pub struct TextureFile {
    pub index: u32,
    pub filename: FbxString,
    pub absolute_filename: FbxString,
    pub relative_filename: FbxString,
    pub raw_filename: Blob,
    pub raw_absolute_filename: Blob,
    pub raw_relative_filename: Blob,
    pub content: Blob,
}

/// Skinning method.
#[derive(Debug, Clone, Copy, PartialEq, Eq, Structural)]
pub enum SkinningMethod {
    Linear,
    Rigid,
    DualQuaternion,
    BlendedDqLinear,
}

/// Animation interpolation mode.
#[derive(Debug, Clone, Copy, PartialEq, Eq, Structural)]
pub enum Interpolation {
    ConstantPrev,
    ConstantNext,
    Linear,
    Cubic,
}

/// Extrapolation mode.
#[derive(Debug, Clone, Copy, PartialEq, Eq, Structural)]
pub enum ExtrapolationMode {
    Constant,
    Repeat,
    Mirror,
    Slope,
    RepeatRelative,
}

/// Extrapolation settings.
#[derive(Debug, Clone, Copy, PartialEq, Eq, Structural)]
pub struct Extrapolation {
    pub mode: ExtrapolationMode,
    pub repeat_count: i32,
}

/// Animated property.
#[derive(Debug, Clone)]
pub struct AnimProp {
    pub element: usize,
    pub prop_name: FbxString,
    pub anim_value: usize,
}

/// Coordinate axis.
#[derive(Debug, Clone, Copy, PartialEq, Eq, Structural)]
pub enum CoordinateAxis {
    PositiveX,
    NegativeX,
    PositiveY,
    NegativeY,
    PositiveZ,
    NegativeZ,
}

impl CoordinateAxis {
    /// Index of the axis: 0 for X, 1 for Y, 2 for Z.
    pub fn to_axis_index(&self) -> (r: usize)
        ensures
            r == (match *self {
                CoordinateAxis::PositiveX | CoordinateAxis::NegativeX => 0usize,
                CoordinateAxis::PositiveY | CoordinateAxis::NegativeY => 1usize,
                CoordinateAxis::PositiveZ | CoordinateAxis::NegativeZ => 2usize,
            }),
    {
        match self {
            CoordinateAxis::PositiveX | CoordinateAxis::NegativeX => 0,
            CoordinateAxis::PositiveY | CoordinateAxis::NegativeY => 1,
            CoordinateAxis::PositiveZ | CoordinateAxis::NegativeZ => 2,
        }
    }

    /// Whether the axis points in the positive direction.
    pub fn is_positive(&self) -> (r: bool)
        ensures
            r == (*self == CoordinateAxis::PositiveX || *self == CoordinateAxis::PositiveY
                || *self == CoordinateAxis::PositiveZ),
    {
        match self {
            CoordinateAxis::PositiveX | CoordinateAxis::PositiveY | CoordinateAxis::PositiveZ => true,
            CoordinateAxis::NegativeX | CoordinateAxis::NegativeY | CoordinateAxis::NegativeZ => false,
        }
    }
}

/// Coordinate axes configuration.
#[derive(Debug, Clone, Copy, PartialEq, Eq, Structural)]
pub struct CoordinateAxes {
    pub right: CoordinateAxis,
    pub up: CoordinateAxis,
    pub front: CoordinateAxis,
}

/// File format of a loaded scene.
#[derive(Debug, Clone, Copy, PartialEq, Eq, Structural)]
pub enum FileFormat {
    Unknown,
    Fbx,
    Obj,
    Mtl,
}

/// Application that exported a file.
#[derive(Debug, Clone, Copy, PartialEq, Eq, Structural)]
pub enum Exporter {
    Unknown,
    FbxSdk,
    Blender,
    MotionBuilder,
    Maya,
    Max,
    Cinema4d,
}

/// Scene metadata.
#[derive(Debug, Clone)]
pub struct Metadata {
    pub version: u32,
    pub file_format: FileFormat,
    pub exporter: Exporter,
    pub exporter_version: u32,
    pub creator: FbxString,
    pub is_big_endian: bool,
    pub filename: FbxString,
    pub relative_root: FbxString,
    pub raw_filename: Blob,
    pub raw_relative_root: Blob,
    pub ascii: bool,
    pub ktime: i64,
    pub original_file_path: FbxString,
}

} // verus!
