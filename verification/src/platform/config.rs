//! Build-time limits and the optional features of the library.
use vstd::prelude::*;

verus! {

/// Number of non-array values kept per node.
pub const MAX_NON_ARRAY_VALUES: usize = 8;

/// Deepest node nesting accepted.
pub const MAX_NODE_DEPTH: usize = 32;

/// Deepest XML nesting accepted.
pub const MAX_XML_DEPTH: usize = 32;

/// Largest amount of data skipped at once.
pub const MAX_SKIP_SIZE: usize = 0x40000000;

/// Number of entries scanned linearly in a map.
pub const MAP_MAX_SCAN: usize = 32;

/// Depth of the fast part of KD trees.
pub const KD_FAST_DEPTH: usize = 6;

/// Number of huge blocks scanned.
pub const HUGE_MAX_SCAN: usize = 16;

/// Bytes looked at to detect a file format.
pub const MIN_FILE_FORMAT_LOOKAHEAD: usize = 32;

/// Bits of the face group hash.
pub const FACE_GROUP_HASH_BITS: usize = 8;

/// Smallest compressed size decompressed on a thread.
pub const MIN_THREADED_DEFLATE_BYTES: usize = 256;

/// Smallest number of ASCII values parsed on a thread.
pub const MIN_THREADED_ASCII_VALUES: usize = 64;

/// Size of the geometry cache buffer.
pub const GEOMETRY_CACHE_BUFFER_SIZE: usize = 512;

/// Highest NURBS order accepted.
pub const MAX_NURBS_ORDER: usize = 128;

/// Bit pattern of the single-precision epsilon, 2^-63.
pub const EPSILON_F32_BITS: u32 = 0x2000_0000;

/// Bit pattern of the double-precision epsilon, 2^-511.
pub const EPSILON_F64_BITS: u64 = 0x2000_0000_0000_0000;

/// Optional features of the library.
#[derive(Debug, Clone, Copy, PartialEq, Eq, Structural)]
pub struct Features {
    pub subdivision: bool,
    pub tessellation: bool,
    pub geometry_cache: bool,
    pub scene_evaluation: bool,
    pub skinning_evaluation: bool,
    pub animation_baking: bool,
    pub triangulation: bool,
    pub index_generation: bool,
    pub format_obj: bool,
    pub error_stack: bool,
}

impl Features {
    /// Every feature but error stacks.
    pub fn full() -> (r: Self)
        ensures
            r == (Features {
                subdivision: true,
                tessellation: true,
                geometry_cache: true,
                scene_evaluation: true,
                skinning_evaluation: true,
                animation_baking: true,
                triangulation: true,
                index_generation: true,
                format_obj: true,
                error_stack: false,
            }),
    {
        Features {
            subdivision: true,
            tessellation: true,
            geometry_cache: true,
            scene_evaluation: true,
            skinning_evaluation: true,
            animation_baking: true,
            triangulation: true,
            index_generation: true,
            format_obj: true,
            error_stack: false,
        }
    }

    /// No features.
    pub fn minimal() -> (r: Self)
        ensures
            r == (Features {
                subdivision: false,
                tessellation: false,
                geometry_cache: false,
                scene_evaluation: false,
                skinning_evaluation: false,
                animation_baking: false,
                triangulation: false,
                index_generation: false,
                format_obj: false,
                error_stack: false,
            }),
    {
        Features {
            subdivision: false,
            tessellation: false,
            geometry_cache: false,
            scene_evaluation: false,
            skinning_evaluation: false,
            animation_baking: false,
            triangulation: false,
            index_generation: false,
            format_obj: false,
            error_stack: false,
        }
    }

    /// Every feature, error stacks included.
    pub fn dev() -> (r: Self)
        ensures
            r == (Features {
                subdivision: true,
                tessellation: true,
                geometry_cache: true,
                scene_evaluation: true,
                skinning_evaluation: true,
                animation_baking: true,
                triangulation: true,
                index_generation: true,
                format_obj: true,
                error_stack: true,
            }),
    {
        Features {
            subdivision: true,
            tessellation: true,
            geometry_cache: true,
            scene_evaluation: true,
            skinning_evaluation: true,
            animation_baking: true,
            triangulation: true,
            index_generation: true,
            format_obj: true,
            error_stack: true,
        }
    }

    /// XML support comes with the geometry cache.
    pub fn xml(&self) -> (r: bool)
        ensures
            r == self.geometry_cache,
    {
        self.geometry_cache
    }

    /// KD trees come with triangulation.
    pub fn kd(&self) -> (r: bool)
        ensures
            r == self.triangulation,
    {
        self.triangulation
    }

    /// Whether some feature is missing.
    pub fn partial(&self) -> (r: bool)
        ensures
            r == !(self.subdivision && self.tessellation && self.geometry_cache
                && self.scene_evaluation && self.skinning_evaluation && self.animation_baking
                && self.triangulation && self.index_generation && self.format_obj),
    {
        !self.subdivision || !self.tessellation || !self.geometry_cache || !self.scene_evaluation
            || !self.skinning_evaluation || !self.animation_baking || !self.triangulation
            || !self.index_generation || !self.xml() || !self.kd() || !self.format_obj
    }
}

/// The threshold for switching to linear scans, unchanged outside regression builds.
pub fn clamp_linear_threshold(v: usize) -> (r: usize)
    ensures
        r == v,
{
    v
}

/// Whether this is a regression build; it is not.
pub fn is_regression() -> (r: bool)
    ensures
        !r,
{
    false
}

} // verus!
