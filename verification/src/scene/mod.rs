//! Options that govern how a scene is built from a parsed file.
pub mod elements;
pub mod assembly;
pub mod geometry;
pub mod hierarchy;
pub mod mesh;

use vstd::prelude::*;

verus! {

/// How geometry transforms (offsets of geometry from its node) are kept.
#[derive(Debug, Clone, Copy, PartialEq, Eq, Structural)]
pub enum GeometryTransformHandling {
    /// Keep the geometry transform as separate helper nodes.
    PreserveNodes,
    /// Apply the transform to the geometry's vertices.
    ModifyGeometry,
    /// Keep the transform in place.
    Preserve,
}

/// How non-standard inheritance modes are kept.
#[derive(Debug, Clone, Copy, PartialEq, Eq, Structural)]
pub enum InheritModeHandling {
    /// Use helper nodes for non-standard modes.
    Helper,
    /// Keep the original mode.
    Preserve,
    /// Compensate for the mode in the transforms.
    Compensate,
}

/// How pivot points are kept.
#[derive(Debug, Clone, Copy, PartialEq, Eq, Structural)]
pub enum PivotHandling {
    /// Keep pivot transforms as they are.
    Retain,
    /// Adjust transforms to the pivot points.
    AdjustToPivot,
}

/// Options of scene construction.
#[derive(Debug, Clone, Copy, PartialEq, Eq, Structural)]
pub struct SceneOpts {
    /// How to handle geometry transforms.
    pub geometry_transform_handling: GeometryTransformHandling,
    /// How to handle non-standard inheritance modes.
    pub inherit_mode_handling: InheritModeHandling,
    /// How to handle pivot points.
    pub pivot_handling: PivotHandling,
    /// Generate normals where they are missing.
    pub generate_missing_normals: bool,
    /// Skip animation data.
    pub ignore_animation: bool,
    /// Skip embedded data such as textures.
    pub ignore_embedded: bool,
    /// Fail on any inconsistency.
    pub strict: bool,
}

impl Default for SceneOpts {
    /// Helper nodes for geometry transforms and inheritance, pivots kept,
    /// missing normals generated, nothing skipped, not strict.
    fn default() -> (r: Self)
        ensures
            r == (SceneOpts {
                geometry_transform_handling: GeometryTransformHandling::PreserveNodes,
                inherit_mode_handling: InheritModeHandling::Helper,
                pivot_handling: PivotHandling::Retain,
                generate_missing_normals: true,
                ignore_animation: false,
                ignore_embedded: false,
                strict: false,
            }),
    {
        SceneOpts {
            geometry_transform_handling: GeometryTransformHandling::PreserveNodes,
            inherit_mode_handling: InheritModeHandling::Helper,
            pivot_handling: PivotHandling::Retain,
            generate_missing_normals: true,
            ignore_animation: false,
            ignore_embedded: false,
            strict: false,
        }
    }
}

} // verus!
