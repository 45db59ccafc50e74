//! The animation evaluators. Evaluating, blending and baking curves is
//! floating-point arithmetic on keyframes; the types that carry those
//! operations are declared here.
use vstd::prelude::*;

verus! {

/// Evaluates animation curves and animated values at a time.
#[derive(Debug, Clone, Copy)]
pub struct AnimationEvaluator;

/// Blends the values of animation layers.
#[derive(Debug, Clone, Copy)]
pub struct LayerBlender;

/// Bakes animation curves to a fixed sample rate.
#[derive(Debug, Clone, Copy)]
pub struct AnimationBaker;

} // verus!
