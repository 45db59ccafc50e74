//! NURBS curves and surfaces: their topology, and the evaluator whose
//! basis and tessellation arithmetic is floating point.
use vstd::prelude::*;

verus! {

/// Whether a NURBS curve or surface wraps around.
#[derive(Debug, Clone, Copy, PartialEq, Eq, Structural)]
pub enum NurbsTopology {
    /// Open, no wrapping.
    Open,
    /// Periodic.
    Periodic,
    /// Closed: the first control points repeat after the end.
    Closed,
}

/// Evaluates NURBS bases, curves and surfaces with De Boor's algorithm.
#[derive(Debug, Clone, Copy)]
pub struct NurbsEvaluator;

impl NurbsEvaluator {
    /// Highest NURBS order that evaluation supports.
    pub const MAX_ORDER: usize = 4;
}

} // verus!

verus! {

/// Number of subdivisions of a span asked for as `res`: 4 when 0.
pub open spec fn subdivisions(res: nat) -> nat {
    if res > 0 {
        res
    } else {
        4
    }
}

/// Number of spans between `len` span boundaries.
pub open spec fn span_count(len: nat) -> nat {
    if len > 0 {
        (len - 1) as nat
    } else {
        0
    }
}

/// Number of grid indices along an axis of `spans` spans cut in `sub`.
pub open spec fn axis_indices(spans: nat, sub: nat) -> nat {
    (spans + (spans - 1) * (sub - 1)) as nat
}

/// Number of faces along an axis of `spans` spans cut in `sub`.
pub open spec fn axis_faces(spans: nat, sub: nat) -> nat {
    ((spans - 1) * sub) as nat
}

/// The samples along an axis for the first `k` span boundaries: each
/// boundary but the last cut in `sub`, the last once; as (span, split,
/// number of splits).
pub open spec fn axis_samples(spans: nat, sub: nat, k: nat) -> Seq<(usize, usize, usize)>
    decreases k,
{
    if k == 0 {
        seq![]
    } else {
        let span = (k - 1) as nat;
        let splits: nat = if span == spans {
            1
        } else {
            sub
        };
        axis_samples(spans, sub, span) + Seq::new(
            splits,
            |j: int| (span as usize, j as usize, splits as usize),
        )
    }
}

/// The four grid indices of the quad at row `fv` and column `fu` of a grid
/// `iu` indices wide.
pub open spec fn quad_of(iu: nat, fv: nat, fu: nat) -> Seq<u32> {
    seq![
        (fv * iu + fu) as u32,
        (fv * iu + fu + 1) as u32,
        ((fv + 1) * iu + fu + 1) as u32,
        ((fv + 1) * iu + fu) as u32,
    ]
}

/// The indices of the first `n` quads of row `fv`.
pub open spec fn row_quads(iu: nat, fv: nat, n: nat) -> Seq<u32>
    decreases n,
{
    if n == 0 {
        seq![]
    } else {
        row_quads(iu, fv, (n - 1) as nat) + quad_of(iu, fv, (n - 1) as nat)
    }
}

/// The indices of the quads of the first `m` rows of `faces_u` quads.
pub open spec fn grid_quads(iu: nat, faces_u: nat, m: nat) -> Seq<u32>
    decreases m,
{
    if m == 0 {
        seq![]
    } else {
        grid_quads(iu, faces_u, (m - 1) as nat) + row_quads(iu, (m - 1) as nat, faces_u)
    }
}

/// How a NURBS surface is cut into a grid of quads: subdivisions, spans,
/// grid indices and faces along each axis, the samples along each axis, and
/// the quads.
#[derive(Debug)]
pub struct SurfaceGrid {
    pub sub_u: usize,
    pub sub_v: usize,
    pub spans_u: usize,
    pub spans_v: usize,
    pub indices_u: usize,
    pub indices_v: usize,
    pub faces_u: usize,
    pub faces_v: usize,
    pub num_indices: usize,
    pub num_faces: usize,
    /// The samples along U and along V, as (span, split, number of splits).
    pub samples_u: Vec<(usize, usize, usize)>,
    pub samples_v: Vec<(usize, usize, usize)>,
    pub faces: Vec<crate::types::Face>,
    pub vertex_indices: Vec<u32>,
}

/// The error for a surface or curve that cannot be tessellated.
fn bad_nurbs(reason: &str) -> (r: crate::error::Error)
    ensures
        r matches crate::error::Error::BadNurbs { reason: t } && t@ == reason@,
{
    crate::error::Error::BadNurbs { reason: crate::text::string_of(reason) }
}

/// The samples along an axis.
fn samples_along(spans: usize, sub: usize) -> (r: Vec<(usize, usize, usize)>)
    requires
        spans < usize::MAX,
    ensures
        r@ == axis_samples(spans as nat, sub as nat, (spans + 1) as nat),
{
    let mut out: Vec<(usize, usize, usize)> = Vec::new();
    let mut span: usize = 0;
    while span <= spans
        invariant
            span <= spans + 1,
            spans < usize::MAX,
            out@ == axis_samples(spans as nat, sub as nat, span as nat),
        decreases spans + 1 - span,
    {
        let splits: usize = if span == spans {
            1
        } else {
            sub
        };
        let ghost before = out@;
        let mut j: usize = 0;
        while j < splits
            invariant
                j <= splits,
                out@ == before + Seq::new(j as nat, |i: int| (span, i as usize, splits)),
            decreases splits - j,
        {
            out.push((span, j, splits));
            j = j + 1;
            assert(out@ =~= before + Seq::new(j as nat, |i: int| (span, i as usize, splits)));
        }
        span = span + 1;
        assert(out@ =~= axis_samples(spans as nat, sub as nat, span as nat));
    }
    out
}

/// The quads of a grid of `faces_u` by `faces_v` faces, `faces_u + 1`
/// indices wide: four indices each, one after another.
fn grid_indices(faces_u: usize, faces_v: usize) -> (r: (Vec<crate::types::Face>, Vec<u32>))
    requires
        4 * (faces_u + 1) * (faces_v + 1) <= u32::MAX,
    ensures
        r.1@ == grid_quads((faces_u + 1) as nat, faces_u as nat, faces_v as nat),
        r.0@.len() == faces_u * faces_v,
        forall|f: int|
            0 <= f < r.0@.len() ==> #[trigger] r.0@[f] == (crate::types::Face {
                index_begin: (4 * f) as u32,
                num_indices: 4,
            }),
{
    assert(faces_u + 1 <= u32::MAX && faces_v + 1 <= u32::MAX) by (nonlinear_arith)
        requires
            4 * (faces_u + 1) * (faces_v + 1) <= u32::MAX,
    ;
    let iu = faces_u + 1;
    let mut faces: Vec<crate::types::Face> = Vec::new();
    let mut vertex_indices: Vec<u32> = Vec::new();
    let mut fv: usize = 0;
    while fv < faces_v
        invariant
            iu == faces_u + 1,
            4 * (faces_u + 1) * (faces_v + 1) <= u32::MAX,
            fv <= faces_v,
            faces@.len() == fv * faces_u,
            vertex_indices@.len() == 4 * faces@.len(),
            vertex_indices@ == grid_quads(iu as nat, faces_u as nat, fv as nat),
            forall|f: int|
                0 <= f < faces@.len() ==> #[trigger] faces@[f] == (crate::types::Face {
                    index_begin: (4 * f) as u32,
                    num_indices: 4,
                }),
        decreases faces_v - fv,
    {
        let ghost row_start = vertex_indices@;
        let mut fu: usize = 0;
        assert(fv * faces_u + faces_u <= (faces_u + 1) * (faces_v + 1)) by (nonlinear_arith)
            requires
                fv < faces_v,
        ;
        while fu < faces_u
            invariant
                iu == faces_u + 1,
                4 * (faces_u + 1) * (faces_v + 1) <= u32::MAX,
                fv < faces_v,
                fu <= faces_u,
                faces@.len() == fv * faces_u + fu,
                fv * faces_u + faces_u <= (faces_u + 1) * (faces_v + 1),
                vertex_indices@.len() == 4 * faces@.len(),
                vertex_indices@ == row_start + row_quads(iu as nat, fv as nat, fu as nat),
                forall|f: int|
                    0 <= f < faces@.len() ==> #[trigger] faces@[f] == (crate::types::Face {
                        index_begin: (4 * f) as u32,
                        num_indices: 4,
                    }),
            decreases faces_u - fu,
        {
            assert((fv + 1) * iu + fu + 1 <= (faces_u + 1) * (faces_v + 1)) by (nonlinear_arith)
                requires
                    fv < faces_v,
                    fu < faces_u,
                    iu == faces_u + 1,
            ;
            assert(fv * iu + fu + 1 <= u32::MAX && (fv + 1) * iu + fu + 1 <= u32::MAX) by (nonlinear_arith)
                requires
                    fv < faces_v,
                    fu < faces_u,
                    iu == faces_u + 1,
                    4 * (faces_u + 1) * (faces_v + 1) <= u32::MAX,
            ;
            let i0 = fv * iu + fu;
            let i1 = fv * iu + (fu + 1);
            let i2 = (fv + 1) * iu + (fu + 1);
            let i3 = (fv + 1) * iu + fu;
            let index_begin = vertex_indices.len() as u32;
            let ghost before = vertex_indices@;
            vertex_indices.push(i0 as u32);
            vertex_indices.push(i1 as u32);
            vertex_indices.push(i2 as u32);
            vertex_indices.push(i3 as u32);
            faces.push(crate::types::Face { index_begin, num_indices: 4 });
            assert(vertex_indices@ =~= before + quad_of(iu as nat, fv as nat, fu as nat));
            fu = fu + 1;
            assert(vertex_indices@ =~= row_start + row_quads(iu as nat, fv as nat, fu as nat));
        }
        fv = fv + 1;
        assert(faces@.len() == fv * faces_u) by (nonlinear_arith)
            requires
                faces@.len() == (fv - 1) * faces_u + faces_u,
        ;
    }
    assert(fv * faces_u == faces_u * faces_v) by (nonlinear_arith)
        requires
            fv == faces_v,
    ;
    (faces, vertex_indices)
}

/// How the grid of a surface is laid out when each span is cut in
/// `u_resolution` by `v_resolution` (4 for 0), given whether its bases are
/// valid, its numbers of control points and of span boundaries; or why it
/// cannot be tessellated.
pub open spec fn surface_grid_error(
    basis_u_valid: bool,
    basis_v_valid: bool,
    num_control_points_u: nat,
    num_control_points_v: nat,
    spans_u_len: nat,
    spans_v_len: nat,
) -> Option<Seq<char>> {
    if !basis_u_valid || !basis_v_valid {
        Some("Invalid NURBS surface basis"@)
    } else if num_control_points_u == 0 || num_control_points_v == 0 {
        Some("NURBS surface has no control points"@)
    } else if span_count(spans_u_len) == 0 || span_count(spans_v_len) == 0 {
        Some("NURBS surface has no spans"@)
    } else {
        None
    }
}

impl NurbsEvaluator {
    /// Lays out the tessellation of a NURBS surface: each span cut in
    /// `u_resolution` by `v_resolution` (4 for 0), the samples along each
    /// axis, and a quad per grid cell in rows, four indices each. Fails for
    /// an invalid basis, no control points or no spans.
    pub fn surface_grid(
        basis_u_valid: bool,
        basis_v_valid: bool,
        num_control_points_u: usize,
        num_control_points_v: usize,
        spans_u_len: usize,
        spans_v_len: usize,
        u_resolution: usize,
        v_resolution: usize,
    ) -> (r: Result<SurfaceGrid, crate::error::Error>)
        requires
            4 * (span_count(spans_u_len as nat) * subdivisions(u_resolution as nat) + 1) * (
            span_count(spans_v_len as nat) * subdivisions(v_resolution as nat) + 1) <= u32::MAX,
        ensures
            ({
                let err = surface_grid_error(
                    basis_u_valid,
                    basis_v_valid,
                    num_control_points_u as nat,
                    num_control_points_v as nat,
                    spans_u_len as nat,
                    spans_v_len as nat,
                );
                match r {
                    Err(e) => err is Some && (e matches crate::error::Error::BadNurbs { reason }
                        && reason@ == err->0),
                    Ok(g) => {
                        let su = subdivisions(u_resolution as nat);
                        let sv = subdivisions(v_resolution as nat);
                        let nu = span_count(spans_u_len as nat);
                        let nv = span_count(spans_v_len as nat);
                        &&& err is None
                        &&& g.sub_u == su && g.sub_v == sv
                        &&& g.spans_u == nu && g.spans_v == nv
                        &&& g.indices_u == axis_indices(nu, su)
                        &&& g.indices_v == axis_indices(nv, sv)
                        &&& g.faces_u == axis_faces(nu, su)
                        &&& g.faces_v == axis_faces(nv, sv)
                        &&& g.num_indices == g.indices_u * g.indices_v
                        &&& g.num_faces == g.faces_u * g.faces_v
                        &&& g.samples_u@ == axis_samples(nu, su, nu + 1)
                        &&& g.samples_v@ == axis_samples(nv, sv, nv + 1)
                        &&& g.vertex_indices@ == grid_quads(
                            g.indices_u as nat,
                            g.faces_u as nat,
                            g.faces_v as nat,
                        )
                        &&& g.faces@.len() == g.num_faces
                        &&& forall|f: int|
                            0 <= f < g.faces@.len() ==> #[trigger] g.faces@[f] == (
                            crate::types::Face { index_begin: (4 * f) as u32, num_indices: 4 })
                    },
                }
            }),
    {
        if !basis_u_valid || !basis_v_valid {
            return Err(bad_nurbs("Invalid NURBS surface basis"));
        }
        if num_control_points_u == 0 || num_control_points_v == 0 {
            return Err(bad_nurbs("NURBS surface has no control points"));
        }
        let sub_u = if u_resolution > 0 {
            u_resolution
        } else {
            4
        };
        let sub_v = if v_resolution > 0 {
            v_resolution
        } else {
            4
        };
        let spans_u = if spans_u_len > 0 {
            spans_u_len - 1
        } else {
            0
        };
        let spans_v = if spans_v_len > 0 {
            spans_v_len - 1
        } else {
            0
        };
        if spans_u == 0 || spans_v == 0 {
            return Err(bad_nurbs("NURBS surface has no spans"));
        }
        assert(spans_u == span_count(spans_u_len as nat) && spans_v == span_count(spans_v_len as nat));
        assert(sub_u == subdivisions(u_resolution as nat) && sub_v == subdivisions(v_resolution as nat));
        assert(spans_u * sub_u + 1 <= u32::MAX && spans_v * sub_v + 1 <= u32::MAX) by (nonlinear_arith)
            requires
                spans_u >= 1,
                sub_u >= 1,
                spans_v >= 1,
                sub_v >= 1,
                4 * (spans_u * sub_u + 1) * (spans_v * sub_v + 1) <= u32::MAX,
        ;
        assert((spans_u - 1) * (sub_u - 1) <= spans_u * sub_u && (spans_v - 1) * (sub_v - 1) <= spans_v * sub_v) by (nonlinear_arith)
            requires
                spans_u >= 1,
                sub_u >= 1,
                spans_v >= 1,
                sub_v >= 1,
        ;
        assert(spans_u * sub_u >= 1 && spans_v * sub_v >= 1) by (nonlinear_arith)
            requires
                spans_u >= 1,
                sub_u >= 1,
                spans_v >= 1,
                sub_v >= 1,
        ;
        assert((spans_u * sub_u + 1) * (spans_v * sub_v + 1) >= spans_u * sub_u + 1) by (nonlinear_arith)
            requires
                spans_v * sub_v >= 1,
        ;
        assert((spans_u * sub_u + 1) * (spans_v * sub_v + 1) >= spans_v * sub_v + 1) by (nonlinear_arith)
            requires
                spans_u * sub_u >= 1,
        ;
        assert((spans_u - 1) * (sub_u - 1) + spans_u == (spans_u - 1) * sub_u + 1) by (nonlinear_arith);
        assert((spans_v - 1) * (sub_v - 1) + spans_v == (spans_v - 1) * sub_v + 1) by (nonlinear_arith);
        assert((spans_u - 1) * sub_u <= spans_u * sub_u) by (nonlinear_arith);
        assert((spans_v - 1) * sub_v <= spans_v * sub_v) by (nonlinear_arith);
        let indices_u = spans_u + (spans_u - 1) * (sub_u - 1);
        let indices_v = spans_v + (spans_v - 1) * (sub_v - 1);
        let faces_u = (spans_u - 1) * sub_u;
        let faces_v = (spans_v - 1) * sub_v;
        assert(4 * (faces_u + 1) * (faces_v + 1) <= 4 * (spans_u * sub_u + 1) * (spans_v * sub_v + 1)) by (nonlinear_arith)
            requires
                faces_u <= spans_u * sub_u,
                faces_v <= spans_v * sub_v,
        ;
        assert(indices_u * indices_v <= u32::MAX) by (nonlinear_arith)
            requires
                indices_u == faces_u + 1,
                indices_v == faces_v + 1,
                4 * (faces_u + 1) * (faces_v + 1) <= u32::MAX,
        ;
        assert(faces_u * faces_v <= u32::MAX) by (nonlinear_arith)
            requires
                4 * (faces_u + 1) * (faces_v + 1) <= u32::MAX,
        ;
        let num_indices = indices_u * indices_v;
        let num_faces = faces_u * faces_v;
        let samples_u = samples_along(spans_u, sub_u);
        let samples_v = samples_along(spans_v, sub_v);
        let (faces, vertex_indices) = grid_indices(faces_u, faces_v);
        Ok(SurfaceGrid {
            sub_u,
            sub_v,
            spans_u,
            spans_v,
            indices_u,
            indices_v,
            faces_u,
            faces_v,
            num_indices,
            num_faces,
            samples_u,
            samples_v,
            faces,
            vertex_indices,
        })
    }
}

/// Why a curve cannot be tessellated, given whether its basis is valid and
/// its numbers of control points and span boundaries.
pub open spec fn curve_error(basis_valid: bool, num_control_points: nat, spans_len: nat) -> Option<
    Seq<char>,
> {
    if !basis_valid || num_control_points == 0 {
        Some("Invalid NURBS curve basis or empty control points"@)
    } else if span_count(spans_len) == 0 {
        Some("NURBS curve has no spans"@)
    } else {
        None
    }
}

/// Number of points of a curve of `spans` spans cut in `sub`: all grid
/// points when it is open, all but the last otherwise.
pub open spec fn curve_points(spans: nat, sub: nat, open: bool) -> nat {
    let n = axis_indices(spans, sub);
    if open {
        n
    } else {
        (n - 1) as nat
    }
}

impl NurbsEvaluator {
    /// The samples at which a curve is evaluated when each span is cut in
    /// `segments_per_span` (4 for 0), as (span, split): point `k` is split
    /// `k % sub` of span `k / sub`, for as many points as the curve has.
    /// Fails for an invalid basis, no control points or no spans.
    pub fn curve_samples(
        basis_valid: bool,
        num_control_points: usize,
        spans_len: usize,
        open: bool,
        segments_per_span: usize,
    ) -> (r: Result<Vec<(usize, usize)>, crate::error::Error>)
        requires
            span_count(spans_len as nat) * subdivisions(segments_per_span as nat) <= usize::MAX,
        ensures
            ({
                let err = curve_error(basis_valid, num_control_points as nat, spans_len as nat);
                let sub = subdivisions(segments_per_span as nat);
                let n = curve_points(span_count(spans_len as nat), sub, open);
                match r {
                    Err(e) => err is Some && (e matches crate::error::Error::BadNurbs { reason }
                        && reason@ == err->0),
                    Ok(v) => err is None && v@ == Seq::new(
                        n,
                        |k: int| ((k / (sub as int)) as usize, (k % (sub as int)) as usize),
                    ),
                }
            }),
    {
        if !basis_valid || num_control_points == 0 {
            return Err(bad_nurbs("Invalid NURBS curve basis or empty control points"));
        }
        let num_sub = if segments_per_span > 0 {
            segments_per_span
        } else {
            4
        };
        let num_spans = if spans_len > 0 {
            spans_len - 1
        } else {
            0
        };
        if num_spans == 0 {
            return Err(bad_nurbs("NURBS curve has no spans"));
        }
        assert(num_spans == span_count(spans_len as nat) && num_sub == subdivisions(segments_per_span as nat));
        assert((num_spans - 1) * (num_sub - 1) + num_spans == (num_spans - 1) * num_sub + 1
            && (num_spans - 1) * num_sub + 1 <= num_spans * num_sub) by (nonlinear_arith)
            requires
                num_spans >= 1,
                num_sub >= 1,
        ;
        let num_indices = num_spans + (num_spans - 1) * (num_sub - 1);
        let num_vertices = if open {
            num_indices
        } else {
            num_indices - 1
        };
        let ghost want = Seq::new(
            num_vertices as nat,
            |k: int| ((k / (num_sub as int)) as usize, (k % (num_sub as int)) as usize),
        );
        let mut out: Vec<(usize, usize)> = Vec::new();
        let mut span_ix: usize = 0;
        while span_ix < num_spans
            invariant
                num_spans >= 1,
                num_sub >= 1,
                num_spans * num_sub <= usize::MAX,
                num_indices == (num_spans - 1) * num_sub + 1,
                num_indices <= num_spans * num_sub,
                num_vertices <= num_indices,
                span_ix <= num_spans,
                out@.len() == (if span_ix * num_sub < num_vertices {
                    span_ix * num_sub
                } else {
                    num_vertices as int
                }),
                forall|k: int| 0 <= k < out@.len() ==> #[trigger] out@[k] == want[k],
                want == Seq::new(
                    num_vertices as nat,
                    |k: int| ((k / (num_sub as int)) as usize, (k % (num_sub as int)) as usize),
                ),
            decreases num_spans - span_ix,
        {
            let num_splits = if span_ix + 1 == num_spans {
                1
            } else {
                num_sub
            };
            assert(span_ix * num_sub + num_splits <= num_spans * num_sub) by (nonlinear_arith)
                requires
                    span_ix < num_spans,
                    num_splits <= num_sub,
            ;
            let ghost len0 = out@.len();
            let mut sub_ix: usize = 0;
            while sub_ix < num_splits
                invariant
                    num_sub >= 1,
                    num_spans * num_sub <= usize::MAX,
                    span_ix < num_spans,
                    num_splits <= num_sub,
                    span_ix * num_sub + num_splits <= num_spans * num_sub,
                    sub_ix <= num_splits,
                    out@.len() == (if span_ix * num_sub + sub_ix < num_vertices {
                        span_ix * num_sub + sub_ix
                    } else {
                        num_vertices as int
                    }),
                    forall|k: int| 0 <= k < out@.len() ==> #[trigger] out@[k] == want[k],
                    want == Seq::new(
                        num_vertices as nat,
                        |k: int| ((k / (num_sub as int)) as usize, (k % (num_sub as int)) as usize),
                    ),
                decreases num_splits - sub_ix,
            {
                let ix = span_ix * num_sub + sub_ix;
                if ix < num_vertices {
                    proof {
                        vstd::arithmetic::div_mod::lemma_fundamental_div_mod_converse(
                            ix as int,
                            num_sub as int,
                            span_ix as int,
                            sub_ix as int,
                        );
                    }
                    out.push((span_ix, sub_ix));
                }
                sub_ix = sub_ix + 1;
            }
            span_ix = span_ix + 1;
            assert(span_ix * num_sub == (span_ix - 1) * num_sub + num_sub) by (nonlinear_arith);
        }
        assert(out@ =~= want);
        Ok(out)
    }
}

} // verus!
