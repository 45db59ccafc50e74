//! Reading OBJ files line by line: vertex records, faces, objects, groups,
//! smoothing and material use, with every number kept as its text.
use vstd::prelude::*;
use vstd::string::StringSliceAdditionalSpecFns;
use vstd::utf8::encode_utf8;
use crate::error::Error;
use crate::obj::FaceVertex;
use crate::obj::face_corner;
use crate::ascii::chars_of;
use crate::obj::lines::{
    chars_are, find_text, is_real, join_from, join_words, lead_ws, lines_of, next_line, position_of,
    push_chars, real_text, skip_ws, split_words, starts_with_at, string_of_chars, strip_backslashes,
    strip_backslashes_at, trim, trim_end_at, words,
};
use crate::obj::material::{Material, MaterialModel, find_material, material_names, models};
use crate::text::{decimal, push_str, push_usize, string_of};

verus! {

/// What has been read of an OBJ file's geometry: each vertex record as the
/// texts of its values, the faces as their corners, and the objects and
/// groups named so far.
#[derive(Debug)]
pub struct ObjGeometry {
    /// Positions, three texts each.
    pub positions: Vec<Vec<String>>,
    /// Texture coordinates, two texts each.
    pub uvs: Vec<Vec<String>>,
    /// Normals, three texts each.
    pub normals: Vec<Vec<String>>,
    /// Vertex colours, three texts each and a fourth for alpha when given.
    pub colors: Vec<Vec<String>>,
    pub faces: Vec<Vec<FaceVertex>>,
    pub face_materials: Vec<Option<usize>>,
    pub face_smoothing: Vec<bool>,
    pub objects: Vec<String>,
    pub groups: Vec<String>,
    pub current_object: Option<usize>,
    pub current_group: Option<usize>,
    pub current_material: Option<usize>,
}

/// The value of an [`ObjGeometry`].
#[verifier::ext_equal]
pub struct GeometryModel {
    pub positions: Seq<Seq<Seq<char>>>,
    pub uvs: Seq<Seq<Seq<char>>>,
    pub normals: Seq<Seq<Seq<char>>>,
    pub colors: Seq<Seq<Seq<char>>>,
    pub faces: Seq<Seq<FaceVertex>>,
    pub face_materials: Seq<Option<usize>>,
    pub face_smoothing: Seq<bool>,
    pub objects: Seq<Seq<char>>,
    pub groups: Seq<Seq<char>>,
    pub current_object: Option<usize>,
    pub current_group: Option<usize>,
    pub current_material: Option<usize>,
}

impl View for ObjGeometry {
    type V = GeometryModel;

    open spec fn view(&self) -> GeometryModel {
        GeometryModel {
            positions: self.positions.deep_view(),
            uvs: self.uvs.deep_view(),
            normals: self.normals.deep_view(),
            colors: self.colors.deep_view(),
            faces: Seq::new(self.faces@.len(), |i: int| self.faces@[i]@),
            face_materials: self.face_materials@,
            face_smoothing: self.face_smoothing@,
            objects: self.objects.deep_view(),
            groups: self.groups.deep_view(),
            current_object: self.current_object,
            current_group: self.current_group,
            current_material: self.current_material,
        }
    }
}

/// A reader of OBJ and MTL text.
#[derive(Debug)]
pub struct ObjParser {
    pub geometry: ObjGeometry,
    /// Materials read from MTL text, no two with the same name.
    pub materials: Vec<Material>,
    pub current_material: Option<String>,
    pub smoothing_enabled: bool,
    pub line_number: usize,
}

/// The value of an [`ObjParser`].
#[verifier::ext_equal]
pub struct ParserModel {
    pub geometry: GeometryModel,
    pub materials: Seq<MaterialModel>,
    pub current_material: Option<Seq<char>>,
    pub smoothing_enabled: bool,
    pub line_number: nat,
}

impl View for ObjParser {
    type V = ParserModel;

    open spec fn view(&self) -> ParserModel {
        ParserModel {
            geometry: self.geometry@,
            materials: models(self.materials@),
            current_material: self.current_material.deep_view(),
            smoothing_enabled: self.smoothing_enabled,
            line_number: self.line_number as nat,
        }
    }
}

/// A geometry with nothing read yet.
pub open spec fn empty_geometry() -> GeometryModel {
    GeometryModel {
        positions: seq![],
        uvs: seq![],
        normals: seq![],
        colors: seq![],
        faces: seq![],
        face_materials: seq![],
        face_smoothing: seq![],
        objects: seq![],
        groups: seq![],
        current_object: None,
        current_group: None,
        current_material: None,
    }
}

/// A parser with nothing read, smoothing on.
pub open spec fn fresh_parser() -> ParserModel {
    ParserModel {
        geometry: empty_geometry(),
        materials: seq![],
        current_material: None,
        smoothing_enabled: true,
        line_number: 0,
    }
}

/// The message `rest` about line `n`.
pub open spec fn line_message(n: nat, rest: Seq<char>) -> Seq<char> {
    "Line "@ + decimal(n) + rest
}

/// The message for the text `t` on line `n` that is no number.
pub open spec fn invalid_number(n: nat, t: Seq<char>) -> Seq<char> {
    line_message(n, ": Invalid number '"@ + t + "'"@)
}

/// The first of `ts[from..to]` that is no number, by its index.
pub open spec fn first_bad_real(ts: Seq<Seq<char>>, from: int, to: int) -> Option<int>
    decreases to - from,
{
    if from >= to {
        None
    } else if !real_text(ts[from]) {
        Some(from)
    } else {
        first_bad_real(ts, from + 1, to)
    }
}

/// The smaller of `a` and `b`.
pub open spec fn at_most(a: int, b: int) -> int {
    if a < b {
        a
    } else {
        b
    }
}

/// The words of an OBJ line: none for a blank line or a comment. A line
/// loses its trailing backslashes first.
pub open spec fn obj_tokens(line: Seq<char>) -> Seq<Seq<char>> {
    let t = trim(strip_backslashes(line));
    if t.len() == 0 || t[0] == '#' {
        seq![]
    } else {
        words(t)
    }
}

/// The parser after a line, and the message of the error it gave, if any.
pub struct ObjStep {
    pub model: ParserModel,
    pub error: Option<Seq<char>>,
}

/// A line that succeeded and left `p`.
pub open spec fn done(p: ParserModel) -> ObjStep {
    ObjStep { model: p, error: None }
}

/// A line that failed with `message` and left `p`.
pub open spec fn failed(p: ParserModel, message: Seq<char>) -> ObjStep {
    ObjStep { model: p, error: Some(message) }
}

/// `p` with the geometry `g`.
pub open spec fn with_geometry(p: ParserModel, g: GeometryModel) -> ParserModel {
    ParserModel { geometry: g, ..p }
}

/// A `v x y z [w]` line, whose fourth to seventh values may also be a
/// colour `r g b [a]`. The position is kept once its values are numbers,
/// before the colour's are looked at.
pub open spec fn position_line(p: ParserModel, ts: Seq<Seq<char>>) -> ObjStep {
    let n = p.line_number;
    let g = p.geometry;
    if ts.len() < 4 {
        failed(p, line_message(n, ": 'v' requires at least 3 values (x y z)"@))
    } else {
        match first_bad_real(ts, 1, at_most(ts.len() as int, 5)) {
            Some(i) => failed(p, invalid_number(n, ts[i])),
            None => {
                let g1 = GeometryModel { positions: g.positions.push(ts.subrange(1, 4)), ..g };
                if ts.len() >= 7 {
                    let end = at_most(ts.len() as int, 8);
                    match first_bad_real(ts, 4, end) {
                        Some(i) => failed(with_geometry(p, g1), invalid_number(n, ts[i])),
                        None => done(
                            with_geometry(
                                p,
                                GeometryModel { colors: g.colors.push(ts.subrange(4, end)), ..g1 },
                            ),
                        ),
                    }
                } else {
                    done(with_geometry(p, g1))
                }
            },
        }
    }
}

/// A `vt u v [w]` line.
pub open spec fn texcoord_line(p: ParserModel, ts: Seq<Seq<char>>) -> ObjStep {
    let n = p.line_number;
    let g = p.geometry;
    if ts.len() < 3 {
        failed(p, line_message(n, ": 'vt' requires at least 2 values (u v)"@))
    } else {
        match first_bad_real(ts, 1, at_most(ts.len() as int, 4)) {
            Some(i) => failed(p, invalid_number(n, ts[i])),
            None => done(with_geometry(p, GeometryModel { uvs: g.uvs.push(ts.subrange(1, 3)), ..g })),
        }
    }
}

/// A `vn x y z` line.
pub open spec fn normal_line(p: ParserModel, ts: Seq<Seq<char>>) -> ObjStep {
    let n = p.line_number;
    let g = p.geometry;
    if ts.len() < 4 {
        failed(p, line_message(n, ": 'vn' requires 3 values (x y z)"@))
    } else {
        match first_bad_real(ts, 1, 4) {
            Some(i) => failed(p, invalid_number(n, ts[i])),
            None => done(
                with_geometry(p, GeometryModel { normals: g.normals.push(ts.subrange(1, 4)), ..g }),
            ),
        }
    }
}

/// The corners `ts[i..]` of a face line, read in order against the
/// numbers of positions, texture coordinates and normals so far; or the
/// first error.
pub open spec fn face_corners(ts: Seq<Seq<char>>, i: int, g: GeometryModel) -> Result<
    Seq<FaceVertex>,
    Seq<char>,
>
    decreases ts.len() - i,
{
    if i >= ts.len() {
        Ok(seq![])
    } else {
        match face_corner(
            encode_utf8(ts[i]),
            g.positions.len(),
            g.uvs.len(),
            g.normals.len(),
        ) {
            Err(e) => Err(e),
            Ok(fv) => match face_corners(ts, i + 1, g) {
                Ok(rest) => Ok(seq![fv] + rest),
                Err(e) => Err(e),
            },
        }
    }
}

/// An `f c1 c2 c3 ...` line: a face in the current material, smooth.
pub open spec fn face_line(p: ParserModel, ts: Seq<Seq<char>>) -> ObjStep {
    let n = p.line_number;
    let g = p.geometry;
    if ts.len() < 4 {
        failed(p, line_message(n, ": 'f' requires at least 3 vertices"@))
    } else {
        match face_corners(ts, 1, g) {
            Err(e) => failed(p, e),
            Ok(corners) => done(
                with_geometry(
                    p,
                    GeometryModel {
                        faces: g.faces.push(corners),
                        face_materials: g.face_materials.push(g.current_material),
                        face_smoothing: g.face_smoothing.push(true),
                        ..g
                    },
                ),
            ),
        }
    }
}

/// `names` after naming `name`, and the index of `name` in it: the first
/// entry of that name, or a new last one.
pub open spec fn name_in(names: Seq<Seq<char>>, name: Seq<char>) -> (Seq<Seq<char>>, usize) {
    match position_of(names, name) {
        Some(i) => (names, i as usize),
        None => (names.push(name), names.len() as usize),
    }
}

/// What an OBJ line with the words `ts` does to `p`.
pub open spec fn obj_directive(p: ParserModel, ts: Seq<Seq<char>>) -> ObjStep {
    let g = p.geometry;
    if ts.len() == 0 {
        done(p)
    } else if ts[0] == "v"@ {
        position_line(p, ts)
    } else if ts[0] == "vt"@ {
        texcoord_line(p, ts)
    } else if ts[0] == "vn"@ {
        normal_line(p, ts)
    } else if ts[0] == "f"@ {
        face_line(p, ts)
    } else if ts[0] == "o"@ && ts.len() > 1 {
        let (names, i) = name_in(g.objects, join_words(ts.skip(1)));
        done(with_geometry(p, GeometryModel { objects: names, current_object: Some(i), ..g }))
    } else if ts[0] == "g"@ && ts.len() > 1 {
        let (names, i) = name_in(g.groups, join_words(ts.skip(1)));
        done(with_geometry(p, GeometryModel { groups: names, current_group: Some(i), ..g }))
    } else if ts[0] == "s"@ && ts.len() > 1 {
        done(ParserModel { smoothing_enabled: ts[1] != "off"@ && ts[1] != "0"@, ..p })
    } else if ts[0] == "usemtl"@ && ts.len() > 1 {
        let name = join_words(ts.skip(1));
        let index: usize = match position_of(material_names(p.materials), name) {
            Some(i) => i as usize,
            None => 0,
        };
        done(
            ParserModel {
                current_material: Some(name),
                geometry: GeometryModel { current_material: Some(index), ..g },
                ..p
            },
        )
    } else {
        done(p)
    }
}

/// What the OBJ line `line` does to `p`.
pub open spec fn obj_line(p: ParserModel, line: Seq<char>) -> ObjStep {
    obj_directive(p, obj_tokens(line))
}

/// `p` with its line count back at zero.
pub open spec fn restarted(p: ParserModel) -> ParserModel {
    ParserModel { line_number: 0, ..p }
}

/// What the OBJ lines `ls` do to `p`, counting them on from its line
/// number; reading stops at the first error.
pub open spec fn obj_lines(p: ParserModel, ls: Seq<Seq<char>>) -> ObjStep
    decreases ls.len(),
{
    if ls.len() == 0 {
        done(p)
    } else {
        let s = obj_line(ParserModel { line_number: p.line_number + 1, ..p }, ls[0]);
        if s.error is Some {
            s
        } else {
            obj_lines(s.model, ls.drop_first())
        }
    }
}

/// Whether `r` is success when `message` is nothing, and otherwise an
/// error with that message.
pub open spec fn reports(r: Result<(), Error>, message: Option<Seq<char>>) -> bool {
    match r {
        Ok(_) => message is None,
        Err(e) => message is Some && (e matches Error::Unknown { description, stack } && stack
            is None && description@ == message->0),
    }
}

/// Whether the parser `m` and the result `r` are the outcome `s`.
pub open spec fn outcome(m: ParserModel, r: Result<(), Error>, s: ObjStep) -> bool {
    m == s.model && reports(r, s.error)
}

/// The message for the first of `ts[from..to]` that is no number.
pub open spec fn bad_real_message(ts: Seq<Seq<char>>, from: int, to: int, n: nat) -> Option<
    Seq<char>,
> {
    match first_bad_real(ts, from, to) {
        Some(i) => Some(invalid_number(n, ts[i])),
        None => None,
    }
}

/// The error `rest` about line `n`.
fn line_error(n: usize, rest: &str) -> (r: Error)
    ensures
        reports(Err(r), Some(line_message(n as nat, rest@))),
{
    let mut d = string_of("Line ");
    push_usize(&mut d, n);
    push_str(&mut d, rest);
    Error::Unknown { description: d, stack: None }
}

/// The error for the text `t` on line `n` that is no number.
fn invalid_number_error(n: usize, t: &Vec<char>) -> (r: Error)
    ensures
        reports(Err(r), Some(invalid_number(n as nat, t@))),
{
    let mut d = string_of("Line ");
    push_usize(&mut d, n);
    push_str(&mut d, ": Invalid number '");
    push_chars(&mut d, t);
    push_str(&mut d, "'");
    assert(d@ =~= invalid_number(n as nat, t@));
    Error::Unknown { description: d, stack: None }
}

/// Checks that `ts[from..to]` are numbers, failing at the first that is
/// not.
fn check_reals(ts: &Vec<Vec<char>>, from: usize, to: usize, n: usize) -> (r: Result<(), Error>)
    requires
        from <= to <= ts@.len(),
    ensures
        reports(r, bad_real_message(ts.deep_view(), from as int, to as int, n as nat)),
{
    let ghost dv = ts.deep_view();
    let mut i = from;
    while i < to
        invariant
            from <= i <= to <= ts@.len(),
            dv == ts.deep_view(),
            first_bad_real(dv, from as int, to as int) == first_bad_real(dv, i as int, to as int),
        decreases to - i,
    {
        assert(dv[i as int] =~= ts@[i as int]@);
        if !is_real(&ts[i]) {
            return Err(invalid_number_error(n, &ts[i]));
        }
        i = i + 1;
    }
    Ok(())
}

/// The texts of `ts[from..to]`.
fn texts(ts: &Vec<Vec<char>>, from: usize, to: usize) -> (r: Vec<String>)
    requires
        from <= to <= ts@.len(),
    ensures
        r.deep_view() == ts.deep_view().subrange(from as int, to as int),
{
    let mut out: Vec<String> = Vec::new();
    let mut i = from;
    while i < to
        invariant
            from <= i <= to <= ts@.len(),
            out.deep_view() == ts.deep_view().subrange(from as int, i as int),
        decreases to - i,
    {
        let t = string_of_chars(&ts[i]);
        assert(ts.deep_view()[i as int] =~= t@);
        let ghost before = out.deep_view();
        out.push(t);
        assert(out.deep_view() =~= before.push(t@));
        i = i + 1;
        assert(out.deep_view() =~= ts.deep_view().subrange(from as int, i as int));
    }
    out
}

/// Looks `name` up among `names`, adding it when it is not there, and
/// gives its index.
fn name_index(names: &mut Vec<String>, name: String) -> (r: usize)
    ensures
        (final(names).deep_view(), r) == name_in(old(names).deep_view(), name@),
{
    match find_text(names, &name) {
        Some(i) => i,
        None => {
            let k = names.len();
            let ghost before = names.deep_view();
            names.push(name);
            assert(names.deep_view() =~= before.push(name@));
            k
        },
    }
}

impl ObjParser {
    /// A parser with nothing read, smoothing on.
    pub fn new() -> (r: ObjParser)
        ensures
            r@ == fresh_parser(),
    {
        let r = ObjParser {
            geometry: ObjGeometry {
                positions: Vec::new(),
                uvs: Vec::new(),
                normals: Vec::new(),
                colors: Vec::new(),
                faces: Vec::new(),
                face_materials: Vec::new(),
                face_smoothing: Vec::new(),
                objects: Vec::new(),
                groups: Vec::new(),
                current_object: None,
                current_group: None,
                current_material: None,
            },
            materials: Vec::new(),
            current_material: None,
            smoothing_enabled: true,
            line_number: 0,
        };
        assert(r@.geometry =~= empty_geometry());
        assert(r@.materials =~= Seq::<MaterialModel>::empty());
        r
    }

    /// Reads a `v` line.
    fn position_line(&mut self, ts: &Vec<Vec<char>>) -> (r: Result<(), Error>)
        ensures
            outcome(final(self)@, r, position_line(old(self)@, ts.deep_view())),
    {
        let ghost dv = ts.deep_view();
        let n = self.line_number;
        let len = ts.len();
        if len < 4 {
            return Err(line_error(n, ": 'v' requires at least 3 values (x y z)"));
        }
        let e1 = if len < 5 {
            len
        } else {
            5
        };
        check_reals(ts, 1, e1, n)?;
        let ghost g = self.geometry@;
        let v = texts(ts, 1, 4);
        self.geometry.positions.push(v);
        assert(self.geometry@.positions =~= g.positions.push(dv.subrange(1, 4)));
        let ghost g1 = GeometryModel { positions: g.positions.push(dv.subrange(1, 4)), ..g };
        assert(self.geometry@ =~= g1);
        if len >= 7 {
            let e2 = if len < 8 {
                len
            } else {
                8
            };
            check_reals(ts, 4, e2, n)?;
            let c = texts(ts, 4, e2);
            self.geometry.colors.push(c);
            assert(self.geometry@.colors =~= g.colors.push(dv.subrange(4, e2 as int)));
            assert(self.geometry@ =~= GeometryModel {
                colors: g.colors.push(dv.subrange(4, e2 as int)),
                ..g1
            });
        }
        Ok(())
    }

    /// Reads a `vt` line.
    fn texcoord_line(&mut self, ts: &Vec<Vec<char>>) -> (r: Result<(), Error>)
        ensures
            outcome(final(self)@, r, texcoord_line(old(self)@, ts.deep_view())),
    {
        let ghost dv = ts.deep_view();
        let n = self.line_number;
        let len = ts.len();
        if len < 3 {
            return Err(line_error(n, ": 'vt' requires at least 2 values (u v)"));
        }
        let e1 = if len < 4 {
            len
        } else {
            4
        };
        check_reals(ts, 1, e1, n)?;
        let ghost g = self.geometry@;
        let v = texts(ts, 1, 3);
        self.geometry.uvs.push(v);
        assert(self.geometry@.uvs =~= g.uvs.push(dv.subrange(1, 3)));
        assert(self.geometry@ =~= GeometryModel { uvs: g.uvs.push(dv.subrange(1, 3)), ..g });
        Ok(())
    }

    /// Reads a `vn` line.
    fn normal_line(&mut self, ts: &Vec<Vec<char>>) -> (r: Result<(), Error>)
        ensures
            outcome(final(self)@, r, normal_line(old(self)@, ts.deep_view())),
    {
        let ghost dv = ts.deep_view();
        let n = self.line_number;
        if ts.len() < 4 {
            return Err(line_error(n, ": 'vn' requires 3 values (x y z)"));
        }
        check_reals(ts, 1, 4, n)?;
        let ghost g = self.geometry@;
        let v = texts(ts, 1, 4);
        self.geometry.normals.push(v);
        assert(self.geometry@.normals =~= g.normals.push(dv.subrange(1, 4)));
        assert(self.geometry@ =~= GeometryModel { normals: g.normals.push(dv.subrange(1, 4)), ..g });
        Ok(())
    }

    /// Reads an `f` line.
    fn face_line(&mut self, ts: &Vec<Vec<char>>) -> (r: Result<(), Error>)
        ensures
            outcome(final(self)@, r, face_line(old(self)@, ts.deep_view())),
    {
        let ghost dv = ts.deep_view();
        let ghost g = self.geometry@;
        let n = self.line_number;
        if ts.len() < 4 {
            return Err(line_error(n, ": 'f' requires at least 3 vertices"));
        }
        let pc = self.geometry.positions.len();
        let uc = self.geometry.uvs.len();
        let nc = self.geometry.normals.len();
        let mut corners: Vec<FaceVertex> = Vec::new();
        let mut i: usize = 1;
        assert(corners@ + seq![] =~= corners@);
        while i < ts.len()
            invariant
                1 <= i <= ts@.len(),
                ts@.len() >= 4,
                dv == ts.deep_view(),
                self@ == old(self)@,
                g == old(self)@.geometry,
                pc == g.positions.len(),
                uc == g.uvs.len(),
                nc == g.normals.len(),
                face_corners(dv, 1, g) == (match face_corners(dv, i as int, g) {
                    Ok(rest) => Ok(corners@ + rest),
                    Err(e) => Err::<Seq<FaceVertex>, Seq<char>>(e),
                }),
            decreases ts@.len() - i,
        {
            let tok = string_of_chars(&ts[i]);
            assert(dv[i as int] =~= tok@);
            let ghost before = corners@;
            let text = tok.as_str();
            assert(text.spec_bytes() == encode_utf8(dv[i as int]));
            match FaceVertex::parse(text, pc, uc, nc) {
                Ok(fv) => {
                    corners.push(fv);
                    proof {
                        match face_corners(dv, i + 1, g) {
                            Ok(rest) => {
                                assert(before + (seq![fv] + rest) =~= corners@ + rest);
                            },
                            Err(e) => {},
                        }
                    }
                },
                Err(e) => {
                    proof {
                        let fc = face_corner(encode_utf8(dv[i as int]), pc as nat, uc as nat, nc as nat);
                        assert(fc is Err);
                        assert(face_corners(dv, i as int, g) == Err::<Seq<FaceVertex>, Seq<char>>(fc->Err_0));
                        assert(face_corners(dv, 1, g) == Err::<Seq<FaceVertex>, Seq<char>>(fc->Err_0));
                    }
                    return Err(e);
                },
            }
            i = i + 1;
        }
        assert(corners@ + seq![] =~= corners@);
        let m = self.geometry.current_material;
        self.geometry.faces.push(corners);
        self.geometry.face_materials.push(m);
        self.geometry.face_smoothing.push(true);
        assert(self.geometry@ =~= GeometryModel {
            faces: g.faces.push(corners@),
            face_materials: g.face_materials.push(g.current_material),
            face_smoothing: g.face_smoothing.push(true),
            ..g
        });
        Ok(())
    }
}

impl ObjParser {
    /// Does what the OBJ line with the words `ts` asks.
    fn apply_tokens(&mut self, ts: &Vec<Vec<char>>) -> (r: Result<(), Error>)
        ensures
            outcome(final(self)@, r, obj_directive(old(self)@, ts.deep_view())),
    {
        let ghost dv = ts.deep_view();
        let ghost p = self@;
        let ghost g = self.geometry@;
        if ts.len() == 0 {
            return Ok(());
        }
        let head = &ts[0];
        assert(dv[0] =~= head@);
        if chars_are(head, "v") {
            self.position_line(ts)
        } else if chars_are(head, "vt") {
            self.texcoord_line(ts)
        } else if chars_are(head, "vn") {
            self.normal_line(ts)
        } else if chars_are(head, "f") {
            self.face_line(ts)
        } else if chars_are(head, "o") && ts.len() > 1 {
            let name = join_from(ts, 1);
            let i = name_index(&mut self.geometry.objects, name);
            self.geometry.current_object = Some(i);
            assert(self.geometry@ =~= GeometryModel {
                objects: name_in(g.objects, join_words(dv.skip(1))).0,
                current_object: Some(i),
                ..g
            });
            Ok(())
        } else if chars_are(head, "g") && ts.len() > 1 {
            let name = join_from(ts, 1);
            let i = name_index(&mut self.geometry.groups, name);
            self.geometry.current_group = Some(i);
            assert(self.geometry@ =~= GeometryModel {
                groups: name_in(g.groups, join_words(dv.skip(1))).0,
                current_group: Some(i),
                ..g
            });
            Ok(())
        } else if chars_are(head, "s") && ts.len() > 1 {
            let t1 = &ts[1];
            assert(dv[1] =~= t1@);
            self.smoothing_enabled = !chars_are(t1, "off") && !chars_are(t1, "0");
            Ok(())
        } else if chars_are(head, "usemtl") && ts.len() > 1 {
            let name = join_from(ts, 1);
            let index: usize = match find_material(&self.materials, &name) {
                Some(i) => i,
                None => 0,
            };
            self.current_material = Some(name);
            self.geometry.current_material = Some(index);
            assert(self.geometry@ =~= GeometryModel { current_material: Some(index), ..g });
            Ok(())
        } else {
            Ok(())
        }
    }

    /// Reads the OBJ line `cs[a..b]`.
    fn parse_line(&mut self, cs: &Vec<char>, a: usize, b: usize) -> (r: Result<(), Error>)
        requires
            a <= b <= cs@.len(),
        ensures
            outcome(final(self)@, r, obj_line(old(self)@, cs@.subrange(a as int, b as int))),
    {
        let ghost line = cs@.subrange(a as int, b as int);
        let b1 = strip_backslashes_at(cs, a, b);
        let a2 = skip_ws(cs, a, b1);
        let b2 = trim_end_at(cs, a2, b1);
        proof {
            assert(strip_backslashes(line) =~= cs@.subrange(a as int, b1 as int));
            let x = cs@.subrange(a as int, b1 as int);
            let t = x.skip(lead_ws(x) as int);
            assert(t =~= cs@.subrange(a2 as int, b1 as int));
            assert(trim(x) =~= cs@.subrange(a2 as int, b2 as int));
        }
        if a2 == b2 || cs[a2] == '#' {
            return Ok(());
        }
        let ts = split_words(cs, a2, b2);
        self.apply_tokens(&ts)
    }

    /// Reads OBJ text, counting its lines from one; reading stops at the
    /// first line that fails, with that line's error.
    pub fn parse_obj(&mut self, content: &str) -> (r: Result<(), Error>)
        ensures
            outcome(final(self)@, r, obj_lines(restarted(old(self)@), lines_of(content@))),
    {
        let cs = chars_of(content);
        self.line_number = 0;
        let ghost start = self@;
        assert(start =~= restarted(old(self)@));
        let mut pos: usize = 0;
        assert(cs@.skip(0) =~= cs@);
        while pos < cs.len()
            invariant
                pos <= cs@.len(),
                self.line_number <= pos,
                cs@ == content@,
                start == restarted(old(self)@),
                obj_lines(start, lines_of(cs@)) == obj_lines(self@, lines_of(cs@.skip(pos as int))),
            decreases cs@.len() - pos,
        {
            let (end, next) = next_line(&cs, pos);
            let ghost rest = lines_of(cs@.skip(pos as int));
            let ghost line = cs@.subrange(pos as int, end as int);
            assert(rest[0] == line);
            assert(rest.drop_first() =~= lines_of(cs@.skip(next as int)));
            let ghost prev = self@;
            self.line_number = self.line_number + 1;
            let ghost bumped = self@;
            assert(bumped =~= ParserModel { line_number: prev.line_number + 1, ..prev });
            proof {
                lemma_obj_line_keeps_number(bumped, line);
            }
            match self.parse_line(&cs, pos, end) {
                Err(e) => {
                    return Err(e);
                },
                Ok(()) => {},
            }
            pos = next;
        }
        assert(lines_of(cs@.skip(pos as int)) =~= Seq::<Seq<char>>::empty());
        Ok(())
    }
}

/// An OBJ line leaves the line number as it is.
pub proof fn lemma_obj_line_keeps_number(p: ParserModel, line: Seq<char>)
    ensures
        obj_line(p, line).model.line_number == p.line_number,
{
}

impl Default for ObjParser {
    /// A parser with nothing read, smoothing on.
    fn default() -> (r: ObjParser)
        ensures
            r@ == fresh_parser(),
    {
        ObjParser::new()
    }
}

/// The file named by an MTL reference line, when `line` is one: after
/// trimming, `mtllib ` and then the name, itself trimmed.
pub open spec fn mtl_reference(line: Seq<char>) -> Option<Seq<char>> {
    let t = trim(line);
    if t.len() >= 7 && t.take(7) == "mtllib "@ {
        Some(trim(t.skip(7)))
    } else {
        None
    }
}

/// The files named by the MTL reference lines of `ls`, in order.
pub open spec fn mtl_references(ls: Seq<Seq<char>>) -> Seq<Seq<char>>
    decreases ls.len(),
{
    if ls.len() == 0 {
        seq![]
    } else {
        let rest = mtl_references(ls.drop_first());
        match mtl_reference(ls[0]) {
            Some(name) => seq![name] + rest,
            None => rest,
        }
    }
}

impl ObjParser {
    /// The material libraries that the OBJ text `content` names on its
    /// `mtllib` lines, in order.
    pub fn extract_mtl_references(&self, content: &str) -> (r: Vec<String>)
        ensures
            r.deep_view() == mtl_references(lines_of(content@)),
    {
        let cs = chars_of(content);
        let mut refs: Vec<String> = Vec::new();
        let mut pos: usize = 0;
        assert(cs@.skip(0) =~= cs@);
        assert(refs.deep_view() + mtl_references(lines_of(cs@)) =~= mtl_references(lines_of(cs@)));
        while pos < cs.len()
            invariant
                pos <= cs@.len(),
                cs@ == content@,
                mtl_references(lines_of(cs@)) == refs.deep_view() + mtl_references(
                    lines_of(cs@.skip(pos as int)),
                ),
            decreases cs@.len() - pos,
        {
            let (end, next) = next_line(&cs, pos);
            let ghost ls = lines_of(cs@.skip(pos as int));
            let ghost line = cs@.subrange(pos as int, end as int);
            assert(ls[0] == line);
            assert(ls.drop_first() =~= lines_of(cs@.skip(next as int)));
            let a2 = skip_ws(&cs, pos, end);
            let b2 = trim_end_at(&cs, a2, end);
            proof {
                let t = line.skip(lead_ws(line) as int);
                assert(t =~= cs@.subrange(a2 as int, end as int));
                assert(trim(line) =~= cs@.subrange(a2 as int, b2 as int));
            }
            if starts_with_at(&cs, a2, b2, "mtllib ") {
                proof {
                    reveal_strlit("mtllib ");
                    assert(cs@.subrange(a2 as int, b2 as int).take(7) =~= cs@.subrange(
                        a2 as int,
                        a2 + 7,
                    ));
                    assert(cs@.subrange(a2 as int, b2 as int).skip(7) =~= cs@.subrange(
                        a2 + 7,
                        b2 as int,
                    ));
                }
                let s = a2 + 7;
                let a3 = skip_ws(&cs, s, b2);
                let b3 = trim_end_at(&cs, a3, b2);
                proof {
                    let x = cs@.subrange(s as int, b2 as int);
                    let t = x.skip(lead_ws(x) as int);
                    assert(t =~= cs@.subrange(a3 as int, b2 as int));
                    assert(trim(x) =~= cs@.subrange(a3 as int, b3 as int));
                }
                let name_chars = crate::obj::lines::copy_chars(&cs, a3, b3);
                let name = string_of_chars(&name_chars);
                let ghost before = refs.deep_view();
                refs.push(name);
                assert(refs.deep_view() =~= before.push(name_chars@));
                assert(refs.deep_view() + mtl_references(lines_of(cs@.skip(next as int))) =~= before + (
                seq![name_chars@] + mtl_references(lines_of(cs@.skip(next as int)))));
            } else {
                proof {
                    reveal_strlit("mtllib ");
                    let t = cs@.subrange(a2 as int, b2 as int);
                    if t.len() >= 7 {
                        assert(t.take(7) =~= cs@.subrange(a2 as int, a2 + 7));
                    }
                }
            }
            pos = next;
        }
        assert(lines_of(cs@.skip(pos as int)) =~= Seq::<Seq<char>>::empty());
        assert(refs.deep_view() + Seq::<Seq<char>>::empty() =~= refs.deep_view());
        refs
    }
}

} // verus!
