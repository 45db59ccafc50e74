//! Reading MTL text: materials and their colours, numbers and maps.
use vstd::prelude::*;
use crate::ascii::chars_of;
use crate::error::Error;
use crate::obj::lines::{
    chars_are, is_real, join_from, join_words, lead_ws, lemma_lead_ws, lemma_position_of,
    lemma_words_nonempty, lines_of, next_line, parse_u32_chars, real_text, skip_ws, split_words,
    string_of_chars, trim, trim_end_at, u32_text, words,
};
use crate::obj::material::{
    Material, MaterialModel, default_material, find_material, insert_material, material_names,
    models,
};
use crate::obj::parser::{
    ObjParser, ParserModel, bad_real_message, first_bad_real, invalid_number, line_message, reports,
};
use crate::text::{push_str, push_usize, string_of};

verus! {

/// The words of an MTL line: none for a blank line or a comment.
pub open spec fn mtl_tokens(line: Seq<char>) -> Seq<Seq<char>> {
    let t = trim(line);
    if t.len() == 0 || t[0] == '#' {
        seq![]
    } else {
        words(t)
    }
}

/// The three component texts of a colour line `ts` on line `n`, or the
/// error it gives.
pub open spec fn color_texts(ts: Seq<Seq<char>>, n: nat) -> Result<Seq<Seq<char>>, Seq<char>> {
    if ts.len() < 4 {
        Err(line_message(n, ": Expected 3 values for Vec3"@))
    } else {
        match bad_real_message(ts, 1, 4, n) {
            Some(e) => Err(e),
            None => Ok(ts.subrange(1, 4)),
        }
    }
}

/// The number text that a line `ts` on line `n` gives, or the error.
pub open spec fn number_text(ts: Seq<Seq<char>>, n: nat) -> Result<Seq<char>, Seq<char>> {
    if real_text(ts[1]) {
        Ok(ts[1])
    } else {
        Err(invalid_number(n, ts[1]))
    }
}

/// What the line `ts`, on line `n`, does to the material `m` being read.
pub open spec fn edit_material(m: MaterialModel, ts: Seq<Seq<char>>, n: nat) -> Result<
    MaterialModel,
    Seq<char>,
> {
    let key = ts[0];
    let map = Some(join_words(ts.skip(1)));
    if key == "Ka"@ {
        match color_texts(ts, n) {
            Ok(c) => Ok(MaterialModel { ambient: c, ..m }),
            Err(e) => Err(e),
        }
    } else if key == "Kd"@ {
        match color_texts(ts, n) {
            Ok(c) => Ok(MaterialModel { diffuse: c, ..m }),
            Err(e) => Err(e),
        }
    } else if key == "Ks"@ {
        match color_texts(ts, n) {
            Ok(c) => Ok(MaterialModel { specular: c, ..m }),
            Err(e) => Err(e),
        }
    } else if key == "Ke"@ {
        match color_texts(ts, n) {
            Ok(c) => Ok(MaterialModel { emissive: c, ..m }),
            Err(e) => Err(e),
        }
    } else if ts.len() <= 1 {
        Ok(m)
    } else if key == "Ns"@ {
        match number_text(ts, n) {
            Ok(t) => Ok(MaterialModel { specular_exponent: t, ..m }),
            Err(e) => Err(e),
        }
    } else if key == "d"@ {
        match number_text(ts, n) {
            Ok(t) => Ok(MaterialModel { opacity: t, opacity_inverted: false, ..m }),
            Err(e) => Err(e),
        }
    } else if key == "Tr"@ {
        match number_text(ts, n) {
            Ok(t) => Ok(MaterialModel { opacity: t, opacity_inverted: true, ..m }),
            Err(e) => Err(e),
        }
    } else if key == "Ni"@ {
        match number_text(ts, n) {
            Ok(t) => Ok(MaterialModel { refractive_index: t, ..m }),
            Err(e) => Err(e),
        }
    } else if key == "illum"@ {
        Ok(
            MaterialModel {
                illum_model: match u32_text(ts[1]) {
                    Some(v) => v,
                    None => 2,
                },
                ..m
            },
        )
    } else if key == "map_Kd"@ {
        Ok(MaterialModel { map_diffuse: map, ..m })
    } else if key == "map_Ks"@ {
        Ok(MaterialModel { map_specular: map, ..m })
    } else if key == "map_Ka"@ {
        Ok(MaterialModel { map_ambient: map, ..m })
    } else if key == "map_Ke"@ {
        Ok(MaterialModel { map_emissive: map, ..m })
    } else if key == "map_bump"@ || key == "bump"@ {
        Ok(MaterialModel { map_bump: map, ..m })
    } else if key == "map_d"@ {
        Ok(MaterialModel { map_opacity: map, ..m })
    } else if key == "norm"@ {
        Ok(MaterialModel { map_normal: map, ..m })
    } else if key == "disp"@ {
        Ok(MaterialModel { map_displacement: map, ..m })
    } else {
        Ok(m)
    }
}

/// The MTL keyword table: a colour line `Ka`, `Kd`, `Ks` or `Ke` with three
/// numbers sets the ambient, diffuse, specular or emissive colour to them
/// (fewer than three is an error); `Ns`, `d`, `Tr` and `Ni` set the specular
/// exponent, the opacity (`Tr` marked inverted) and the refractive index;
/// `illum` sets the illumination model (2 when it is no number); each map
/// keyword sets its own map to the rest of the line. Nothing else of the
/// material changes.
pub proof fn lemma_mtl_keyword_table(m: MaterialModel, ts: Seq<Seq<char>>, n: nat)
    requires
        ts.len() > 0,
    ensures
        ts.len() >= 4 && ts[0] == "Ka"@ && (forall|i: int| 1 <= i < 4 ==> #[trigger] real_text(ts[i])) ==> edit_material(m, ts, n) == Ok::<MaterialModel, Seq<char>>(
            MaterialModel { ambient: ts.subrange(1, 4), ..m },
        ),
        ts.len() >= 4 && ts[0] == "Kd"@ && (forall|i: int| 1 <= i < 4 ==> #[trigger] real_text(ts[i])) ==> edit_material(m, ts, n) == Ok::<MaterialModel, Seq<char>>(
            MaterialModel { diffuse: ts.subrange(1, 4), ..m },
        ),
        ts.len() >= 4 && ts[0] == "Ks"@ && (forall|i: int| 1 <= i < 4 ==> #[trigger] real_text(ts[i])) ==> edit_material(m, ts, n) == Ok::<MaterialModel, Seq<char>>(
            MaterialModel { specular: ts.subrange(1, 4), ..m },
        ),
        ts.len() >= 4 && ts[0] == "Ke"@ && (forall|i: int| 1 <= i < 4 ==> #[trigger] real_text(ts[i])) ==> edit_material(m, ts, n) == Ok::<MaterialModel, Seq<char>>(
            MaterialModel { emissive: ts.subrange(1, 4), ..m },
        ),
        ts.len() < 4 && (ts[0] == "Ka"@ || ts[0] == "Kd"@ || ts[0] == "Ks"@ || ts[0] == "Ke"@) ==> edit_material(
            m,
            ts,
            n,
        ) is Err,
        ts.len() > 1 && ts[0] == "Ns"@ && real_text(ts[1]) ==> edit_material(m, ts, n) == Ok::<MaterialModel, Seq<char>>(
            MaterialModel { specular_exponent: ts[1], ..m },
        ),
        ts.len() > 1 && ts[0] == "d"@ && real_text(ts[1]) ==> edit_material(m, ts, n) == Ok::<MaterialModel, Seq<char>>(
            MaterialModel { opacity: ts[1], opacity_inverted: false, ..m },
        ),
        ts.len() > 1 && ts[0] == "Tr"@ && real_text(ts[1]) ==> edit_material(m, ts, n) == Ok::<MaterialModel, Seq<char>>(
            MaterialModel { opacity: ts[1], opacity_inverted: true, ..m },
        ),
        ts.len() > 1 && ts[0] == "Ni"@ && real_text(ts[1]) ==> edit_material(m, ts, n) == Ok::<MaterialModel, Seq<char>>(
            MaterialModel { refractive_index: ts[1], ..m },
        ),
        ts.len() > 1 && ts[0] == "map_Kd"@ ==> edit_material(m, ts, n) == Ok::<MaterialModel, Seq<char>>(
            MaterialModel { map_diffuse: Some(join_words(ts.skip(1))), ..m },
        ),
        ts.len() > 1 && ts[0] == "map_Ks"@ ==> edit_material(m, ts, n) == Ok::<MaterialModel, Seq<char>>(
            MaterialModel { map_specular: Some(join_words(ts.skip(1))), ..m },
        ),
        ts.len() > 1 && ts[0] == "map_Ka"@ ==> edit_material(m, ts, n) == Ok::<MaterialModel, Seq<char>>(
            MaterialModel { map_ambient: Some(join_words(ts.skip(1))), ..m },
        ),
        ts.len() > 1 && ts[0] == "map_Ke"@ ==> edit_material(m, ts, n) == Ok::<MaterialModel, Seq<char>>(
            MaterialModel { map_emissive: Some(join_words(ts.skip(1))), ..m },
        ),
        ts.len() > 1 && ts[0] == "map_bump"@ ==> edit_material(m, ts, n) == Ok::<MaterialModel, Seq<char>>(
            MaterialModel { map_bump: Some(join_words(ts.skip(1))), ..m },
        ),
        ts.len() > 1 && ts[0] == "bump"@ ==> edit_material(m, ts, n) == Ok::<MaterialModel, Seq<char>>(
            MaterialModel { map_bump: Some(join_words(ts.skip(1))), ..m },
        ),
        ts.len() > 1 && ts[0] == "map_d"@ ==> edit_material(m, ts, n) == Ok::<MaterialModel, Seq<char>>(
            MaterialModel { map_opacity: Some(join_words(ts.skip(1))), ..m },
        ),
        ts.len() > 1 && ts[0] == "norm"@ ==> edit_material(m, ts, n) == Ok::<MaterialModel, Seq<char>>(
            MaterialModel { map_normal: Some(join_words(ts.skip(1))), ..m },
        ),
        ts.len() > 1 && ts[0] == "disp"@ ==> edit_material(m, ts, n) == Ok::<MaterialModel, Seq<char>>(
            MaterialModel { map_displacement: Some(join_words(ts.skip(1))), ..m },
        ),
        ts.len() > 1 && ts[0] == "illum"@ ==> edit_material(m, ts, n) == Ok::<MaterialModel, Seq<char>>(
            MaterialModel { illum_model: match u32_text(ts[1]) {
                Some(v) => v,
                None => 2,
            }, ..m },
        ),
{
    reveal_with_fuel(first_bad_real, 4);
    reveal_strlit("Ka");
    reveal_strlit("Kd");
    reveal_strlit("Ks");
    reveal_strlit("Ke");
    reveal_strlit("Ns");
    reveal_strlit("d");
    reveal_strlit("Tr");
    reveal_strlit("Ni");
    reveal_strlit("illum");
    reveal_strlit("map_Kd");
    reveal_strlit("map_Ks");
    reveal_strlit("map_Ka");
    reveal_strlit("map_Ke");
    reveal_strlit("map_bump");
    reveal_strlit("bump");
    reveal_strlit("map_d");
    reveal_strlit("norm");
    reveal_strlit("disp");
    assert("Kd"@[1] != "Ka"@[1]);
    assert("Ks"@[1] != "Ka"@[1]);
    assert("Ks"@[1] != "Kd"@[1]);
    assert("Ke"@[1] != "Ka"@[1]);
    assert("Ke"@[1] != "Kd"@[1]);
    assert("Ke"@[1] != "Ks"@[1]);
    assert("Ns"@[0] != "Ka"@[0]);
    assert("Ns"@[0] != "Kd"@[0]);
    assert("Ns"@[0] != "Ks"@[0]);
    assert("Ns"@[0] != "Ke"@[0]);
    assert("d"@.len() != "Ka"@.len());
    assert("d"@.len() != "Kd"@.len());
    assert("d"@.len() != "Ks"@.len());
    assert("d"@.len() != "Ke"@.len());
    assert("d"@.len() != "Ns"@.len());
    assert("Tr"@[0] != "Ka"@[0]);
    assert("Tr"@[0] != "Kd"@[0]);
    assert("Tr"@[0] != "Ks"@[0]);
    assert("Tr"@[0] != "Ke"@[0]);
    assert("Tr"@[0] != "Ns"@[0]);
    assert("Tr"@.len() != "d"@.len());
    assert("Ni"@[0] != "Ka"@[0]);
    assert("Ni"@[0] != "Kd"@[0]);
    assert("Ni"@[0] != "Ks"@[0]);
    assert("Ni"@[0] != "Ke"@[0]);
    assert("Ni"@[1] != "Ns"@[1]);
    assert("Ni"@.len() != "d"@.len());
    assert("Ni"@[0] != "Tr"@[0]);
    assert("illum"@.len() != "Ka"@.len());
    assert("illum"@.len() != "Kd"@.len());
    assert("illum"@.len() != "Ks"@.len());
    assert("illum"@.len() != "Ke"@.len());
    assert("illum"@.len() != "Ns"@.len());
    assert("illum"@.len() != "d"@.len());
    assert("illum"@.len() != "Tr"@.len());
    assert("illum"@.len() != "Ni"@.len());
    assert("map_Kd"@.len() != "Ka"@.len());
    assert("map_Kd"@.len() != "Kd"@.len());
    assert("map_Kd"@.len() != "Ks"@.len());
    assert("map_Kd"@.len() != "Ke"@.len());
    assert("map_Kd"@.len() != "Ns"@.len());
    assert("map_Kd"@.len() != "d"@.len());
    assert("map_Kd"@.len() != "Tr"@.len());
    assert("map_Kd"@.len() != "Ni"@.len());
    assert("map_Kd"@.len() != "illum"@.len());
    assert("map_Ks"@.len() != "Ka"@.len());
    assert("map_Ks"@.len() != "Kd"@.len());
    assert("map_Ks"@.len() != "Ks"@.len());
    assert("map_Ks"@.len() != "Ke"@.len());
    assert("map_Ks"@.len() != "Ns"@.len());
    assert("map_Ks"@.len() != "d"@.len());
    assert("map_Ks"@.len() != "Tr"@.len());
    assert("map_Ks"@.len() != "Ni"@.len());
    assert("map_Ks"@.len() != "illum"@.len());
    assert("map_Ks"@[5] != "map_Kd"@[5]);
    assert("map_Ka"@.len() != "Ka"@.len());
    assert("map_Ka"@.len() != "Kd"@.len());
    assert("map_Ka"@.len() != "Ks"@.len());
    assert("map_Ka"@.len() != "Ke"@.len());
    assert("map_Ka"@.len() != "Ns"@.len());
    assert("map_Ka"@.len() != "d"@.len());
    assert("map_Ka"@.len() != "Tr"@.len());
    assert("map_Ka"@.len() != "Ni"@.len());
    assert("map_Ka"@.len() != "illum"@.len());
    assert("map_Ka"@[5] != "map_Kd"@[5]);
    assert("map_Ka"@[5] != "map_Ks"@[5]);
    assert("map_Ke"@.len() != "Ka"@.len());
    assert("map_Ke"@.len() != "Kd"@.len());
    assert("map_Ke"@.len() != "Ks"@.len());
    assert("map_Ke"@.len() != "Ke"@.len());
    assert("map_Ke"@.len() != "Ns"@.len());
    assert("map_Ke"@.len() != "d"@.len());
    assert("map_Ke"@.len() != "Tr"@.len());
    assert("map_Ke"@.len() != "Ni"@.len());
    assert("map_Ke"@.len() != "illum"@.len());
    assert("map_Ke"@[5] != "map_Kd"@[5]);
    assert("map_Ke"@[5] != "map_Ks"@[5]);
    assert("map_Ke"@[5] != "map_Ka"@[5]);
    assert("map_bump"@.len() != "Ka"@.len());
    assert("map_bump"@.len() != "Kd"@.len());
    assert("map_bump"@.len() != "Ks"@.len());
    assert("map_bump"@.len() != "Ke"@.len());
    assert("map_bump"@.len() != "Ns"@.len());
    assert("map_bump"@.len() != "d"@.len());
    assert("map_bump"@.len() != "Tr"@.len());
    assert("map_bump"@.len() != "Ni"@.len());
    assert("map_bump"@.len() != "illum"@.len());
    assert("map_bump"@.len() != "map_Kd"@.len());
    assert("map_bump"@.len() != "map_Ks"@.len());
    assert("map_bump"@.len() != "map_Ka"@.len());
    assert("map_bump"@.len() != "map_Ke"@.len());
    assert("bump"@.len() != "Ka"@.len());
    assert("bump"@.len() != "Kd"@.len());
    assert("bump"@.len() != "Ks"@.len());
    assert("bump"@.len() != "Ke"@.len());
    assert("bump"@.len() != "Ns"@.len());
    assert("bump"@.len() != "d"@.len());
    assert("bump"@.len() != "Tr"@.len());
    assert("bump"@.len() != "Ni"@.len());
    assert("bump"@.len() != "illum"@.len());
    assert("bump"@.len() != "map_Kd"@.len());
    assert("bump"@.len() != "map_Ks"@.len());
    assert("bump"@.len() != "map_Ka"@.len());
    assert("bump"@.len() != "map_Ke"@.len());
    assert("bump"@.len() != "map_bump"@.len());
    assert("map_d"@.len() != "Ka"@.len());
    assert("map_d"@.len() != "Kd"@.len());
    assert("map_d"@.len() != "Ks"@.len());
    assert("map_d"@.len() != "Ke"@.len());
    assert("map_d"@.len() != "Ns"@.len());
    assert("map_d"@.len() != "d"@.len());
    assert("map_d"@.len() != "Tr"@.len());
    assert("map_d"@.len() != "Ni"@.len());
    assert("map_d"@[0] != "illum"@[0]);
    assert("map_d"@.len() != "map_Kd"@.len());
    assert("map_d"@.len() != "map_Ks"@.len());
    assert("map_d"@.len() != "map_Ka"@.len());
    assert("map_d"@.len() != "map_Ke"@.len());
    assert("map_d"@.len() != "map_bump"@.len());
    assert("map_d"@.len() != "bump"@.len());
    assert("norm"@.len() != "Ka"@.len());
    assert("norm"@.len() != "Kd"@.len());
    assert("norm"@.len() != "Ks"@.len());
    assert("norm"@.len() != "Ke"@.len());
    assert("norm"@.len() != "Ns"@.len());
    assert("norm"@.len() != "d"@.len());
    assert("norm"@.len() != "Tr"@.len());
    assert("norm"@.len() != "Ni"@.len());
    assert("norm"@.len() != "illum"@.len());
    assert("norm"@.len() != "map_Kd"@.len());
    assert("norm"@.len() != "map_Ks"@.len());
    assert("norm"@.len() != "map_Ka"@.len());
    assert("norm"@.len() != "map_Ke"@.len());
    assert("norm"@.len() != "map_bump"@.len());
    assert("norm"@[0] != "bump"@[0]);
    assert("norm"@.len() != "map_d"@.len());
    assert("disp"@.len() != "Ka"@.len());
    assert("disp"@.len() != "Kd"@.len());
    assert("disp"@.len() != "Ks"@.len());
    assert("disp"@.len() != "Ke"@.len());
    assert("disp"@.len() != "Ns"@.len());
    assert("disp"@.len() != "d"@.len());
    assert("disp"@.len() != "Tr"@.len());
    assert("disp"@.len() != "Ni"@.len());
    assert("disp"@.len() != "illum"@.len());
    assert("disp"@.len() != "map_Kd"@.len());
    assert("disp"@.len() != "map_Ks"@.len());
    assert("disp"@.len() != "map_Ka"@.len());
    assert("disp"@.len() != "map_Ke"@.len());
    assert("disp"@.len() != "map_bump"@.len());
    assert("disp"@[0] != "bump"@[0]);
    assert("disp"@.len() != "map_d"@.len());
    assert("disp"@[0] != "norm"@[0]);
    if ts.len() >= 4 {
        assert(real_text(ts[1]) && real_text(ts[2]) && real_text(ts[3]) ==> first_bad_real(ts, 1, 4) is None);
    }
}

/// The materials read so far and the one being read.
pub struct MtlState {
    pub materials: Seq<MaterialModel>,
    pub current: Option<MaterialModel>,
}

/// The materials once the one being read is stored.
pub open spec fn finished(st: MtlState) -> Seq<MaterialModel> {
    match st.current {
        Some(m) => insert_material(st.materials, m),
        None => st.materials,
    }
}

/// What an MTL line with the words `ts`, on line `n`, does: `newmtl`
/// stores the material being read and starts one with the default values,
/// or none when no name follows; other lines change the material being
/// read, if there is one.
pub open spec fn mtl_directive(st: MtlState, ts: Seq<Seq<char>>, n: nat) -> Result<MtlState, Seq<char>> {
    if ts[0] == "newmtl"@ {
        Ok(
            MtlState {
                materials: finished(st),
                current: if ts.len() > 1 {
                    Some(default_material(join_words(ts.skip(1))))
                } else {
                    None
                },
            },
        )
    } else {
        match st.current {
            None => Ok(st),
            Some(m) => match edit_material(m, ts, n) {
                Ok(m2) => Ok(MtlState { materials: st.materials, current: Some(m2) }),
                Err(e) => Err(e),
            },
        }
    }
}

/// The materials, line count and error after reading MTL text.
pub struct MtlRun {
    pub materials: Seq<MaterialModel>,
    pub line_number: nat,
    pub error: Option<Seq<char>>,
}

/// What the MTL lines `ls` do from `st`, counting on from line `n`; on an
/// error the material being read is lost and reading stops.
pub open spec fn mtl_lines(st: MtlState, ls: Seq<Seq<char>>, n: nat) -> MtlRun
    decreases ls.len(),
{
    if ls.len() == 0 {
        MtlRun { materials: finished(st), line_number: n, error: None }
    } else {
        let ts = mtl_tokens(ls[0]);
        if ts.len() == 0 {
            mtl_lines(st, ls.drop_first(), n + 1)
        } else {
            match mtl_directive(st, ts, n + 1) {
                Err(e) => MtlRun { materials: st.materials, line_number: n + 1, error: Some(e) },
                Ok(st2) => mtl_lines(st2, ls.drop_first(), n + 1),
            }
        }
    }
}

/// The value of a material that may be absent.
pub open spec fn maybe_model(m: Option<Material>) -> Option<MaterialModel> {
    match m {
        Some(x) => Some(x@),
        None => None,
    }
}

/// Stores `m` under its name among `ms`.
pub fn store_material(ms: &mut Vec<Material>, m: Material)
    ensures
        models(final(ms)@) == insert_material(models(old(ms)@), m@),
{
    proof {
        lemma_position_of(material_names(models(ms@)), m.name@);
    }
    match find_material(ms, &m.name) {
        Some(i) => {
            let ghost mm = m@;
            ms.set(i, m);
            assert(models(ms@) =~= models(old(ms)@).update(i as int, mm));
        },
        None => {
            let ghost mm = m@;
            ms.push(m);
            assert(models(ms@) =~= models(old(ms)@).push(mm));
        },
    }
}

/// The error `rest` about line `n`.
fn mtl_line_error(n: usize, rest: &str) -> (r: Error)
    ensures
        reports(Err(r), Some(line_message(n as nat, rest@))),
{
    let mut d = string_of("Line ");
    push_usize(&mut d, n);
    push_str(&mut d, rest);
    Error::Unknown { description: d, stack: None }
}

/// The error for the text `t` on line `n` that is no number.
fn number_error(n: usize, t: &Vec<char>) -> (r: Error)
    ensures
        reports(Err(r), Some(invalid_number(n as nat, t@))),
{
    let mut d = string_of("Line ");
    push_usize(&mut d, n);
    push_str(&mut d, ": Invalid number '");
    crate::obj::lines::push_chars(&mut d, t);
    push_str(&mut d, "'");
    assert(d@ =~= invalid_number(n as nat, t@));
    Error::Unknown { description: d, stack: None }
}

/// The colour texts of the line `ts` on line `n`.
fn read_color(ts: &Vec<Vec<char>>, n: usize) -> (r: Result<Vec<String>, Error>)
    requires
        ts@.len() >= 1,
    ensures
        match r {
            Ok(c) => color_texts(ts.deep_view(), n as nat) == Ok::<Seq<Seq<char>>, Seq<char>>(
                c.deep_view(),
            ),
            Err(e) => color_texts(ts.deep_view(), n as nat) is Err && reports(
                Err(e),
                Some(color_texts(ts.deep_view(), n as nat)->Err_0),
            ),
        },
{
    let ghost dv = ts.deep_view();
    if ts.len() < 4 {
        return Err(mtl_line_error(n, ": Expected 3 values for Vec3"));
    }
    let mut out: Vec<String> = Vec::new();
    let mut i: usize = 1;
    while i < 4
        invariant
            1 <= i <= 4 <= ts@.len(),
            dv == ts.deep_view(),
            bad_real_message(dv, 1, 4, n as nat) == bad_real_message(dv, i as int, 4, n as nat),
            out.deep_view() == dv.subrange(1, i as int),
        decreases 4 - i,
    {
        assert(dv[i as int] =~= ts@[i as int]@);
        if !is_real(&ts[i]) {
            return Err(number_error(n, &ts[i]));
        }
        let t = string_of_chars(&ts[i]);
        let ghost before = out.deep_view();
        out.push(t);
        assert(out.deep_view() =~= before.push(dv[i as int]));
        i = i + 1;
        assert(out.deep_view() =~= dv.subrange(1, i as int));
    }
    Ok(out)
}

/// The number text of the line `ts` on line `n`.
fn read_number(ts: &Vec<Vec<char>>, n: usize) -> (r: Result<String, Error>)
    requires
        ts@.len() >= 2,
    ensures
        match r {
            Ok(t) => number_text(ts.deep_view(), n as nat) == Ok::<Seq<char>, Seq<char>>(t@),
            Err(e) => number_text(ts.deep_view(), n as nat) is Err && reports(
                Err(e),
                Some(number_text(ts.deep_view(), n as nat)->Err_0),
            ),
        },
{
    assert(ts.deep_view()[1] =~= ts@[1]@);
    if !is_real(&ts[1]) {
        return Err(number_error(n, &ts[1]));
    }
    Ok(string_of_chars(&ts[1]))
}

/// Applies the line `ts`, on line `n`, to the material `m`.
fn edit(m: Material, ts: &Vec<Vec<char>>, n: usize) -> (r: Result<Material, Error>)
    requires
        ts@.len() >= 1,
    ensures
        match r {
            Ok(m2) => edit_material(m@, ts.deep_view(), n as nat) == Ok::<MaterialModel, Seq<char>>(
                m2@,
            ),
            Err(e) => edit_material(m@, ts.deep_view(), n as nat) is Err && reports(
                Err(e),
                Some(edit_material(m@, ts.deep_view(), n as nat)->Err_0),
            ),
        },
{
    let ghost dv = ts.deep_view();
    let ghost old_m = m@;
    let mut m = m;
    let key = &ts[0];
    assert(dv[0] =~= key@);
    if chars_are(key, "Ka") {
        let c = read_color(ts, n)?;
        m.ambient = c;
        assert(m@ =~= MaterialModel { ambient: m@.ambient, ..old_m });
    } else if chars_are(key, "Kd") {
        let c = read_color(ts, n)?;
        m.diffuse = c;
        assert(m@ =~= MaterialModel { diffuse: m@.diffuse, ..old_m });
    } else if chars_are(key, "Ks") {
        let c = read_color(ts, n)?;
        m.specular = c;
        assert(m@ =~= MaterialModel { specular: m@.specular, ..old_m });
    } else if chars_are(key, "Ke") {
        let c = read_color(ts, n)?;
        m.emissive = c;
        assert(m@ =~= MaterialModel { emissive: m@.emissive, ..old_m });
    } else if ts.len() <= 1 {
    } else if chars_are(key, "Ns") {
        m.specular_exponent = read_number(ts, n)?;
    } else if chars_are(key, "d") {
        m.opacity = read_number(ts, n)?;
        m.opacity_inverted = false;
    } else if chars_are(key, "Tr") {
        m.opacity = read_number(ts, n)?;
        m.opacity_inverted = true;
    } else if chars_are(key, "Ni") {
        m.refractive_index = read_number(ts, n)?;
    } else if chars_are(key, "illum") {
        assert(dv[1] =~= ts@[1]@);
        m.illum_model = match parse_u32_chars(&ts[1]) {
            Some(v) => v,
            None => 2,
        };
    } else {
        let is_map = chars_are(key, "map_Kd") || chars_are(key, "map_Ks") || chars_are(key, "map_Ka")
            || chars_are(key, "map_Ke") || chars_are(key, "map_bump") || chars_are(key, "bump")
            || chars_are(key, "map_d") || chars_are(key, "norm") || chars_are(key, "disp");
        if is_map {
            let text = join_from(ts, 1);
            let ghost t = text@;
            if chars_are(key, "map_Kd") {
                m.map_diffuse = Some(text);
            } else if chars_are(key, "map_Ks") {
                m.map_specular = Some(text);
            } else if chars_are(key, "map_Ka") {
                m.map_ambient = Some(text);
            } else if chars_are(key, "map_Ke") {
                m.map_emissive = Some(text);
            } else if chars_are(key, "map_bump") || chars_are(key, "bump") {
                m.map_bump = Some(text);
            } else if chars_are(key, "map_d") {
                m.map_opacity = Some(text);
            } else if chars_are(key, "norm") {
                m.map_normal = Some(text);
            } else {
                m.map_displacement = Some(text);
            }
        }
    }
    Ok(m)
}

/// Applies the MTL line `ts`, on line `n`, to the stored materials `ms`
/// and the material `current` being read.
fn apply_mtl(ms: &mut Vec<Material>, current: &mut Option<Material>, ts: &Vec<Vec<char>>, n: usize) -> (r: Result<(), Error>)
    requires
        ts@.len() >= 1,
    ensures
        match mtl_directive(
            MtlState { materials: models(old(ms)@), current: maybe_model(*old(current)) },
            ts.deep_view(),
            n as nat,
        ) {
            Ok(st) => r is Ok && models(final(ms)@) == st.materials && maybe_model(*final(current))
                == st.current,
            Err(e) => reports(r, Some(e)) && final(ms)@ == old(ms)@,
        },
{
    let ghost dv = ts.deep_view();
    assert(dv[0] =~= ts@[0]@);
    if chars_are(&ts[0], "newmtl") {
        let taken = current.take();
        match taken {
            Some(m) => store_material(ms, m),
            None => {},
        }
        if ts.len() > 1 {
            let name = join_from(ts, 1);
            *current = Some(Material::with_name(name));
        } else {
            *current = None;
        }
        Ok(())
    } else {
        match current.take() {
            None => Ok(()),
            Some(m) => {
                let m2 = edit(m, ts, n)?;
                *current = Some(m2);
                Ok(())
            },
        }
    }
}

/// Reads the MTL line `cs[a..b]`, line `n`, into the stored materials `ms`
/// and the material `current` being read.
fn read_mtl_line(
    ms: &mut Vec<Material>,
    current: &mut Option<Material>,
    cs: &Vec<char>,
    a: usize,
    b: usize,
    n: usize,
) -> (r: Result<(), Error>)
    requires
        a <= b <= cs@.len(),
    ensures
        ({
            let ts = mtl_tokens(cs@.subrange(a as int, b as int));
            let st = MtlState { materials: models(old(ms)@), current: maybe_model(*old(current)) };
            if ts.len() == 0 {
                r is Ok && final(ms)@ == old(ms)@ && *final(current) == *old(current)
            } else {
                match mtl_directive(st, ts, n as nat) {
                    Ok(st2) => r is Ok && models(final(ms)@) == st2.materials && maybe_model(
                        *final(current),
                    ) == st2.current,
                    Err(e) => reports(r, Some(e)) && final(ms)@ == old(ms)@,
                }
            }
        }),
{
    let ghost line = cs@.subrange(a as int, b as int);
    let a2 = skip_ws(cs, a, b);
    let b2 = trim_end_at(cs, a2, b);
    proof {
        lemma_lead_ws(line);
        let t = line.skip(lead_ws(line) as int);
        assert(t =~= cs@.subrange(a2 as int, b as int));
        assert(trim(line) =~= cs@.subrange(a2 as int, b2 as int));
    }
    if a2 < b2 && cs[a2] != '#' {
        let ts = split_words(cs, a2, b2);
        proof {
            assert(cs@.subrange(a2 as int, b2 as int)[0] == line[lead_ws(line) as int]);
            lemma_words_nonempty(cs@.subrange(a2 as int, b2 as int));
        }
        apply_mtl(ms, current, &ts, n)
    } else {
        Ok(())
    }
}

impl ObjParser {
    /// Reads MTL text into the parser's materials, counting its lines from
    /// one. A material is stored under its name, in place of one of the
    /// same name. Reading stops at the first line that fails, with that
    /// line's error; the material being read then is lost.
    pub fn parse_mtl(&mut self, content: &str) -> (r: Result<(), Error>)
        ensures
            ({
                let run = mtl_lines(
                    MtlState { materials: old(self)@.materials, current: None },
                    lines_of(content@),
                    0,
                );
                &&& final(self)@ == (ParserModel {
                    materials: run.materials,
                    line_number: run.line_number,
                    ..old(self)@
                })
                &&& reports(r, run.error)
            }),
    {
        let cs = chars_of(content);
        self.line_number = 0;
        let mut current: Option<Material> = None;
        let ghost start = MtlState { materials: old(self)@.materials, current: None };
        let mut pos: usize = 0;
        assert(cs@.skip(0) =~= cs@);
        while pos < cs.len()
            invariant
                pos <= cs@.len(),
                self.line_number <= pos,
                cs@ == content@,
                start == (MtlState { materials: old(self)@.materials, current: None }),
                self@ == (ParserModel {
                    materials: self@.materials,
                    line_number: self@.line_number,
                    ..old(self)@
                }),
                mtl_lines(start, lines_of(cs@), 0) == mtl_lines(
                    MtlState { materials: models(self.materials@), current: maybe_model(current) },
                    lines_of(cs@.skip(pos as int)),
                    self.line_number as nat,
                ),
            decreases cs@.len() - pos,
        {
            let (end, next) = next_line(&cs, pos);
            let ghost rest = lines_of(cs@.skip(pos as int));
            assert(rest[0] == cs@.subrange(pos as int, end as int));
            assert(rest.drop_first() =~= lines_of(cs@.skip(next as int)));
            self.line_number = self.line_number + 1;
            let n = self.line_number;
            match read_mtl_line(&mut self.materials, &mut current, &cs, pos, end, n) {
                Ok(()) => {},
                Err(e) => {
                    return Err(e);
                },
            }
            pos = next;
        }
        assert(lines_of(cs@.skip(pos as int)) =~= Seq::<Seq<char>>::empty());
        match current {
            Some(m) => store_material(&mut self.materials, m),
            None => {},
        }
        Ok(())
    }
}

} // verus!
