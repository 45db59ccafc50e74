//! Materials of MTL files, their values kept as the texts that spell them.
use vstd::prelude::*;
use crate::obj::lines::{nat_of, position_of, same_text, shifted};
use crate::text::string_of;

verus! {

/// A material read from an MTL file. Each colour is the three texts of its
/// components and each number the text that spells it, as they stand in
/// the file; converting them to floating point is left to the reader.
#[derive(Debug)]
pub struct Material {
    pub name: String,
    pub ambient: Vec<String>,
    pub diffuse: Vec<String>,
    pub specular: Vec<String>,
    pub emissive: Vec<String>,
    pub specular_exponent: String,
    /// The opacity, or the transparency when `opacity_inverted` is set, in
    /// which case the opacity is one minus it.
    pub opacity: String,
    pub opacity_inverted: bool,
    pub refractive_index: String,
    pub illum_model: u32,
    pub map_diffuse: Option<String>,
    pub map_specular: Option<String>,
    pub map_ambient: Option<String>,
    pub map_emissive: Option<String>,
    pub map_bump: Option<String>,
    pub map_normal: Option<String>,
    pub map_displacement: Option<String>,
    pub map_opacity: Option<String>,
}

/// The value of a [`Material`].
#[verifier::ext_equal]
pub struct MaterialModel {
    pub name: Seq<char>,
    pub ambient: Seq<Seq<char>>,
    pub diffuse: Seq<Seq<char>>,
    pub specular: Seq<Seq<char>>,
    pub emissive: Seq<Seq<char>>,
    pub specular_exponent: Seq<char>,
    pub opacity: Seq<char>,
    pub opacity_inverted: bool,
    pub refractive_index: Seq<char>,
    pub illum_model: u32,
    pub map_diffuse: Option<Seq<char>>,
    pub map_specular: Option<Seq<char>>,
    pub map_ambient: Option<Seq<char>>,
    pub map_emissive: Option<Seq<char>>,
    pub map_bump: Option<Seq<char>>,
    pub map_normal: Option<Seq<char>>,
    pub map_displacement: Option<Seq<char>>,
    pub map_opacity: Option<Seq<char>>,
}

impl View for Material {
    type V = MaterialModel;

    open spec fn view(&self) -> MaterialModel {
        MaterialModel {
            name: self.name@,
            ambient: self.ambient.deep_view(),
            diffuse: self.diffuse.deep_view(),
            specular: self.specular.deep_view(),
            emissive: self.emissive.deep_view(),
            specular_exponent: self.specular_exponent@,
            opacity: self.opacity@,
            opacity_inverted: self.opacity_inverted,
            refractive_index: self.refractive_index@,
            illum_model: self.illum_model,
            map_diffuse: self.map_diffuse.deep_view(),
            map_specular: self.map_specular.deep_view(),
            map_ambient: self.map_ambient.deep_view(),
            map_emissive: self.map_emissive.deep_view(),
            map_bump: self.map_bump.deep_view(),
            map_normal: self.map_normal.deep_view(),
            map_displacement: self.map_displacement.deep_view(),
            map_opacity: self.map_opacity.deep_view(),
        }
    }
}

/// The three texts of a colour whose components all read `c`.
pub open spec fn grey(c: Seq<char>) -> Seq<Seq<char>> {
    seq![c, c, c]
}

/// A material called `name` with the default values: ambient 0.2, diffuse
/// 0.8, no specular or emissive colour, exponent 0, opacity 1, refractive
/// index 1, illumination model 2 and no maps.
pub open spec fn default_material(name: Seq<char>) -> MaterialModel {
    MaterialModel {
        name,
        ambient: grey("0.2"@),
        diffuse: grey("0.8"@),
        specular: grey("0.0"@),
        emissive: grey("0.0"@),
        specular_exponent: "0.0"@,
        opacity: "1.0"@,
        opacity_inverted: false,
        refractive_index: "1.0"@,
        illum_model: 2,
        map_diffuse: None,
        map_specular: None,
        map_ambient: None,
        map_emissive: None,
        map_bump: None,
        map_normal: None,
        map_displacement: None,
        map_opacity: None,
    }
}

/// The values of the materials `ms`.
pub open spec fn models(ms: Seq<Material>) -> Seq<MaterialModel> {
    Seq::new(ms.len(), |i: int| ms[i]@)
}

/// The names of `ms`, in order.
pub open spec fn material_names(ms: Seq<MaterialModel>) -> Seq<Seq<char>> {
    Seq::new(ms.len(), |i: int| ms[i].name)
}

/// `ms` after storing `m` under its name: it takes the place of the
/// material of that name, or comes last when there is none.
pub open spec fn insert_material(ms: Seq<MaterialModel>, m: MaterialModel) -> Seq<MaterialModel> {
    match position_of(material_names(ms), m.name) {
        Some(i) => ms.update(i as int, m),
        None => ms.push(m),
    }
}

/// Index of the first of `ms` called `name`.
pub fn find_material(ms: &Vec<Material>, name: &String) -> (r: Option<usize>)
    ensures
        nat_of(r) == position_of(material_names(models(ms@)), name@),
{
    let ghost names = material_names(models(ms@));
    let mut i: usize = 0;
    assert(names.skip(0) =~= names);
    assert(position_of(names, name@) == shifted(position_of(names.skip(0), name@), 0));
    while i < ms.len()
        invariant
            names == material_names(models(ms@)),
            0 <= i <= ms@.len(),
            position_of(names, name@) == shifted(position_of(names.skip(i as int), name@), i as nat),
        decreases ms@.len() - i,
    {
        let ghost rest = names.skip(i as int);
        assert(rest[0] == ms@[i as int].name@);
        if same_text(&ms[i].name, name) {
            return Some(i);
        }
        assert(rest.drop_first() =~= names.skip(i + 1));
        i = i + 1;
    }
    assert(names.skip(i as int) =~= Seq::<Seq<char>>::empty());
    None
}

/// The three texts of a colour whose components all read `c`.
fn grey_texts(c: &str) -> (r: Vec<String>)
    ensures
        r.deep_view() == grey(c@),
{
    let mut v: Vec<String> = Vec::new();
    v.push(string_of(c));
    v.push(string_of(c));
    v.push(string_of(c));
    assert(v.deep_view() =~= grey(c@));
    v
}

impl Material {
    /// A material called `name` with the default values.
    pub fn with_name(name: String) -> (r: Material)
        ensures
            r@ == default_material(name@),
    {
        Material {
            name,
            ambient: grey_texts("0.2"),
            diffuse: grey_texts("0.8"),
            specular: grey_texts("0.0"),
            emissive: grey_texts("0.0"),
            specular_exponent: string_of("0.0"),
            opacity: string_of("1.0"),
            opacity_inverted: false,
            refractive_index: string_of("1.0"),
            illum_model: 2,
            map_diffuse: None,
            map_specular: None,
            map_ambient: None,
            map_emissive: None,
            map_bump: None,
            map_normal: None,
            map_displacement: None,
            map_opacity: None,
        }
    }
}

impl Default for Material {
    /// The material called `default` with the default values.
    fn default() -> (r: Material)
        ensures
            r@ == default_material("default"@),
    {
        Material::with_name(string_of("default"))
    }
}

} // verus!
