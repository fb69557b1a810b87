use vstd::prelude::*;

verus! {

/// Declares glam's 3-component vector so that positions and normals can be
/// carried through the library as opaque values.
#[verifier::external_type_specification]
#[verifier::external_body]
pub struct ExVec3(glam::Vec3);

/// Declares glam's 2-component vector so that texture coordinates can be
/// carried through the library as opaque values.
#[verifier::external_type_specification]
#[verifier::external_body]
pub struct ExVec2(glam::Vec2);

/// Declares glam's affine transform, the caller-supplied mapping applied to
/// every ingested position and normal.
#[verifier::external_type_specification]
#[verifier::external_body]
pub struct ExAffine3A(glam::Affine3A);

/// Holds exactly of the byte strings that are UTF-8 text accepted by
/// `str::parse` for glam's scalar type; the outcome depends on the bytes
/// alone.
pub uninterp spec fn is_fnum(s: Seq<u8>) -> bool;

/// The vector that three scalar tokens parse to; `str::parse` and
/// `glam::Vec3::new` depend on their arguments alone.
pub uninterp spec fn vec3_of(a: Seq<u8>, b: Seq<u8>, c: Seq<u8>) -> glam::Vec3;

/// The vector that two scalar tokens parse to; `str::parse` and
/// `glam::Vec2::new` depend on their arguments alone.
pub uninterp spec fn vec2_of(a: Seq<u8>, b: Seq<u8>) -> glam::Vec2;

/// What `glam::Affine3A::transform_point3` returns: a function of the
/// transform and the point alone.
pub uninterp spec fn xform_pt(t: glam::Affine3A, v: glam::Vec3) -> glam::Vec3;

/// What `glam::Affine3A::transform_vector3` returns: a function of the
/// transform and the direction alone.
pub uninterp spec fn xform_nrm(t: glam::Affine3A, v: glam::Vec3) -> glam::Vec3;

/// Relies on str::parse for glam's scalar type: whether a scalar token
/// parses depends on its text alone.
#[verifier::external_body]
pub(crate) fn scan_fnum(t: &[u8]) -> (r: bool)
    ensures
        r == is_fnum(t@),
{
    match std::str::from_utf8(t) {
        // splat fixes the parsed type to glam's scalar
        Ok(s) => s.parse().map(glam::Vec3::splat).is_ok(),
        Err(_) => false,
    }
}

/// Relies on str::parse and glam::Vec3::new: builds a vector from three
/// scalar tokens and succeeds exactly when every token parses.
#[verifier::external_body]
pub(crate) fn parse_vec3(a: &[u8], b: &[u8], c: &[u8]) -> (r: Option<glam::Vec3>)
    ensures
        (r is Some) == (is_fnum(a@) && is_fnum(b@) && is_fnum(c@)),
        r matches Some(v) ==> v == vec3_of(a@, b@, c@),
{
    match (std::str::from_utf8(a), std::str::from_utf8(b), std::str::from_utf8(c)) {
        (Ok(x), Ok(y), Ok(z)) => match (x.parse(), y.parse(), z.parse()) {
            (Ok(x), Ok(y), Ok(z)) => Some(glam::Vec3::new(x, y, z)),
            _ => None,
        },
        _ => None,
    }
}

/// Relies on str::parse and glam::Vec2::new: builds a vector from two
/// scalar tokens and succeeds exactly when both tokens parse.
#[verifier::external_body]
pub(crate) fn parse_vec2(a: &[u8], b: &[u8]) -> (r: Option<glam::Vec2>)
    ensures
        (r is Some) == (is_fnum(a@) && is_fnum(b@)),
        r matches Some(v) ==> v == vec2_of(a@, b@),
{
    match (std::str::from_utf8(a), std::str::from_utf8(b)) {
        (Ok(x), Ok(y)) => match (x.parse(), y.parse()) {
            (Ok(x), Ok(y)) => Some(glam::Vec2::new(x, y)),
            _ => None,
        },
        _ => None,
    }
}

/// Relies on glam::Affine3A::transform_point3: carries an ingested position
/// into world space. The result is named, not described: nothing is claimed
/// of the coordinates.
#[verifier::external_body]
pub(crate) fn transform_point(t: &glam::Affine3A, v: glam::Vec3) -> (r: glam::Vec3)
    ensures
        r == xform_pt(*t, v),
{
    t.transform_point3(v)
}

/// Relies on glam::Affine3A::transform_vector3: carries an ingested normal
/// into world space as a direction, without translation and without the
/// inverse-transpose correction. Nothing is claimed of the resulting
/// coordinates beyond the name.
#[verifier::external_body]
pub(crate) fn transform_normal(t: &glam::Affine3A, v: glam::Vec3) -> (r: glam::Vec3)
    ensures
        r == xform_nrm(*t, v),
{
    t.transform_vector3(v)
}

} // verus!
