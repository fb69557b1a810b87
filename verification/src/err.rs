use vstd::prelude::*;

verus! {

/// The ways a load can fail. Every error is fatal to the whole load: the
/// first failure aborts the pass and no partial mesh is returned.
///
/// `MissingScalar`: a numeric field of a `v`/`vt`/`vn` record was absent.
/// `MalformedScalar`: a non-empty numeric field did not parse, or a parsed
/// face index resolved outside its attribute pool (a literal `0` always
/// does).
/// `MissingPositionIndex`: a face corner omitted the mandatory position field.
/// `UnsupportedFaceArity`: a face had neither 3 nor 4 corners; carries the
/// observed corner count.
#[derive(Clone, Copy, Debug, PartialEq, Eq, Structural)]
pub enum ObjError {
    MissingScalar,
    MalformedScalar,
    MissingPositionIndex,
    UnsupportedFaceArity(usize),
}

} // verus!
