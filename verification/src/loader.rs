use crate::err::ObjError;
use crate::geom;
use crate::num::{int_val, parse_i32, parses_i32};
use crate::tok::{fields_of, lemma_fields_nonempty, split_sep, split_ws, tokens_of};
use vstd::prelude::*;

verus! {

/// One emitted triangle: three welded-vertex indices, in winding order.
#[derive(Clone, Copy, Debug, PartialEq, Eq, Structural)]
pub struct Face(pub usize, pub usize, pub usize);

/// The deduplication key of a welded vertex: resolved indices into the raw
/// position, texture-coordinate and normal pools; `None` marks an attribute
/// absent from the corner reference.
#[derive(Clone, Copy, Debug)]
pub struct VertexKey {
    pub p: usize,
    pub t: Option<usize>,
    pub n: Option<usize>,
}

/// The welded mesh: positions, normals and texture coordinates indexed by
/// welded-vertex index. A normal or texture coordinate is appended only when
/// the welded vertex carries it, so `n` and `uv` are parallel to `p` only if
/// every vertex uniformly carries that attribute. Absent attributes are not
/// padded: the arrays keep the lengths the input determines.
pub struct MeshData {
    pub p: Vec<glam::Vec3>,
    pub n: Vec<glam::Vec3>,
    pub uv: Vec<glam::Vec2>,
}

impl Default for MeshData {
    /// An empty mesh.
    fn default() -> (r: MeshData)
        ensures
            r.p@.len() == 0 && r.n@.len() == 0 && r.uv@.len() == 0,
    {
        MeshData { p: Vec::new(), n: Vec::new(), uv: Vec::new() }
    }
}

/// Resolves one reference field against a pool of length `len`: a positive
/// value is 1-based from the front, a non-positive value is relative to the
/// end (`-1` names the most recently appended entry; `0` is always out of
/// range). `None` when the resolved index falls outside the pool.
pub open spec fn spec_resolve(v: int, len: nat) -> Option<int> {
    if v > 0 {
        if v - 1 < len {
            Some(v - 1)
        } else {
            None
        }
    } else {
        if 0 <= v + len && v + len < len {
            Some(v + len)
        } else {
            None
        }
    }
}

pub fn resolve_index(v: i32, len: usize) -> (r: Option<usize>)
    ensures
        r is Some <==> spec_resolve(v as int, len as nat) is Some,
        r matches Some(i) ==> Some(i as int) == spec_resolve(v as int, len as nat),
{
    if v > 0 {
        let u = (v as usize) - 1;
        if u < len {
            Some(u)
        } else {
            None
        }
    } else {
        let k = (-(v as i64)) as usize;
        if 1 <= k && k <= len {
            Some(len - k)
        } else {
            None
        }
    }
}

/// An optional reference field of a corner token (`t` or `n`): an absent or
/// empty field is the sentinel, but a non-empty field that does not parse,
/// or a parsed value that resolves outside its pool, is an error.
pub open spec fn spec_opt_field(fs: Seq<Seq<u8>>, j: int, len: nat) -> Result<
    Option<int>,
    ObjError,
> {
    if fs.len() <= j || fs[j].len() == 0 {
        Ok(None)
    } else if !parses_i32(fs[j]) {
        Err(ObjError::MalformedScalar)
    } else {
        match spec_resolve(int_val(fs[j]), len) {
            Some(i) => Ok(Some(i)),
            None => Err(ObjError::MalformedScalar),
        }
    }
}

/// Resolves one face-corner token `p[/t[/n]]` against the current pool
/// lengths. The position field is mandatory: empty is
/// `MissingPositionIndex`, unparsable is `MalformedScalar`. Any other
/// non-empty field that fails to parse, and any field that parses but
/// resolves out of range, is `MalformedScalar`; an absent or empty `t` or
/// `n` field is the sentinel.
pub open spec fn spec_corner(tok: Seq<u8>, np: nat, nuv: nat, nn: nat) -> Result<
    VertexKey,
    ObjError,
> {
    let fs = fields_of(tok, 47);
    if fs[0].len() == 0 {
        Err(ObjError::MissingPositionIndex)
    } else if !parses_i32(fs[0]) {
        Err(ObjError::MalformedScalar)
    } else {
        match spec_resolve(int_val(fs[0]), np) {
            None => Err(ObjError::MalformedScalar),
            Some(p) => match spec_opt_field(fs, 1, nuv) {
                Err(e) => Err(e),
                Ok(t) => match spec_opt_field(fs, 2, nn) {
                    Err(e) => Err(e),
                    Ok(n) => Ok(
                        VertexKey {
                            p: p as usize,
                            t: match t {
                                Some(i) => Some(i as usize),
                                None => None,
                            },
                            n: match n {
                                Some(i) => Some(i as usize),
                                None => None,
                            },
                        },
                    ),
                },
            },
        }
    }
}

/// The key's indices all lie inside the pools they reference.
pub open spec fn key_in_range(k: VertexKey, np: nat, nuv: nat, nn: nat) -> bool {
    &&& (k.p as nat) < np
    &&& (k.t matches Some(t) ==> (t as nat) < nuv)
    &&& (k.n matches Some(n) ==> (n as nat) < nn)
}

fn opt_field(fs: &Vec<Vec<u8>>, j: usize, len: usize) -> (r: Result<Option<usize>, ObjError>)
    requires
        j < fs@.len(),
    ensures
        ({
            let sr = spec_opt_field(fs.deep_view(), j as int, len as nat);
            match r {
                Ok(Some(i)) => sr == Result::<Option<int>, ObjError>::Ok(Some(i as int)) && i
                    < len,
                Ok(None) => sr == Result::<Option<int>, ObjError>::Ok(Option::<int>::None),
                Err(e) => sr == Result::<Option<int>, ObjError>::Err(e),
            }
        }),
{
    proof {
        assert(fs@[j as int].deep_view() =~= fs@[j as int]@);
    }
    if fs[j].len() == 0 {
        return Ok(None);
    }
    match parse_i32(fs[j].as_slice()) {
        None => Err(ObjError::MalformedScalar),
        Some(v) => match resolve_index(v, len) {
            Some(i) => Ok(Some(i)),
            None => Err(ObjError::MalformedScalar),
        },
    }
}

/// Resolves one face-corner token against the current pool lengths.
pub fn parse_corner(tok: &[u8], np: usize, nuv: usize, nn: usize) -> (r: Result<
    VertexKey,
    ObjError,
>)
    ensures
        r == spec_corner(tok@, np as nat, nuv as nat, nn as nat),
        r matches Ok(k) ==> key_in_range(k, np as nat, nuv as nat, nn as nat),
{
    let fs = split_sep(tok, 47);
    proof {
        lemma_fields_nonempty(tok@, 47);
        assert forall|k: int| 0 <= k < fs@.len() implies fs.deep_view()[k] == fs@[k]@ by {
            assert(fs@[k].deep_view() =~= fs@[k]@);
        }
    }
    if fs[0].len() == 0 {
        return Err(ObjError::MissingPositionIndex);
    }
    let p = match parse_i32(fs[0].as_slice()) {
        None => {
            return Err(ObjError::MalformedScalar);
        },
        Some(v) => match resolve_index(v, np) {
            None => {
                return Err(ObjError::MalformedScalar);
            },
            Some(i) => i,
        },
    };
    let t = if fs.len() > 1 {
        match opt_field(&fs, 1, nuv) {
            Err(e) => {
                return Err(e);
            },
            Ok(o) => o,
        }
    } else {
        None
    };
    let n = if fs.len() > 2 {
        match opt_field(&fs, 2, nn) {
            Err(e) => {
                return Err(e);
            },
            Ok(o) => o,
        }
    } else {
        None
    };
    Ok(VertexKey { p, t, n })
}

/// The welded position output determined by the welding table and the raw
/// position pool: one entry per key, the referenced pool entry.
pub open spec fn welded_ps(keys: Seq<VertexKey>, pool: Seq<glam::Vec3>) -> Seq<glam::Vec3>
    decreases keys.len(),
{
    if keys.len() == 0 {
        Seq::empty()
    } else {
        welded_ps(keys.drop_last(), pool).push(pool[keys.last().p as int])
    }
}

/// The welded texture-coordinate output: one entry per key that carries a
/// texture reference, in key order.
pub open spec fn welded_uvs(keys: Seq<VertexKey>, pool: Seq<glam::Vec2>) -> Seq<glam::Vec2>
    decreases keys.len(),
{
    if keys.len() == 0 {
        Seq::empty()
    } else {
        let init = welded_uvs(keys.drop_last(), pool);
        match keys.last().t {
            Some(t) => init.push(pool[t as int]),
            None => init,
        }
    }
}

/// The welded normal output: one entry per key that carries a normal
/// reference, in key order.
pub open spec fn welded_ns(keys: Seq<VertexKey>, pool: Seq<glam::Vec3>) -> Seq<glam::Vec3>
    decreases keys.len(),
{
    if keys.len() == 0 {
        Seq::empty()
    } else {
        let init = welded_ns(keys.drop_last(), pool);
        match keys.last().n {
            Some(n) => init.push(pool[n as int]),
            None => init,
        }
    }
}

pub proof fn lemma_welded_ps_len(keys: Seq<VertexKey>, pool: Seq<glam::Vec3>)
    ensures
        welded_ps(keys, pool).len() == keys.len(),
    decreases keys.len(),
{
    if keys.len() > 0 {
        lemma_welded_ps_len(keys.drop_last(), pool);
    }
}

/// Entries already welded never move: growing a raw pool leaves the welded
/// output unchanged.
proof fn lemma_welded_ps_extend(keys: Seq<VertexKey>, pool: Seq<glam::Vec3>, x: glam::Vec3)
    requires
        forall|i: int| 0 <= i < keys.len() ==> (#[trigger] keys[i].p as int) < pool.len(),
    ensures
        welded_ps(keys, pool.push(x)) == welded_ps(keys, pool),
    decreases keys.len(),
{
    if keys.len() > 0 {
        assert(forall|i: int|
            0 <= i < keys.drop_last().len() ==> (#[trigger] keys.drop_last()[i].p as int)
                < pool.len());
        lemma_welded_ps_extend(keys.drop_last(), pool, x);
    }
}

/// The texture index of the key, if present, lies below `len`.
pub open spec fn key_t_in(k: VertexKey, len: nat) -> bool {
    k.t matches Some(t) ==> (t as nat) < len
}

/// The normal index of the key, if present, lies below `len`.
pub open spec fn key_n_in(k: VertexKey, len: nat) -> bool {
    k.n matches Some(n) ==> (n as nat) < len
}

proof fn lemma_welded_uvs_extend(keys: Seq<VertexKey>, pool: Seq<glam::Vec2>, x: glam::Vec2)
    requires
        forall|i: int| 0 <= i < keys.len() ==> key_t_in(#[trigger] keys[i], pool.len()),
    ensures
        welded_uvs(keys, pool.push(x)) == welded_uvs(keys, pool),
    decreases keys.len(),
{
    if keys.len() > 0 {
        assert(forall|i: int|
            0 <= i < keys.drop_last().len() ==> key_t_in(
                #[trigger] keys.drop_last()[i],
                pool.len(),
            ));
        lemma_welded_uvs_extend(keys.drop_last(), pool, x);
        assert(key_t_in(keys.last(), pool.len()));
    }
}

proof fn lemma_welded_ns_extend(keys: Seq<VertexKey>, pool: Seq<glam::Vec3>, x: glam::Vec3)
    requires
        forall|i: int| 0 <= i < keys.len() ==> key_n_in(#[trigger] keys[i], pool.len()),
    ensures
        welded_ns(keys, pool.push(x)) == welded_ns(keys, pool),
    decreases keys.len(),
{
    if keys.len() > 0 {
        assert(forall|i: int|
            0 <= i < keys.drop_last().len() ==> key_n_in(
                #[trigger] keys.drop_last()[i],
                pool.len(),
            ));
        lemma_welded_ns_extend(keys.drop_last(), pool, x);
        assert(key_n_in(keys.last(), pool.len()));
    }
}

/// All three triangle indices lie below the welded vertex count.
pub open spec fn face_ok(f: Face, n: nat) -> bool {
    (f.0 as nat) < n && (f.1 as nat) < n && (f.2 as nat) < n
}

/// The single load pass: raw attribute pools, the welding table (`keys`,
/// whose positions are the welded indices), the welded output, and the
/// triangle list, all owned by one call and populated monotonically.
pub struct ObjLoader {
    pub tmp_p: Vec<glam::Vec3>,
    pub tmp_uv: Vec<glam::Vec2>,
    pub tmp_n: Vec<glam::Vec3>,
    pub out: MeshData,
    pub faces: Vec<Face>,
    pub keys: Vec<VertexKey>,
    pub to_world: glam::Affine3A,
}

impl ObjLoader {
    /// The loader's invariant: the welding table holds pairwise-distinct
    /// keys whose indices lie inside the raw pools, the welded output is
    /// exactly what the table and pools determine, and every emitted
    /// triangle references welded vertices that exist.
    pub open spec fn wf(self) -> bool {
        &&& self.keys@.no_duplicates()
        &&& forall|i: int|
            0 <= i < self.keys@.len() ==> key_in_range(
                #[trigger] self.keys@[i],
                self.tmp_p@.len(),
                self.tmp_uv@.len(),
                self.tmp_n@.len(),
            )
        &&& self.out.p@ == welded_ps(self.keys@, self.tmp_p@)
        &&& self.out.uv@ == welded_uvs(self.keys@, self.tmp_uv@)
        &&& self.out.n@ == welded_ns(self.keys@, self.tmp_n@)
        &&& forall|i: int|
            0 <= i < self.faces@.len() ==> face_ok(#[trigger] self.faces@[i], self.keys@.len())
    }

    /// A fresh loader with empty pools, an empty welding table and no faces.
    pub fn new(to_world: glam::Affine3A) -> (r: ObjLoader)
        ensures
            r.wf(),
            r.tmp_p@.len() == 0,
            r.tmp_uv@.len() == 0,
            r.tmp_n@.len() == 0,
            r.keys@ == Seq::<VertexKey>::empty(),
            r.faces@ == Seq::<Face>::empty(),
            r.to_world == to_world,
    {
        let r = ObjLoader {
            tmp_p: Vec::new(),
            tmp_uv: Vec::new(),
            tmp_n: Vec::new(),
            out: MeshData::default(),
            faces: Vec::new(),
            keys: Vec::new(),
            to_world,
        };
        proof {
            assert(r.keys@ =~= Seq::<VertexKey>::empty());
            assert(r.faces@ =~= Seq::<Face>::empty());
            assert(r.out.p@ =~= welded_ps(r.keys@, r.tmp_p@));
            assert(r.out.uv@ =~= welded_uvs(r.keys@, r.tmp_uv@));
            assert(r.out.n@ =~= welded_ns(r.keys@, r.tmp_n@));
        }
        r
    }
}

/// Scans three scalar tokens left to right: the first absent token is
/// `MissingScalar`, the first unparsable one `MalformedScalar`. Extra
/// tokens are ignored.
pub open spec fn spec_check3(ts: Seq<Seq<u8>>) -> Result<(), ObjError> {
    if ts.len() < 1 {
        Err(ObjError::MissingScalar)
    } else if !geom::is_fnum(ts[0]) {
        Err(ObjError::MalformedScalar)
    } else if ts.len() < 2 {
        Err(ObjError::MissingScalar)
    } else if !geom::is_fnum(ts[1]) {
        Err(ObjError::MalformedScalar)
    } else if ts.len() < 3 {
        Err(ObjError::MissingScalar)
    } else if !geom::is_fnum(ts[2]) {
        Err(ObjError::MalformedScalar)
    } else {
        Ok(())
    }
}

/// Scans two scalar tokens left to right, as `spec_check3` does three.
pub open spec fn spec_check2(ts: Seq<Seq<u8>>) -> Result<(), ObjError> {
    if ts.len() < 1 {
        Err(ObjError::MissingScalar)
    } else if !geom::is_fnum(ts[0]) {
        Err(ObjError::MalformedScalar)
    } else if ts.len() < 2 {
        Err(ObjError::MissingScalar)
    } else if !geom::is_fnum(ts[1]) {
        Err(ObjError::MalformedScalar)
    } else {
        Ok(())
    }
}

impl ObjLoader {
    /// Consumes the scalar tokens of a `v` record: parses three scalars,
    /// applies the transform, and appends the result to the raw position
    /// pool. Nothing else changes; on failure nothing changes at all.
    pub fn add_point(&mut self, toks: &Vec<Vec<u8>>) -> (r: Result<(), ObjError>)
        requires
            old(self).wf(),
            toks@.len() >= 1,
        ensures
            final(self).wf(),
            ({
                let ts = toks.deep_view().skip(1);
                match spec_check3(ts) {
                    Ok(u) => {
                        &&& r is Ok
                        &&& final(self).tmp_p@ == old(self).tmp_p@.push(
                            geom::xform_pt(old(self).to_world, geom::vec3_of(ts[0], ts[1], ts[2])),
                        )
                        &&& final(self).tmp_uv@ == old(self).tmp_uv@
                        &&& final(self).tmp_n@ == old(self).tmp_n@
                        &&& final(self).keys@ == old(self).keys@
                        &&& final(self).faces@ == old(self).faces@
                        &&& final(self).out.p@ == old(self).out.p@
                        &&& final(self).out.uv@ == old(self).out.uv@
                        &&& final(self).out.n@ == old(self).out.n@
                        &&& final(self).to_world == old(self).to_world
                    },
                    Err(e) => r == Result::<(), ObjError>::Err(e) && *final(self) == *old(self),
                }
            }),
    {
        proof {
            assert forall|k: int| 0 <= k < toks@.len() implies toks.deep_view()[k] == toks@[k]@ by {
                assert(toks@[k].deep_view() =~= toks@[k]@);
            }
        }
        if toks.len() < 2 {
            return Err(ObjError::MissingScalar);
        }
        if !geom::scan_fnum(toks[1].as_slice()) {
            return Err(ObjError::MalformedScalar);
        }
        if toks.len() < 3 {
            return Err(ObjError::MissingScalar);
        }
        if !geom::scan_fnum(toks[2].as_slice()) {
            return Err(ObjError::MalformedScalar);
        }
        if toks.len() < 4 {
            return Err(ObjError::MissingScalar);
        }
        if !geom::scan_fnum(toks[3].as_slice()) {
            return Err(ObjError::MalformedScalar);
        }
        match geom::parse_vec3(toks[1].as_slice(), toks[2].as_slice(), toks[3].as_slice()) {
            Some(v) => {
                let w = geom::transform_point(&self.to_world, v);
                let ghost oldp = self.tmp_p@;
                self.tmp_p.push(w);
                proof {
                    let ts = toks.deep_view().skip(1);
                    assert(v == geom::vec3_of(ts[0], ts[1], ts[2]));
                    assert(self.tmp_p@ =~= oldp.push(w));
                    lemma_welded_ps_extend(self.keys@, oldp, w);
                }
                Ok(())
            },
            None => {
                proof {
                    assert(false);
                }
                Err(ObjError::MalformedScalar)
            },
        }
    }

    /// Consumes the scalar tokens of a `vt` record: parses two scalars and
    /// appends them, untransformed, to the raw texture-coordinate pool.
    pub fn add_uv(&mut self, toks: &Vec<Vec<u8>>) -> (r: Result<(), ObjError>)
        requires
            old(self).wf(),
            toks@.len() >= 1,
        ensures
            final(self).wf(),
            ({
                let ts = toks.deep_view().skip(1);
                match spec_check2(ts) {
                    Ok(u) => {
                        &&& r is Ok
                        &&& final(self).tmp_uv@ == old(self).tmp_uv@.push(
                            geom::vec2_of(ts[0], ts[1]),
                        )
                        &&& final(self).tmp_p@ == old(self).tmp_p@
                        &&& final(self).tmp_n@ == old(self).tmp_n@
                        &&& final(self).keys@ == old(self).keys@
                        &&& final(self).faces@ == old(self).faces@
                        &&& final(self).out.p@ == old(self).out.p@
                        &&& final(self).out.uv@ == old(self).out.uv@
                        &&& final(self).out.n@ == old(self).out.n@
                        &&& final(self).to_world == old(self).to_world
                    },
                    Err(e) => r == Result::<(), ObjError>::Err(e) && *final(self) == *old(self),
                }
            }),
    {
        proof {
            assert forall|k: int| 0 <= k < toks@.len() implies toks.deep_view()[k] == toks@[k]@ by {
                assert(toks@[k].deep_view() =~= toks@[k]@);
            }
        }
        if toks.len() < 2 {
            return Err(ObjError::MissingScalar);
        }
        if !geom::scan_fnum(toks[1].as_slice()) {
            return Err(ObjError::MalformedScalar);
        }
        if toks.len() < 3 {
            return Err(ObjError::MissingScalar);
        }
        if !geom::scan_fnum(toks[2].as_slice()) {
            return Err(ObjError::MalformedScalar);
        }
        match geom::parse_vec2(toks[1].as_slice(), toks[2].as_slice()) {
            Some(v) => {
                let ghost olduv = self.tmp_uv@;
                self.tmp_uv.push(v);
                proof {
                    let ts = toks.deep_view().skip(1);
                    assert(v == geom::vec2_of(ts[0], ts[1]));
                    assert(self.tmp_uv@ =~= olduv.push(v));
                    lemma_welded_uvs_extend(self.keys@, olduv, v);
                }
                Ok(())
            },
            None => {
                proof {
                    assert(false);
                }
                Err(ObjError::MalformedScalar)
            },
        }
    }

    /// Consumes the scalar tokens of a `vn` record: parses three scalars,
    /// applies the same transform used for positions (as a direction,
    /// without the inverse-transpose correction), and appends the result to
    /// the raw normal pool.
    pub fn add_normal(&mut self, toks: &Vec<Vec<u8>>) -> (r: Result<(), ObjError>)
        requires
            old(self).wf(),
            toks@.len() >= 1,
        ensures
            final(self).wf(),
            ({
                let ts = toks.deep_view().skip(1);
                match spec_check3(ts) {
                    Ok(u) => {
                        &&& r is Ok
                        &&& final(self).tmp_n@ == old(self).tmp_n@.push(
                            geom::xform_nrm(old(self).to_world, geom::vec3_of(ts[0], ts[1], ts[2])),
                        )
                        &&& final(self).tmp_p@ == old(self).tmp_p@
                        &&& final(self).tmp_uv@ == old(self).tmp_uv@
                        &&& final(self).keys@ == old(self).keys@
                        &&& final(self).faces@ == old(self).faces@
                        &&& final(self).out.p@ == old(self).out.p@
                        &&& final(self).out.uv@ == old(self).out.uv@
                        &&& final(self).out.n@ == old(self).out.n@
                        &&& final(self).to_world == old(self).to_world
                    },
                    Err(e) => r == Result::<(), ObjError>::Err(e) && *final(self) == *old(self),
                }
            }),
    {
        proof {
            assert forall|k: int| 0 <= k < toks@.len() implies toks.deep_view()[k] == toks@[k]@ by {
                assert(toks@[k].deep_view() =~= toks@[k]@);
            }
        }
        if toks.len() < 2 {
            return Err(ObjError::MissingScalar);
        }
        if !geom::scan_fnum(toks[1].as_slice()) {
            return Err(ObjError::MalformedScalar);
        }
        if toks.len() < 3 {
            return Err(ObjError::MissingScalar);
        }
        if !geom::scan_fnum(toks[2].as_slice()) {
            return Err(ObjError::MalformedScalar);
        }
        if toks.len() < 4 {
            return Err(ObjError::MissingScalar);
        }
        if !geom::scan_fnum(toks[3].as_slice()) {
            return Err(ObjError::MalformedScalar);
        }
        match geom::parse_vec3(toks[1].as_slice(), toks[2].as_slice(), toks[3].as_slice()) {
            Some(v) => {
                let w = geom::transform_normal(&self.to_world, v);
                let ghost oldn = self.tmp_n@;
                self.tmp_n.push(w);
                proof {
                    let ts = toks.deep_view().skip(1);
                    assert(v == geom::vec3_of(ts[0], ts[1], ts[2]));
                    assert(self.tmp_n@ =~= oldn.push(w));
                    lemma_welded_ns_extend(self.keys@, oldn, w);
                }
                Ok(())
            },
            None => {
                proof {
                    assert(false);
                }
                Err(ObjError::MalformedScalar)
            },
        }
    }
}

/// The welded index of a key already in the table: the unique position that
/// holds it (unique because the table is duplicate-free).
pub open spec fn key_slot(keys: Seq<VertexKey>, k: VertexKey) -> int {
    choose|i: int| 0 <= i < keys.len() && keys[i] == k
}

/// Welding one key: a key already in the table reuses its slot; a new key
/// is appended and receives the next dense index, the table size at
/// insertion time.
pub open spec fn weld_one(keys: Seq<VertexKey>, k: VertexKey) -> (Seq<VertexKey>, int) {
    if keys.contains(k) {
        (keys, key_slot(keys, k))
    } else {
        (keys.push(k), keys.len() as int)
    }
}

/// Welding a corner list left to right: the final table and the welded
/// index collected for each corner, in file order.
pub open spec fn weld_all(keys: Seq<VertexKey>, cs: Seq<VertexKey>) -> (Seq<VertexKey>, Seq<int>)
    decreases cs.len(),
{
    if cs.len() == 0 {
        (keys, Seq::empty())
    } else {
        let prev = weld_all(keys, cs.drop_last());
        let one = weld_one(prev.0, cs.last());
        (one.0, prev.1.push(one.1))
    }
}

/// Resolving a face's corner tokens left to right: the keys of all corners,
/// or the first corner's error.
pub open spec fn spec_corners(ts: Seq<Seq<u8>>, np: nat, nuv: nat, nn: nat) -> Result<
    Seq<VertexKey>,
    ObjError,
>
    decreases ts.len(),
{
    if ts.len() == 0 {
        Ok(Seq::empty())
    } else {
        match spec_corners(ts.drop_last(), np, nuv, nn) {
            Err(e) => Err(e),
            Ok(ks) => match spec_corner(ts.last(), np, nuv, nn) {
                Err(e) => Err(e),
                Ok(k) => Ok(ks.push(k)),
            },
        }
    }
}

/// The first failing corner decides the error, whatever follows it.
proof fn lemma_spec_corners_first_err(ts: Seq<Seq<u8>>, k: int, np: nat, nuv: nat, nn: nat)
    requires
        0 <= k < ts.len(),
        spec_corners(ts.take(k), np, nuv, nn) is Ok,
        spec_corner(ts[k], np, nuv, nn) is Err,
    ensures
        spec_corners(ts, np, nuv, nn) == Result::<Seq<VertexKey>, ObjError>::Err(
            spec_corner(ts[k], np, nuv, nn)->Err_0,
        ),
    decreases ts.len(),
{
    if ts.len() == k + 1 {
        assert(ts.take(k) =~= ts.drop_last());
        assert(ts[k] == ts.last());
    } else {
        assert(ts.drop_last().take(k) =~= ts.take(k));
        assert(ts.drop_last()[k] == ts[k]);
        lemma_spec_corners_first_err(ts.drop_last(), k, np, nuv, nn);
    }
}

/// Fan triangulation of an ordered corner-index list: a triangle keeps the
/// corners as they stand; a quad splits on its first corner as the pivot,
/// preserving winding.
pub open spec fn tri_fan(c: Seq<int>) -> Seq<Face> {
    if c.len() == 3 {
        seq![Face(c[0] as usize, c[1] as usize, c[2] as usize)]
    } else {
        seq![
            Face(c[0] as usize, c[1] as usize, c[2] as usize),
            Face(c[0] as usize, c[2] as usize, c[3] as usize),
        ]
    }
}

fn opt_eq(a: Option<usize>, b: Option<usize>) -> (r: bool)
    ensures
        r == (a == b),
{
    match (a, b) {
        (Option::None, Option::None) => true,
        (Option::Some(x), Option::Some(y)) => x == y,
        _ => false,
    }
}

/// Linear lookup in the welding table.
fn find_key(keys: &Vec<VertexKey>, k: &VertexKey) -> (r: Option<usize>)
    ensures
        match r {
            Some(i) => i < keys@.len() && keys@[i as int] == *k,
            None => !keys@.contains(*k),
        },
{
    let mut i: usize = 0;
    while i < keys.len()
        invariant
            i <= keys@.len(),
            forall|j: int| 0 <= j < i as int ==> keys@[j] != *k,
        decreases keys@.len() - i,
    {
        let c = keys[i];
        if c.p == k.p && opt_eq(c.t, k.t) && opt_eq(c.n, k.n) {
            return Some(i);
        }
        i = i + 1;
    }
    None
}

impl ObjLoader {
    /// Looks the key up in the welding table and, on first sight, allocates
    /// the next welded index, copying the referenced position (always) and
    /// the referenced texture coordinate and normal (only when present on
    /// the key). Equal keys always receive equal indices.
    pub fn weld(&mut self, k: VertexKey) -> (idx: usize)
        requires
            old(self).wf(),
            key_in_range(
                k,
                old(self).tmp_p@.len(),
                old(self).tmp_uv@.len(),
                old(self).tmp_n@.len(),
            ),
        ensures
            final(self).wf(),
            final(self).tmp_p@ == old(self).tmp_p@,
            final(self).tmp_uv@ == old(self).tmp_uv@,
            final(self).tmp_n@ == old(self).tmp_n@,
            final(self).faces@ == old(self).faces@,
            final(self).to_world == old(self).to_world,
            (idx as int) < final(self).keys@.len(),
            final(self).keys@[idx as int] == k,
            old(self).keys@.len() <= final(self).keys@.len(),
            (final(self).keys@, idx as int) == weld_one(old(self).keys@, k),
    {
        match find_key(&self.keys, &k) {
            Some(i) => {
                proof {
                    assert(self.keys@.contains(k));
                    let j = key_slot(self.keys@, k);
                    assert(0 <= j < self.keys@.len() && self.keys@[j] == k);
                    assert(i as int == j);
                }
                i
            },
            None => {
                let idx = self.keys.len();
                let ghost keys0 = self.keys@;
                let pv = self.tmp_p[k.p];
                self.out.p.push(pv);
                match k.t {
                    Some(t) => {
                        let uv = self.tmp_uv[t];
                        self.out.uv.push(uv);
                    },
                    None => {},
                }
                match k.n {
                    Some(n) => {
                        let nv = self.tmp_n[n];
                        self.out.n.push(nv);
                    },
                    None => {},
                }
                self.keys.push(k);
                proof {
                    assert(self.keys@ =~= keys0.push(k));
                    assert(keys0.push(k).drop_last() =~= keys0);
                    assert forall|a: int, b: int|
                        0 <= a < b < self.keys@.len() implies self.keys@[a] != self.keys@[b] by {
                        if b < keys0.len() {
                            assert(keys0.no_duplicates());
                        } else {
                            assert(self.keys@[b] == k);
                            assert(!keys0.contains(k));
                        }
                    }
                    assert(self.keys@.no_duplicates());
                }
                idx
            },
        }
    }

    /// Consumes the corner tokens of an `f` record. Every corner is
    /// resolved first; a resolution failure, or a corner count other than 3
    /// or 4, rejects the whole face and changes nothing. Otherwise the
    /// corners are welded in file order and the fan triangles appended.
    pub fn add_face(&mut self, toks: &Vec<Vec<u8>>) -> (r: Result<(), ObjError>)
        requires
            old(self).wf(),
            toks@.len() >= 1,
        ensures
            final(self).wf(),
            final(self).tmp_p@ == old(self).tmp_p@,
            final(self).tmp_uv@ == old(self).tmp_uv@,
            final(self).tmp_n@ == old(self).tmp_n@,
            final(self).to_world == old(self).to_world,
            ({
                let ts = toks.deep_view().skip(1);
                let np = old(self).tmp_p@.len();
                let nuv = old(self).tmp_uv@.len();
                let nn = old(self).tmp_n@.len();
                match spec_corners(ts, np, nuv, nn) {
                    Err(e) => r == Result::<(), ObjError>::Err(e) && *final(self) == *old(self),
                    Ok(cs) => if cs.len() == 3 || cs.len() == 4 {
                        let w = weld_all(old(self).keys@, cs);
                        &&& r is Ok
                        &&& final(self).keys@ == w.0
                        &&& final(self).faces@ == old(self).faces@ + tri_fan(w.1)
                    } else {
                        &&& r == Result::<(), ObjError>::Err(
                            ObjError::UnsupportedFaceArity(cs.len() as usize),
                        )
                        &&& *final(self) == *old(self)
                    },
                }
            }),
    {
        let ghost ts = toks.deep_view().skip(1);
        proof {
            assert forall|q: int| 0 <= q < toks@.len() implies toks.deep_view()[q] == toks@[q]@ by {
                assert(toks@[q].deep_view() =~= toks@[q]@);
            }
        }
        let np = self.tmp_p.len();
        let nuv = self.tmp_uv.len();
        let nn = self.tmp_n.len();
        let mut ckeys: Vec<VertexKey> = Vec::new();
        let mut j: usize = 1;
        proof {
            assert(ts.take(0) =~= Seq::<Seq<u8>>::empty());
            assert(ckeys@ =~= Seq::<VertexKey>::empty());
        }
        while j < toks.len()
            invariant
                1 <= j as int <= toks@.len(),
                ts == toks.deep_view().skip(1),
                forall|q: int| 0 <= q < toks@.len() ==> toks.deep_view()[q] == toks@[q]@,
                np == self.tmp_p@.len(),
                nuv == self.tmp_uv@.len(),
                nn == self.tmp_n@.len(),
                *self == *old(self),
                old(self).wf(),
                spec_corners(ts.take(j as int - 1), np as nat, nuv as nat, nn as nat)
                    == Result::<Seq<VertexKey>, ObjError>::Ok(ckeys@),
                forall|q: int|
                    0 <= q < ckeys@.len() ==> key_in_range(
                        #[trigger] ckeys@[q],
                        np as nat,
                        nuv as nat,
                        nn as nat,
                    ),
            decreases toks@.len() - j,
        {
            match parse_corner(toks[j].as_slice(), np, nuv, nn) {
                Err(e) => {
                    proof {
                        assert(ts[j as int - 1] == toks@[j as int]@);
                        lemma_spec_corners_first_err(
                            ts,
                            j as int - 1,
                            np as nat,
                            nuv as nat,
                            nn as nat,
                        );
                    }
                    return Err(e);
                },
                Ok(k) => {
                    let ghost oldck = ckeys@;
                    ckeys.push(k);
                    proof {
                        assert(ts.take(j as int).drop_last() =~= ts.take(j as int - 1));
                        assert(ts.take(j as int).last() == ts[j as int - 1]);
                        assert(ts[j as int - 1] == toks@[j as int]@);
                        assert(ckeys@ =~= oldck.push(k));
                    }
                },
            }
            j = j + 1;
        }
        proof {
            assert(ts.take(toks@.len() - 1) =~= ts);
        }
        let ct = ckeys.len();
        if ct != 3 && ct != 4 {
            return Err(ObjError::UnsupportedFaceArity(ct));
        }
        let mut idxs: Vec<usize> = Vec::new();
        let mut m: usize = 0;
        let ghost keys0 = self.keys@;
        proof {
            assert(ckeys@.take(0) =~= Seq::<VertexKey>::empty());
            assert(idxs@.map_values(|u: usize| u as int) =~= Seq::<int>::empty());
        }
        while m < ct
            invariant
                m <= ct,
                ct == ckeys@.len(),
                ct == 3 || ct == 4,
                self.wf(),
                self.tmp_p@ == old(self).tmp_p@,
                self.tmp_uv@ == old(self).tmp_uv@,
                self.tmp_n@ == old(self).tmp_n@,
                self.faces@ == old(self).faces@,
                self.to_world == old(self).to_world,
                keys0 == old(self).keys@,
                np == self.tmp_p@.len(),
                nuv == self.tmp_uv@.len(),
                nn == self.tmp_n@.len(),
                forall|q: int|
                    0 <= q < ckeys@.len() ==> key_in_range(
                        #[trigger] ckeys@[q],
                        np as nat,
                        nuv as nat,
                        nn as nat,
                    ),
                (self.keys@, idxs@.map_values(|u: usize| u as int)) == weld_all(
                    keys0,
                    ckeys@.take(m as int),
                ),
                idxs@.len() == m,
                forall|q: int| 0 <= q < idxs@.len() ==> (#[trigger] idxs@[q] as int) < self.keys@.len(),
            decreases ct - m,
        {
            let k = ckeys[m];
            let ghost keys_before = self.keys@;
            let ghost map_before = idxs@.map_values(|u: usize| u as int);
            let idx = self.weld(k);
            idxs.push(idx);
            proof {
                assert(ckeys@.take(m as int + 1).drop_last() =~= ckeys@.take(m as int));
                assert(ckeys@.take(m as int + 1).last() == ckeys@[m as int]);
                assert(idxs@.map_values(|u: usize| u as int) =~= map_before.push(idx as int));
                assert forall|q: int|
                    0 <= q < idxs@.len() implies (#[trigger] idxs@[q] as int)
                    < self.keys@.len() by {
                    if q < idxs@.len() - 1 {
                        assert((idxs@[q] as int) < keys_before.len());
                    }
                }
            }
            m = m + 1;
        }
        proof {
            assert(ckeys@.take(ct as int) =~= ckeys@);
        }
        let ghost w = weld_all(keys0, ckeys@);
        if ct == 3 {
            let f = Face(idxs[0], idxs[1], idxs[2]);
            let ghost faces0 = self.faces@;
            self.faces.push(f);
            proof {
                assert(w.1[0] == idxs@[0] as int);
                assert(w.1[1] == idxs@[1] as int);
                assert(w.1[2] == idxs@[2] as int);
                assert(tri_fan(w.1) =~= seq![f]);
                assert(self.faces@ =~= faces0 + tri_fan(w.1));
            }
            Ok(())
        } else {
            let f1 = Face(idxs[0], idxs[1], idxs[2]);
            let f2 = Face(idxs[0], idxs[2], idxs[3]);
            let ghost faces0 = self.faces@;
            self.faces.push(f1);
            self.faces.push(f2);
            proof {
                assert(tri_fan(w.1) =~= seq![f1, f2]);
                assert(self.faces@ =~= faces0 + tri_fan(w.1));
            }
            Ok(())
        }
    }
}

/// The state of a load: the three raw attribute pools, the welding table,
/// and the triangles emitted so far. Pool entries are the named results of
/// the scalar parses and transform applications, so the whole load is a
/// function of the input text and the transform.
pub type LoadState = (
    Seq<glam::Vec3>,
    Seq<glam::Vec2>,
    Seq<glam::Vec3>,
    Seq<VertexKey>,
    Seq<Face>,
);

/// The state a load starts from: empty pools, empty table, no triangles.
pub open spec fn init_state() -> LoadState {
    (Seq::empty(), Seq::empty(), Seq::empty(), Seq::empty(), Seq::empty())
}

/// The state that a loader value is in.
pub open spec fn loader_model(ld: ObjLoader) -> LoadState {
    (ld.tmp_p@, ld.tmp_uv@, ld.tmp_n@, ld.keys@, ld.faces@)
}

/// How many keys carry a texture reference: the length of the welded
/// texture-coordinate output.
pub open spec fn count_t(keys: Seq<VertexKey>) -> nat
    decreases keys.len(),
{
    if keys.len() == 0 {
        0
    } else {
        count_t(keys.drop_last()) + if keys.last().t is Some {
            1nat
        } else {
            0nat
        }
    }
}

/// How many keys carry a normal reference: the length of the welded normal
/// output.
pub open spec fn count_n(keys: Seq<VertexKey>) -> nat
    decreases keys.len(),
{
    if keys.len() == 0 {
        0
    } else {
        count_n(keys.drop_last()) + if keys.last().n is Some {
            1nat
        } else {
            0nat
        }
    }
}

/// The welded texture-coordinate output has one entry per key that carries
/// a texture reference.
pub proof fn lemma_welded_uvs_count(keys: Seq<VertexKey>, pool: Seq<glam::Vec2>)
    ensures
        welded_uvs(keys, pool).len() == count_t(keys),
    decreases keys.len(),
{
    if keys.len() > 0 {
        lemma_welded_uvs_count(keys.drop_last(), pool);
    }
}

/// The welded normal output has one entry per key that carries a normal
/// reference.
pub proof fn lemma_welded_ns_count(keys: Seq<VertexKey>, pool: Seq<glam::Vec3>)
    ensures
        welded_ns(keys, pool).len() == count_n(keys),
    decreases keys.len(),
{
    if keys.len() > 0 {
        lemma_welded_ns_count(keys.drop_last(), pool);
    }
}

/// One line of input applied to a load state under the caller's transform:
/// `v`, `vt` and `vn` append the (transformed) parsed value to their pools,
/// `f` resolves, welds and triangulates, and any other leading token (or an
/// empty line) is silently ignored.
pub open spec fn spec_line(tw: glam::Affine3A, st: LoadState, line: Seq<u8>) -> Result<
    LoadState,
    ObjError,
> {
    let ts = tokens_of(line);
    if ts.len() == 0 {
        Ok(st)
    } else if ts[0] == seq![118u8] {
        match spec_check3(ts.skip(1)) {
            Err(e) => Err(e),
            Ok(u) => Ok(
                (
                    st.0.push(geom::xform_pt(tw, geom::vec3_of(ts[1], ts[2], ts[3]))),
                    st.1,
                    st.2,
                    st.3,
                    st.4,
                ),
            ),
        }
    } else if ts[0] == seq![118u8, 116u8] {
        match spec_check2(ts.skip(1)) {
            Err(e) => Err(e),
            Ok(u) => Ok((st.0, st.1.push(geom::vec2_of(ts[1], ts[2])), st.2, st.3, st.4)),
        }
    } else if ts[0] == seq![118u8, 110u8] {
        match spec_check3(ts.skip(1)) {
            Err(e) => Err(e),
            Ok(u) => Ok(
                (
                    st.0,
                    st.1,
                    st.2.push(geom::xform_nrm(tw, geom::vec3_of(ts[1], ts[2], ts[3]))),
                    st.3,
                    st.4,
                ),
            ),
        }
    } else if ts[0] == seq![102u8] {
        match spec_corners(ts.skip(1), st.0.len(), st.1.len(), st.2.len()) {
            Err(e) => Err(e),
            Ok(cs) => if cs.len() == 3 || cs.len() == 4 {
                let w = weld_all(st.3, cs);
                Ok((st.0, st.1, st.2, w.0, st.4 + tri_fan(w.1)))
            } else {
                Err(ObjError::UnsupportedFaceArity(cs.len() as usize))
            },
        }
    } else {
        Ok(st)
    }
}

/// The lines of input applied in order; the first failing line decides the
/// error.
pub open spec fn spec_load_lines(tw: glam::Affine3A, st: LoadState, lines: Seq<Seq<u8>>) -> Result<
    LoadState,
    ObjError,
>
    decreases lines.len(),
{
    if lines.len() == 0 {
        Ok(st)
    } else {
        match spec_line(tw, st, lines[0]) {
            Err(e) => Err(e),
            Ok(st2) => spec_load_lines(tw, st2, lines.drop_first()),
        }
    }
}

/// The outcome of loading a whole byte input, line by line, under a
/// transform: a function of the two alone.
pub open spec fn spec_load(input: Seq<u8>, tw: glam::Affine3A) -> Result<LoadState, ObjError> {
    spec_load_lines(tw, init_state(), fields_of(input, 10))
}

/// Classifies a leading token: `v`, `vt`, `vn`, `f`, or anything else.
fn kw_of(t: &[u8]) -> (r: u8)
    ensures
        (r == 1) == (t@ == seq![118u8]),
        (r == 2) == (t@ == seq![118u8, 116u8]),
        (r == 3) == (t@ == seq![118u8, 110u8]),
        (r == 4) == (t@ == seq![102u8]),
{
    if t.len() == 1 && t[0] == 118 {
        proof {
            assert(t@ =~= seq![118u8]);
        }
        1
    } else if t.len() == 2 && t[0] == 118 && t[1] == 116 {
        proof {
            assert(t@ =~= seq![118u8, 116u8]);
        }
        2
    } else if t.len() == 2 && t[0] == 118 && t[1] == 110 {
        proof {
            assert(t@ =~= seq![118u8, 110u8]);
        }
        3
    } else if t.len() == 1 && t[0] == 102 {
        proof {
            assert(t@ =~= seq![102u8]);
        }
        4
    } else {
        0
    }
}

/// Loads OBJ text from bytes: a single pass over the lines, with the
/// caller's transform applied to every position and normal. On success the
/// returned triangles and welded attribute arrays are exactly what the
/// model of the input and transform determines — so two loads of the same
/// bytes under the same transform agree entirely — every triangle index
/// lies below the welded position count, and the welded vertex set is
/// duplicate-free. The first failing record aborts the load with exactly
/// the model's error and nothing is returned.
pub fn load_bytes(input: &[u8], to_world: glam::Affine3A) -> (r: Result<
    (MeshData, Vec<Face>),
    ObjError,
>)
    ensures
        ({
            match spec_load(input@, to_world) {
                Err(e) => r matches Err(re) && re == e,
                Ok(m) => {
                    &&& r is Ok
                    &&& ({
                        let out = r->Ok_0;
                        &&& out.1@ == m.4
                        &&& out.0.p@ == welded_ps(m.3, m.0)
                        &&& out.0.uv@ == welded_uvs(m.3, m.1)
                        &&& out.0.n@ == welded_ns(m.3, m.2)
                        &&& out.0.p@.len() == m.3.len()
                        &&& out.0.uv@.len() == count_t(m.3)
                        &&& out.0.n@.len() == count_n(m.3)
                        &&& m.3.no_duplicates()
                        &&& forall|i: int|
                            0 <= i < out.1@.len() ==> face_ok(
                                #[trigger] out.1@[i],
                                out.0.p@.len(),
                            )
                    })
                },
            }
        }),
{
    let lines = split_sep(input, 10);
    proof {
        assert forall|q: int| 0 <= q < lines@.len() implies lines.deep_view()[q] == lines@[q]@ by {
            assert(lines@[q].deep_view() =~= lines@[q]@);
        }
    }
    let mut ld = ObjLoader::new(to_world);
    let mut li: usize = 0;
    proof {
        assert(ld.tmp_p@ =~= Seq::<glam::Vec3>::empty());
        assert(ld.tmp_uv@ =~= Seq::<glam::Vec2>::empty());
        assert(ld.tmp_n@ =~= Seq::<glam::Vec3>::empty());
        assert(loader_model(ld) == init_state());
        assert(lines.deep_view().skip(0) =~= lines.deep_view());
    }
    while li < lines.len()
        invariant
            li <= lines@.len(),
            ld.wf(),
            ld.to_world == to_world,
            lines.deep_view() == fields_of(input@, 10),
            forall|q: int| 0 <= q < lines@.len() ==> lines.deep_view()[q] == lines@[q]@,
            spec_load_lines(to_world, loader_model(ld), lines.deep_view().skip(li as int))
                == spec_load(input@, to_world),
        decreases lines@.len() - li,
    {
        let ghost lt = lines.deep_view()[li as int];
        let ghost st0 = loader_model(ld);
        let ghost rest = lines.deep_view().skip(li as int);
        let tokens = split_ws(lines[li].as_slice());
        proof {
            assert(rest[0] == lt);
            assert(rest.drop_first() =~= lines.deep_view().skip(li as int + 1));
            assert(tokens.deep_view() == tokens_of(lt));
        }
        if tokens.len() > 0 {
            proof {
                assert(tokens@[0].deep_view() =~= tokens@[0]@);
            }
            let kw = kw_of(tokens[0].as_slice());
            if kw == 1 {
                match ld.add_point(&tokens) {
                    Err(e) => {
                        proof {
                            assert(spec_line(to_world, st0, lt) == Result::<LoadState, ObjError>::Err(e));
                        }
                        return Err(e);
                    },
                    Ok(_) => {
                        proof {
                            let ts = tokens_of(lt);
                            assert(loader_model(ld) == (
                                st0.0.push(
                                    geom::xform_pt(
                                        to_world,
                                        geom::vec3_of(ts[1], ts[2], ts[3]),
                                    ),
                                ),
                                st0.1,
                                st0.2,
                                st0.3,
                                st0.4,
                            ));
                            assert(spec_line(to_world, st0, lt) == Result::<LoadState, ObjError>::Ok(
                                loader_model(ld),
                            ));
                        }
                    },
                }
            } else if kw == 2 {
                match ld.add_uv(&tokens) {
                    Err(e) => {
                        proof {
                            assert(spec_line(to_world, st0, lt) == Result::<LoadState, ObjError>::Err(e));
                        }
                        return Err(e);
                    },
                    Ok(_) => {
                        proof {
                            let ts = tokens_of(lt);
                            assert(loader_model(ld) == (
                                st0.0,
                                st0.1.push(geom::vec2_of(ts[1], ts[2])),
                                st0.2,
                                st0.3,
                                st0.4,
                            ));
                            assert(spec_line(to_world, st0, lt) == Result::<LoadState, ObjError>::Ok(
                                loader_model(ld),
                            ));
                        }
                    },
                }
            } else if kw == 3 {
                match ld.add_normal(&tokens) {
                    Err(e) => {
                        proof {
                            assert(spec_line(to_world, st0, lt) == Result::<LoadState, ObjError>::Err(e));
                        }
                        return Err(e);
                    },
                    Ok(_) => {
                        proof {
                            let ts = tokens_of(lt);
                            assert(loader_model(ld) == (
                                st0.0,
                                st0.1,
                                st0.2.push(
                                    geom::xform_nrm(
                                        to_world,
                                        geom::vec3_of(ts[1], ts[2], ts[3]),
                                    ),
                                ),
                                st0.3,
                                st0.4,
                            ));
                            assert(spec_line(to_world, st0, lt) == Result::<LoadState, ObjError>::Ok(
                                loader_model(ld),
                            ));
                        }
                    },
                }
            } else if kw == 4 {
                match ld.add_face(&tokens) {
                    Err(e) => {
                        proof {
                            assert(spec_line(to_world, st0, lt) == Result::<LoadState, ObjError>::Err(e));
                        }
                        return Err(e);
                    },
                    Ok(_) => {
                        proof {
                            assert(spec_line(to_world, st0, lt) == Result::<LoadState, ObjError>::Ok(
                                loader_model(ld),
                            ));
                        }
                    },
                }
            } else {
                proof {
                    assert(spec_line(to_world, st0, lt) == Result::<LoadState, ObjError>::Ok(st0));
                }
            }
        } else {
            proof {
                assert(spec_line(to_world, st0, lt) == Result::<LoadState, ObjError>::Ok(st0));
            }
        }
        li = li + 1;
    }
    proof {
        assert(lines.deep_view().skip(lines@.len() as int) =~= Seq::<Seq<u8>>::empty());
        lemma_welded_ps_len(ld.keys@, ld.tmp_p@);
        lemma_welded_uvs_count(ld.keys@, ld.tmp_uv@);
        lemma_welded_ns_count(ld.keys@, ld.tmp_n@);
    }
    let ObjLoader { out, faces, .. } = ld;
    Ok((out, faces))
}

/// Welding law: the welding table never holds the same resolved key twice,
/// so references whose resolved `(p, t, n)` triples are equal always name
/// the same welded index.
pub proof fn lemma_welding_deterministic(keys: Seq<VertexKey>, i: int, j: int)
    requires
        keys.no_duplicates(),
        0 <= i < keys.len(),
        0 <= j < keys.len(),
        keys[i] == keys[j],
    ensures
        i == j,
{
}

/// Welding law: the welding table's size equals the number of distinct
/// resolved triples it has seen.
pub proof fn lemma_table_size_is_distinct_count(keys: Seq<VertexKey>)
    requires
        keys.no_duplicates(),
    ensures
        keys.len() == keys.to_set().len(),
{
    keys.unique_seq_to_set();
}

/// Welding law: welding a key and then welding an equal key again leaves
/// the table unchanged and hands back the same welded index, whatever else
/// the table holds.
pub proof fn lemma_weld_reuses_index(keys: Seq<VertexKey>, k: VertexKey)
    requires
        keys.no_duplicates(),
    ensures
        weld_one(weld_one(keys, k).0, k).0 == weld_one(keys, k).0,
        weld_one(weld_one(keys, k).0, k).1 == weld_one(keys, k).1,
{
    if keys.contains(k) {
    } else {
        let keys2 = keys.push(k);
        assert(keys2[keys.len() as int] == k);
        assert(keys2.contains(k));
        let j = key_slot(keys2, k);
        assert(0 <= j < keys2.len() && keys2[j] == k);
        if j < keys.len() {
            assert(keys[j] == k);
            assert(keys.contains(k));
        }
        assert(j == keys.len());
    }
}

/// Relative-index law: after `len` entries have been appended to a pool,
/// the reference `-1` resolves to the same slot as the positive reference
/// `len` — the most recently appended entry. Equal resolved triples then
/// weld identically, by `lemma_welding_deterministic`.
pub proof fn lemma_relative_index_equivalence(len: nat)
    requires
        len >= 1,
    ensures
        spec_resolve(-1, len) == spec_resolve(len as int, len),
        spec_resolve(-1, len) == Some(len as int - 1),
{
}

/// Triangulation law: a quad corner list `[a, b, c, d]` yields exactly the
/// triangles `(a, b, c)` and `(a, c, d)`, in that order; the fan pivot is
/// always the first corner.
pub proof fn lemma_quad_fan(a: usize, b: usize, c: usize, d: usize)
    ensures
        tri_fan(seq![a as int, b as int, c as int, d as int]) == seq![
            Face(a, b, c),
            Face(a, c, d),
        ],
{
    assert(tri_fan(seq![a as int, b as int, c as int, d as int]) =~= seq![
        Face(a, b, c),
        Face(a, c, d),
    ]);
}

} // verus!
