//! Fixed-range integer linear algebra for scene transforms.
//!
//! Transforms are 4x4 matrices over `i64`, with every entry kept inside
//! `ENTRY_LIMIT`. Keeping entries bounded lets products be computed exactly
//! in 128-bit intermediates, so matrix composition either returns the exact
//! mathematical product or reports that the product left the representable
//! range.

use vstd::prelude::*;

verus! {

/// Largest magnitude a matrix entry may have.
pub const ENTRY_LIMIT: i64 = 0x7fff_ffff;

/// Mathematical (unbounded) counterpart of a matrix entry bound.
pub open spec fn entry_ok(x: int) -> bool {
    -0x7fff_ffff <= x <= 0x7fff_ffff
}

/// Mathematical model of a 4x4 matrix: entries as unbounded integers.
pub ghost struct GMat4 {
    pub m00: int, pub m01: int, pub m02: int, pub m03: int,
    pub m10: int, pub m11: int, pub m12: int, pub m13: int,
    pub m20: int, pub m21: int, pub m22: int, pub m23: int,
    pub m30: int, pub m31: int, pub m32: int, pub m33: int,
}

/// Dot product of a matrix row and column.
pub open spec fn sdot(a0: int, a1: int, a2: int, a3: int, b0: int, b1: int, b2: int, b3: int) -> int {
    a0 * b0 + a1 * b1 + a2 * b2 + a3 * b3
}

/// All sixteen entries are within the representable range.
pub open spec fn gmat_ok(m: GMat4) -> bool {
    &&& entry_ok(m.m00) && entry_ok(m.m01) && entry_ok(m.m02) && entry_ok(m.m03)
    &&& entry_ok(m.m10) && entry_ok(m.m11) && entry_ok(m.m12) && entry_ok(m.m13)
    &&& entry_ok(m.m20) && entry_ok(m.m21) && entry_ok(m.m22) && entry_ok(m.m23)
    &&& entry_ok(m.m30) && entry_ok(m.m31) && entry_ok(m.m32) && entry_ok(m.m33)
}

pub open spec fn gmat_identity() -> GMat4 {
    GMat4 {
        m00: 1, m01: 0, m02: 0, m03: 0,
        m10: 0, m11: 1, m12: 0, m13: 0,
        m20: 0, m21: 0, m22: 1, m23: 0,
        m30: 0, m31: 0, m32: 0, m33: 1,
    }
}

/// Exact mathematical matrix product.
pub open spec fn gmat_mul(a: GMat4, b: GMat4) -> GMat4 {
    GMat4 {
        m00: sdot(a.m00, a.m01, a.m02, a.m03, b.m00, b.m10, b.m20, b.m30),
        m01: sdot(a.m00, a.m01, a.m02, a.m03, b.m01, b.m11, b.m21, b.m31),
        m02: sdot(a.m00, a.m01, a.m02, a.m03, b.m02, b.m12, b.m22, b.m32),
        m03: sdot(a.m00, a.m01, a.m02, a.m03, b.m03, b.m13, b.m23, b.m33),
        m10: sdot(a.m10, a.m11, a.m12, a.m13, b.m00, b.m10, b.m20, b.m30),
        m11: sdot(a.m10, a.m11, a.m12, a.m13, b.m01, b.m11, b.m21, b.m31),
        m12: sdot(a.m10, a.m11, a.m12, a.m13, b.m02, b.m12, b.m22, b.m32),
        m13: sdot(a.m10, a.m11, a.m12, a.m13, b.m03, b.m13, b.m23, b.m33),
        m20: sdot(a.m20, a.m21, a.m22, a.m23, b.m00, b.m10, b.m20, b.m30),
        m21: sdot(a.m20, a.m21, a.m22, a.m23, b.m01, b.m11, b.m21, b.m31),
        m22: sdot(a.m20, a.m21, a.m22, a.m23, b.m02, b.m12, b.m22, b.m32),
        m23: sdot(a.m20, a.m21, a.m22, a.m23, b.m03, b.m13, b.m23, b.m33),
        m30: sdot(a.m30, a.m31, a.m32, a.m33, b.m00, b.m10, b.m20, b.m30),
        m31: sdot(a.m30, a.m31, a.m32, a.m33, b.m01, b.m11, b.m21, b.m31),
        m32: sdot(a.m30, a.m31, a.m32, a.m33, b.m02, b.m12, b.m22, b.m32),
        m33: sdot(a.m30, a.m31, a.m32, a.m33, b.m03, b.m13, b.m23, b.m33),
    }
}

/// Left-to-right product of a sequence of matrices; empty product is identity.
pub open spec fn gmat_prod(s: Seq<GMat4>) -> GMat4
    decreases s.len(),
{
    if s.len() == 0 {
        gmat_identity()
    } else {
        gmat_mul(gmat_prod(s.drop_last()), s.last())
    }
}

pub proof fn lemma_gmat_prod_push(s: Seq<GMat4>, m: GMat4)
    ensures
        gmat_prod(s.push(m)) == gmat_mul(gmat_prod(s), m),
{
    assert(s.push(m).drop_last() =~= s);
    assert(s.push(m).last() == m);
}

pub proof fn lemma_gmat_identity_left(m: GMat4)
    ensures
        gmat_mul(gmat_identity(), m) == m,
{
}

proof fn lemma_entry_product_bound(x: int, y: int)
    by (nonlinear_arith)
    requires
        entry_ok(x),
        entry_ok(y),
    ensures
        -0x4000_0000_0000_0000 <= x * y <= 0x4000_0000_0000_0000,
{
}

/// The identity transform as a concrete matrix value.
pub open spec fn mat4_identity_val() -> Mat4 {
    Mat4 {
        m00: 1i64, m01: 0i64, m02: 0i64, m03: 0i64,
        m10: 0i64, m11: 1i64, m12: 0i64, m13: 0i64,
        m20: 0i64, m21: 0i64, m22: 1i64, m23: 0i64,
        m30: 0i64, m31: 0i64, m32: 0i64, m33: 1i64,
    }
}

/// A 4x4 transform matrix with entries bounded by `ENTRY_LIMIT`.
#[derive(Clone, Copy, Debug, PartialEq, Eq, Structural)]
pub struct Mat4 {
    pub m00: i64, pub m01: i64, pub m02: i64, pub m03: i64,
    pub m10: i64, pub m11: i64, pub m12: i64, pub m13: i64,
    pub m20: i64, pub m21: i64, pub m22: i64, pub m23: i64,
    pub m30: i64, pub m31: i64, pub m32: i64, pub m33: i64,
}

impl View for Mat4 {
    type V = GMat4;

    open spec fn view(&self) -> GMat4 {
        GMat4 {
            m00: self.m00 as int, m01: self.m01 as int, m02: self.m02 as int, m03: self.m03 as int,
            m10: self.m10 as int, m11: self.m11 as int, m12: self.m12 as int, m13: self.m13 as int,
            m20: self.m20 as int, m21: self.m21 as int, m22: self.m22 as int, m23: self.m23 as int,
            m30: self.m30 as int, m31: self.m31 as int, m32: self.m32 as int, m33: self.m33 as int,
        }
    }
}

/// Row-by-column dot product, exact over 128-bit intermediates; reports
/// `None` when the exact value leaves the entry range.
fn dot4(a0: i64, a1: i64, a2: i64, a3: i64, b0: i64, b1: i64, b2: i64, b3: i64) -> (r: Option<i64>)
    requires
        entry_ok(a0 as int), entry_ok(a1 as int), entry_ok(a2 as int), entry_ok(a3 as int),
        entry_ok(b0 as int), entry_ok(b1 as int), entry_ok(b2 as int), entry_ok(b3 as int),
    ensures
        r is Some <==> entry_ok(sdot(a0 as int, a1 as int, a2 as int, a3 as int, b0 as int, b1 as int, b2 as int, b3 as int)),
        r is Some ==> r.unwrap() as int == sdot(a0 as int, a1 as int, a2 as int, a3 as int, b0 as int, b1 as int, b2 as int, b3 as int),
{
    proof {
        lemma_entry_product_bound(a0 as int, b0 as int);
        lemma_entry_product_bound(a1 as int, b1 as int);
        lemma_entry_product_bound(a2 as int, b2 as int);
        lemma_entry_product_bound(a3 as int, b3 as int);
    }
    let p0: i128 = (a0 as i128) * (b0 as i128);
    let p1: i128 = (a1 as i128) * (b1 as i128);
    let p2: i128 = (a2 as i128) * (b2 as i128);
    let p3: i128 = (a3 as i128) * (b3 as i128);
    let s: i128 = p0 + p1 + p2 + p3;
    if s >= -(ENTRY_LIMIT as i128) && s <= ENTRY_LIMIT as i128 {
        Some(s as i64)
    } else {
        None
    }
}

impl Mat4 {
    /// Every entry is within the representable range.
    pub open spec fn wf(&self) -> bool {
        gmat_ok(self@)
    }

    /// Runtime check that every entry is within the representable range.
    pub fn in_limits(&self) -> (r: bool)
        ensures
            r == self.wf(),
    {
        let l = ENTRY_LIMIT;
        -l <= self.m00 && self.m00 <= l && -l <= self.m01 && self.m01 <= l
            && -l <= self.m02 && self.m02 <= l && -l <= self.m03 && self.m03 <= l
            && -l <= self.m10 && self.m10 <= l && -l <= self.m11 && self.m11 <= l
            && -l <= self.m12 && self.m12 <= l && -l <= self.m13 && self.m13 <= l
            && -l <= self.m20 && self.m20 <= l && -l <= self.m21 && self.m21 <= l
            && -l <= self.m22 && self.m22 <= l && -l <= self.m23 && self.m23 <= l
            && -l <= self.m30 && self.m30 <= l && -l <= self.m31 && self.m31 <= l
            && -l <= self.m32 && self.m32 <= l && -l <= self.m33 && self.m33 <= l
    }

    pub fn identity() -> (r: Mat4)
        ensures
            r == mat4_identity_val(),
            r@ == gmat_identity(),
            r.wf(),
    {
        Mat4 {
            m00: 1, m01: 0, m02: 0, m03: 0,
            m10: 0, m11: 1, m12: 0, m13: 0,
            m20: 0, m21: 0, m22: 1, m23: 0,
            m30: 0, m31: 0, m32: 0, m33: 1,
        }
    }

    /// Translation by `(tx, ty, tz)`.
    pub fn translation(tx: i64, ty: i64, tz: i64) -> (r: Mat4)
        requires
            entry_ok(tx as int),
            entry_ok(ty as int),
            entry_ok(tz as int),
        ensures
            r.wf(),
            r@ == (GMat4 { m03: tx as int, m13: ty as int, m23: tz as int, ..gmat_identity() }),
    {
        Mat4 {
            m00: 1, m01: 0, m02: 0, m03: tx,
            m10: 0, m11: 1, m12: 0, m13: ty,
            m20: 0, m21: 0, m22: 1, m23: tz,
            m30: 0, m31: 0, m32: 0, m33: 1,
        }
    }

    /// Uniform scaling by `s`.
    pub fn scaling(s: i64) -> (r: Mat4)
        requires
            entry_ok(s as int),
        ensures
            r.wf(),
            r@ == (GMat4 { m00: s as int, m11: s as int, m22: s as int, ..gmat_identity() }),
    {
        Mat4 {
            m00: s, m01: 0, m02: 0, m03: 0,
            m10: 0, m11: s, m12: 0, m13: 0,
            m20: 0, m21: 0, m22: s, m23: 0,
            m30: 0, m31: 0, m32: 0, m33: 1,
        }
    }

    /// The rotational part of a view transform: the translation column is
    /// dropped so the transform moves nothing, only turns.
    pub fn rotation_only(&self) -> (r: Mat4)
        ensures
            r@ == (GMat4 { m03: 0, m13: 0, m23: 0, ..self@ }),
            self.wf() ==> r.wf(),
    {
        Mat4 { m03: 0, m13: 0, m23: 0, ..*self }
    }

    /// Exact matrix product, or `None` when an entry of the product leaves
    /// the representable range.
    pub fn multiply(&self, o: &Mat4) -> (r: Option<Mat4>)
        requires
            self.wf(),
            o.wf(),
        ensures
            r is Some <==> gmat_ok(gmat_mul(self@, o@)),
            r is Some ==> r.unwrap()@ == gmat_mul(self@, o@) && r.unwrap().wf(),
    {
        let a = self;
        let b = o;
        let m00 = dot4(a.m00, a.m01, a.m02, a.m03, b.m00, b.m10, b.m20, b.m30);
        let m01 = dot4(a.m00, a.m01, a.m02, a.m03, b.m01, b.m11, b.m21, b.m31);
        let m02 = dot4(a.m00, a.m01, a.m02, a.m03, b.m02, b.m12, b.m22, b.m32);
        let m03 = dot4(a.m00, a.m01, a.m02, a.m03, b.m03, b.m13, b.m23, b.m33);
        let m10 = dot4(a.m10, a.m11, a.m12, a.m13, b.m00, b.m10, b.m20, b.m30);
        let m11 = dot4(a.m10, a.m11, a.m12, a.m13, b.m01, b.m11, b.m21, b.m31);
        let m12 = dot4(a.m10, a.m11, a.m12, a.m13, b.m02, b.m12, b.m22, b.m32);
        let m13 = dot4(a.m10, a.m11, a.m12, a.m13, b.m03, b.m13, b.m23, b.m33);
        let m20 = dot4(a.m20, a.m21, a.m22, a.m23, b.m00, b.m10, b.m20, b.m30);
        let m21 = dot4(a.m20, a.m21, a.m22, a.m23, b.m01, b.m11, b.m21, b.m31);
        let m22 = dot4(a.m20, a.m21, a.m22, a.m23, b.m02, b.m12, b.m22, b.m32);
        let m23 = dot4(a.m20, a.m21, a.m22, a.m23, b.m03, b.m13, b.m23, b.m33);
        let m30 = dot4(a.m30, a.m31, a.m32, a.m33, b.m00, b.m10, b.m20, b.m30);
        let m31 = dot4(a.m30, a.m31, a.m32, a.m33, b.m01, b.m11, b.m21, b.m31);
        let m32 = dot4(a.m30, a.m31, a.m32, a.m33, b.m02, b.m12, b.m22, b.m32);
        let m33 = dot4(a.m30, a.m31, a.m32, a.m33, b.m03, b.m13, b.m23, b.m33);
        match (m00, m01, m02, m03, m10, m11, m12, m13, m20, m21, m22, m23, m30, m31, m32, m33) {
            (
                Some(m00), Some(m01), Some(m02), Some(m03),
                Some(m10), Some(m11), Some(m12), Some(m13),
                Some(m20), Some(m21), Some(m22), Some(m23),
                Some(m30), Some(m31), Some(m32), Some(m33),
            ) => Some(Mat4 {
                m00, m01, m02, m03,
                m10, m11, m12, m13,
                m20, m21, m22, m23,
                m30, m31, m32, m33,
            }),
            _ => None,
        }
    }
}

/// A 3-component integer vector (positions, directions, colors).
#[derive(Clone, Copy, Debug, PartialEq, Eq, Structural)]
pub struct Vec3i {
    pub x: i64,
    pub y: i64,
    pub z: i64,
}

impl Vec3i {
    pub fn new(x: i64, y: i64, z: i64) -> (r: Vec3i)
        ensures
            r == (Vec3i { x, y, z }),
    {
        Vec3i { x, y, z }
    }

    pub fn zero() -> (r: Vec3i)
        ensures
            r == (Vec3i { x: 0i64, y: 0i64, z: 0i64 }),
    {
        Vec3i { x: 0, y: 0, z: 0 }
    }
}

/// A 2-component integer vector (texture coordinates).
#[derive(Clone, Copy, Debug, PartialEq, Eq, Structural)]
pub struct Vec2i {
    pub x: i64,
    pub y: i64,
}

impl Vec2i {
    pub fn new(x: i64, y: i64) -> (r: Vec2i)
        ensures
            r == (Vec2i { x, y }),
    {
        Vec2i { x, y }
    }

    pub fn zero() -> (r: Vec2i)
        ensures
            r == (Vec2i { x: 0i64, y: 0i64 }),
    {
        Vec2i { x: 0, y: 0 }
    }
}

} // verus!
