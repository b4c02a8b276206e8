//! Cramer's rule for three vectors, in whole numbers: the algebra behind the
//! triangle test.

use crate::vector::Vec3;
use vstd::prelude::*;

verus! {

/// The determinant of three vectors, given by their coordinates.
pub open spec fn det3(
    px: int,
    py: int,
    pz: int,
    qx: int,
    qy: int,
    qz: int,
    rx: int,
    ry: int,
    rz: int,
) -> int {
    px * (qy * rz - qz * ry) + py * (qz * rx - qx * rz) + pz * (qx * ry - qy * rx)
}

/// The determinant developed by the first coordinates of the vectors.
pub proof fn lemma_det3_by_first(
    px: int,
    py: int,
    pz: int,
    qx: int,
    qy: int,
    qz: int,
    rx: int,
    ry: int,
    rz: int,
)
    ensures
        det3(px, py, pz, qx, qy, qz, rx, ry, rz) == px * (qy * rz - qz * ry) - qx * (py * rz - pz
            * ry) + rx * (py * qz - pz * qy),
{
    assert(py * (qz * rx - qx * rz) == rx * (py * qz) - qx * (py * rz)) by (nonlinear_arith);
    assert(pz * (qx * ry - qy * rx) == qx * (pz * ry) - rx * (pz * qy)) by (nonlinear_arith);
    assert(qx * (py * rz - pz * ry) == qx * (py * rz) - qx * (pz * ry)) by (nonlinear_arith);
    assert(rx * (py * qz - pz * qy) == rx * (py * qz) - rx * (pz * qy)) by (nonlinear_arith);
}

/// Cramer's rule with the determinants developed by the first coordinates:
/// `ma`, `mb`, `mc` stand for the minors of the pairs without `w`, and `na`,
/// `nb`, `nc` for the minors of `w` with each of the three.
proof fn lemma_cramer_developed(
    ax: int,
    bx: int,
    cx: int,
    wx: int,
    mbc: int,
    mac: int,
    mab: int,
    mwc: int,
    mbw: int,
    maw: int,
)
    ensures
        (ax * mbc - bx * mac + cx * mab) * wx == (wx * mbc - bx * mwc - cx * mbw) * ax + (ax * mwc
            - wx * mac + cx * maw) * bx + (ax * mbw - bx * maw + wx * mab) * cx,
{
    assert((ax * mbc - bx * mac + cx * mab) * wx == (ax * mbc) * wx - (bx * mac) * wx + (cx * mab)
        * wx) by (nonlinear_arith);
    assert((wx * mbc - bx * mwc - cx * mbw) * ax == (wx * mbc) * ax - (bx * mwc) * ax - (cx * mbw)
        * ax) by (nonlinear_arith);
    assert((ax * mwc - wx * mac + cx * maw) * bx == (ax * mwc) * bx - (wx * mac) * bx + (cx * maw)
        * bx) by (nonlinear_arith);
    assert((ax * mbw - bx * maw + wx * mab) * cx == (ax * mbw) * cx - (bx * maw) * cx + (wx * mab)
        * cx) by (nonlinear_arith);
    assert((ax * mbc) * wx == (wx * mbc) * ax) by (nonlinear_arith);
    assert((bx * mac) * wx == (wx * mac) * bx) by (nonlinear_arith);
    assert((cx * mab) * wx == (wx * mab) * cx) by (nonlinear_arith);
    assert((bx * mwc) * ax == (ax * mwc) * bx) by (nonlinear_arith);
    assert((cx * mbw) * ax == (ax * mbw) * cx) by (nonlinear_arith);
    assert((cx * maw) * bx == (bx * maw) * cx) by (nonlinear_arith);
}

/// Cramer's rule for the first coordinate: the determinant of three vectors
/// times a fourth is the sum of the three, each times the determinant in
/// which the fourth stands in its place.
pub proof fn lemma_cramer_first(
    ax: int,
    ay: int,
    az: int,
    bx: int,
    by: int,
    bz: int,
    cx: int,
    cy: int,
    cz: int,
    wx: int,
    wy: int,
    wz: int,
)
    ensures
        det3(ax, ay, az, bx, by, bz, cx, cy, cz) * wx == det3(wx, wy, wz, bx, by, bz, cx, cy, cz)
            * ax + det3(ax, ay, az, wx, wy, wz, cx, cy, cz) * bx + det3(
            ax,
            ay,
            az,
            bx,
            by,
            bz,
            wx,
            wy,
            wz,
        ) * cx,
{
    lemma_det3_by_first(ax, ay, az, bx, by, bz, cx, cy, cz);
    lemma_det3_by_first(wx, wy, wz, bx, by, bz, cx, cy, cz);
    lemma_det3_by_first(ax, ay, az, wx, wy, wz, cx, cy, cz);
    lemma_det3_by_first(ax, ay, az, bx, by, bz, wx, wy, wz);
    let mbc = by * cz - bz * cy;
    let mac = ay * cz - az * cy;
    let mab = ay * bz - az * by;
    let mwc = wy * cz - wz * cy;
    let mbw = by * wz - bz * wy;
    let maw = ay * wz - az * wy;
    assert(wy * bz - wz * by == -mbw) by (nonlinear_arith)
        requires
            mbw == by * wz - bz * wy,
    ;
    assert(cx * (wy * bz - wz * by) == -(cx * mbw)) by (nonlinear_arith)
        requires
            wy * bz - wz * by == -mbw,
    ;
    lemma_cramer_developed(ax, bx, cx, wx, mbc, mac, mab, mwc, mbw, maw);
}

/// The determinant stays as it is when the coordinates change places in
/// their round.
pub proof fn lemma_det3_round(
    px: int,
    py: int,
    pz: int,
    qx: int,
    qy: int,
    qz: int,
    rx: int,
    ry: int,
    rz: int,
)
    ensures
        det3(py, pz, px, qy, qz, qx, ry, rz, rx) == det3(px, py, pz, qx, qy, qz, rx, ry, rz),
{
}

/// Cramer's rule for vectors on the grid: the scalar triple product of
/// three vectors times a fourth vector is the sum of the three, each times
/// the triple product in which the fourth stands in its place.
pub proof fn lemma_cramer(a: Vec3, b: Vec3, c: Vec3, w: Vec3)
    ensures
        a.triple(b, c) * w.x == w.triple(b, c) * a.x + a.triple(w, c) * b.x + a.triple(b, w) * c.x,
        a.triple(b, c) * w.y == w.triple(b, c) * a.y + a.triple(w, c) * b.y + a.triple(b, w) * c.y,
        a.triple(b, c) * w.z == w.triple(b, c) * a.z + a.triple(w, c) * b.z + a.triple(b, w) * c.z,
{
    let (ax, ay, az) = (a.x as int, a.y as int, a.z as int);
    let (bx, by, bz) = (b.x as int, b.y as int, b.z as int);
    let (cx, cy, cz) = (c.x as int, c.y as int, c.z as int);
    let (wx, wy, wz) = (w.x as int, w.y as int, w.z as int);
    lemma_cramer_first(ax, ay, az, bx, by, bz, cx, cy, cz, wx, wy, wz);
    lemma_cramer_first(ay, az, ax, by, bz, bx, cy, cz, cx, wy, wz, wx);
    lemma_det3_round(ax, ay, az, bx, by, bz, cx, cy, cz);
    lemma_det3_round(wx, wy, wz, bx, by, bz, cx, cy, cz);
    lemma_det3_round(ax, ay, az, wx, wy, wz, cx, cy, cz);
    lemma_det3_round(ax, ay, az, bx, by, bz, wx, wy, wz);
    lemma_cramer_first(az, ax, ay, bz, bx, by, cz, cx, cy, wz, wx, wy);
    lemma_det3_round(ay, az, ax, by, bz, bx, cy, cz, cx);
    lemma_det3_round(wy, wz, wx, by, bz, bx, cy, cz, cx);
    lemma_det3_round(ay, az, ax, wy, wz, wx, cy, cz, cx);
    lemma_det3_round(ay, az, ax, by, bz, bx, wy, wz, wx);
}

} // verus!
