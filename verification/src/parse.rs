//! Loading a mesh from its textual description.
//!
//! The format is line oriented.  A line whose first token is `v` defines a
//! vertex from three decimal coordinates; a line whose first token is `f`
//! defines a triangular face from the leading integers of its first three
//! vertex references (1-based, anything after a `/` in a reference is
//! ignored).  Lines with any other first token are ignored.  Malformed
//! numbers, missing fields, out-of-range indices and degenerate faces are
//! hard errors: no partial mesh is returned.
//!
//! Numeric tokens are converted to fixed point exactly: the token
//! `[+|-]digits[.digits]` denotes `(I * 10^k + F) * SCALE / 10^k` rounded
//! toward zero, and both digit runs are limited to thirteen digits.

use vstd::prelude::*;
use crate::fixed::COORD_MAX;
use crate::fixed::SCALE;
use crate::fixed::qtz;
use crate::fixed::div_tz;
use crate::mesh::Mesh;
use crate::mesh::poly_wf;
use crate::polygon::GeomError;
use crate::polygon::Polygon;
use crate::polygon::Tri;
use crate::vec3::Vec3;
use crate::vec3::in_range;

verus! {

/// Why a mesh description was rejected.
#[derive(Clone, Copy, PartialEq, Eq, Structural, Debug)]
pub enum LoadError {
    /// A vertex line is missing coordinates or holds a malformed number.
    MalformedVertex,
    /// A face line is missing references or holds a malformed reference.
    MalformedFace,
    /// A face references a vertex index that is 0 or past the vertex list.
    FaceIndexOutOfRange,
    /// A face spans a zero-area triangle.
    DegenerateFace,
}

/// An ASCII decimal digit.
pub open spec fn is_digit(b: u8) -> bool {
    48 <= b <= 57
}

/// Every byte of `s` is a decimal digit.
pub open spec fn all_digits(s: Seq<u8>) -> bool {
    forall|i: int| 0 <= i < s.len() ==> is_digit(#[trigger] s[i])
}

/// The value of a digit run, most significant first.
pub open spec fn digits_val(s: Seq<u8>) -> int
    decreases s.len(),
{
    if s.len() == 0 {
        0
    } else {
        digits_val(s.drop_last()) * 10 + (s.last() - 48)
    }
}

/// The position of the first occurrence of `b` in `s`, or the length.
pub open spec fn find_byte(s: Seq<u8>, b: u8) -> int
    decreases s.len(),
{
    if s.len() == 0 {
        0
    } else if s[0] == b {
        0
    } else {
        1 + find_byte(s.drop_first(), b)
    }
}

/// Ten to the `k`.
pub open spec fn pow10(k: nat) -> int
    decreases k,
{
    if k == 0 {
        1
    } else {
        10 * pow10((k - 1) as nat)
    }
}

/// The fixed-point value of a decimal coordinate token, or nothing if the
/// token is malformed, too long, or out of the coordinate range.
pub open spec fn coord_val_s(s: Seq<u8>) -> Option<i64> {
    if s.len() == 0 {
        None
    } else {
        let neg = s[0] == 45;
        let body = if s[0] == 45 || s[0] == 43 {
            s.drop_first()
        } else {
            s
        };
        let d = find_byte(body, 46);
        let ip = body.subrange(0, d);
        let fp = if d < body.len() {
            body.subrange(d + 1, body.len() as int)
        } else {
            Seq::empty()
        };
        if body.len() == 0 || ip.len() + fp.len() == 0 || !all_digits(ip) || !all_digits(fp)
            || ip.len() > 13 || fp.len() > 13 {
            None
        } else {
            let raw = digits_val(ip) * pow10(fp.len()) + digits_val(fp);
            let v = qtz(raw * SCALE, pow10(fp.len()));
            let sv: int = if neg {
                -v
            } else {
                v
            };
            if -COORD_MAX <= sv <= COORD_MAX {
                Some(sv as i64)
            } else {
                None
            }
        }
    }
}

/// The 1-based vertex index of a face reference token (the digits before
/// any `/`), or nothing if malformed or too long.
pub open spec fn face_ref_s(s: Seq<u8>) -> Option<u64> {
    let d = find_byte(s, 47);
    let ip = s.subrange(0, d);
    if ip.len() == 0 || !all_digits(ip) || ip.len() > 13 {
        None
    } else {
        Some(digits_val(ip) as u64)
    }
}

/// A byte that separates tokens within a line.
pub open spec fn is_ws_s(b: u8) -> bool {
    b == 32 || b == 9 || b == 13
}

/// The position of the first whitespace byte in `s`, or the length.
pub open spec fn find_ws(s: Seq<u8>) -> int
    decreases s.len(),
{
    if s.len() == 0 {
        0
    } else if is_ws_s(s[0]) {
        0
    } else {
        1 + find_ws(s.drop_first())
    }
}

/// `find_byte`, clamped into the index range (it always lies in it; the
/// clamp keeps recursion measures checkable).
pub open spec fn split_at(s: Seq<u8>, b: u8) -> int {
    let d = find_byte(s, b);
    if 0 <= d <= s.len() {
        d
    } else {
        s.len() as int
    }
}

/// The end of the token starting at a non-whitespace head: the first
/// whitespace position, clamped into `1 ..= s.len()`.
pub open spec fn token_end(s: Seq<u8>) -> int {
    let d = find_ws(s);
    if 1 <= d <= s.len() {
        d
    } else if d > s.len() {
        s.len() as int
    } else {
        1
    }
}

/// The lines of a description: the segments between newline bytes.  Every
/// description is at least one (possibly empty) line.
pub open spec fn lines_s(s: Seq<u8>) -> Seq<Seq<u8>>
    decreases s.len(),
{
    let d = split_at(s, 10);
    if d == s.len() {
        seq![s]
    } else {
        seq![s.subrange(0, d)] + lines_s(s.subrange(d + 1, s.len() as int))
    }
}

/// The whitespace-separated tokens of one line, in order.
pub open spec fn tokens_s(s: Seq<u8>) -> Seq<Seq<u8>>
    decreases s.len(),
{
    if s.len() == 0 {
        Seq::empty()
    } else if is_ws_s(s[0]) {
        tokens_s(s.drop_first())
    } else {
        let k = token_end(s);
        seq![s.subrange(0, k)] + tokens_s(s.subrange(k, s.len() as int))
    }
}

/// What one line contributes to the mesh: nothing, a vertex, a face's
/// first three references, or the failure that stops the parse.
pub enum LineAct {
    Skip,
    Vert(Vec3),
    Face((u64, u64, u64)),
    Bad(LoadError),
}

/// The meaning of one line.  A `v` line needs three well-formed coordinate
/// tokens; an `f` line needs three well-formed references (extra tokens are
/// ignored in both); any other first token is skipped.
pub open spec fn line_act_s(line: Seq<u8>) -> LineAct {
    let toks = tokens_s(line);
    if toks.len() == 0 {
        LineAct::Skip
    } else if toks[0] == seq![118u8] {
        if toks.len() < 4 {
            LineAct::Bad(LoadError::MalformedVertex)
        } else {
            match (coord_val_s(toks[1]), coord_val_s(toks[2]), coord_val_s(toks[3])) {
                (Some(x), Some(y), Some(z)) => LineAct::Vert(Vec3 { x, y, z }),
                _ => LineAct::Bad(LoadError::MalformedVertex),
            }
        }
    } else if toks[0] == seq![102u8] {
        if toks.len() < 4 {
            LineAct::Bad(LoadError::MalformedFace)
        } else {
            match (face_ref_s(toks[1]), face_ref_s(toks[2]), face_ref_s(toks[3])) {
                (Some(a), Some(b), Some(c)) => LineAct::Face((a, b, c)),
                _ => LineAct::Bad(LoadError::MalformedFace),
            }
        }
    } else {
        LineAct::Skip
    }
}

/// Scan the lines in order, accumulating vertices and face references and
/// stopping at the first bad line.
pub open spec fn scan_s(
    vs: Seq<Vec3>,
    fs: Seq<(u64, u64, u64)>,
    lines: Seq<Seq<u8>>,
) -> Result<(Seq<Vec3>, Seq<(u64, u64, u64)>), LoadError>
    decreases lines.len(),
{
    if lines.len() == 0 {
        Ok((vs, fs))
    } else {
        match line_act_s(lines[0]) {
            LineAct::Skip => scan_s(vs, fs, lines.drop_first()),
            LineAct::Vert(v) => scan_s(vs.push(v), fs, lines.drop_first()),
            LineAct::Face(f) => scan_s(vs, fs.push(f), lines.drop_first()),
            LineAct::Bad(e) => Err(e),
        }
    }
}

/// Splitting the line list anywhere splits the scan: the suffix is scanned
/// from whatever state the prefix reaches.
proof fn lemma_scan_append(
    vs: Seq<Vec3>,
    fs: Seq<(u64, u64, u64)>,
    a: Seq<Seq<u8>>,
    b: Seq<Seq<u8>>,
)
    ensures
        scan_s(vs, fs, a + b) == match scan_s(vs, fs, a) {
            Ok(st) => scan_s(st.0, st.1, b),
            Err(e) => Err(e),
        },
    decreases a.len(),
{
    if a.len() == 0 {
        assert(a + b =~= b);
    } else {
        assert((a + b)[0] == a[0]);
        assert((a + b).drop_first() =~= a.drop_first() + b);
        match line_act_s(a[0]) {
            LineAct::Skip => lemma_scan_append(vs, fs, a.drop_first(), b),
            LineAct::Vert(v) => lemma_scan_append(vs.push(v), fs, a.drop_first(), b),
            LineAct::Face(f) => lemma_scan_append(vs, fs.push(f), a.drop_first(), b),
            LineAct::Bad(e) => {},
        }
    }
}

/// Lines that contribute nothing — comments, groups, materials, any line
/// whose first token is neither `v` nor `f`, and blank lines — have no
/// effect on the scan: it sees exactly the contributing lines.
pub proof fn lemma_scan_ignores_skips(
    vs: Seq<Vec3>,
    fs: Seq<(u64, u64, u64)>,
    ls: Seq<Seq<u8>>,
)
    ensures
        scan_s(vs, fs, ls) == scan_s(
            vs,
            fs,
            ls.filter(|l: Seq<u8>| !(line_act_s(l) is Skip)),
        ),
    decreases ls.len(),
{
    let pred = |l: Seq<u8>| !(line_act_s(l) is Skip);
    if ls.len() > 0 {
        let a = ls.drop_last();
        let x = ls.last();
        lemma_scan_ignores_skips(vs, fs, a);
        assert(ls =~= a + seq![x]);
        lemma_scan_append(vs, fs, a, seq![x]);
        reveal_with_fuel(Seq::filter, 2);
        assert(ls.filter(pred) == if pred(x) {
            a.filter(pred).push(x)
        } else {
            a.filter(pred)
        });
        if pred(x) {
            assert(a.filter(pred).push(x) =~= a.filter(pred) + seq![x]);
            lemma_scan_append(vs, fs, a.filter(pred), seq![x]);
        } else {
            match scan_s(vs, fs, a) {
                Ok(st) => {
                    assert(seq![x][0] == x);
                    assert(seq![x].drop_first() =~= Seq::<Seq<u8>>::empty());
                    assert(scan_s(st.0, st.1, Seq::<Seq<u8>>::empty()) == Ok::<
                        (Seq<Vec3>, Seq<(u64, u64, u64)>),
                        LoadError,
                    >((st.0, st.1)));
                    assert(scan_s(st.0, st.1, seq![x]) == Ok::<
                        (Seq<Vec3>, Seq<(u64, u64, u64)>),
                        LoadError,
                    >((st.0, st.1)));
                    assert(Ok::<(Seq<Vec3>, Seq<(u64, u64, u64)>), LoadError>((st.0, st.1))
                        == scan_s(vs, fs, a));
                },
                Err(e) => {},
            }
        }
    }
}

/// Build one polygon per scanned face, in order: each face's three 1-based
/// references select owned copies of the scanned vertices, and the polygon
/// is their triangle with its computed unit normal.  Stops at the first
/// out-of-range reference or degenerate face.
pub open spec fn build_s(
    vs: Seq<Vec3>,
    fs: Seq<(u64, u64, u64)>,
    acc: Seq<Polygon>,
) -> Result<Seq<Polygon>, LoadError>
    decreases fs.len(),
{
    if fs.len() == 0 {
        Ok(acc)
    } else {
        let f = fs[0];
        if f.0 == 0 || f.0 > vs.len() || f.1 == 0 || f.1 > vs.len() || f.2 == 0 || f.2
            > vs.len() {
            Err(LoadError::FaceIndexOutOfRange)
        } else {
            let t = Tri { a: vs[f.0 - 1], b: vs[f.1 - 1], c: vs[f.2 - 1] };
            if crate::vec3::norm2_s(crate::polygon::tri_cross_s(t)) < crate::fixed::CROSS2_MIN {
                Err(LoadError::DegenerateFace)
            } else {
                build_s(vs, fs.drop_first(), acc.push(crate::polygon::normal_image_s(t)))
            }
        }
    }
}

/// The meaning of a whole description: the polygon list it denotes, or the
/// first failure the scan or the build meets.
pub open spec fn parse_desc_s(s: Seq<u8>) -> Result<Seq<Polygon>, LoadError> {
    match scan_s(Seq::empty(), Seq::empty(), lines_s(s)) {
        Ok((vs, fs)) => build_s(vs, fs, Seq::empty()),
        Err(e) => Err(e),
    }
}

/// The views of a token list.
pub open spec fn token_views(ts: Seq<Vec<u8>>) -> Seq<Seq<u8>> {
    ts.map_values(|t: Vec<u8>| t@)
}

/// `find_ws` lies within the index range.
proof fn lemma_find_ws_range(s: Seq<u8>)
    ensures
        0 <= find_ws(s) <= s.len(),
    decreases s.len(),
{
    if s.len() > 0 && !is_ws_s(s[0]) {
        lemma_find_ws_range(s.drop_first());
    }
}

/// `find_ws` returns the first whitespace position.
proof fn lemma_find_ws(s: Seq<u8>, j: int)
    requires
        0 <= j <= s.len(),
        forall|k: int| 0 <= k < j ==> !is_ws_s(s[k]),
        j < s.len() ==> is_ws_s(s[j]),
    ensures
        find_ws(s) == j,
    decreases j,
{
    if s.len() == 0 {
    } else if j == 0 {
    } else {
        lemma_find_ws(s.drop_first(), j - 1);
    }
}

/// The first whitespace position in the slice.
fn find_ws_at(s: &[u8]) -> (r: usize)
    ensures
        r == find_ws(s@),
        r <= s@.len(),
{
    let n = s.len();
    let mut j: usize = 0;
    while j < n && !(s[j] == 32 || s[j] == 9 || s[j] == 13)
        invariant
            0 <= j <= n,
            n == s@.len(),
            forall|k: int| 0 <= k < j ==> !is_ws_s(s@[k]),
        decreases n - j,
    {
        j += 1;
    }
    proof {
        lemma_find_ws(s@, j as int);
    }
    j
}

/// The first position of `b` in the slice.
fn find_byte_at(s: &[u8], b: u8) -> (r: usize)
    ensures
        r == find_byte(s@, b),
        r <= s@.len(),
{
    let n = s.len();
    let mut j: usize = 0;
    while j < n && s[j] != b
        invariant
            0 <= j <= n,
            n == s@.len(),
            forall|k: int| 0 <= k < j ==> s@[k] != b,
        decreases n - j,
    {
        j += 1;
    }
    proof {
        lemma_find_byte(s@, b, j as int);
    }
    j
}

/// `find_byte` returns the first position of its byte.
proof fn lemma_find_byte(s: Seq<u8>, b: u8, j: int)
    requires
        0 <= j <= s.len(),
        forall|k: int| 0 <= k < j ==> s[k] != b,
        j < s.len() ==> s[j] == b,
    ensures
        find_byte(s, b) == j,
    decreases j,
{
    if s.len() == 0 {
    } else if j == 0 {
    } else {
        lemma_find_byte(s.drop_first(), b, j - 1);
    }
}

/// The value of a digit run grows from its prefixes.
proof fn lemma_digits_take(s: Seq<u8>, j: int)
    requires
        0 <= j < s.len(),
    ensures
        digits_val(s.subrange(0, j + 1)) == digits_val(s.subrange(0, j)) * 10 + (s[j] - 48),
    decreases s.len(),
{
    let cur = s.subrange(0, j + 1);
    assert(cur.drop_last() =~= s.subrange(0, j));
    assert(cur.last() == s[j]);
}

/// A digit run of at most `k` digits stays below `10^k`.
proof fn lemma_digits_bound_any(s: Seq<u8>, k: nat)
    requires
        all_digits(s),
        s.len() <= k,
    ensures
        0 <= digits_val(s) < pow10(k),
        pow10(k) >= 1,
    decreases k,
{
    if k == 0 {
    } else if s.len() == 0 {
        lemma_digits_bound_any(s, (k - 1) as nat);
        assert(pow10(k) == 10 * pow10((k - 1) as nat));
    } else {
        assert(forall|i: int| 0 <= i < s.drop_last().len() ==> is_digit(#[trigger] s.drop_last()[i]));
        lemma_digits_bound_any(s.drop_last(), (k - 1) as nat);
        assert(digits_val(s) == digits_val(s.drop_last()) * 10 + (s.last() - 48));
        assert(digits_val(s.drop_last()) * 10 + 9 < 10 * pow10((k - 1) as nat) && digits_val(
            s.drop_last(),
        ) * 10 >= 0) by (nonlinear_arith)
            requires
                0 <= digits_val(s.drop_last()) < pow10((k - 1) as nat),
        ;
    }
}

/// `pow10(13)`, evaluated.
proof fn lemma_pow10_13()
    ensures
        pow10(13) == 10_000_000_000_000,
{
    reveal_with_fuel(pow10, 14);
}

/// A digit run of at most thirteen digits stays below `10^13`.
proof fn lemma_digits_bound(s: Seq<u8>)
    requires
        all_digits(s),
        s.len() <= 13,
    ensures
        0 <= digits_val(s) < 10_000_000_000_000,
{
    lemma_digits_bound_any(s, 13);
    lemma_pow10_13();
}

/// `pow10` is monotone and positive.
proof fn lemma_pow10_le(k: nat, m: nat)
    requires
        k <= m,
    ensures
        1 <= pow10(k) <= pow10(m),
    decreases m,
{
    if k == m {
        lemma_pow10_pos(k);
    } else {
        lemma_pow10_le(k, (m - 1) as nat);
        assert(pow10(m) == 10 * pow10((m - 1) as nat));
    }
}

/// `pow10` is positive.
proof fn lemma_pow10_pos(k: nat)
    ensures
        pow10(k) >= 1,
    decreases k,
{
    if k > 0 {
        lemma_pow10_pos((k - 1) as nat);
    }
}

/// The value of a digit run, accumulated left to right.
fn digits_value(s: &[u8]) -> (r: Option<i64>)
    ensures
        match r {
            Some(v) => all_digits(s@) && s@.len() <= 13 && s@.len() >= 1 && v == digits_val(s@)
                && 0 <= v < 10_000_000_000_000,
            None => !all_digits(s@) || s@.len() > 13 || s@.len() == 0,
        },
{
    let n = s.len();
    if n == 0 || n > 13 {
        return None;
    }
    let mut acc: i64 = 0;
    for j in 0..n
        invariant
            n == s@.len(),
            1 <= n <= 13,
            forall|k: int| 0 <= k < j ==> is_digit(#[trigger] s@[k]),
            acc == digits_val(s@.subrange(0, j as int)),
            0 <= acc < 10_000_000_000_000,
    {
        let b = s[j];
        if b < 48 || b > 57 {
            return None;
        }
        proof {
            lemma_digits_take(s@, j as int);
            assert(forall|k: int|
                0 <= k < j + 1 ==> is_digit(#[trigger] s@.subrange(0, j as int + 1)[k]));
            lemma_digits_bound(s@.subrange(0, j as int + 1));
        }
        acc = acc * 10 + ((b - 48) as i64);
    }
    proof {
        assert(s@.subrange(0, n as int) =~= s@);
    }
    Some(acc)
}

/// Parse one decimal coordinate token into fixed point.
pub fn parse_coord(s: &[u8]) -> (r: Option<i64>)
    ensures
        r == coord_val_s(s@),
        match r {
            Some(v) => -COORD_MAX <= v <= COORD_MAX,
            None => true,
        },
{
    let n = s.len();
    if n == 0 {
        return None;
    }
    let neg = s[0] == 45;
    let skip: usize = if s[0] == 45 || s[0] == 43 {
        1
    } else {
        0
    };
    let body = &s[skip..n];
    proof {
        if skip == 1 {
            assert(body@ =~= s@.drop_first());
        } else {
            assert(body@ =~= s@);
        }
    }
    let bn = body.len();
    if bn == 0 {
        return None;
    }
    let d = find_byte_at(body, 46);
    let ip = &body[0..d];
    assert(ip@ =~= body@.subrange(0, d as int));
    let ghost fp_s: Seq<u8> = if d < bn {
        body@.subrange(d as int + 1, bn as int)
    } else {
        Seq::empty()
    };
    if d >= bn {
        assert(fp_s =~= Seq::<u8>::empty());
        assert(fp_s.len() == 0);
        assert(all_digits(fp_s));
        // no fractional part
        if d == 0 {
            return None;
        }
        let iv = match digits_value(ip) {
            Some(v) => v,
            None => {
                return None;
            },
        };
        assert(digits_val(fp_s) == 0 && pow10(fp_s.len()) == 1);
        proof {
            assert((iv as int) * (SCALE as int) <= 655_360_000_000_000_000 * 1 && (iv as int) * (
            SCALE as int) >= 0) by (nonlinear_arith)
                requires
                    0 <= iv < 10_000_000_000_000,
            ;
            crate::fixed::lemma_qtz_bound((iv as int) * (SCALE as int), 1, 655_360_000_000_000_000);
        }
        let v128 = div_tz((iv as i128) * (SCALE as i128), 1);
        let sv128 = if neg {
            -v128
        } else {
            v128
        };
        proof {
            let bodyg: Seq<u8> = if s@[0] == 45 || s@[0] == 43 {
                s@.drop_first()
            } else {
                s@
            };
            assert(bodyg == body@);
            assert(find_byte(bodyg, 46) == d as int);
            assert(bodyg.subrange(0, d as int) == ip@);
            assert(all_digits(ip@) && 1 <= ip@.len() <= 13);
            let rawg = digits_val(ip@) * pow10(0) + 0;
            assert(pow10(0) == 1);
            assert(rawg == iv as int);
            assert(v128 as int == qtz(rawg * SCALE, pow10(0)));
        }
        if sv128 < -(COORD_MAX as i128) || sv128 > COORD_MAX as i128 {
            return None;
        }
        let sv = sv128 as i64;
        assert(coord_val_s(s@) == Some(sv));
        return Some(sv);
    }
    // has a fractional part
    let fp = &body[d + 1..bn];
    assert(fp@ =~= fp_s);
    if d == 0 && d + 1 == bn {
        return None;
    }
    let mut iv: i64 = 0;
    if d > 0 {
        iv = match digits_value(ip) {
            Some(v) => v,
            None => {
                return None;
            },
        };
    } else {
        assert(ip@.len() == 0);
        assert(digits_val(ip@) == 0);
    }
    let mut fv: i64 = 0;
    let mut p10: i64 = 1;
    if d + 1 < bn {
        fv = match digits_value(fp) {
            Some(v) => v,
            None => {
                return None;
            },
        };
        p10 = pow10_exec(bn - d - 1);
    } else {
        assert(fp_s.len() == 0);
        assert(digits_val(fp_s) == 0 && pow10(fp_s.len()) == 1);
    }
    // both runs parsed; combine exactly
    proof {
        if d > 0 {
            assert(all_digits(ip@) && ip@.len() <= 13);
        } else {
            assert(all_digits(ip@));
        }
        assert(0 <= iv < 10_000_000_000_000);
        assert(0 <= fv < 10_000_000_000_000);
        assert(1 <= p10 <= 10_000_000_000_000);
        assert((iv as int) * (p10 as int) <= 100_000_000_000_000_000_000_000_000 && (iv as int) * (
        p10 as int) >= 0) by (nonlinear_arith)
            requires
                0 <= iv < 10_000_000_000_000,
                0 <= p10 <= 10_000_000_000_000,
        ;
    }
    let raw = (iv as i128) * (p10 as i128) + (fv as i128);
    proof {
        assert((raw as int) * (SCALE as int) >= 0 && (raw as int) * (SCALE as int)
            <= 0x8_0000_0000_0000_0000_0000_0000_0000) by (nonlinear_arith)
            requires
                0 <= raw <= 100_000_000_000_000_000_000_000_000 + 10_000_000_000_000,
        ;
        crate::fixed::lemma_qtz_bound(
            (raw as int) * (SCALE as int),
            p10 as int,
            0x8_0000_0000_0000_0000_0000_0000_0000,
        );
        assert(0x8_0000_0000_0000_0000_0000_0000_0000 * (p10 as int)
            >= 0x8_0000_0000_0000_0000_0000_0000_0000 * 1) by (nonlinear_arith)
            requires
                p10 >= 1,
        ;
    }
    let v128 = div_tz(raw * (SCALE as i128), p10 as i128);
    proof {
        crate::fixed::lemma_qtz_mag((raw as int) * (SCALE as int), p10 as int);
    }
    let sv128 = if neg {
        -v128
    } else {
        v128
    };
    if sv128 < -(COORD_MAX as i128) || sv128 > COORD_MAX as i128 {
        return None;
    }
    let sv = sv128 as i64;
    assert(coord_val_s(s@) == Some(sv));
    Some(sv)
}

/// Ten to the `k`, for small `k`.
fn pow10_exec(k: usize) -> (r: i64)
    requires
        k <= 13,
    ensures
        r == pow10(k as nat),
        1 <= r <= 10_000_000_000_000,
{
    let mut r: i64 = 1;
    for j in 0..k
        invariant
            k <= 13,
            r == pow10(j as nat),
            1 <= r <= 10_000_000_000_000,
    {
        proof {
            lemma_pow10_le(j as nat + 1, 13);
            lemma_pow10_13();
        }
        r = r * 10;
    }
    r
}

/// Parse one face reference token: the leading 1-based index before any
/// `/`.
pub fn parse_face_ref(s: &[u8]) -> (r: Option<u64>)
    ensures
        r == face_ref_s(s@),
{
    let d = find_byte_at(s, 47);
    let ip = &s[0..d];
    assert(ip@ =~= s@.subrange(0, d as int));
    match digits_value(ip) {
        Some(v) => Some(v as u64),
        None => None,
    }
}

/// Split one line into its whitespace-separated tokens.
fn tokenize(line: &[u8]) -> (r: Vec<Vec<u8>>)
    ensures
        r@.len() == tokens_s(line@).len(),
        forall|i: int| 0 <= i < r@.len() ==> (#[trigger] r@[i])@ == tokens_s(line@)[i],
{
    let mut out: Vec<Vec<u8>> = Vec::new();
    let n = line.len();
    let mut i: usize = 0;
    proof {
        assert(line@.subrange(0, n as int) =~= line@);
        assert(token_views(out@) + tokens_s(line@) =~= tokens_s(line@));
    }
    while i < n
        invariant
            0 <= i <= n,
            n == line@.len(),
            tokens_s(line@) == token_views(out@) + tokens_s(line@.subrange(i as int, n as int)),
        decreases n - i,
    {
        let ghost rest = line@.subrange(i as int, n as int);
        let b = line[i];
        if b == 32 || b == 9 || b == 13 {
            proof {
                assert(rest.drop_first() =~= line@.subrange(i as int + 1, n as int));
                assert(tokens_s(rest) == tokens_s(rest.drop_first()));
            }
            i += 1;
        } else {
            let d = find_ws_at(&line[i..n]);
            proof {
                lemma_find_ws_range(rest.drop_first());
                assert(!is_ws_s(rest[0]));
                assert(find_ws(rest) == 1 + find_ws(rest.drop_first()));
                assert(token_end(rest) == find_ws(rest));
            }
            let k = i + d;
            let mut tok: Vec<u8> = Vec::new();
            let mut j = i;
            while j < k
                invariant
                    i <= j <= k,
                    k <= n,
                    n == line@.len(),
                    tok@ == line@.subrange(i as int, j as int),
                decreases k - j,
            {
                tok.push(line[j]);
                proof {
                    assert(line@.subrange(i as int, j as int + 1) =~= line@.subrange(
                        i as int,
                        j as int,
                    ).push(line@[j as int]));
                }
                j += 1;
            }
            proof {
                assert(rest.subrange(0, d as int) =~= line@.subrange(i as int, k as int));
                assert(rest.subrange(d as int, rest.len() as int) =~= line@.subrange(
                    k as int,
                    n as int,
                ));
                assert(tokens_s(rest) == seq![rest.subrange(0, d as int)] + tokens_s(
                    rest.subrange(d as int, rest.len() as int),
                ));
                assert(token_views(out@.push(tok)) =~= token_views(out@).push(tok@));
                assert(token_views(out@).push(tok@) + tokens_s(line@.subrange(k as int, n as int))
                    =~= token_views(out@) + (seq![tok@] + tokens_s(
                    line@.subrange(k as int, n as int),
                )));
            }
            out.push(tok);
            i = k;
        }
    }
    proof {
        assert(line@.subrange(n as int, n as int) =~= Seq::<u8>::empty());
        assert(tokens_s(Seq::<u8>::empty()) =~= Seq::<Seq<u8>>::empty());
        assert(token_views(out@) + Seq::<Seq<u8>>::empty() =~= token_views(out@));
        assert(forall|i: int|
            0 <= i < out@.len() ==> (#[trigger] out@[i])@ == token_views(out@)[i]);
    }
    out
}

impl Mesh {
    /// Parse a line-oriented mesh description into a mesh: the result is
    /// exactly what [`parse_desc_s`] assigns the description.  Vertex lines
    /// (`v x y z`) append to the vertex list in file order; face lines
    /// (`f a b c ...`) take their first three 1-based references; lines
    /// with any other first token have no effect.  Malformed lines,
    /// out-of-range indices and degenerate faces are hard errors: no
    /// partial mesh is returned.
    pub fn load(desc: &[u8]) -> (r: Result<Mesh, LoadError>)
        requires
            desc@.len() < 0x4000_0000,
        ensures
            match r {
                Ok(m) => parse_desc_s(desc@) == Ok::<Seq<Polygon>, LoadError>(m.polygons@) && m.wf(),
                Err(e) => parse_desc_s(desc@) == Err::<Seq<Polygon>, LoadError>(e),
            },
    {
        let mut verts: Vec<Vec3> = Vec::new();
        let mut faces: Vec<(u64, u64, u64)> = Vec::new();
        let n = desc.len();
        let mut pos: usize = 0;
        let ghost all_lines = lines_s(desc@);
        proof {
            assert(desc@.subrange(0, n as int) =~= desc@);
        }
        loop
            invariant_except_break
                0 <= pos <= n,
                n == desc@.len(),
                all_lines == lines_s(desc@),
                scan_s(Seq::empty(), Seq::empty(), all_lines) == scan_s(
                    verts@,
                    faces@,
                    lines_s(desc@.subrange(pos as int, n as int)),
                ),
                forall|j: int|
                    0 <= j < verts@.len() ==> in_range(#[trigger] verts@[j], COORD_MAX as int),
            ensures
                scan_s(Seq::empty(), Seq::empty(), all_lines) == Ok::<
                    (Seq<Vec3>, Seq<(u64, u64, u64)>),
                    LoadError,
                >((verts@, faces@)),
                all_lines == lines_s(desc@),
                forall|j: int|
                    0 <= j < verts@.len() ==> in_range(#[trigger] verts@[j], COORD_MAX as int),
            decreases n - pos,
        {
            let ghost rest = desc@.subrange(pos as int, n as int);
            let sub = &desc[pos..n];
            let d = find_byte_at(sub, 10);
            let end = pos + d;
            let line = &desc[pos..end];
            let ghost ls = lines_s(rest);
            proof {
                assert(sub@ =~= rest);
                assert(line@ =~= rest.subrange(0, d as int));
                assert(split_at(rest, 10) == d as int);
                if d as int == rest.len() {
                    assert(line@ =~= rest);
                    assert(ls == seq![rest]);
                    assert(ls[0] == line@);
                    assert(ls.drop_first() =~= Seq::<Seq<u8>>::empty());
                } else {
                    assert(ls == seq![rest.subrange(0, d as int)] + lines_s(
                        rest.subrange(d as int + 1, rest.len() as int),
                    ));
                    assert(ls[0] == line@);
                    assert(rest.subrange(d as int + 1, rest.len() as int) =~= desc@.subrange(
                        end as int + 1,
                        n as int,
                    ));
                    assert(ls.drop_first() =~= lines_s(
                        desc@.subrange(end as int + 1, n as int),
                    ));
                }
                assert(ls.len() >= 1);
            }
            let ghost act = line_act_s(line@);
            let toks = tokenize(line);
            let ghost ts = tokens_s(line@);
            if toks.len() > 0 {
                let head = &toks[0];
                proof {
                    assert(head@ == ts[0]);
                }
                let is_v = head.len() == 1 && head[0] == 118;
                let is_f = head.len() == 1 && head[0] == 102;
                proof {
                    if is_v {
                        assert(head@ =~= seq![118u8]);
                    } else {
                        assert(head@ != seq![118u8]) by {
                            if head@ == seq![118u8] {
                                assert(head@.len() == 1);
                                assert(head@[0] == 118u8);
                            }
                        }
                    }
                    if is_f {
                        assert(head@ =~= seq![102u8]);
                    } else {
                        assert(head@ != seq![102u8]) by {
                            if head@ == seq![102u8] {
                                assert(head@.len() == 1);
                                assert(head@[0] == 102u8);
                            }
                        }
                    }
                }
                if is_v {
                    if toks.len() < 4 {
                        proof {
                            assert(act == LineAct::Bad(LoadError::MalformedVertex));
                            lemma_scan_bad(verts@, faces@, ls, LoadError::MalformedVertex);
                        }
                        return Err(LoadError::MalformedVertex);
                    }
                    let ox = parse_coord(toks[1].as_slice());
                    let oy = parse_coord(toks[2].as_slice());
                    let oz = parse_coord(toks[3].as_slice());
                    proof {
                        assert(toks@[1]@ == ts[1] && toks@[2]@ == ts[2] && toks@[3]@ == ts[3]);
                    }
                    match (ox, oy, oz) {
                        (Some(x), Some(y), Some(z)) => {
                            proof {
                                assert(act == LineAct::Vert(Vec3 { x, y, z }));
                                assert(scan_s(verts@, faces@, ls) == scan_s(
                                    verts@.push(Vec3 { x, y, z }),
                                    faces@,
                                    ls.drop_first(),
                                ));
                            }
                            verts.push(Vec3 { x, y, z });
                        },
                        _ => {
                            proof {
                                assert(act == LineAct::Bad(LoadError::MalformedVertex));
                                lemma_scan_bad(verts@, faces@, ls, LoadError::MalformedVertex);
                            }
                            return Err(LoadError::MalformedVertex);
                        },
                    }
                } else if is_f {
                    if toks.len() < 4 {
                        proof {
                            assert(act == LineAct::Bad(LoadError::MalformedFace));
                            lemma_scan_bad(verts@, faces@, ls, LoadError::MalformedFace);
                        }
                        return Err(LoadError::MalformedFace);
                    }
                    let oa = parse_face_ref(toks[1].as_slice());
                    let ob = parse_face_ref(toks[2].as_slice());
                    let oc = parse_face_ref(toks[3].as_slice());
                    proof {
                        assert(toks@[1]@ == ts[1] && toks@[2]@ == ts[2] && toks@[3]@ == ts[3]);
                    }
                    match (oa, ob, oc) {
                        (Some(a), Some(b), Some(c)) => {
                            proof {
                                assert(act == LineAct::Face((a, b, c)));
                                assert(scan_s(verts@, faces@, ls) == scan_s(
                                    verts@,
                                    faces@.push((a, b, c)),
                                    ls.drop_first(),
                                ));
                            }
                            faces.push((a, b, c));
                        },
                        _ => {
                            proof {
                                assert(act == LineAct::Bad(LoadError::MalformedFace));
                                lemma_scan_bad(verts@, faces@, ls, LoadError::MalformedFace);
                            }
                            return Err(LoadError::MalformedFace);
                        },
                    }
                } else {
                    proof {
                        assert(act == LineAct::Skip);
                        assert(scan_s(verts@, faces@, ls) == scan_s(
                            verts@,
                            faces@,
                            ls.drop_first(),
                        ));
                    }
                }
            } else {
                proof {
                    assert(ts.len() == 0);
                    assert(act == LineAct::Skip);
                    assert(scan_s(verts@, faces@, ls) == scan_s(verts@, faces@, ls.drop_first()));
                }
            }
            if end == n {
                proof {
                    assert(ls.drop_first() =~= Seq::<Seq<u8>>::empty());
                    assert(scan_s(verts@, faces@, Seq::<Seq<u8>>::empty()) == Ok::<
                        (Seq<Vec3>, Seq<(u64, u64, u64)>),
                        LoadError,
                    >((verts@, faces@)));
                }
                break ;
            }
            pos = end + 1;
        }
        let mut polygons: Vec<Polygon> = Vec::new();
        let nf = faces.len();
        proof {
            assert(faces@.subrange(0, nf as int) =~= faces@);
        }
        for k in 0..nf
            invariant
                nf == faces@.len(),
                scan_s(Seq::empty(), Seq::empty(), lines_s(desc@)) == Ok::<
                    (Seq<Vec3>, Seq<(u64, u64, u64)>),
                    LoadError,
                >((verts@, faces@)),
                forall|j: int|
                    0 <= j < verts@.len() ==> in_range(#[trigger] verts@[j], COORD_MAX as int),
                forall|j: int| 0 <= j < polygons@.len() ==> poly_wf(#[trigger] polygons@[j]),
                build_s(verts@, faces@, Seq::empty()) == build_s(
                    verts@,
                    faces@.subrange(k as int, nf as int),
                    polygons@,
                ),
        {
            let ghost fsk = faces@.subrange(k as int, nf as int);
            proof {
                assert(fsk[0] == faces@[k as int]);
                assert(fsk.drop_first() =~= faces@.subrange(k as int + 1, nf as int));
            }
            let (a, b, c) = faces[k];
            let vn = verts.len() as u64;
            if a == 0 || a > vn || b == 0 || b > vn || c == 0 || c > vn {
                proof {
                    assert(build_s(verts@, fsk, polygons@) == Err::<Seq<Polygon>, LoadError>(
                        LoadError::FaceIndexOutOfRange,
                    ));
                }
                return Err(LoadError::FaceIndexOutOfRange);
            }
            let tri = Tri {
                a: verts[(a - 1) as usize],
                b: verts[(b - 1) as usize],
                c: verts[(c - 1) as usize],
            };
            let p = match Polygon::new(tri) {
                Ok(p) => p,
                Err(GeomError::Degenerate) => {
                    proof {
                        assert(build_s(verts@, fsk, polygons@) == Err::<Seq<Polygon>, LoadError>(
                            LoadError::DegenerateFace,
                        ));
                    }
                    return Err(LoadError::DegenerateFace);
                },
            };
            proof {
                assert(p == crate::polygon::normal_image_s(tri));
                assert(build_s(verts@, fsk, polygons@) == build_s(
                    verts@,
                    fsk.drop_first(),
                    polygons@.push(p),
                ));
            }
            polygons.push(p);
        }
        proof {
            assert(faces@.subrange(nf as int, nf as int) =~= Seq::<(u64, u64, u64)>::empty());
            assert(build_s(verts@, Seq::<(u64, u64, u64)>::empty(), polygons@) == Ok::<
                Seq<Polygon>,
                LoadError,
            >(polygons@));
        }
        Ok(Mesh { polygons })
    }
}

/// A bad line stops the scan with its error.
proof fn lemma_scan_bad(vs: Seq<Vec3>, fs: Seq<(u64, u64, u64)>, ls: Seq<Seq<u8>>, e: LoadError)
    requires
        ls.len() >= 1,
        line_act_s(ls[0]) == LineAct::Bad(e),
    ensures
        scan_s(vs, fs, ls) == Err::<(Seq<Vec3>, Seq<(u64, u64, u64)>), LoadError>(e),
{
}

} // verus!
