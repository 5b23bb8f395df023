use vstd::prelude::*;

verus! {

/// A map position: column and row.
pub type Loc = [i16; 2];

/// A position as a pair of mathematical integers.
pub open spec fn pt(l: Loc) -> (int, int) {
    (l[0] as int, l[1] as int)
}

pub open spec fn dist(a: int, b: int) -> int {
    if a <= b {
        b - a
    } else {
        a - b
    }
}

/// Direction of travel along one axis: +1 towards a larger end, -1 otherwise.
pub open spec fn step_sign(a: int, b: int) -> int {
    if a < b {
        1
    } else {
        -1
    }
}

/// The coordinate reached after `n` unit steps from `start` in direction `s`.
pub open spec fn advance(start: int, s: int, n: int) -> int {
    if s > 0 {
        start + n
    } else {
        start - n
    }
}

/// Error term of the digital line once `i` steps along x and `j` along y were taken,
/// for a line spanning `a` columns and `b` rows.
pub open spec fn err_at(a: int, b: int, i: int, j: int) -> int {
    a * (1 + j) - b * (1 + i)
}

pub open spec fn steps_x(a: int, b: int, i: int, j: int) -> bool {
    2 * err_at(a, b, i, j) >= -b
}

pub open spec fn steps_y(a: int, b: int, i: int, j: int) -> bool {
    2 * err_at(a, b, i, j) <= a
}

/// The points visited from the state (i, j) on, up to and including the far end.
pub open spec fn walk(x0: int, y0: int, sx: int, sy: int, a: int, b: int, i: int, j: int) -> Seq<
    (int, int),
>
    decreases (a - i) + (b - j),
{
    let p = (advance(x0, sx, i), advance(y0, sy, j));
    if i < 0 || j < 0 || i > a || j > b || (i == a && j == b) {
        seq![p]
    } else {
        let ni = if steps_x(a, b, i, j) {
            i + 1
        } else {
            i
        };
        let nj = if steps_y(a, b, i, j) {
            j + 1
        } else {
            j
        };
        if ni > a || nj > b {
            seq![p]
        } else {
            seq![p] + walk(x0, y0, sx, sy, a, b, ni, nj)
        }
    }
}

/// The digital line from `p0` to `p1`, in the order in which it is walked.
pub open spec fn raster(p0: Loc, p1: Loc) -> Seq<(int, int)> {
    let (x0, y0) = pt(p0);
    let (x1, y1) = pt(p1);
    walk(x0, y0, step_sign(x0, x1), step_sign(y0, y1), dist(x0, x1), dist(y0, y1), 0, 0)
}

/// Two points are equal or 8-neighbours.
pub open spec fn adjacent(p: (int, int), q: (int, int)) -> bool {
    dist(p.0, q.0) <= 1 && dist(p.1, q.1) <= 1
}

/// `v` lies between `p` and `q`, ends included.
pub open spec fn between(v: int, p: int, q: int) -> bool {
    (p <= v <= q) || (q <= v <= p)
}

/// Every point of `s` lies in the box whose opposite corners are `from` and `to`.
pub open spec fn within_box(s: Seq<(int, int)>, from: (int, int), to: (int, int)) -> bool {
    forall|k: int|
        0 <= k < s.len() ==> between(#[trigger] s[k].0, from.0, to.0) && between(s[k].1, from.1, to.1)
}

pub open spec fn max(a: int, b: int) -> int {
    if a >= b {
        a
    } else {
        b
    }
}

/// How far `p` strays from the segment `from`-`to`: the cross product of the
/// segment with the offset of `p`, counted in unit steps along each axis.
pub open spec fn deviation(p: (int, int), from: (int, int), to: (int, int)) -> int {
    dist(from.0, to.0) * dist(from.1, p.1) - dist(from.1, to.1) * dist(from.0, p.0)
}

/// Every point of `s` lies within half a step of the segment `from`-`to`,
/// measured along the axis on which the segment is shorter.
pub open spec fn hugs_segment(s: Seq<(int, int)>, from: (int, int), to: (int, int)) -> bool {
    forall|k: int|
        0 <= k < s.len() ==> -max(dist(from.0, to.0), dist(from.1, to.1)) <= 2 * deviation(
            #[trigger] s[k],
            from,
            to,
        ) <= max(dist(from.0, to.0), dist(from.1, to.1))
}

/// `s` is an 8-connected path that starts at `from` and ends at `to`.
pub open spec fn connected_path(s: Seq<(int, int)>, from: (int, int), to: (int, int)) -> bool {
    &&& s.len() >= 1
    &&& s[0] == from
    &&& s[s.len() - 1] == to
    &&& forall|k: int| 0 <= k < s.len() - 1 ==> #[trigger] adjacent(s[k], s[k + 1])
}

proof fn lemma_err_steps(a: int, b: int, i: int, j: int)
    ensures
        err_at(a, b, i + 1, j) == err_at(a, b, i, j) - b,
        err_at(a, b, i, j + 1) == err_at(a, b, i, j) + a,
{
    assert(b * (1 + (i + 1)) == b * (1 + i) + b) by (nonlinear_arith);
    assert(a * (1 + (j + 1)) == a * (1 + j) + a) by (nonlinear_arith);
}

proof fn lemma_err_bounds(a: int, b: int, i: int, j: int)
    requires
        0 <= i <= a <= 0x10000,
        0 <= j <= b <= 0x10000,
    ensures
        -0x1_0001_0000 <= err_at(a, b, i, j) <= 0x1_0001_0000,
{
    assert(0 <= a * (1 + j) <= 0x10000 * 0x10001) by (nonlinear_arith)
        requires
            0 <= j <= b <= 0x10000,
            0 <= a <= 0x10000,
    ;
    assert(0 <= b * (1 + i) <= 0x10000 * 0x10001) by (nonlinear_arith)
        requires
            0 <= i <= a <= 0x10000,
            0 <= b <= 0x10000,
    ;
}

/// A step never leaves the box spanned by the two ends, and always moves.
proof fn lemma_step_in_bounds(a: int, b: int, i: int, j: int)
    requires
        0 <= i <= a,
        0 <= j <= b,
        !(i == a && j == b),
    ensures
        steps_x(a, b, i, j) ==> i < a,
        steps_y(a, b, i, j) ==> j < b,
        steps_x(a, b, i, j) || steps_y(a, b, i, j),
{
    if i == a {
        assert(2 * (a * (1 + j) - b * (1 + a)) < -b) by (nonlinear_arith)
            requires
                0 <= j < b,
                0 <= a,
        ;
    }
    if j == b {
        assert(2 * (a * (1 + b) - b * (1 + i)) > a) by (nonlinear_arith)
            requires
                0 <= i < a,
                0 <= b,
        ;
    }
}

/// A step keeps the walk within half a step of the ideal line.
proof fn lemma_step_stays_near(a: int, b: int, i: int, j: int)
    requires
        0 <= i <= a,
        0 <= j <= b,
        !(i == a && j == b),
        -max(a, b) <= 2 * (a * j - b * i) <= max(a, b),
    ensures
        ({
            let ni = if steps_x(a, b, i, j) {
                i + 1
            } else {
                i
            };
            let nj = if steps_y(a, b, i, j) {
                j + 1
            } else {
                j
            };
            -max(a, b) <= 2 * (a * nj - b * ni) <= max(a, b)
        }),
{
    assert(err_at(a, b, i, j) == (a * j - b * i) + a - b) by (nonlinear_arith);
    assert(a * (j + 1) == a * j + a) by (nonlinear_arith);
    assert(b * (i + 1) == b * i + b) by (nonlinear_arith);
}

proof fn lemma_walk_path(x0: int, y0: int, sx: int, sy: int, a: int, b: int, i: int, j: int)
    requires
        0 <= i <= a,
        0 <= j <= b,
    ensures
        connected_path(
            walk(x0, y0, sx, sy, a, b, i, j),
            (advance(x0, sx, i), advance(y0, sy, j)),
            (advance(x0, sx, a), advance(y0, sy, b)),
        ),
        within_box(
            walk(x0, y0, sx, sy, a, b, i, j),
            (advance(x0, sx, i), advance(y0, sy, j)),
            (advance(x0, sx, a), advance(y0, sy, b)),
        ),
        -max(a, b) <= 2 * (a * j - b * i) <= max(a, b) ==> hugs_segment(
            walk(x0, y0, sx, sy, a, b, i, j),
            (x0, y0),
            (advance(x0, sx, a), advance(y0, sy, b)),
        ),
    decreases (a - i) + (b - j),
{
    let w = walk(x0, y0, sx, sy, a, b, i, j);
    if !(i == a && j == b) {
        lemma_step_in_bounds(a, b, i, j);
        let ni = if steps_x(a, b, i, j) {
            i + 1
        } else {
            i
        };
        let nj = if steps_y(a, b, i, j) {
            j + 1
        } else {
            j
        };
        lemma_walk_path(x0, y0, sx, sy, a, b, ni, nj);
        let rest = walk(x0, y0, sx, sy, a, b, ni, nj);
        assert(w == seq![(advance(x0, sx, i), advance(y0, sy, j))] + rest);
        assert forall|k: int| 0 <= k < w.len() - 1 implies #[trigger] adjacent(w[k], w[k + 1]) by {
            if k > 0 {
                assert(w[k] == rest[k - 1]);
                assert(w[k + 1] == rest[k]);
                assert(adjacent(rest[k - 1], rest[(k - 1) + 1]));
            }
        }
        let from = (advance(x0, sx, i), advance(y0, sy, j));
        let to = (advance(x0, sx, a), advance(y0, sy, b));
        assert forall|k: int| 0 <= k < w.len() implies between(#[trigger] w[k].0, from.0, to.0)
            && between(w[k].1, from.1, to.1) by {
            if k > 0 {
                assert(w[k] == rest[k - 1]);
                assert(between(rest[k - 1].0, advance(x0, sx, ni), to.0));
                assert(between(rest[k - 1].1, advance(y0, sy, nj), to.1));
            } else {
                assert(w[0] == from);
            }
        }
        let origin = (x0, y0);
        if -max(a, b) <= 2 * (a * j - b * i) <= max(a, b) {
            lemma_step_stays_near(a, b, i, j);
            assert(dist(x0, to.0) == a && dist(y0, to.1) == b);
            assert forall|k: int| 0 <= k < w.len() implies -max(a, b) <= 2 * deviation(
                #[trigger] w[k],
                origin,
                to,
            ) <= max(a, b) by {
                if k > 0 {
                    assert(w[k] == rest[k - 1]);
                } else {
                    assert(w[0] == from);
                    assert(dist(x0, from.0) == i && dist(y0, from.1) == j);
                }
            }
        }
    } else {
        let to = (advance(x0, sx, a), advance(y0, sy, b));
        assert(w[0] == to);
        assert(dist(x0, to.0) == a && dist(y0, to.1) == b);
    }
}

/// Along the longer axis every step advances, so the walk from (i, j) has one
/// point per remaining step on that axis, plus the far end.
proof fn lemma_walk_len(x0: int, y0: int, sx: int, sy: int, a: int, b: int, i: int, j: int)
    requires
        0 <= i <= a,
        0 <= j <= b,
        -max(a, b) <= 2 * (a * j - b * i) <= max(a, b),
    ensures
        walk(x0, y0, sx, sy, a, b, i, j).len() == if a >= b {
            a - i + 1
        } else {
            b - j + 1
        },
    decreases (a - i) + (b - j),
{
    if !(i == a && j == b) {
        lemma_step_in_bounds(a, b, i, j);
        lemma_step_stays_near(a, b, i, j);
        assert(err_at(a, b, i, j) == (a * j - b * i) + a - b) by (nonlinear_arith);
        let ni = if steps_x(a, b, i, j) {
            i + 1
        } else {
            i
        };
        let nj = if steps_y(a, b, i, j) {
            j + 1
        } else {
            j
        };
        lemma_walk_len(x0, y0, sx, sy, a, b, ni, nj);
    }
}

/// Walking a line, in either direction, visits an 8-connected path from the
/// first end to the second that stays within the box of the two ends and
/// within half a step of the segment: the two orders need not visit the same
/// points in reverse, but each approximates the same segment with as many
/// points as the segment's longer side has cells.
pub proof fn lemma_raster_connects_ends(p0: Loc, p1: Loc)
    ensures
        connected_path(raster(p0, p1), pt(p0), pt(p1)),
        connected_path(raster(p1, p0), pt(p1), pt(p0)),
        within_box(raster(p0, p1), pt(p0), pt(p1)),
        within_box(raster(p1, p0), pt(p0), pt(p1)),
        hugs_segment(raster(p0, p1), pt(p0), pt(p1)),
        hugs_segment(raster(p1, p0), pt(p1), pt(p0)),
        raster(p0, p1).len() == raster(p1, p0).len(),
        raster(p0, p1).len() == max(dist(p0[0] as int, p1[0] as int), dist(p0[1] as int, p1[1] as int)) + 1,
{
    let (x0, y0) = pt(p0);
    let (x1, y1) = pt(p1);
    lemma_walk_path(x0, y0, step_sign(x0, x1), step_sign(y0, y1), dist(x0, x1), dist(y0, y1), 0, 0);
    lemma_walk_path(x1, y1, step_sign(x1, x0), step_sign(y1, y0), dist(x1, x0), dist(y1, y0), 0, 0);
    lemma_walk_len(x0, y0, step_sign(x0, x1), step_sign(y0, y1), dist(x0, x1), dist(y0, y1), 0, 0);
    lemma_walk_len(x1, y1, step_sign(x1, x0), step_sign(y1, y0), dist(x1, x0), dist(y1, y0), 0, 0);
}

/// A lazy walk along the digital line between two positions. Each call of
/// `next` yields one more point; a caller may stop at any point.
pub struct Raster {
    x: i64,
    y: i64,
    x1: i64,
    y1: i64,
    sx: i64,
    sy: i64,
    a: i64,
    b: i64,
    e: i64,
    done: bool,
    x0: Ghost<int>,
    y0: Ghost<int>,
    i: Ghost<int>,
    j: Ghost<int>,
}

impl Raster {
    pub closed spec fn wf(&self) -> bool {
        &&& self.sx == 1 || self.sx == -1
        &&& self.sy == 1 || self.sy == -1
        &&& -0x8000 <= self.x0@ <= 0x7fff
        &&& -0x8000 <= self.y0@ <= 0x7fff
        &&& -0x8000 <= self.x1 <= 0x7fff
        &&& -0x8000 <= self.y1 <= 0x7fff
        &&& self.x1 == advance(self.x0@, self.sx as int, self.a as int)
        &&& self.y1 == advance(self.y0@, self.sy as int, self.b as int)
        &&& 0 <= self.i@ <= self.a <= 0x10000
        &&& 0 <= self.j@ <= self.b <= 0x10000
        &&& self.x == advance(self.x0@, self.sx as int, self.i@)
        &&& self.y == advance(self.y0@, self.sy as int, self.j@)
        &&& self.e == err_at(self.a as int, self.b as int, self.i@, self.j@)
    }

    /// The points that are still to come.
    pub closed spec fn rest(&self) -> Seq<(int, int)> {
        if self.done {
            Seq::empty()
        } else {
            walk(
                self.x0@,
                self.y0@,
                self.sx as int,
                self.sy as int,
                self.a as int,
                self.b as int,
                self.i@,
                self.j@,
            )
        }
    }

    pub fn new(p0: Loc, p1: Loc) -> (r: Raster)
        ensures
            r.wf(),
            r.rest() == raster(p0, p1),
    {
        let x0 = p0[0] as i64;
        let y0 = p0[1] as i64;
        let x1 = p1[0] as i64;
        let y1 = p1[1] as i64;
        let a: i64 = if x0 <= x1 {
            x1 - x0
        } else {
            x0 - x1
        };
        let b: i64 = if y0 <= y1 {
            y1 - y0
        } else {
            y0 - y1
        };
        let sx: i64 = if x0 < x1 {
            1
        } else {
            -1
        };
        let sy: i64 = if y0 < y1 {
            1
        } else {
            -1
        };
        proof {
            assert(err_at(a as int, b as int, 0, 0) == a - b) by (nonlinear_arith);
        }
        Raster {
            x: x0,
            y: y0,
            x1,
            y1,
            sx,
            sy,
            a,
            b,
            e: a - b,
            done: false,
            x0: Ghost(x0 as int),
            y0: Ghost(y0 as int),
            i: Ghost(0),
            j: Ghost(0),
        }
    }

    /// Yields the next point of the line, or `None` once the far end was passed.
    pub fn next(&mut self) -> (r: Option<Loc>)
        requires
            old(self).wf(),
        ensures
            final(self).wf(),
            match r {
                Some(p) => old(self).rest() == seq![pt(p)] + final(self).rest(),
                None => old(self).rest().len() == 0 && final(self).rest().len() == 0,
            },
    {
        if self.done {
            return None;
        }
        let ghost w = self.rest();
        let p: Loc = [self.x as i16, self.y as i16];
        proof {
            assert(self.x == self.x1 <==> self.i@ == self.a);
            assert(self.y == self.y1 <==> self.j@ == self.b);
        }
        if self.x == self.x1 && self.y == self.y1 {
            self.done = true;
            return Some(p);
        }
        proof {
            lemma_step_in_bounds(self.a as int, self.b as int, self.i@, self.j@);
            lemma_err_bounds(self.a as int, self.b as int, self.i@, self.j@);
            lemma_err_steps(self.a as int, self.b as int, self.i@, self.j@);
            lemma_err_steps(self.a as int, self.b as int, self.i@ + 1, self.j@);
        }
        let e2 = 2 * self.e;
        if e2 >= -self.b {
            self.e = self.e - self.b;
            self.x = self.x + self.sx;
            self.i = Ghost(self.i@ + 1);
        }
        if e2 <= self.a {
            self.e = self.e + self.a;
            self.y = self.y + self.sy;
            self.j = Ghost(self.j@ + 1);
        }
        Some(p)
    }
}

/// Every point of the digital line from `p0` to `p1`, in walking order.
pub fn bresenham(p0: Loc, p1: Loc) -> (r: Vec<Loc>)
    ensures
        r@.map_values(|l: Loc| pt(l)) == raster(p0, p1),
{
    let mut line = Raster::new(p0, p1);
    let mut out: Vec<Loc> = Vec::new();
    loop
        invariant
            line.wf(),
            out@.map_values(|l: Loc| pt(l)) + line.rest() == raster(p0, p1),
        decreases line.rest().len(),
    {
        let ghost before = out@.map_values(|l: Loc| pt(l));
        match line.next() {
            Some(p) => {
                out.push(p);
                assert(out@.map_values(|l: Loc| pt(l)) =~= before.push(pt(p)));
                assert(before + (seq![pt(p)] + line.rest()) =~= before.push(pt(p)) + line.rest());
            },
            None => {
                assert(before + line.rest() =~= before);
                return out;
            },
        }
    }
}

/// Whether `q` is one of the points of the digital line from `p0` to `p1`.
/// The walk stops at the first match.
pub fn on_line(p0: Loc, p1: Loc, q: Loc) -> (r: bool)
    ensures
        r == raster(p0, p1).contains(pt(q)),
{
    let mut line = Raster::new(p0, p1);
    let ghost seen: Seq<(int, int)> = Seq::empty();
    loop
        invariant
            line.wf(),
            seen + line.rest() == raster(p0, p1),
            !seen.contains(pt(q)),
        decreases line.rest().len(),
    {
        let ghost rest = line.rest();
        match line.next() {
            Some(p) => {
                if p[0] == q[0] && p[1] == q[1] {
                    assert(raster(p0, p1)[seen.len() as int] == pt(q)) by {
                        assert(rest[0] == pt(p));
                    }
                    return true;
                }
                proof {
                    assert(seen + (seq![pt(p)] + line.rest()) =~= seen.push(pt(p)) + line.rest());
                    seen = seen.push(pt(p));
                }
            },
            None => {
                assert(seen + line.rest() =~= seen);
                return false;
            },
        }
    }
}

} // verus!
