//! Polylines whose pieces run along the grid axes, and what it means to wear
//! one down from its tail.

use crate::error::GameError;
use crate::fixed::lemma_scaled_by_unit;
use crate::segment::Segment;
use crate::vector::Vector;
use std::ops::Add;
use std::ops::Mul;
use vstd::math::abs;
use vstd::prelude::*;

verus! {

/// `a` and `b` lie on one line parallel to an axis.
pub open spec fn aligned(a: Vector, b: Vector) -> bool {
    a.x == b.x || a.y == b.y
}

/// The length of the way from `a` to `b` along the axes. Between aligned
/// points this is the straight distance.
pub open spec fn distance(a: Vector, b: Vector) -> nat {
    abs(b.x - a.x) + abs(b.y - a.y)
}

/// The piece from waypoint `i` to the next runs along an axis.
pub open spec fn piece_aligned(s: Seq<Vector>, i: int) -> bool {
    aligned(s[i], s[i + 1])
}

/// Every waypoint is in range and every piece runs along an axis.
pub open spec fn is_path(s: Seq<Vector>) -> bool {
    &&& forall|i: int| 0 <= i < s.len() ==> (#[trigger] s[i]).in_range()
    &&& forall|i: int| 0 <= i < s.len() - 1 ==> #[trigger] piece_aligned(s, i)
}

/// The sum of the lengths of the pieces.
pub open spec fn total_length(s: Seq<Vector>) -> nat
    decreases s.len(),
{
    if s.len() < 2 {
        0
    } else {
        distance(s[0], s[1]) + total_length(s.skip(1))
    }
}

/// `from` moved by `t` in the direction of `to`; unmoved where the two agree.
pub open spec fn shifted(from: int, to: int, t: int) -> int {
    if to > from {
        from + t
    } else if to < from {
        from - t
    } else {
        from
    }
}

/// The point at distance `t` from `a` on the way to an aligned `b`.
pub open spec fn toward(a: Vector, b: Vector, t: int) -> Vector {
    Vector {
        x: shifted(a.x as int, b.x as int, t) as i64,
        y: shifted(a.y as int, b.y as int, t) as i64,
    }
}

/// `p` lies in the rectangle spanned by `a` and `b`: between aligned points,
/// on the piece that joins them.
pub open spec fn within_span(a: Vector, b: Vector, p: Vector) -> bool {
    &&& a.x <= p.x <= b.x || b.x <= p.x <= a.x
    &&& a.y <= p.y <= b.y || b.y <= p.y <= a.y
}

/// The polyline `s` with the length `d` taken off its tail end, which is its
/// first waypoint. Pieces are dropped whole while they are shorter than what
/// is still to take off; the first that is not gets a new start. There is no
/// result when the pieces run out first, nor when the piece that should get a
/// new start has no length.
pub open spec fn eroded(s: Seq<Vector>, d: int) -> Result<Seq<Vector>, GameError>
    decreases s.len(),
{
    if s.len() < 2 {
        Err(GameError::InsufficientTailLength)
    } else {
        let length = distance(s[0], s[1]);
        if length >= d {
            if length == 0 {
                Err(GameError::GeometricDegeneracy)
            } else {
                Ok(seq![toward(s[0], s[1], d)] + s.skip(1))
            }
        } else {
            eroded(s.skip(1), d - length)
        }
    }
}

/// The point at the length `t` along the polyline from its tail end: where
/// the tail gets to when `t` is taken off.
pub open spec fn point_at(s: Seq<Vector>, t: int) -> Vector
    decreases s.len(),
{
    if s.len() < 2 {
        s.last()
    } else if distance(s[0], s[1]) >= t {
        toward(s[0], s[1], t)
    } else {
        point_at(s.skip(1), t - distance(s[0], s[1]))
    }
}

/// A path without its first waypoint is a path.
pub proof fn lemma_path_skip(s: Seq<Vector>)
    requires
        is_path(s),
        s.len() >= 1,
    ensures
        is_path(s.skip(1)),
{
    let t = s.skip(1);
    assert forall|i: int| 0 <= i < t.len() implies (#[trigger] t[i]).in_range() by {
        assert(s[i + 1].in_range());
    }
    assert forall|i: int| 0 <= i < t.len() - 1 implies #[trigger] piece_aligned(t, i) by {
        assert(piece_aligned(s, i + 1));
    }
}

/// A path without its last waypoint is a path.
pub proof fn lemma_path_drop_last(s: Seq<Vector>)
    requires
        is_path(s),
        s.len() >= 1,
    ensures
        is_path(s.drop_last()),
{
    let t = s.drop_last();
    assert forall|i: int| 0 <= i < t.len() implies (#[trigger] t[i]).in_range() by {
        assert(s[i].in_range());
    }
    assert forall|i: int| 0 <= i < t.len() - 1 implies #[trigger] piece_aligned(t, i) by {
        assert(piece_aligned(s, i));
    }
}

/// A path with one more waypoint, in range and aligned with the last, is a
/// path.
pub proof fn lemma_path_push(s: Seq<Vector>, p: Vector)
    requires
        is_path(s),
        p.in_range(),
        s.len() >= 1 ==> aligned(s.last(), p),
    ensures
        is_path(s.push(p)),
{
    let t = s.push(p);
    assert forall|i: int| 0 <= i < t.len() implies (#[trigger] t[i]).in_range() by {
        if i < s.len() {
            assert(s[i].in_range());
        }
    }
    assert forall|i: int| 0 <= i < t.len() - 1 implies #[trigger] piece_aligned(t, i) by {
        if i < s.len() - 1 {
            assert(piece_aligned(s, i));
        }
    }
}

/// One more waypoint at the head end makes the polyline longer by the piece
/// that leads to it.
pub proof fn lemma_total_length_push(s: Seq<Vector>, p: Vector)
    requires
        s.len() >= 1,
    ensures
        total_length(s.push(p)) == total_length(s) + distance(s.last(), p),
    decreases s.len(),
{
    let t = s.push(p);
    if s.len() == 1 {
        assert(t.skip(1).len() == 1);
        assert(total_length(t.skip(1)) == 0);
    } else {
        lemma_total_length_push(s.skip(1), p);
        assert(t.skip(1) =~= s.skip(1).push(p));
    }
}

/// Where `toward` lands: on the piece, in range, and as much nearer to the
/// far end as it was moved.
pub proof fn lemma_toward(a: Vector, b: Vector, t: int)
    requires
        a.in_range(),
        b.in_range(),
        aligned(a, b),
        0 <= t <= distance(a, b),
    ensures
        toward(a, b, t).in_range(),
        within_span(a, b, toward(a, b, t)),
        aligned(toward(a, b, t), b),
        distance(toward(a, b, t), b) == distance(a, b) - t,
        distance(a, toward(a, b, t)) == t,
{
}

/// What is left of a path after wearing it down: a path again, with the same
/// head, shorter by exactly what was taken off, and whose waypoint before the
/// head lies on the old last piece.
pub proof fn lemma_eroded(s: Seq<Vector>, d: int)
    requires
        is_path(s),
        d >= 0,
        eroded(s, d) is Ok,
    ensures
        s.len() >= 2,
        is_path(eroded(s, d).unwrap()),
        2 <= eroded(s, d).unwrap().len() <= s.len(),
        eroded(s, d).unwrap().last() == s.last(),
        total_length(eroded(s, d).unwrap()) == total_length(s) - d,
        within_span(
            s[s.len() - 2],
            s.last(),
            eroded(s, d).unwrap()[eroded(s, d).unwrap().len() - 2],
        ),
    decreases s.len(),
{
    let r = eroded(s, d).unwrap();
    let length = distance(s[0], s[1]);
    assert(piece_aligned(s, 0));
    assert(s[0].in_range() && s[1].in_range());
    if length >= d {
        let p = toward(s[0], s[1], d);
        lemma_toward(s[0], s[1], d);
        lemma_path_skip(s);
        let rest = s.skip(1);
        assert(r == seq![p] + rest);
        assert(r.skip(1) =~= rest);
        assert(r[0] == p && r[1] == rest[0]);
        assert forall|i: int| 0 <= i < r.len() implies (#[trigger] r[i]).in_range() by {
            if i > 0 {
                assert(rest[i - 1].in_range());
            }
        }
        assert forall|i: int| 0 <= i < r.len() - 1 implies #[trigger] piece_aligned(r, i) by {
            if i > 0 {
                assert(piece_aligned(rest, i - 1));
            }
        }
        if s.len() > 2 {
            assert(r[r.len() - 2] == s[s.len() - 2]);
        }
    } else {
        let rest = s.skip(1);
        lemma_path_skip(s);
        lemma_eroded(rest, d - length);
        assert(rest.last() == s.last());
        assert(rest[rest.len() - 2] == s[s.len() - 2]);
    }
}

/// The pieces run out exactly when more is to be taken off than the path is
/// long; a piece without length is in the way only when nothing is to be taken
/// off and it is the first.
pub proof fn lemma_eroded_errors(s: Seq<Vector>, d: int)
    requires
        s.len() >= 2,
        d >= 0,
    ensures
        eroded(s, d) == Err::<Seq<Vector>, GameError>(GameError::InsufficientTailLength)
            <==> total_length(s) < d,
        eroded(s, d) == Err::<Seq<Vector>, GameError>(GameError::GeometricDegeneracy)
            <==> d == 0 && distance(s[0], s[1]) == 0,
        eroded(s, d) is Err ==> eroded(s, d) == Err::<Seq<Vector>, GameError>(
            GameError::InsufficientTailLength,
        ) || eroded(s, d) == Err::<Seq<Vector>, GameError>(GameError::GeometricDegeneracy),
    decreases s.len(),
{
    let length = distance(s[0], s[1]);
    if length < d {
        if s.len() > 2 {
            lemma_eroded_errors(s.skip(1), d - length);
        } else {
            assert(total_length(s.skip(1)) == 0);
        }
    }
}

/// The tail of a path that was worn down is the point that lay as far along
/// the path as was taken off.
pub proof fn lemma_eroded_tail(s: Seq<Vector>, d: int)
    requires
        eroded(s, d) is Ok,
    ensures
        eroded(s, d).unwrap()[0] == point_at(s, d),
    decreases s.len(),
{
    if distance(s[0], s[1]) < d {
        lemma_eroded_tail(s.skip(1), d - distance(s[0], s[1]));
    }
}

/// Wearing a path down in two goes moves its tail where wearing it down in
/// one go does: as far along a path that was worn down by `first` as
/// `second` is the point as far along the path itself as both together.
pub proof fn lemma_point_at_eroded(s: Seq<Vector>, first: int, second: int)
    requires
        is_path(s),
        first >= 0,
        second >= 0,
        eroded(s, first) is Ok,
    ensures
        point_at(eroded(s, first).unwrap(), second) == point_at(s, first + second),
    decreases s.len(),
{
    let length = distance(s[0], s[1]);
    assert(piece_aligned(s, 0));
    assert(s[0].in_range() && s[1].in_range());
    if length >= first {
        let r = eroded(s, first).unwrap();
        let p = toward(s[0], s[1], first);
        lemma_toward(s[0], s[1], first);
        assert(r == seq![p] + s.skip(1));
        assert(r[0] == p && r[1] == s[1]);
        assert(r.skip(1) =~= s.skip(1));
    } else {
        lemma_path_skip(s);
        lemma_point_at_eroded(s.skip(1), first - length, second);
    }
}

/// Moving the head of a path straight on does not move the points that lie
/// along it: `head` lies beyond the last waypoint as seen from the one
/// before, and the point at `t` along the path is the same with `head` for
/// its last waypoint.
pub proof fn lemma_point_at_extended(s: Seq<Vector>, head: Vector, t: int)
    requires
        is_path(s),
        s.len() >= 2,
        0 <= t <= total_length(s),
        aligned(s[s.len() - 2], head),
        within_span(s[s.len() - 2], head, s.last()),
    ensures
        point_at(s.drop_last().push(head), t) == point_at(s, t),
    decreases s.len(),
{
    let longer = s.drop_last().push(head);
    let length = distance(s[0], s[1]);
    assert(piece_aligned(s, s.len() - 2));
    if s.len() == 2 {
        assert(total_length(s.skip(1)) == 0);
        assert(longer[0] == s[0] && longer[1] == head);
    } else {
        assert(longer[0] == s[0] && longer[1] == s[1]);
        if length < t {
            lemma_path_skip(s);
            let rest = s.skip(1);
            assert(rest[rest.len() - 2] == s[s.len() - 2]);
            assert(rest.last() == s.last());
            assert(longer.skip(1) =~= rest.drop_last().push(head));
            lemma_point_at_extended(rest, head, t - length);
        }
    }
}

/// Takes the length `d` off the tail end of `snake`, as `eroded` says: walks
/// from the tail, drops the pieces that are shorter than what is still to take
/// off, and moves the start of the first that is not.
pub fn erode(snake: &Vec<Vector>, d: u128) -> (r: Result<Vec<Vector>, GameError>)
    requires
        is_path(snake@),
    ensures
        match eroded(snake@, d as int) {
            Ok(s) => r matches Ok(v) && v@ == s,
            Err(e) => r matches Err(x) && x == e,
        },
{
    let n = snake.len();
    if n < 2 {
        return Err(GameError::InsufficientTailLength);
    }
    let mut i: usize = 0;
    let mut remaining: u128 = d;
    assert(snake@.skip(0) =~= snake@);
    while i + 1 < n
        invariant
            n == snake@.len(),
            i + 1 <= n,
            is_path(snake@),
            eroded(snake@, d as int) == eroded(snake@.skip(i as int), remaining as int),
        decreases n - i,
    {
        let point = snake[i];
        let next = snake[i + 1];
        let segment = Segment::new(point, next);
        proof {
            let rest = snake@.skip(i as int);
            assert(rest[0] == point && rest[1] == next);
            assert(rest.skip(1) =~= snake@.skip(i + 1));
            assert(snake@[i as int].in_range() && snake@[i + 1].in_range());
            assert(piece_aligned(snake@, i as int));
            segment.spec_vector().lemma_axis_length();
        }
        let length = segment.length();
        if length as u128 >= remaining {
            match segment.vector().normalize() {
                None => {
                    return Err(GameError::GeometricDegeneracy);
                },
                Some(unit) => {
                    proof {
                        segment.spec_vector().lemma_axis_normalize();
                        lemma_scaled_by_unit(remaining as int);
                    }
                    let tail = point.add(unit.mul(remaining as i64));
                    assert(tail == toward(point, next, remaining as int));
                    let mut out: Vec<Vector> = Vec::new();
                    out.push(tail);
                    let mut j: usize = i + 1;
                    while j < n
                        invariant
                            n == snake@.len(),
                            i + 1 <= j <= n,
                            out@ == seq![tail] + snake@.subrange(i + 1, j as int),
                        decreases n - j,
                    {
                        out.push(snake[j]);
                        proof {
                            assert(snake@.subrange(i + 1, j + 1) =~= snake@.subrange(
                                i + 1,
                                j as int,
                            ).push(snake@[j as int]));
                            assert(out@ =~= seq![tail] + snake@.subrange(i + 1, j + 1));
                        }
                        j = j + 1;
                    }
                    assert(snake@.subrange(i + 1, n as int) =~= snake@.skip(i + 1));
                    return Ok(out);
                },
            }
        }
        remaining = remaining - length as u128;
        i = i + 1;
    }
    Err(GameError::InsufficientTailLength)
}

} // verus!
