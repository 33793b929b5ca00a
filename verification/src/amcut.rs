use vstd::prelude::*;

verus! {

/// The index of the vertex before vertex `i` in a closed ring of `m`
/// vertices: the ring wraps around, so the vertex before the first is the
/// last.
pub open spec fn prev_index(m: int, i: int) -> int {
    if i == 0 {
        m - 1
    } else {
        i - 1
    }
}

/// The `i`-th segment of a closed ring: from the vertex before vertex `i` to
/// vertex `i`.
pub open spec fn ring_segment<P>(ring: Seq<P>, i: int) -> (P, P) {
    (ring[prev_index(ring.len() as int, i)], ring[i])
}

/// Some segment of the closed ring `ring` is one for which `segment_crosses`
/// can answer `true`.
pub open spec fn some_segment_crosses<P, F: Fn(P, P) -> bool>(ring: Seq<P>, segment_crosses: F) -> bool {
    exists|i: int|
        0 <= i < ring.len() && #[trigger] segment_crosses.ensures(ring_segment(ring, i), true)
}

/// Every segment of the closed ring `ring` is one for which `segment_crosses`
/// can answer `false`.
pub open spec fn no_segment_crosses<P, F: Fn(P, P) -> bool>(ring: Seq<P>, segment_crosses: F) -> bool {
    forall|i: int|
        0 <= i < ring.len() ==> #[trigger] segment_crosses.ensures(ring_segment(ring, i), false)
}

/// `ring` started at vertex `k` instead of vertex 0.
pub open spec fn rotated<P>(ring: Seq<P>, k: int) -> Seq<P> {
    ring.subrange(k, ring.len() as int) + ring.subrange(0, k)
}

/// Segment `i` of `ring` started at vertex `k` is segment `(i + k) mod m` of
/// `ring`.
proof fn lemma_rotated_segment<P>(ring: Seq<P>, k: int, i: int)
    requires
        0 <= k < ring.len(),
        0 <= i < ring.len(),
    ensures
        ring_segment(rotated(ring, k), i) == ring_segment(
            ring,
            if i + k < ring.len() {
                i + k
            } else {
                i + k - ring.len()
            },
        ),
{
    let m = ring.len() as int;
    let rot = rotated(ring, k);
    assert(rot.len() == m);
    assert forall|j: int| 0 <= j < m implies #[trigger] rot[j] == ring[if j + k < m {
        j + k
    } else {
        j + k - m
    }] by {
        if j < m - k {
            assert(rot[j] == ring.subrange(k, m)[j]);
        } else {
            assert(rot[j] == ring.subrange(0, k)[j - (m - k)]);
        }
    }
    let p = prev_index(m, i);
    assert(rot[p] == ring[if p + k < m { p + k } else { p + k - m }]);
    assert(rot[i] == ring[if i + k < m { i + k } else { i + k - m }]);
}

/// Whether a closed ring crosses does not depend on the vertex it starts
/// at: started at any vertex `k`, the ring has the same segments, so a
/// segment test answers `true` for one of them, or `false` for all of them,
/// exactly when it does for the ring itself.
pub proof fn lemma_crossing_rotation<P, F: Fn(P, P) -> bool>(ring: Seq<P>, k: int, segment_crosses: F)
    requires
        0 <= k < ring.len(),
    ensures
        some_segment_crosses(rotated(ring, k), segment_crosses) == some_segment_crosses(
            ring,
            segment_crosses,
        ),
        no_segment_crosses(rotated(ring, k), segment_crosses) == no_segment_crosses(
            ring,
            segment_crosses,
        ),
{
    let m = ring.len() as int;
    let rot = rotated(ring, k);
    assert(rot.len() == m);
    let from_rot = |i: int| if i + k < m { i + k } else { i + k - m };
    let to_rot = |j: int| if j >= k { j - k } else { j - k + m };
    assert forall|j: int| 0 <= j < m implies ring_segment(ring, j) == ring_segment(
        rot,
        to_rot(j),
    ) by {
        lemma_rotated_segment(ring, k, to_rot(j));
    }
    assert forall|i: int| 0 <= i < m implies ring_segment(rot, i) == ring_segment(
        ring,
        from_rot(i),
    ) by {
        lemma_rotated_segment(ring, k, i);
    }
    if some_segment_crosses(ring, segment_crosses) {
        let j = choose|j: int|
            0 <= j < m && #[trigger] segment_crosses.ensures(ring_segment(ring, j), true);
        assert(segment_crosses.ensures(ring_segment(rot, to_rot(j)), true));
    }
    if some_segment_crosses(rot, segment_crosses) {
        let i = choose|i: int|
            0 <= i < m && #[trigger] segment_crosses.ensures(ring_segment(rot, i), true);
        assert(segment_crosses.ensures(ring_segment(ring, from_rot(i)), true));
    }
    if no_segment_crosses(ring, segment_crosses) {
        assert forall|i: int| 0 <= i < m implies #[trigger] segment_crosses.ensures(
            ring_segment(rot, i),
            false,
        ) by {
            assert(segment_crosses.ensures(ring_segment(ring, from_rot(i)), false));
        }
    }
    if no_segment_crosses(rot, segment_crosses) {
        assert forall|j: int| 0 <= j < m implies #[trigger] segment_crosses.ensures(
            ring_segment(ring, j),
            false,
        ) by {
            assert(segment_crosses.ensures(ring_segment(rot, to_rot(j)), false));
        }
    }
}

/// The segment `(a, b)` turned around.
pub open spec fn swapped<P>(segment: (P, P)) -> (P, P) {
    (segment.1, segment.0)
}

/// Whether a closed ring crosses does not depend on the direction it is
/// walked in, when the segment test does not depend on the direction of a
/// segment: the reversed ring has the same segments, each turned around.
pub proof fn lemma_crossing_reversal<P, F: Fn(P, P) -> bool>(ring: Seq<P>, segment_crosses: F)
    requires
        forall|a: P, b: P, r: bool| #[trigger]
            segment_crosses.ensures((a, b), r) == segment_crosses.ensures((b, a), r),
    ensures
        some_segment_crosses(ring.reverse(), segment_crosses) == some_segment_crosses(
            ring,
            segment_crosses,
        ),
        no_segment_crosses(ring.reverse(), segment_crosses) == no_segment_crosses(
            ring,
            segment_crosses,
        ),
{
    let m = ring.len() as int;
    let rev = ring.reverse();
    assert(rev.len() == m);
    // segment i of the reversed ring is segment `pair(i)` of the ring, turned around
    let pair = |i: int| if i == 0 { 0 } else { m - i };
    assert forall|i: int| 0 <= i < m implies ring_segment(rev, i) == swapped(
        ring_segment(ring, pair(i)),
    ) by {
        assert(rev[i] == ring[m - 1 - i]);
        assert(rev[prev_index(m, i)] == ring[m - 1 - prev_index(m, i)]);
    }
    if some_segment_crosses(ring, segment_crosses) {
        let j = choose|j: int|
            0 <= j < m && #[trigger] segment_crosses.ensures(ring_segment(ring, j), true);
        let s = ring_segment(ring, j);
        assert(segment_crosses.ensures((s.1, s.0), true));
        assert(segment_crosses.ensures(ring_segment(rev, pair(j)), true));
    }
    if some_segment_crosses(rev, segment_crosses) {
        let i = choose|i: int|
            0 <= i < m && #[trigger] segment_crosses.ensures(ring_segment(rev, i), true);
        let s = ring_segment(ring, pair(i));
        assert(segment_crosses.ensures((s.1, s.0), true));
        assert(segment_crosses.ensures(ring_segment(ring, pair(i)), true));
    }
    if no_segment_crosses(ring, segment_crosses) {
        assert forall|i: int| 0 <= i < m implies #[trigger] segment_crosses.ensures(
            ring_segment(rev, i),
            false,
        ) by {
            let s = ring_segment(ring, pair(i));
            assert(segment_crosses.ensures(s, false));
            assert(segment_crosses.ensures((s.1, s.0), false));
        }
    }
    if no_segment_crosses(rev, segment_crosses) {
        assert forall|j: int| 0 <= j < m implies #[trigger] segment_crosses.ensures(
            ring_segment(ring, j),
            false,
        ) by {
            let s = ring_segment(ring, j);
            assert(segment_crosses.ensures(ring_segment(rev, pair(j)), false));
            assert(pair(pair(j)) == j);
            assert(ring_segment(rev, pair(j)) == swapped(ring_segment(ring, pair(pair(j)))));
            assert(segment_crosses.ensures((s.1, s.0), false));
        }
    }
}

/// Whether some segment of the closed ring `ring` crosses the antimeridian,
/// where `segment_crosses` decides it for one segment (from its first vertex
/// to its second).  The segments are tried in order, starting with the one
/// that closes the ring (last vertex to first), and the search stops at the
/// first crossing.
///
/// The result is `true` exactly when the decision was `true` for some
/// segment; when it is `false`, the decision was `false` for every segment.
pub fn crosses_antimeridian<P: Copy, F: Fn(P, P) -> bool>(ring: &[P], segment_crosses: F) -> (res:
    bool)
    requires
        forall|a: P, b: P| segment_crosses.requires((a, b)),
    ensures
        res ==> some_segment_crosses(ring@, segment_crosses),
        !res ==> no_segment_crosses(ring@, segment_crosses),
{
    let m = ring.len();
    for i in 0..m
        invariant
            m == ring@.len(),
            forall|a: P, b: P| segment_crosses.requires((a, b)),
            forall|j: int|
                0 <= j < i ==> #[trigger] segment_crosses.ensures(ring_segment(ring@, j), false),
    {
        let iprev = if i == 0 {
            m - 1
        } else {
            i - 1
        };
        let crosses = segment_crosses(ring[iprev], ring[i]);
        assert(ring_segment(ring@, i as int) == (ring@[iprev as int], ring@[i as int]));
        if crosses {
            return true;
        }
    }
    false
}

/// The segments of a closed ring join consecutive vertices: segment `i` ends
/// at vertex `i`, segment `i + 1` starts there, and segment 0 starts at the
/// last vertex, closing the ring.
pub proof fn lemma_ring_segments<P>(ring: Seq<P>)
    ensures
        forall|i: int| 0 <= i < ring.len() ==> (#[trigger] ring_segment(ring, i)).1 == ring[i],
        forall|i: int|
            0 <= i < ring.len() - 1 ==> (#[trigger] ring_segment(ring, i + 1)).0 == ring[i],
        ring.len() > 0 ==> ring_segment(ring, 0).0 == ring[ring.len() - 1],
{
}

} // verus!
