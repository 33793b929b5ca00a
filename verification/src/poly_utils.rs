use vstd::prelude::*;

verus! {

broadcast use vstd::seq_lib::group_seq_properties;

/// The rings of a polygon, each taken as the sequence of its vertices.
pub open spec fn rings_view<P>(poly: Seq<Vec<P>>) -> Seq<Seq<P>> {
    poly.map_values(|ring: Vec<P>| ring@)
}

/// An outline taken as nested sequences: polygons of rings of vertices.
pub open spec fn outline_view<P>(outline: Seq<Vec<Vec<P>>>) -> Seq<Seq<Seq<P>>> {
    outline.map_values(|poly: Vec<Vec<P>>| rings_view(poly@))
}

/// Every vertex of an outline, polygon after polygon and ring after ring.
pub open spec fn outline_vertices<P>(outline: Seq<Seq<Seq<P>>>) -> Seq<P> {
    outline.map_values(|poly: Seq<Seq<P>>| poly.flatten()).flatten()
}

/// A ring as GeoJSON writes it, with its first position repeated at the end
/// so that the first and last positions are equal; an empty ring stays
/// empty.
pub open spec fn closed_ring<P>(ring: Seq<P>) -> Seq<P> {
    if ring.len() == 0 {
        ring
    } else {
        ring.push(ring[0])
    }
}

/// Every ring of a polygon closed by `closed_ring`.
pub open spec fn closed_rings<P>(poly: Seq<Seq<P>>) -> Seq<Seq<P>> {
    poly.map_values(|ring: Seq<P>| closed_ring(ring))
}

/// Every ring of an outline closed by `closed_ring`.
pub open spec fn closed_outline<P>(outline: Seq<Seq<Seq<P>>>) -> Seq<Seq<Seq<P>>> {
    outline.map_values(|poly: Seq<Seq<P>>| closed_rings(poly))
}

/// The polygons of an outline that have at least one ring, each split into its
/// exterior ring (the first) and its interior rings (the others).
pub open spec fn polygon_parts<P>(outline: Seq<Seq<Seq<P>>>) -> Seq<(Seq<P>, Seq<Seq<P>>)>
    decreases outline.len(),
{
    if outline.len() == 0 {
        Seq::empty()
    } else {
        let rest = polygon_parts(outline.drop_last());
        let poly = outline.last();
        if poly.len() == 0 {
            rest
        } else {
            rest.push((poly[0], poly.drop_first()))
        }
    }
}

/// The view of a list of (exterior, interiors) pairs as nested sequences.
pub open spec fn parts_view<P>(parts: Seq<(Vec<P>, Vec<Vec<P>>)>) -> Seq<(Seq<P>, Seq<Seq<P>>)> {
    parts.map_values(|pr: (Vec<P>, Vec<Vec<P>>)| (pr.0@, rings_view(pr.1@)))
}

/// A copy of a ring.
pub fn copy_ring<P: Copy>(ring: &Vec<P>) -> (res: Vec<P>)
    ensures
        res@ == ring@,
{
    let mut res: Vec<P> = Vec::new();
    let n = ring.len();
    for k in 0..n
        invariant
            n == ring@.len(),
            res@ == ring@.take(k as int),
    {
        res.push(ring[k]);
        assert(ring@.take(k + 1) == ring@.take(k as int).push(ring@[k as int]));
    }
    assert(ring@.take(n as int) == ring@);
    res
}

/// The ring of the rectangle with corners `(lon0, lat0)` and `(lon1, lat1)`:
/// its four corners in the order lower-left, lower-right, upper-right,
/// upper-left (for `lon0 <= lon1` and `lat0 <= lat1`).
pub fn rectangle_ring<T: Copy>(corner0: (T, T), corner1: (T, T)) -> (ring: Vec<(T, T)>)
    ensures
        ring@ == seq![
            (corner0.0, corner0.1),
            (corner1.0, corner0.1),
            (corner1.0, corner1.1),
            (corner0.0, corner1.1),
        ],
{
    let (lon0, lat0) = corner0;
    let (lon1, lat1) = corner1;
    let mut ring: Vec<(T, T)> = Vec::new();
    ring.push((lon0, lat0));
    ring.push((lon1, lat0));
    ring.push((lon1, lat1));
    ring.push((lon0, lat1));
    ring
}

/// All vertices of an outline, in order: polygon after polygon, ring after
/// ring, vertex after vertex.
pub fn outline_points<P: Copy>(outline: &Vec<Vec<Vec<P>>>) -> (pts: Vec<P>)
    ensures
        pts@ == outline_vertices(outline_view(outline@)),
{
    let ghost o = outline_view(outline@);
    let ghost polys = o.map_values(|poly: Seq<Seq<P>>| poly.flatten());
    let mut pts: Vec<P> = Vec::new();
    let npoly = outline.len();
    for i in 0..npoly
        invariant
            npoly == outline@.len(),
            o == outline_view(outline@),
            polys == o.map_values(|poly: Seq<Seq<P>>| poly.flatten()),
            pts@ == polys.take(i as int).flatten(),
    {
        let poly = &outline[i];
        let ghost rings = rings_view(poly@);
        let ghost before = pts@;
        assert(o[i as int] == rings);
        let nring = poly.len();
        for j in 0..nring
            invariant
                nring == poly@.len(),
                rings == rings_view(poly@),
                pts@ == before + rings.take(j as int).flatten(),
        {
            let ring = &poly[j];
            let ghost before_ring = pts@;
            assert(rings[j as int] == ring@);
            let nvert = ring.len();
            for k in 0..nvert
                invariant
                    nvert == ring@.len(),
                    pts@ == before_ring + ring@.take(k as int),
            {
                pts.push(ring[k]);
                assert(ring@.take(k + 1) == ring@.take(k as int).push(ring@[k as int]));
            }
            assert(ring@.take(nvert as int) == ring@);
            assert(rings.take(j + 1) == rings.take(j as int).push(rings[j as int]));
            proof { rings.take(j as int).lemma_flatten_push(rings[j as int]); }
        }
        assert(rings.take(nring as int) == rings);
        assert(polys.take(i + 1) == polys.take(i as int).push(polys[i as int]));
        proof { polys.take(i as int).lemma_flatten_push(polys[i as int]); }
    }
    assert(polys.take(npoly as int) == polys);
    pts
}

/// A copy of `ring` closed by `closed_ring`.
pub fn close_ring<P: Copy>(ring: &Vec<P>) -> (res: Vec<P>)
    ensures
        res@ == closed_ring(ring@),
{
    let mut res = copy_ring(ring);
    if ring.len() > 0 {
        let first = ring[0];
        res.push(first);
    }
    res
}

/// A copy of an outline in which every ring is closed by `closed_ring`.
pub fn close_outline<P: Copy>(outline: &Vec<Vec<Vec<P>>>) -> (res: Vec<Vec<Vec<P>>>)
    ensures
        outline_view(res@) == closed_outline(outline_view(outline@)),
{
    let ghost o = outline_view(outline@);
    let mut res: Vec<Vec<Vec<P>>> = Vec::new();
    let npoly = outline.len();
    for i in 0..npoly
        invariant
            npoly == outline@.len(),
            o == outline_view(outline@),
            res@.len() == i,
            outline_view(res@) == closed_outline(o.take(i as int)),
    {
        let poly = &outline[i];
        let ghost rings = rings_view(poly@);
        assert(o[i as int] == rings);
        let mut new_poly: Vec<Vec<P>> = Vec::new();
        let nring = poly.len();
        for j in 0..nring
            invariant
                nring == poly@.len(),
                rings == rings_view(poly@),
                new_poly@.len() == j,
                rings_view(new_poly@) == closed_rings(rings.take(j as int)),
        {
            assert(rings[j as int] == poly@[j as int]@);
            let closed = close_ring(&poly[j]);
            let ghost prev = new_poly@;
            new_poly.push(closed);
            assert forall|k: int| 0 <= k < j + 1 implies #[trigger] rings_view(new_poly@)[k]
                == closed_rings(rings.take(j + 1))[k] by {
                if k < j {
                    assert(rings_view(prev)[k] == closed_rings(rings.take(j as int))[k]);
                }
            }
            assert(rings_view(new_poly@) =~= closed_rings(rings.take(j + 1)));
        }
        assert(rings.take(nring as int) == rings);
        assert(rings_view(new_poly@) == closed_outline(o)[i as int]);
        let ghost prev = res@;
        res.push(new_poly);
        assert forall|k: int| 0 <= k < i + 1 implies #[trigger] outline_view(res@)[k]
            == closed_outline(o.take(i + 1))[k] by {
            if k < i {
                assert(outline_view(prev)[k] == closed_outline(o.take(i as int))[k]);
            }
        }
        assert(outline_view(res@) =~= closed_outline(o.take(i + 1)));
    }
    assert(o.take(npoly as int) == o);
    res
}

/// The polygons of an outline that have at least one ring, each as a pair of
/// its exterior ring and its interior rings; polygons without rings are left
/// out.
pub fn outline_polygons<P: Copy>(outline: &Vec<Vec<Vec<P>>>) -> (parts: Vec<(Vec<P>, Vec<Vec<P>>)>)
    ensures
        parts_view(parts@) == polygon_parts(outline_view(outline@)),
{
    let ghost o = outline_view(outline@);
    let mut parts: Vec<(Vec<P>, Vec<Vec<P>>)> = Vec::new();
    let npoly = outline.len();
    for i in 0..npoly
        invariant
            npoly == outline@.len(),
            o == outline_view(outline@),
            parts_view(parts@) == polygon_parts(o.take(i as int)),
    {
        let poly = &outline[i];
        let ghost rings = rings_view(poly@);
        assert(o[i as int] == rings);
        assert(o.take(i + 1).drop_last() == o.take(i as int));
        let m = poly.len();
        if m > 0 {
            let exterior = copy_ring(&poly[0]);
            let mut interior: Vec<Vec<P>> = Vec::new();
            for j in 1..m
                invariant
                    m == poly@.len(),
                    1 <= j <= m,
                    rings == rings_view(poly@),
                    interior@.len() == j - 1,
                    rings_view(interior@) == rings.subrange(1, j as int),
            {
                assert(rings[j as int] == poly@[j as int]@);
                let r = copy_ring(&poly[j]);
                let ghost prev = interior@;
                interior.push(r);
                assert forall|k: int| 0 <= k < j implies #[trigger] rings_view(interior@)[k]
                    == rings.subrange(1, j + 1)[k] by {
                    if k < j - 1 {
                        assert(rings_view(prev)[k] == rings.subrange(1, j as int)[k]);
                    }
                }
                assert(rings_view(interior@) =~= rings.subrange(1, j + 1));
            }
            assert(rings.subrange(1, m as int) == rings.drop_first());
            parts.push((exterior, interior));
            assert(parts_view(parts@) =~= polygon_parts(o.take(i + 1)));
        } else {
            assert(parts_view(parts@) =~= polygon_parts(o.take(i + 1)));
        }
    }
    assert(o.take(npoly as int) == o);
    parts
}

/// The vertices of no polygon are none.
pub proof fn lemma_outline_vertices_empty<P>()
    ensures
        outline_vertices(Seq::<Seq<Seq<P>>>::empty()) == Seq::<P>::empty(),
{
    assert(Seq::<Seq<Seq<P>>>::empty().map_values(|poly: Seq<Seq<P>>| poly.flatten())
        =~= Seq::<Seq<P>>::empty());
}

/// Adding a polygon at the end of an outline adds the vertices of all its
/// rings, in order, at the end of the vertex list, whatever the polygon's
/// position.
pub proof fn lemma_outline_vertices_push<P>(outline: Seq<Seq<Seq<P>>>, poly: Seq<Seq<P>>)
    ensures
        outline_vertices(outline.push(poly)) == outline_vertices(outline) + poly.flatten(),
{
    let f = |p: Seq<Seq<P>>| p.flatten();
    assert(outline.push(poly).map_values(f) =~= outline.map_values(f).push(poly.flatten()));
    outline.map_values(f).lemma_flatten_push(poly.flatten());
}

/// Every vertex of every ring of every polygon is listed.
pub proof fn lemma_outline_vertices_complete<P>(outline: Seq<Seq<Seq<P>>>)
    ensures
        forall|i: int, j: int, k: int|
            0 <= i < outline.len() && 0 <= j < outline[i].len() && 0 <= k < outline[i][j].len()
                ==> outline_vertices(outline).contains(#[trigger] outline[i][j][k]),
    decreases outline.len(),
{
    if outline.len() == 0 {
        lemma_outline_vertices_empty::<P>();
    } else {
        let rest = outline.drop_last();
        let last = outline.last();
        lemma_outline_vertices_complete(rest);
        assert(rest.push(last) =~= outline);
        lemma_outline_vertices_push(rest, last);
        assert forall|i: int, j: int, k: int|
            0 <= i < outline.len() && 0 <= j < outline[i].len() && 0 <= k < outline[i][j].len()
                implies outline_vertices(outline).contains(#[trigger] outline[i][j][k]) by {
            let v = outline[i][j][k];
            if i < outline.len() - 1 {
                assert(rest[i][j][k] == v);
                let w = outline_vertices(rest);
                let n = choose|n: int| 0 <= n < w.len() && w[n] == v;
                assert((w + last.flatten())[n] == v);
            } else {
                lemma_flatten_contains(last, j, k);
                let w = last.flatten();
                let n = choose|n: int| 0 <= n < w.len() && w[n] == v;
                assert((outline_vertices(rest) + w)[outline_vertices(rest).len() + n] == v);
            }
        }
    }
}

/// Every element of every inner sequence is in the flattened sequence.
proof fn lemma_flatten_contains<P>(s: Seq<Seq<P>>, j: int, k: int)
    requires
        0 <= j < s.len(),
        0 <= k < s[j].len(),
    ensures
        s.flatten().contains(s[j][k]),
    decreases s.len(),
{
    let rest = s.drop_last();
    assert(rest.push(s.last()) =~= s);
    rest.lemma_flatten_push(s.last());
    if j < s.len() - 1 {
        lemma_flatten_contains(rest, j, k);
        let w = rest.flatten();
        let n = choose|n: int| 0 <= n < w.len() && w[n] == s[j][k];
        assert((w + s.last())[n] == s[j][k]);
    } else {
        assert((rest.flatten() + s.last())[rest.flatten().len() + k] == s[j][k]);
    }
}

/// A closed ring keeps the ring's vertices in order, and, when the ring has a
/// vertex, adds exactly one position, equal to the first: its first and last
/// positions are then equal.  An empty ring stays empty.
pub proof fn lemma_closed_ring<P>(ring: Seq<P>)
    ensures
        ring.len() == 0 ==> closed_ring(ring) == ring,
        ring.len() > 0 ==> {
            &&& closed_ring(ring).len() == ring.len() + 1
            &&& closed_ring(ring).take(ring.len() as int) == ring
            &&& closed_ring(ring).last() == ring[0]
            &&& closed_ring(ring).first() == closed_ring(ring).last()
        },
{
    if ring.len() > 0 {
        assert(closed_ring(ring).take(ring.len() as int) =~= ring);
    }
}

/// Closing an outline keeps its polygons and their rings, and closes every
/// ring of every polygon, the holes as well as the exterior: each non-empty
/// ring gets one more position, equal to its first.
pub proof fn lemma_closed_outline<P>(outline: Seq<Seq<Seq<P>>>)
    ensures
        closed_outline(outline).len() == outline.len(),
        forall|i: int|
            0 <= i < outline.len() ==> #[trigger] closed_outline(outline)[i].len()
                == outline[i].len(),
        forall|i: int, j: int|
            0 <= i < outline.len() && 0 <= j < outline[i].len() ==> {
                let r = outline[i][j];
                let c = #[trigger] closed_outline(outline)[i][j];
                &&& r.len() == 0 ==> c == r
                &&& r.len() > 0 ==> c.len() == r.len() + 1 && c.take(r.len() as int) == r
                    && c.last() == r[0]
            },
{
    assert forall|i: int, j: int|
        0 <= i < outline.len() && 0 <= j < outline[i].len() implies {
        let r = outline[i][j];
        let c = #[trigger] closed_outline(outline)[i][j];
        &&& r.len() == 0 ==> c == r
        &&& r.len() > 0 ==> c.len() == r.len() + 1 && c.take(r.len() as int) == r && c.last()
            == r[0]
    } by {
        assert(closed_outline(outline)[i] == closed_rings(outline[i]));
        assert(closed_outline(outline)[i][j] == closed_ring(outline[i][j]));
        lemma_closed_ring(outline[i][j]);
    }
}

/// A polygon with at least one ring, split into its exterior (first) ring and
/// its interior rings.
pub open spec fn split_polygon<P>(poly: Seq<Seq<P>>) -> (Seq<P>, Seq<Seq<P>>) {
    (poly[0], poly.subrange(1, poly.len() as int))
}

/// The polygon parts of an outline are its polygons that have a ring, in
/// order, every one of them split into exterior and interior rings,
/// whatever its position in the outline.
pub proof fn lemma_polygon_parts<P>(outline: Seq<Seq<Seq<P>>>)
    ensures
        polygon_parts(outline) == outline.filter(|poly: Seq<Seq<P>>| poly.len() > 0).map_values(
            |poly: Seq<Seq<P>>| split_polygon(poly),
        ),
    decreases outline.len(),
{
    reveal_with_fuel(Seq::filter, 1);
    let nonempty = |poly: Seq<Seq<P>>| poly.len() > 0;
    let split = |poly: Seq<Seq<P>>| split_polygon(poly);
    if outline.len() == 0 {
        assert(outline.filter(nonempty) =~= Seq::<Seq<Seq<P>>>::empty());
        assert(outline.filter(nonempty).map_values(split) =~= Seq::empty());
    } else {
        lemma_polygon_parts(outline.drop_last());
        let last = outline.last();
        let sub = outline.drop_last().filter(nonempty);
        if last.len() > 0 {
            assert(outline.filter(nonempty) == sub.push(last));
            assert(last.drop_first() =~= last.subrange(1, last.len() as int));
            assert(sub.push(last).map_values(split) =~= sub.map_values(split).push(split(last)));
        } else {
            assert(outline.filter(nonempty) == sub);
        }
    }
}

/// Adding a polygon at the end of an outline adds one part when the polygon
/// has a ring and none otherwise, whatever the polygon's position.
pub proof fn lemma_polygon_parts_push<P>(outline: Seq<Seq<Seq<P>>>, poly: Seq<Seq<P>>)
    ensures
        poly.len() > 0 ==> polygon_parts(outline.push(poly)) == polygon_parts(outline).push(
            (poly[0], poly.subrange(1, poly.len() as int)),
        ),
        poly.len() == 0 ==> polygon_parts(outline.push(poly)) == polygon_parts(outline),
{
    assert(outline.push(poly).drop_last() =~= outline);
    assert(poly.drop_first() =~= poly.subrange(1, poly.len() as int));
}

/// The view of an outline keeps every polygon, every ring and every vertex
/// where it is.
pub proof fn lemma_outline_view<P>(outline: Seq<Vec<Vec<P>>>)
    ensures
        outline_view(outline).len() == outline.len(),
        forall|i: int|
            0 <= i < outline.len() ==> #[trigger] outline_view(outline)[i].len()
                == outline[i]@.len(),
        forall|i: int, j: int|
            0 <= i < outline.len() && 0 <= j < outline[i]@.len() ==> #[trigger] outline_view(
                outline,
            )[i][j] == outline[i]@[j]@,
{
}

/// The view of a list of polygon parts keeps every exterior ring and every
/// interior ring where it is.
pub proof fn lemma_parts_view<P>(parts: Seq<(Vec<P>, Vec<Vec<P>>)>)
    ensures
        parts_view(parts).len() == parts.len(),
        forall|i: int| 0 <= i < parts.len() ==> #[trigger] parts_view(parts)[i].0 == parts[i].0@,
        forall|i: int|
            0 <= i < parts.len() ==> #[trigger] parts_view(parts)[i].1.len() == parts[i].1@.len(),
        forall|i: int, j: int|
            0 <= i < parts.len() && 0 <= j < parts[i].1@.len() ==> #[trigger] parts_view(
                parts,
            )[i].1[j] == parts[i].1@[j]@,
{
}

} // verus!
