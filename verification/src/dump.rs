use vstd::prelude::*;

use crate::decimal::{
    decimal, field_value, lemma_decimal, lemma_pad_left, lemma_padded_decimal_value, pad_left, pow10,
    push_decimal, push_padded_decimal,
};
use crate::footprint::Footprint;

verus! {

/// A footprint whose time stamps and vertex coordinates are already written
/// out as text: the times as they appear after `Start time` and `End time`,
/// and each vertex as its longitude and latitude fields of the vertex table.
pub type TextFootprint = Footprint<String, (String, String)>;

/// The header line of the vertex table of a ring.
pub open spec fn vertex_header() -> Seq<char> {
    "        Poly Ring Vert Lon        Lat       \n"@
}

/// The table line of vertex `ivert` of ring `iring` of polygon `ipoly`: the
/// three indices right-aligned in four columns each, then the longitude and
/// latitude fields.
pub open spec fn vertex_line(ipoly: nat, iring: nat, ivert: nat, vertex: (String, String)) -> Seq<
    char,
> {
    "        "@ + pad_left(decimal(ipoly), 4) + " "@ + pad_left(decimal(iring), 4) + " "@
        + pad_left(decimal(ivert), 4) + " "@ + vertex.0@ + " "@ + vertex.1@ + "\n"@
}

/// The table lines of the vertices of a ring, in order.
pub open spec fn vertex_lines(ipoly: nat, iring: nat, ring: Seq<(String, String)>) -> Seq<char>
    decreases ring.len(),
{
    if ring.len() == 0 {
        Seq::empty()
    } else {
        vertex_lines(ipoly, iring, ring.drop_last()) + vertex_line(
            ipoly,
            iring,
            (ring.len() - 1) as nat,
            ring.last(),
        )
    }
}

/// One line of the dump: a label, a value, and the end of the line.
pub open spec fn line(label: Seq<char>, value: Seq<char>) -> Seq<char> {
    label + value + "\n"@
}

/// The lines before the vertex table of ring `iring` of polygon `ipoly`,
/// which has `nvert` vertices.
pub open spec fn ring_head(ipoly: nat, iring: nat, nvert: nat) -> Seq<char> {
    line("    Ring "@ + decimal(iring) + " of polygon "@, decimal(ipoly)) + line(
        "      Number of vertices: "@,
        decimal(nvert),
    ) + vertex_header()
}

/// The line that ends the dump of ring `iring` of polygon `ipoly`.
pub open spec fn ring_tail(ipoly: nat, iring: nat) -> Seq<char> {
    line("    End of ring "@ + decimal(iring) + " of polygon "@, decimal(ipoly))
}

/// The dump of ring `iring` of polygon `ipoly`.
pub open spec fn ring_text(ipoly: nat, iring: nat, ring: Seq<(String, String)>) -> Seq<char> {
    ring_head(ipoly, iring, ring.len()) + vertex_lines(ipoly, iring, ring) + ring_tail(
        ipoly,
        iring,
    )
}

/// The dumps of the rings of polygon `ipoly`, in order.
pub open spec fn ring_texts(ipoly: nat, rings: Seq<Vec<(String, String)>>) -> Seq<char>
    decreases rings.len(),
{
    if rings.len() == 0 {
        Seq::empty()
    } else {
        ring_texts(ipoly, rings.drop_last()) + ring_text(
            ipoly,
            (rings.len() - 1) as nat,
            rings.last()@,
        )
    }
}

/// The lines before the rings of polygon `ipoly`, which has `nring` rings.
pub open spec fn polygon_head(ipoly: nat, nring: nat) -> Seq<char> {
    line("  Polygon "@, decimal(ipoly)) + line("    Number of rings: "@, decimal(nring))
}

/// The dump of polygon `ipoly`.
pub open spec fn polygon_text(ipoly: nat, poly: Seq<Vec<(String, String)>>) -> Seq<char> {
    polygon_head(ipoly, poly.len()) + ring_texts(ipoly, poly) + line(
        "  End of polygon "@,
        decimal(ipoly),
    )
}

/// The dumps of the polygons of an outline, in order.
pub open spec fn polygon_texts(outline: Seq<Vec<Vec<(String, String)>>>) -> Seq<char>
    decreases outline.len(),
{
    if outline.len() == 0 {
        Seq::empty()
    } else {
        polygon_texts(outline.drop_last()) + polygon_text(
            (outline.len() - 1) as nat,
            outline.last()@,
        )
    }
}

/// The lines before the polygons of footprint number `ifp`.
pub open spec fn footprint_head(ifp: nat, fp: TextFootprint) -> Seq<char> {
    line("Footprint "@, decimal(ifp)) + line("  ID "@, fp.id@) + line(
        "  Orbit "@,
        decimal(fp.orbit as nat),
    ) + line("  Platform "@, fp.platform@) + line("  Instrument "@, fp.instrument@) + line(
        "  Start time "@,
        fp.time_interval.0@,
    ) + line("  End time "@, fp.time_interval.1@) + line(
        "  Number of polygons: "@,
        decimal(fp.outline@.len()),
    )
}

/// The dump of footprint number `ifp`.
pub open spec fn footprint_text(ifp: nat, fp: TextFootprint) -> Seq<char> {
    footprint_head(ifp, fp) + polygon_texts(fp.outline@) + line(
        "End of footprint "@,
        decimal(ifp),
    )
}

/// The dump of a list of footprints: the dumps of the footprints, numbered
/// from 0, one after the other.
pub open spec fn dump_texts(fps: Seq<TextFootprint>) -> Seq<char>
    decreases fps.len(),
{
    if fps.len() == 0 {
        Seq::empty()
    } else {
        dump_texts(fps.drop_last()) + footprint_text((fps.len() - 1) as nat, fps.last())
    }
}

/// Appends a line made of `label` and `value`.
fn push_line(s: &mut String, label: &str, value: &str)
    ensures
        final(s)@ == old(s)@ + line(label@, value@),
{
    let ghost start = s@;
    s.append(label);
    s.append(value);
    s.append("\n");
    assert(s@ =~= start + line(label@, value@));
}

/// Appends a line made of `label` and `n` in decimal.
fn push_decimal_line(s: &mut String, label: &str, n: usize)
    ensures
        final(s)@ == old(s)@ + line(label@, decimal(n as nat)),
{
    let ghost start = s@;
    s.append(label);
    push_decimal(s, n);
    s.append("\n");
    assert(s@ =~= start + line(label@, decimal(n as nat)));
}

/// Appends a line made of `label0`, `m` in decimal, `label1`, and `n` in
/// decimal.
fn push_two_decimal_line(s: &mut String, label0: &str, m: usize, label1: &str, n: usize)
    ensures
        final(s)@ == old(s)@ + line(label0@ + decimal(m as nat) + label1@, decimal(n as nat)),
{
    let ghost start = s@;
    s.append(label0);
    push_decimal(s, m);
    s.append(label1);
    push_decimal(s, n);
    s.append("\n");
    assert(s@ =~= start + line(label0@ + decimal(m as nat) + label1@, decimal(n as nat)));
}

/// Appends the table line of one vertex.
fn push_vertex_line(
    s: &mut String,
    ipoly: usize,
    iring: usize,
    ivert: usize,
    vertex: &(String, String),
)
    ensures
        final(s)@ == old(s)@ + vertex_line(ipoly as nat, iring as nat, ivert as nat, *vertex),
{
    let ghost start = s@;
    s.append("        ");
    push_padded_decimal(s, ipoly, 4);
    s.append(" ");
    push_padded_decimal(s, iring, 4);
    s.append(" ");
    push_padded_decimal(s, ivert, 4);
    s.append(" ");
    s.append(vertex.0.as_str());
    s.append(" ");
    s.append(vertex.1.as_str());
    s.append("\n");
    assert(s@ =~= start + vertex_line(ipoly as nat, iring as nat, ivert as nat, *vertex));
}

/// Appends the dump of ring `iring` of polygon `ipoly`.
fn push_ring(s: &mut String, ipoly: usize, iring: usize, ring: &Vec<(String, String)>)
    ensures
        final(s)@ == old(s)@ + ring_text(ipoly as nat, iring as nat, ring@),
{
    let ghost start = s@;
    let ghost (p, r) = (ipoly as nat, iring as nat);
    push_two_decimal_line(s, "    Ring ", iring, " of polygon ", ipoly);
    push_decimal_line(s, "      Number of vertices: ", ring.len());
    s.append("        Poly Ring Vert Lon        Lat       \n");
    let ghost head = s@;
    assert(head =~= start + ring_head(p, r, ring@.len()));
    let nvert = ring.len();
    for ivert in 0..nvert
        invariant
            nvert == ring@.len(),
            s@ == head + vertex_lines(ipoly as nat, iring as nat, ring@.take(ivert as int)),
    {
        let ghost before = s@;
        push_vertex_line(s, ipoly, iring, ivert, &ring[ivert]);
        assert(ring@.take(ivert + 1).drop_last() =~= ring@.take(ivert as int));
        proof {
            vstd::seq_lib::lemma_concat_associative(
                head,
                vertex_lines(ipoly as nat, iring as nat, ring@.take(ivert as int)),
                vertex_line(ipoly as nat, iring as nat, ivert as nat, ring@[ivert as int]),
            );
        }
    }
    assert(ring@.take(nvert as int) =~= ring@);
    push_two_decimal_line(s, "    End of ring ", iring, " of polygon ", ipoly);
    proof {
        let lines = vertex_lines(p, r, ring@);
        vstd::seq_lib::lemma_concat_associative(start, ring_head(p, r, ring@.len()), lines);
        vstd::seq_lib::lemma_concat_associative(
            start,
            ring_head(p, r, ring@.len()) + lines,
            ring_tail(p, r),
        );
    }
}

/// Appends the dump of polygon `ipoly`.
fn push_polygon(s: &mut String, ipoly: usize, poly: &Vec<Vec<(String, String)>>)
    ensures
        final(s)@ == old(s)@ + polygon_text(ipoly as nat, poly@),
{
    let ghost start = s@;
    let ghost p = ipoly as nat;
    push_decimal_line(s, "  Polygon ", ipoly);
    push_decimal_line(s, "    Number of rings: ", poly.len());
    let ghost head = s@;
    assert(head =~= start + polygon_head(p, poly@.len()));
    let nring = poly.len();
    for iring in 0..nring
        invariant
            nring == poly@.len(),
            s@ == head + ring_texts(ipoly as nat, poly@.take(iring as int)),
    {
        push_ring(s, ipoly, iring, &poly[iring]);
        assert(poly@.take(iring + 1).drop_last() =~= poly@.take(iring as int));
        proof {
            vstd::seq_lib::lemma_concat_associative(
                head,
                ring_texts(ipoly as nat, poly@.take(iring as int)),
                ring_text(ipoly as nat, iring as nat, poly@[iring as int]@),
            );
        }
    }
    assert(poly@.take(nring as int) =~= poly@);
    push_decimal_line(s, "  End of polygon ", ipoly);
    proof {
        let rings = ring_texts(p, poly@);
        vstd::seq_lib::lemma_concat_associative(start, polygon_head(p, poly@.len()), rings);
        vstd::seq_lib::lemma_concat_associative(
            start,
            polygon_head(p, poly@.len()) + rings,
            line("  End of polygon "@, decimal(p)),
        );
    }
}

/// Appends the lines before the polygons of footprint number `ifp`.
fn push_footprint_head(s: &mut String, ifp: usize, fp: &TextFootprint)
    ensures
        final(s)@ == old(s)@ + footprint_head(ifp as nat, *fp),
{
    let ghost start = s@;
    push_decimal_line(s, "Footprint ", ifp);
    let ghost s1 = s@;
    push_line(s, "  ID ", fp.id.as_str());
    let ghost s2 = s@;
    push_decimal_line(s, "  Orbit ", fp.orbit);
    let ghost s3 = s@;
    push_line(s, "  Platform ", fp.platform.as_str());
    let ghost s4 = s@;
    push_line(s, "  Instrument ", fp.instrument.as_str());
    let ghost s5 = s@;
    push_line(s, "  Start time ", fp.time_interval.0.as_str());
    let ghost s6 = s@;
    push_line(s, "  End time ", fp.time_interval.1.as_str());
    let ghost s7 = s@;
    push_decimal_line(s, "  Number of polygons: ", fp.outline.len());
    proof {
        let l1 = line("Footprint "@, decimal(ifp as nat));
        let l2 = line("  ID "@, fp.id@);
        let l3 = line("  Orbit "@, decimal(fp.orbit as nat));
        let l4 = line("  Platform "@, fp.platform@);
        let l5 = line("  Instrument "@, fp.instrument@);
        let l6 = line("  Start time "@, fp.time_interval.0@);
        let l7 = line("  End time "@, fp.time_interval.1@);
        let l8 = line("  Number of polygons: "@, decimal(fp.outline@.len()));
        vstd::seq_lib::lemma_concat_associative(start, l1, l2);
        vstd::seq_lib::lemma_concat_associative(start, l1 + l2, l3);
        vstd::seq_lib::lemma_concat_associative(start, l1 + l2 + l3, l4);
        vstd::seq_lib::lemma_concat_associative(start, l1 + l2 + l3 + l4, l5);
        vstd::seq_lib::lemma_concat_associative(start, l1 + l2 + l3 + l4 + l5, l6);
        vstd::seq_lib::lemma_concat_associative(start, l1 + l2 + l3 + l4 + l5 + l6, l7);
        vstd::seq_lib::lemma_concat_associative(start, l1 + l2 + l3 + l4 + l5 + l6 + l7, l8);
    }
}

/// Appends the dump of footprint number `ifp`.
fn push_footprint(s: &mut String, ifp: usize, fp: &TextFootprint)
    ensures
        final(s)@ == old(s)@ + footprint_text(ifp as nat, *fp),
{
    let ghost start = s@;
    push_footprint_head(s, ifp, fp);
    let ghost head = s@;
    let npoly = fp.outline.len();
    for ipoly in 0..npoly
        invariant
            npoly == fp.outline@.len(),
            s@ == head + polygon_texts(fp.outline@.take(ipoly as int)),
    {
        push_polygon(s, ipoly, &fp.outline[ipoly]);
        assert(fp.outline@.take(ipoly + 1).drop_last() =~= fp.outline@.take(ipoly as int));
        proof {
            vstd::seq_lib::lemma_concat_associative(
                head,
                polygon_texts(fp.outline@.take(ipoly as int)),
                polygon_text(ipoly as nat, fp.outline@[ipoly as int]@),
            );
        }
    }
    assert(fp.outline@.take(npoly as int) =~= fp.outline@);
    push_decimal_line(s, "End of footprint ", ifp);
    proof {
        let polys = polygon_texts(fp.outline@);
        let h = footprint_head(ifp as nat, *fp);
        vstd::seq_lib::lemma_concat_associative(start, h, polys);
        vstd::seq_lib::lemma_concat_associative(
            start,
            h + polys,
            line("End of footprint "@, decimal(ifp as nat)),
        );
    }
}

/// The human-readable dump of a list of footprints: for each footprint, its
/// number, identifier, orbit, platform, instrument, start and end time, and
/// its outline polygon by polygon and ring by ring, each ring with a table of
/// its vertices.
pub fn dump_text(footprints: &[TextFootprint]) -> (text: String)
    ensures
        text@ == dump_texts(footprints@),
{
    let mut s = String::new();
    let n = footprints.len();
    for ifp in 0..n
        invariant
            n == footprints@.len(),
            s@ == dump_texts(footprints@.take(ifp as int)),
    {
        push_footprint(&mut s, ifp, &footprints[ifp]);
        assert(footprints@.take(ifp + 1).drop_last() =~= footprints@.take(ifp as int));
        assert(s@ =~= dump_texts(footprints@.take(ifp + 1)));
    }
    assert(footprints@.take(n as int) =~= footprints@);
    s
}

/// In the line of a vertex, the three index columns hold the polygon, ring
/// and vertex numbers (each below 10000, so it fits its column), and the two
/// coordinate fields follow, each after one space; the line ends the line.
pub proof fn lemma_vertex_line_columns(ipoly: nat, iring: nat, ivert: nat, vertex: (String, String))
    requires
        ipoly < 10000,
        iring < 10000,
        ivert < 10000,
    ensures
        ({
            let line = vertex_line(ipoly, iring, ivert, vertex);
            let l0 = vertex.0@.len() as int;
            let l1 = vertex.1@.len() as int;
            &&& line.len() == 25 + l0 + l1
            &&& field_value(line.subrange(8, 12)) == ipoly
            &&& field_value(line.subrange(13, 17)) == iring
            &&& field_value(line.subrange(18, 22)) == ivert
            &&& line.subrange(23, 23 + l0) == vertex.0@
            &&& line.subrange(24 + l0, 24 + l0 + l1) == vertex.1@
            &&& line.last() == '\n'
        }),
{
    reveal_strlit("        ");
    reveal_strlit(" ");
    reveal_strlit("\n");
    reveal_with_fuel(pow10, 5);
    assert(pow10(4) == 10000);
    lemma_decimal(ipoly);
    lemma_decimal(iring);
    lemma_decimal(ivert);
    lemma_pad_left(decimal(ipoly), 4);
    lemma_pad_left(decimal(iring), 4);
    lemma_pad_left(decimal(ivert), 4);
    lemma_padded_decimal_value(ipoly, 4);
    lemma_padded_decimal_value(iring, 4);
    lemma_padded_decimal_value(ivert, 4);
    let a = pad_left(decimal(ipoly), 4);
    let b = pad_left(decimal(iring), 4);
    let c = pad_left(decimal(ivert), 4);
    let line = vertex_line(ipoly, iring, ivert, vertex);
    let l0 = vertex.0@.len() as int;
    let l1 = vertex.1@.len() as int;
    assert(line.subrange(8, 12) =~= a);
    assert(line.subrange(13, 17) =~= b);
    assert(line.subrange(18, 22) =~= c);
    assert(line.subrange(23, 23 + l0) =~= vertex.0@);
    assert(line.subrange(24 + l0, 24 + l0 + l1) =~= vertex.1@);
}

/// A vertex added at the end of a ring adds its table line, numbered with the
/// ring's former length, at the end of the ring's table, whatever the
/// polygon and ring numbers.
pub proof fn lemma_vertex_lines_push(
    ipoly: nat,
    iring: nat,
    ring: Seq<(String, String)>,
    vertex: (String, String),
)
    ensures
        vertex_lines(ipoly, iring, ring.push(vertex)) == vertex_lines(ipoly, iring, ring)
            + vertex_line(ipoly, iring, ring.len(), vertex),
{
    assert(ring.push(vertex).drop_last() =~= ring);
}

/// A ring added at the end of a polygon adds its dump, numbered with the
/// polygon's former number of rings, at the end.
pub proof fn lemma_ring_texts_push(
    ipoly: nat,
    rings: Seq<Vec<(String, String)>>,
    ring: Vec<(String, String)>,
)
    ensures
        ring_texts(ipoly, rings.push(ring)) == ring_texts(ipoly, rings) + ring_text(
            ipoly,
            rings.len(),
            ring@,
        ),
{
    assert(rings.push(ring).drop_last() =~= rings);
}

/// A polygon added at the end of an outline adds its dump, numbered with the
/// outline's former number of polygons, at the end.
pub proof fn lemma_polygon_texts_push(
    outline: Seq<Vec<Vec<(String, String)>>>,
    poly: Vec<Vec<(String, String)>>,
)
    ensures
        polygon_texts(outline.push(poly)) == polygon_texts(outline) + polygon_text(
            outline.len(),
            poly@,
        ),
{
    assert(outline.push(poly).drop_last() =~= outline);
}

/// A footprint added at the end of a list adds its dump, numbered with the
/// list's former length, at the end of the dump.
pub proof fn lemma_dump_texts_push(fps: Seq<TextFootprint>, fp: TextFootprint)
    ensures
        dump_texts(fps.push(fp)) == dump_texts(fps) + footprint_text(fps.len(), fp),
{
    assert(fps.push(fp).drop_last() =~= fps);
}

/// The dump of a ring opens with the line naming the ring and its polygon
/// and the line giving its number of vertices, then the table header, and
/// closes with the line ending the ring.
pub proof fn lemma_ring_text_lines(ipoly: nat, iring: nat, ring: Seq<(String, String)>)
    ensures
        ({
            let head = "    Ring "@ + decimal(iring) + " of polygon "@ + decimal(ipoly) + "\n"@
                + "      Number of vertices: "@ + decimal(ring.len()) + "\n"@
                + "        Poly Ring Vert Lon        Lat       \n"@;
            let tail = "    End of ring "@ + decimal(iring) + " of polygon "@ + decimal(ipoly)
                + "\n"@;
            ring_text(ipoly, iring, ring) == head + vertex_lines(ipoly, iring, ring) + tail
        }),
{
    let head = "    Ring "@ + decimal(iring) + " of polygon "@ + decimal(ipoly) + "\n"@
        + "      Number of vertices: "@ + decimal(ring.len()) + "\n"@
        + "        Poly Ring Vert Lon        Lat       \n"@;
    assert(ring_head(ipoly, iring, ring.len()) =~= head);
}

/// The dump of a polygon opens with the line naming it and the line giving
/// its number of rings, and closes with the line ending it.
pub proof fn lemma_polygon_text_lines(ipoly: nat, poly: Seq<Vec<(String, String)>>)
    ensures
        polygon_text(ipoly, poly) == "  Polygon "@ + decimal(ipoly) + "\n"@
            + "    Number of rings: "@ + decimal(poly.len()) + "\n"@ + ring_texts(ipoly, poly)
            + "  End of polygon "@ + decimal(ipoly) + "\n"@,
{
    assert(polygon_text(ipoly, poly) =~= "  Polygon "@ + decimal(ipoly) + "\n"@
        + "    Number of rings: "@ + decimal(poly.len()) + "\n"@ + ring_texts(ipoly, poly)
        + "  End of polygon "@ + decimal(ipoly) + "\n"@);
}

/// The dump of a footprint opens with its number, identifier, orbit,
/// platform, instrument, start and end time and number of polygons, one per
/// line, and closes with the line ending it.
pub proof fn lemma_footprint_text_lines(ifp: nat, fp: TextFootprint)
    ensures
        footprint_text(ifp, fp) == "Footprint "@ + decimal(ifp) + "\n"@ + "  ID "@ + fp.id@ + "\n"@
            + "  Orbit "@ + decimal(fp.orbit as nat) + "\n"@ + "  Platform "@ + fp.platform@
            + "\n"@ + "  Instrument "@ + fp.instrument@ + "\n"@ + "  Start time "@
            + fp.time_interval.0@ + "\n"@ + "  End time "@ + fp.time_interval.1@ + "\n"@
            + "  Number of polygons: "@ + decimal(fp.outline@.len()) + "\n"@ + polygon_texts(
            fp.outline@,
        ) + "End of footprint "@ + decimal(ifp) + "\n"@,
{
    assert(footprint_text(ifp, fp) =~= "Footprint "@ + decimal(ifp) + "\n"@ + "  ID "@ + fp.id@
        + "\n"@ + "  Orbit "@ + decimal(fp.orbit as nat) + "\n"@ + "  Platform "@ + fp.platform@
        + "\n"@ + "  Instrument "@ + fp.instrument@ + "\n"@ + "  Start time "@
        + fp.time_interval.0@ + "\n"@ + "  End time "@ + fp.time_interval.1@ + "\n"@
        + "  Number of polygons: "@ + decimal(fp.outline@.len()) + "\n"@ + polygon_texts(
        fp.outline@,
    ) + "End of footprint "@ + decimal(ifp) + "\n"@);
}

} // verus!
