use footprint::decimal::{decimal_len, push_decimal, push_padded_decimal};
use footprint::dump::{dump_text, TextFootprint};
use footprint::footprint::Footprint;
use footprint::item_fields::{join_instruments, orbit_number};

fn dec(n: usize) -> String {
    let mut s = String::new();
    push_decimal(&mut s, n);
    s
}

#[test]
fn decimal_notation() {
    assert_eq!(dec(0), "0");
    assert_eq!(dec(7), "7");
    assert_eq!(dec(10), "10");
    assert_eq!(dec(1234567890), "1234567890");
    assert_eq!(dec(usize::MAX), usize::MAX.to_string());
    assert_eq!(decimal_len(0), 1);
    assert_eq!(decimal_len(99), 2);
    assert_eq!(decimal_len(100), 3);
}

#[test]
fn padded_decimal_matches_width_four() {
    for n in [0usize, 5, 42, 999, 1000, 12345] {
        let mut s = String::from("x");
        push_padded_decimal(&mut s, n, 4);
        assert_eq!(s, format!("x{:4}", n));
    }
}

/// The dump as the text format writes it, line by line.
fn expected_dump(fps: &[(usize, &str, &str, &str, (f64, f64), Vec<Vec<Vec<(f64, f64)>>>)]) -> String {
    let mut out = String::new();
    for (ifp, (orbit, id, platform, instrument, (t0, t1), outline)) in fps.iter().enumerate() {
        out += &format!("Footprint {}\n", ifp);
        out += &format!("  ID {}\n", id);
        out += &format!("  Orbit {}\n", orbit);
        out += &format!("  Platform {}\n", platform);
        out += &format!("  Instrument {}\n", instrument);
        out += &format!("  Start time {}\n", t0);
        out += &format!("  End time {}\n", t1);
        out += &format!("  Number of polygons: {}\n", outline.len());
        for (ipoly, poly) in outline.iter().enumerate() {
            out += &format!("  Polygon {}\n", ipoly);
            out += &format!("    Number of rings: {}\n", poly.len());
            for (iring, ring) in poly.iter().enumerate() {
                out += &format!("    Ring {} of polygon {}\n", iring, ipoly);
                out += &format!("      Number of vertices: {}\n", ring.len());
                out += &format!(
                    "        {:4} {:4} {:4} {:10} {:10}\n",
                    "Poly", "Ring", "Vert", "Lon", "Lat"
                );
                for (ivert, vert) in ring.iter().enumerate() {
                    out += &format!(
                        "        {:4} {:4} {:4} {:+10.3} {:+10.3}\n",
                        ipoly, iring, ivert, vert.0, vert.1
                    );
                }
                out += &format!("    End of ring {} of polygon {}\n", iring, ipoly);
            }
            out += &format!("  End of polygon {}\n", ipoly);
        }
        out += &format!("End of footprint {}\n", ifp);
    }
    out
}

fn as_text(
    orbit: usize,
    id: &str,
    platform: &str,
    instrument: &str,
    t: (f64, f64),
    outline: &Vec<Vec<Vec<(f64, f64)>>>,
) -> TextFootprint {
    Footprint {
        orbit,
        id: id.to_string(),
        platform: platform.to_string(),
        instrument: instrument.to_string(),
        time_interval: (t.0.to_string(), t.1.to_string()),
        outline: outline
            .iter()
            .map(|poly| {
                poly.iter()
                    .map(|ring| {
                        ring.iter()
                            .map(|v| (format!("{:+10.3}", v.0), format!("{:+10.3}", v.1)))
                            .collect()
                    })
                    .collect()
            })
            .collect(),
    }
}

#[test]
fn dump_text_matches_the_line_format() {
    let o1 = vec![
        vec![
            vec![(-12.5, 44.25), (-12.0, 44.25), (-12.0, 45.0)],
            vec![(-12.3, 44.5)],
        ],
        vec![],
    ];
    let o2: Vec<Vec<Vec<(f64, f64)>>> = vec![];
    let mut big_ring = Vec::new();
    for k in 0..12 {
        big_ring.push((k as f64 * 10.0, -(k as f64)));
    }
    let o3 = vec![vec![big_ring]];
    let data = vec![
        (12345usize, "S3A_001", "sentinel-3a", "OLCI", (1.6e9, 1.6e9 + 0.5), o1.clone()),
        (0usize, "", "", "", (0.0, 0.0), o2.clone()),
        (7usize, "x", "p", "a,b", (3.25, 4.0), o3.clone()),
    ];
    let fps: Vec<TextFootprint> = data
        .iter()
        .map(|(orbit, id, p, i, t, o)| as_text(*orbit, id, p, i, *t, o))
        .collect();
    assert_eq!(dump_text(&fps), expected_dump(&data));
}

#[test]
fn dump_of_no_footprint_is_empty() {
    assert_eq!(dump_text(&[]), "");
}

#[test]
fn dump_exact_text_of_one_footprint() {
    let fp = as_text(3, "A", "B", "C", (1.0, 2.5), &vec![vec![vec![(1.0, -2.0)]]]);
    let expected = "Footprint 0\n  ID A\n  Orbit 3\n  Platform B\n  Instrument C\n  Start time 1\n  End time 2.5\n  Number of polygons: 1\n  Polygon 0\n    Number of rings: 1\n    Ring 0 of polygon 0\n      Number of vertices: 1\n        Poly Ring Vert Lon        Lat       \n           0    0    0     +1.000     -2.000\n    End of ring 0 of polygon 0\n  End of polygon 0\nEnd of footprint 0\n";
    assert_eq!(dump_text(&[fp]), expected);
}

#[test]
fn instruments_are_joined_with_commas() {
    let v = |xs: &[Option<&str>]| -> Vec<Option<String>> {
        xs.iter().map(|x| x.map(|s| s.to_string())).collect()
    };
    assert_eq!(join_instruments(&v(&[])), "");
    assert_eq!(join_instruments(&v(&[Some("OLCI")])), "OLCI");
    assert_eq!(join_instruments(&v(&[Some("OLCI"), Some("SLSTR")])), "OLCI,SLSTR");
    assert_eq!(join_instruments(&v(&[Some("a"), None, Some("b")])), "a,b");
    assert_eq!(join_instruments(&v(&[None, Some("b")])), "b");
    assert_eq!(join_instruments(&v(&[Some(""), Some("b")])), "b");
    assert_eq!(join_instruments(&v(&[Some("a"), Some(""), Some("b")])), "a,,b");
}

#[test]
fn orbit_numbers() {
    assert_eq!(orbit_number(None), 0);
    assert_eq!(orbit_number(Some(-5)), 0);
    assert_eq!(orbit_number(Some(0)), 0);
    assert_eq!(orbit_number(Some(31234)), 31234);
}
