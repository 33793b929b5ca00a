use vstd::prelude::*;

verus! {

/// One footprint: the area seen by a satellite pixel.
///
/// `T` is the type of a time stamp and `P` the type of a vertex
/// (a `(longitude, latitude)` pair).  The outline is a multipolygon: a list of
/// polygons, each a list of rings, each a list of vertices.
#[derive(Debug)]
pub struct Footprint<T, P> {
    pub orbit: usize,
    pub id: String,
    pub platform: String,
    pub instrument: String,
    pub time_interval: (T, T),
    pub outline: Vec<Vec<Vec<P>>>,
}

/// A collection of footprints, in the order in which they were gathered.
#[derive(Debug)]
pub struct Footprints<T, P> {
    pub footprints: Vec<Footprint<T, P>>,
}

impl<T: Default, P> Footprint<T, P> {
    /// An empty footprint: orbit 0, empty strings, both time stamps at the
    /// default time value, and an outline with no polygon.
    pub fn new() -> (fp: Self)
        ensures
            fp.orbit == 0,
            fp.id@ == Seq::<char>::empty(),
            fp.platform@ == Seq::<char>::empty(),
            fp.instrument@ == Seq::<char>::empty(),
            call_ensures(T::default, (), fp.time_interval.0),
            call_ensures(T::default, (), fp.time_interval.1),
            fp.outline@.len() == 0,
    {
        Footprint {
            orbit: 0,
            id: String::new(),
            platform: String::new(),
            instrument: String::new(),
            time_interval: (T::default(), T::default()),
            outline: Vec::new(),
        }
    }
}

impl<T, P> Footprints<T, P> {
    /// An empty collection.
    pub fn new() -> (fps: Self)
        ensures
            fps.footprints@.len() == 0,
    {
        Footprints { footprints: Vec::new() }
    }
}

} // verus!
