use vstd::prelude::*;

verus! {

/// The instrument names of a catalogue item joined into one field.
///
/// `values` holds the entries of the item's `instruments` list in order:
/// `Some(name)` for an entry that is a string, `None` for any other entry.
/// Non-string entries are skipped; each name is appended after a comma,
/// except when nothing has been written yet (so an empty first name writes no
/// comma in front of the next one).
pub open spec fn joined_instruments(values: Seq<Option<String>>) -> Seq<char>
    decreases values.len(),
{
    if values.len() == 0 {
        Seq::empty()
    } else {
        let joined = joined_instruments(values.drop_last());
        match values.last() {
            Some(name) => if joined.len() == 0 {
                name@
            } else {
                joined + ","@ + name@
            },
            None => joined,
        }
    }
}

/// Joins the instrument names of a catalogue item as `joined_instruments`
/// says.
pub fn join_instruments(values: &Vec<Option<String>>) -> (joined: String)
    ensures
        joined@ == joined_instruments(values@),
{
    let mut u = String::new();
    let n = values.len();
    for i in 0..n
        invariant
            n == values@.len(),
            u@ == joined_instruments(values@.take(i as int)),
    {
        assert(values@.take(i + 1).drop_last() =~= values@.take(i as int));
        match &values[i] {
            Some(name) => {
                if !u.as_str().is_empty() {
                    u.append(",");
                }
                u.append(name.as_str());
            },
            None => {},
        }
    }
    assert(values@.take(n as int) =~= values@);
    u
}

/// The orbit number of a catalogue item, from its absolute orbit field
/// (`None` when the field is missing or not an integer): 0 when there is no
/// such field and when the orbit is negative, else the orbit itself.
pub open spec fn orbit_of(value: Option<i64>) -> usize {
    match value {
        Some(n) => if n > 0 {
            n as usize
        } else {
            0
        },
        None => 0,
    }
}

/// The orbit number of a catalogue item, as `orbit_of` says.
pub fn orbit_number(value: Option<i64>) -> (orbit: usize)
    ensures
        orbit == orbit_of(value),
{
    match value {
        Some(n) => if n > 0 {
            n as usize
        } else {
            0
        },
        None => 0,
    }
}

/// A positive orbit that fits a `usize` is read as itself, whatever its size;
/// a missing, zero or negative one is read as 0.
pub proof fn lemma_orbit_of(value: Option<i64>)
    ensures
        value is None ==> orbit_of(value) == 0,
        forall|n: i64| value == Some(n) && n <= 0 ==> orbit_of(value) == 0,
        forall|n: i64|
            value == Some(n) && 0 < n <= usize::MAX ==> orbit_of(value) as int == n as int,
{
}

/// Nothing is written for an entry that is not a string; a name is written
/// after what is already there, behind a comma unless nothing has been
/// written yet.
pub proof fn lemma_joined_instruments_push(values: Seq<Option<String>>, entry: Option<String>)
    ensures
        entry is None ==> joined_instruments(values.push(entry)) == joined_instruments(values),
        forall|name: String|
            entry == Some(name) ==> joined_instruments(values.push(entry)) == if joined_instruments(
                values,
            ).len() == 0 {
                name@
            } else {
                joined_instruments(values) + ","@ + name@
            },
{
    assert(values.push(entry).drop_last() =~= values);
}

/// Every name of the list is written out in the joined field, and only names
/// and commas are written: with no name in the list the field is empty.
pub proof fn lemma_joined_instruments_names(values: Seq<Option<String>>)
    ensures
        (forall|i: int| 0 <= i < values.len() ==> values[i] is None) ==> joined_instruments(
            values,
        ).len() == 0,
        forall|i: int, name: String|
            0 <= i < values.len() && values[i] == Some(name) && name@.len() > 0
                ==> #[trigger] joined_instruments(values).len() >= name@.len(),
    decreases values.len(),
{
    if values.len() > 0 {
        let rest = values.drop_last();
        lemma_joined_instruments_names(rest);
        assert forall|i: int| 0 <= i < rest.len() implies rest[i] == values[i] by {}
        reveal_strlit(",");
    }
}

} // verus!
