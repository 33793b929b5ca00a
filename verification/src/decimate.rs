use vstd::prelude::*;

verus! {

/// Whether the footprint that arrives when `seen` footprints have already
/// passed is kept, when one in every `every` is kept: the first one, then
/// every `every`-th after it.
pub open spec fn keeps(seen: nat, every: nat) -> bool {
    seen % every == 0
}

/// How many of the first `count` footprints are kept when one in every
/// `every` is kept.
pub open spec fn kept_count(count: nat, every: nat) -> nat
    decreases count,
{
    if count == 0 {
        0
    } else if keeps((count - 1) as nat, every) {
        kept_count((count - 1) as nat, every) + 1
    } else {
        kept_count((count - 1) as nat, every)
    }
}

/// The number of `true` flags in `flags`.
pub open spec fn count_true(flags: Seq<bool>) -> nat
    decreases flags.len(),
{
    if flags.len() == 0 {
        0
    } else {
        count_true(flags.drop_last()) + if flags.last() {
            1nat
        } else {
            0nat
        }
    }
}

/// The positions selected among footprints whose flags say which fall in the
/// requested range, when `seen` footprints in range have passed before them
/// and one in every `every` is kept: a footprint is selected when it is in
/// range and is kept by the decimation.  Positions come in increasing order.
pub open spec fn selected(flags: Seq<bool>, seen: nat, every: nat) -> Seq<usize>
    decreases flags.len(),
{
    if flags.len() == 0 {
        Seq::empty()
    } else {
        let before = selected(flags.drop_last(), seen, every);
        if flags.last() && keeps(seen + count_true(flags.drop_last()), every) {
            before.push((flags.len() - 1) as usize)
        } else {
            before
        }
    }
}

/// The decimation applied when footprints are merged: of the footprints that
/// fall in the requested time range, only one in every `every` is kept.
pub struct Decimator {
    every: usize,
    seen: usize,
}

impl Decimator {
    #[verifier::type_invariant]
    spec fn inv(self) -> bool {
        self.every > 0
    }

    /// How often a footprint is kept: one in every `every()`.
    pub closed spec fn every(self) -> nat {
        self.every as nat
    }

    /// How many footprints have passed so far.
    pub closed spec fn seen(self) -> nat {
        self.seen as nat
    }

    /// A decimator that keeps one footprint in every `every`, before any
    /// footprint has passed.
    pub fn new(every: usize) -> (d: Decimator)
        requires
            every > 0,
        ensures
            d.every() == every,
            d.seen() == 0,
    {
        Decimator { every, seen: 0 }
    }

    /// The number of footprints that have passed so far.
    pub fn count(&self) -> (n: usize)
        ensures
            n == self.seen(),
    {
        self.seen
    }

    /// Lets one more footprint pass, and says whether it is kept.
    pub fn accept(&mut self) -> (keep: bool)
        requires
            old(self).seen() < usize::MAX,
        ensures
            keep == keeps(old(self).seen(), old(self).every()),
            final(self).seen() == old(self).seen() + 1,
            final(self).every() == old(self).every(),
            final(self).every() > 0,
    {
        proof { use_type_invariant(&*self); }
        let keep = self.seen % self.every == 0;
        self.seen = self.seen + 1;
        keep
    }

    /// Runs a batch of footprints through the decimation: `in_range[i]` says
    /// whether footprint `i` falls in the requested range.  Footprints out of
    /// range are skipped without counting; those in range pass one by one.
    /// Returns the positions of the footprints that are kept.
    pub fn select(&mut self, in_range: &Vec<bool>) -> (kept: Vec<usize>)
        requires
            old(self).seen() + in_range@.len() <= usize::MAX,
        ensures
            kept@ == selected(in_range@, old(self).seen(), old(self).every()),
            final(self).seen() == old(self).seen() + count_true(in_range@),
            final(self).every() == old(self).every(),
    {
        let ghost seen0 = self.seen();
        let ghost every = self.every();
        let mut kept: Vec<usize> = Vec::new();
        let n = in_range.len();
        for i in 0..n
            invariant
                n == in_range@.len(),
                seen0 + n <= usize::MAX,
                self.every() == every,
                count_true(in_range@.take(i as int)) <= i,
                self.seen() == seen0 + count_true(in_range@.take(i as int)),
                kept@ == selected(in_range@.take(i as int), seen0, every),
        {
            assert(in_range@.take(i + 1).drop_last() =~= in_range@.take(i as int));
            if in_range[i] {
                let keep = self.accept();
                if keep {
                    kept.push(i);
                }
            }
        }
        assert(in_range@.take(n as int) =~= in_range@);
        kept
    }
}

/// Selecting a batch of footprints keeps as many of them as the decimation
/// keeps of the footprints in range: with `seen` footprints in range before
/// the batch, the number selected is the number kept among the first
/// `seen + (in range in the batch)` minus the number kept among the first
/// `seen`.
pub proof fn lemma_selected_count(flags: Seq<bool>, seen: nat, every: nat)
    requires
        every > 0,
    ensures
        selected(flags, seen, every).len() + kept_count(seen, every) == kept_count(
            seen + count_true(flags),
            every,
        ),
    decreases flags.len(),
{
    if flags.len() > 0 {
        lemma_selected_count(flags.drop_last(), seen, every);
        let c = seen + count_true(flags.drop_last());
        if flags.last() {
            assert(kept_count(c + 1, every) == kept_count(c, every) + if keeps(c, every) {
                1nat
            } else {
                0nat
            });
        }
    }
}

/// The positions of the `true` flags, in increasing order.
pub open spec fn true_positions(flags: Seq<bool>) -> Seq<usize>
    decreases flags.len(),
{
    if flags.len() == 0 {
        Seq::empty()
    } else if flags.last() {
        true_positions(flags.drop_last()).push((flags.len() - 1) as usize)
    } else {
        true_positions(flags.drop_last())
    }
}

/// Without decimation (one in every one kept), selecting a batch keeps every
/// footprint in range and only those, in order, whatever passed before: merging
/// footprint files loses none of the footprints in the time range.
pub proof fn lemma_select_every_one(flags: Seq<bool>, seen: nat)
    ensures
        selected(flags, seen, 1) == true_positions(flags),
    decreases flags.len(),
{
    if flags.len() > 0 {
        lemma_select_every_one(flags.drop_last(), seen);
        let c = seen + count_true(flags.drop_last());
        assert(keeps(c, 1)) by {
            assert(c % 1 == 0) by (nonlinear_arith);
        }
    }
}

/// Of the footprints in one batch run through a fresh decimation, as many
/// are selected as `ceil(in range / every)`.
pub proof fn lemma_fresh_selection_count(flags: Seq<bool>, every: nat)
    requires
        every > 0,
    ensures
        selected(flags, 0, every).len() == (count_true(flags) + every - 1) / (every as int),
{
    lemma_selected_count(flags, 0, every);
    lemma_kept_count(count_true(flags), every);
}

/// Of the first `count` footprints, `ceil(count / every)` are kept: the
/// decimation keeps one footprint in every `every`, starting with the first.
pub proof fn lemma_kept_count(count: nat, every: nat)
    requires
        every > 0,
    ensures
        kept_count(count, every) == (count + every - 1) / (every as int),
    decreases count,
{
    if count > 0 {
        let c = (count - 1) as nat;
        lemma_kept_count(c, every);
        let q = c / every;
        let r = c % every;
        assert(c == every * q + r && 0 <= r < every) by {
            vstd::arithmetic::div_mod::lemma_fundamental_div_mod(c as int, every as int);
        }
        assert(every * (q + 1) == every * q + every) by (nonlinear_arith);
        assert(((c + every - 1) as int) / (every as int) == if r == 0 { q } else { q + 1 }) by {
            if r == 0 {
                assert(c + every - 1 == every * q + (every - 1));
                vstd::arithmetic::div_mod::lemma_div_multiples_vanish_fancy(
                    q as int,
                    (every - 1) as int,
                    every as int,
                );
            } else {
                assert(c + every - 1 == every * (q + 1) + (r - 1));
                vstd::arithmetic::div_mod::lemma_div_multiples_vanish_fancy(
                    (q + 1) as int,
                    (r - 1) as int,
                    every as int,
                );
            }
        }
        assert(((c + every) as int) / (every as int) == q + 1) by {
            assert(c + every == every * (q + 1) + r);
            vstd::arithmetic::div_mod::lemma_div_multiples_vanish_fancy(
                (q + 1) as int,
                r as int,
                every as int,
            );
        }
        assert(count + every - 1 == c + every);
        assert(kept_count(count, every) == kept_count(c, every) + if r == 0 { 1nat } else { 0nat });
    } else {
        vstd::arithmetic::div_mod::lemma_basic_div((every - 1) as int, every as int);
    }
}

/// The decimation keeps the first footprint, then exactly every `every`-th
/// one: a kept footprint is followed by `every - 1` skipped ones and then a
/// kept one.
pub proof fn lemma_keeps_period(seen: nat, every: nat)
    requires
        every > 0,
    ensures
        keeps(0, every),
        keeps(seen, every) ==> keeps(seen + every, every),
        keeps(seen, every) ==> forall|d: nat| 0 < d < every ==> !#[trigger] keeps(seen + d, every),
{
    vstd::arithmetic::div_mod::lemma_small_mod(0, every);
    if keeps(seen, every) {
        vstd::arithmetic::div_mod::lemma_mod_add_multiples_vanish(seen as int, every as int);
        assert forall|d: nat| 0 < d < every implies !#[trigger] keeps(seen + d, every) by {
            vstd::arithmetic::div_mod::lemma_fundamental_div_mod(seen as int, every as int);
            let q = seen / every;
            assert(seen == every * q);
            vstd::arithmetic::div_mod::lemma_div_multiples_vanish_fancy(q as int, d as int, every as int);
            vstd::arithmetic::div_mod::lemma_fundamental_div_mod((seen + d) as int, every as int);
        }
    }
}

/// A flag added at the end counts one more when it is set.
pub proof fn lemma_count_true_push(flags: Seq<bool>, flag: bool)
    ensures
        count_true(flags.push(flag)) == count_true(flags) + if flag {
            1nat
        } else {
            0nat
        },
{
    assert(flags.push(flag).drop_last() =~= flags);
}

/// A footprint added at the end of a batch is selected, at its own position,
/// exactly when it is in range and the decimation keeps it after the
/// footprints in range before it; the selection of the others does not
/// change.
pub proof fn lemma_selected_push(flags: Seq<bool>, flag: bool, seen: nat, every: nat)
    ensures
        selected(flags.push(flag), seen, every) == if flag && keeps(
            seen + count_true(flags),
            every,
        ) {
            selected(flags, seen, every).push(flags.len() as usize)
        } else {
            selected(flags, seen, every)
        },
{
    assert(flags.push(flag).drop_last() =~= flags);
}

/// The positions of the set flags are exactly the positions whose flag is
/// set, in increasing order.
pub proof fn lemma_true_positions(flags: Seq<bool>)
    requires
        flags.len() <= usize::MAX,
    ensures
        forall|k: int|
            0 <= k < true_positions(flags).len() ==> {
                let p = #[trigger] true_positions(flags)[k];
                p < flags.len() && flags[p as int]
            },
        forall|k: int, l: int|
            0 <= k < l < true_positions(flags).len() ==> #[trigger] true_positions(flags)[k]
                < #[trigger] true_positions(flags)[l],
        forall|p: int| 0 <= p < flags.len() && flags[p] ==> true_positions(flags).contains(p as usize),
    decreases flags.len(),
{
    if flags.len() > 0 {
        let rest = flags.drop_last();
        lemma_true_positions(rest);
        let t = true_positions(flags);
        let tr = true_positions(rest);
        assert forall|k: int| 0 <= k < t.len() implies {
            let p = #[trigger] t[k];
            p < flags.len() && flags[p as int]
        } by {
            if k < tr.len() {
                assert(t[k] == tr[k]);
                assert(rest[tr[k] as int] == flags[tr[k] as int]);
            }
        }
        assert forall|k: int, l: int| 0 <= k < l < t.len() implies #[trigger] t[k] < #[trigger] t[l] by {
            if l < tr.len() {
                assert(t[k] == tr[k] && t[l] == tr[l]);
            } else {
                assert(t[k] == tr[k]);
                assert(tr[k] < rest.len());
            }
        }
        assert forall|p: int| 0 <= p < flags.len() && flags[p] implies true_positions(
            flags,
        ).contains(p as usize) by {
            if p < flags.len() - 1 {
                assert(rest[p] == flags[p]);
                let t = true_positions(rest);
                let k = choose|k: int| 0 <= k < t.len() && t[k] == p as usize;
                if flags.last() {
                    assert(true_positions(flags)[k] == p as usize);
                }
            } else {
                let t = true_positions(flags);
                assert(t[t.len() - 1] == p as usize);
            }
        }
    }
}

} // verus!
