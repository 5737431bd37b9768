//! The counter compiled from a schema: per-variant frequencies, group
//! aggregation and summary sums.
//!
//! A runtime value of the host type is handed over as its declaration
//! position (its tag); the schema maps the tag to the dense index of its
//! variant, or to nothing when the variant is ignored or the tag unknown.
//! Recording adds the variant's weight to its frequency, saturating; no
//! runtime operation can fail.

use vstd::prelude::*;

use crate::schema::Schema;
use crate::schema::SchemaModel;
use crate::schema::schema_wf;
use crate::schema::spec_lookup;

verus! {

/// The mathematical shape of a counter: its schema and its frequency vector.
pub struct CounterModel {
    pub schema: SchemaModel,
    pub freq: Seq<usize>,
}

/// The frequency counter of one schema. All mutating operations saturate and
/// none of them can fail; unknown tags are a no-op.
pub struct Counter {
    schema: Schema,
    freq: Vec<usize>,
}

impl View for Counter {
    type V = CounterModel;

    closed spec fn view(&self) -> CounterModel {
        CounterModel { schema: self.schema@, freq: self.freq@ }
    }
}

// ---------------------------------------------------------------------------
// The operations, modelled.
// ---------------------------------------------------------------------------
/// An integer clamped to the machine word: what a saturating fold computes.
pub open spec fn clamped(x: int) -> int {
    if x > usize::MAX {
        usize::MAX as int
    } else {
        x
    }
}

/// The sum of a frequency vector.
pub open spec fn sum_of(s: Seq<usize>) -> int
    decreases s.len(),
{
    if s.len() == 0 {
        0
    } else {
        sum_of(s.drop_last()) + s.last()
    }
}

/// The sum of the frequencies at the given indices.
pub open spec fn idx_sum(idxs: Seq<usize>, freq: Seq<usize>) -> int
    decreases idxs.len(),
{
    if idxs.len() == 0 {
        0
    } else {
        idx_sum(idxs.drop_last(), freq) + freq[idxs.last() as int]
    }
}

/// What `record` does to the frequency vector: the tag's variant, if tracked,
/// gains its weight, saturating.
pub open spec fn spec_record(m: SchemaModel, freq: Seq<usize>, tag: int) -> Seq<usize> {
    match spec_lookup(m, tag) {
        Some(i) => freq.update(i as int, freq[i as int].saturating_add(m.weights[i as int])),
        None => freq,
    }
}

/// What `erase` does: the tag's variant, if tracked, loses its weight,
/// saturating at zero.
pub open spec fn spec_erase(m: SchemaModel, freq: Seq<usize>, tag: int) -> Seq<usize> {
    match spec_lookup(m, tag) {
        Some(i) => freq.update(i as int, freq[i as int].saturating_sub(m.weights[i as int])),
        None => freq,
    }
}

/// What `check` returns: the tag's frequency if tracked, nothing otherwise.
pub open spec fn spec_check(m: SchemaModel, freq: Seq<usize>, tag: int) -> Option<usize> {
    match spec_lookup(m, tag) {
        Some(i) => Some(freq[i as int]),
        None => None,
    }
}

/// What `discard` does: the tag's frequency, if tracked, returns to zero.
pub open spec fn spec_discard(m: SchemaModel, freq: Seq<usize>, tag: int) -> Seq<usize> {
    match spec_lookup(m, tag) {
        Some(i) => freq.update(i as int, 0usize),
        None => freq,
    }
}

impl Schema {
    /// Compiles the schema into its counter, every frequency zero. The
    /// schema stays usable: each counter references its own equal copy.
    pub fn counter(&self) -> (c: Counter)
        ensures
            c@.schema == self@,
            c@.freq == Seq::new(self@.names.len(), |i: int| 0usize),
    {
        proof {
            use_type_invariant(self);
        }
        let k = self.tracked_count();
        let freq = zero_vec(k);
        Counter { schema: self.duplicate(), freq }
    }
}

/// A vector of `k` zeros.
fn zero_vec(k: usize) -> (v: Vec<usize>)
    ensures
        v@ == Seq::new(k as nat, |i: int| 0usize),
{
    let mut v: Vec<usize> = Vec::new();
    let mut i: usize = 0;
    while i < k
        invariant
            i <= k,
            v@.len() == i,
            forall|j: int| 0 <= j < i ==> v@[j] == 0usize,
        decreases k - i,
    {
        v.push(0);
        i += 1;
    }
    proof {
        assert(v@ =~= Seq::new(k as nat, |i: int| 0usize));
    }
    v
}

impl Counter {
    #[verifier::type_invariant]
    closed spec fn inv(self) -> bool {
        schema_wf(self@.schema) && self@.freq.len() == self@.schema.names.len()
    }

    /// The total number of variants, ignored ones included.
    pub fn variant_count(&self) -> (r: usize)
        ensures
            r == self@.schema.index.len(),
    {
        self.schema.variant_count()
    }

    /// The number of tracked variants.
    pub fn tracked_count(&self) -> (r: usize)
        ensures
            r == self@.schema.names.len(),
    {
        self.schema.tracked_count()
    }

    /// Counts one occurrence of the tag's variant: its frequency gains its
    /// weight, saturating. Recording an ignored variant or an unknown tag
    /// has no effect.
    pub fn record(&mut self, tag: usize)
        ensures
            final(self)@.schema == old(self)@.schema,
            final(self)@.freq == spec_record(old(self)@.schema, old(self)@.freq, tag as int),
    {
        proof {
            use_type_invariant(&*self);
        }
        match self.schema.lookup(tag) {
            Some(i) => {
                let w = self.schema.weight_at(i);
                let cur = self.freq[i];
                self.freq[i] = cur.saturating_add(w);
            },
            None => {},
        }
    }

    /// Erases one occurrence of the tag's variant: its frequency loses its
    /// weight, saturating at zero. Erasing an ignored variant or an unknown
    /// tag has no effect.
    pub fn erase(&mut self, tag: usize)
        ensures
            final(self)@.schema == old(self)@.schema,
            final(self)@.freq == spec_erase(old(self)@.schema, old(self)@.freq, tag as int),
    {
        proof {
            use_type_invariant(&*self);
        }
        match self.schema.lookup(tag) {
            Some(i) => {
                let w = self.schema.weight_at(i);
                let cur = self.freq[i];
                self.freq[i] = cur.saturating_sub(w);
            },
            None => {},
        }
    }

    /// The tag's frequency: `Some` for a tracked variant, `None` for an
    /// ignored variant or an unknown tag.
    pub fn check(&self, tag: usize) -> (r: Option<usize>)
        ensures
            r == spec_check(self@.schema, self@.freq, tag as int),
    {
        proof {
            use_type_invariant(self);
        }
        match self.schema.lookup(tag) {
            Some(i) => Some(self.freq[i]),
            None => None,
        }
    }

    /// Clears the tag's frequency; an ignored variant or an unknown tag is a
    /// no-op.
    pub fn discard(&mut self, tag: usize)
        ensures
            final(self)@.schema == old(self)@.schema,
            final(self)@.freq == spec_discard(old(self)@.schema, old(self)@.freq, tag as int),
    {
        proof {
            use_type_invariant(&*self);
        }
        match self.schema.lookup(tag) {
            Some(i) => {
                self.freq[i] = 0;
            },
            None => {},
        }
    }

    /// Clears every frequency.
    pub fn reset(&mut self)
        ensures
            final(self)@.schema == old(self)@.schema,
            final(self)@.freq == Seq::new(old(self)@.freq.len(), |i: int| 0usize),
    {
        proof {
            use_type_invariant(&*self);
        }
        let k = self.freq.len();
        self.freq = zero_vec(k);
    }

    /// One `(variant name, frequency)` pair per tracked variant, in dense
    /// index order.
    pub fn aggregate(&self) -> (r: Vec<(String, usize)>)
        ensures
            r@.len() == self@.schema.names.len(),
            forall|i: int|
                0 <= i < r@.len() ==> (#[trigger] r@[i]).0@ == self@.schema.names[i] && r@[i].1
                    == self@.freq[i],
    {
        proof {
            use_type_invariant(self);
        }
        let mut r: Vec<(String, usize)> = Vec::new();
        let mut i: usize = 0;
        while i < self.names_len()
            invariant
                i <= self@.schema.names.len(),
                self@.freq.len() == self@.schema.names.len(),
                r@.len() == i,
                forall|j: int|
                    0 <= j < i ==> (#[trigger] r@[j]).0@ == self@.schema.names[j] && r@[j].1
                        == self@.freq[j],
            decreases self@.schema.names.len() - i,
        {
            r.push((self.schema.name_at(i), self.freq[i]));
            i += 1;
        }
        r
    }

    /// One `(group name, sum of member frequencies)` pair per group, in
    /// lexicographic group name order; each sum saturates.
    pub fn group_aggregate(&self) -> (r: Vec<(String, usize)>)
        ensures
            r@.len() == self@.schema.groups.len(),
            forall|g: int|
                0 <= g < r@.len() ==> (#[trigger] r@[g]).0@ == self@.schema.groups[g].name
                    && r@[g].1 as int == clamped(
                    idx_sum(self@.schema.groups[g].members, self@.freq),
                ),
    {
        proof {
            use_type_invariant(self);
        }
        let mut r: Vec<(String, usize)> = Vec::new();
        let mut g: usize = 0;
        while g < self.groups_len()
            invariant
                schema_wf(self@.schema),
                self@.freq.len() == self@.schema.names.len(),
                g <= self@.schema.groups.len(),
                r@.len() == g,
                forall|h: int|
                    0 <= h < g ==> (#[trigger] r@[h]).0@ == self@.schema.groups[h].name
                        && r@[h].1 as int == clamped(
                        idx_sum(self@.schema.groups[h].members, self@.freq),
                    ),
            decreases self@.schema.groups.len() - g,
        {
            let total = self.group_total(g);
            r.push((self.schema.group_name_at(g), total));
            g += 1;
        }
        r
    }

    /// The saturating sum of one group's member frequencies.
    fn group_total(&self, g: usize) -> (r: usize)
        requires
            g < self@.schema.groups.len(),
        ensures
            r as int == clamped(idx_sum(self@.schema.groups[g as int].members, self@.freq)),
    {
        proof {
            use_type_invariant(self);
        }
        let ghost members = self@.schema.groups[g as int].members;
        let mut acc: usize = 0;
        let mut j: usize = 0;
        proof {
            assert(members.take(0) =~= Seq::<usize>::empty());
        }
        while j < self.members_len(g)
            invariant
                schema_wf(self@.schema),
                self@.freq.len() == self@.schema.names.len(),
                g < self@.schema.groups.len(),
                members == self@.schema.groups[g as int].members,
                j <= members.len(),
                acc as int == clamped(idx_sum(members.take(j as int), self@.freq)),
            decreases members.len() - j,
        {
            let idx = self.schema.member_at(g, j);
            proof {
                assert(members.take(j as int + 1).drop_last() =~= members.take(j as int));
                assert(members.take(j as int + 1).last() == members[j as int]);
            }
            acc = acc.saturating_add(self.freq[idx]);
            j += 1;
        }
        proof {
            assert(members.take(j as int) =~= members);
        }
        acc
    }

    /// The saturating sum of all frequencies.
    pub fn sum(&self) -> (r: usize)
        ensures
            r as int == clamped(sum_of(self@.freq)),
    {
        proof {
            use_type_invariant(self);
        }
        sum_vec(&self.freq)
    }

    /// The read-only weighted view of this counter: the same frequency data,
    /// already weight-multiplied by `record`, together with the weight
    /// vector.
    pub fn weighted(&self) -> (w: Weighted)
        ensures
            w@.index == self@.schema.index,
            w@.freq == self@.freq,
            w@.weights == self@.schema.weights,
    {
        proof {
            use_type_invariant(self);
        }
        Weighted {
            index: self.schema.copy_index(),
            freq: copy_usizes(&self.freq),
            weights: self.schema.copy_weights(),
        }
    }

    fn names_len(&self) -> (r: usize)
        ensures
            r == self@.schema.names.len(),
    {
        self.schema.tracked_count()
    }

    fn groups_len(&self) -> (r: usize)
        ensures
            r == self@.schema.groups.len(),
    {
        self.schema.group_count()
    }

    fn members_len(&self, g: usize) -> (r: usize)
        requires
            g < self@.schema.groups.len(),
        ensures
            r == self@.schema.groups[g as int].members.len(),
    {
        self.schema.members_len_at(g)
    }
}

/// The saturating sum of a frequency vector.
fn sum_vec(freq: &Vec<usize>) -> (r: usize)
    ensures
        r as int == clamped(sum_of(freq@)),
{
    let mut acc: usize = 0;
    let mut i: usize = 0;
    proof {
        assert(freq@.take(0) =~= Seq::<usize>::empty());
    }
    while i < freq.len()
        invariant
            i <= freq@.len(),
            acc as int == clamped(sum_of(freq@.take(i as int))),
        decreases freq@.len() - i,
    {
        proof {
            assert(freq@.take(i as int + 1).drop_last() =~= freq@.take(i as int));
            assert(freq@.take(i as int + 1).last() == freq@[i as int]);
        }
        acc = acc.saturating_add(freq[i]);
        i += 1;
    }
    proof {
        assert(freq@.take(i as int) =~= freq@);
    }
    acc
}

/// Copies a frequency vector.
fn copy_usizes(v: &Vec<usize>) -> (r: Vec<usize>)
    ensures
        r@ == v@,
{
    let mut r: Vec<usize> = Vec::new();
    let mut i: usize = 0;
    while i < v.len()
        invariant
            i <= v@.len(),
            r@ == v@.take(i as int),
        decreases v@.len() - i,
    {
        r.push(v[i]);
        proof {
            assert(v@.take(i as int).push(v@[i as int]) =~= v@.take(i as int + 1));
        }
        i += 1;
    }
    proof {
        assert(v@.take(i as int) =~= v@);
    }
    r
}

// ---------------------------------------------------------------------------
// The weighted view.
// ---------------------------------------------------------------------------
/// The mathematical shape of the weighted view.
pub struct WeightedModel {
    pub index: Seq<Option<usize>>,
    pub freq: Seq<usize>,
    pub weights: Seq<usize>,
}

/// The read-only weighted view: the frequency data (already
/// weight-multiplied by `record`) and the weight vector, for weighted
/// totals and statistics.
pub struct Weighted {
    index: Vec<Option<usize>>,
    freq: Vec<usize>,
    weights: Vec<usize>,
}

impl View for Weighted {
    type V = WeightedModel;

    closed spec fn view(&self) -> WeightedModel {
        WeightedModel { index: self.index@, freq: self.freq@, weights: self.weights@ }
    }
}

impl Weighted {
    #[verifier::type_invariant]
    closed spec fn inv(self) -> bool {
        &&& self@.freq.len() == self@.weights.len()
        &&& forall|p: int|
            0 <= p < self@.index.len() ==> match #[trigger] self@.index[p] {
                Some(i) => i < self@.freq.len(),
                None => true,
            }
    }

    /// The sum of the weight vector, saturating.
    pub fn total_weight(&self) -> (r: usize)
        ensures
            r as int == clamped(sum_of(self@.weights)),
    {
        proof {
            use_type_invariant(self);
        }
        sum_vec(&self.weights)
    }

    /// The sum of the weighted frequencies, saturating.
    pub fn sum(&self) -> (r: usize)
        ensures
            r as int == clamped(sum_of(self@.freq)),
    {
        proof {
            use_type_invariant(self);
        }
        sum_vec(&self.freq)
    }

    /// The tag's weighted frequency: `Some` for a tracked variant, `None`
    /// for an ignored variant or an unknown tag.
    pub fn check(&self, tag: usize) -> (r: Option<usize>)
        ensures
            r == (if 0 <= tag < self@.index.len() {
                match self@.index[tag as int] {
                    Some(i) => Some(self@.freq[i as int]),
                    None => None,
                }
            } else {
                None
            }),
    {
        proof {
            use_type_invariant(self);
        }
        if tag < self.index.len() {
            match self.index[tag] {
                Some(i) => Some(self.freq[i]),
                None => None,
            }
        } else {
            None
        }
    }
}

} // verus!
