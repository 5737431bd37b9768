//! Laws of the schema and the counter, proved once for every schema.
//!
//! Each law is stated over the mathematical models that the executable
//! functions' contracts use, so it applies to every value the library can
//! construct.

use vstd::prelude::*;
use vstd::seq_lib::commutative_foldr;
use vstd::seq_lib::lemma_fold_right_permutation;

use crate::attrs::ErrorModel;
use crate::attrs::VariantDef;
use crate::attrs::all_ignored;
use crate::attrs::conflicted;
use crate::attrs::first_conflict;
use crate::attrs::GroupModel;
use crate::attrs::eff_group;
use crate::attrs::groups_model;
use crate::attrs::has_ignore;
use crate::attrs::insert_member;
use crate::attrs::parse_error;
use crate::attrs::scan_error;
use crate::attrs::weight_value;
use crate::attrs::WeightModel;
use crate::attrs::weights_model;
use crate::counter::idx_sum;
use crate::text::lex_lt;
use crate::counter::spec_check;
use crate::counter::spec_discard;
use crate::counter::spec_erase;
use crate::counter::spec_record;
use crate::counter::sum_of;
use crate::schema::IndexGroupModel;
use crate::schema::SchemaModel;
use crate::schema::flatten_members;
use crate::schema::igroups_model;
use crate::schema::insert_imember;
use crate::schema::names_model;
use crate::schema::tracked_count;
use crate::schema::schema_model;
use crate::schema::weight_model;
use crate::schema::schema_wf;
use crate::schema::sorted_group_names;
use crate::schema::spec_lookup;

verus! {

/// The frequency vector of a freshly built counter: all zeros.
pub open spec fn zero_freq(m: SchemaModel) -> Seq<usize> {
    Seq::new(m.names.len(), |i: int| 0usize)
}

/// Applies `record` of one tag `n` times.
pub open spec fn record_n(m: SchemaModel, freq: Seq<usize>, tag: int, n: nat) -> Seq<usize>
    decreases n,
{
    if n == 0 {
        freq
    } else {
        spec_record(m, record_n(m, freq, tag, (n - 1) as nat), tag)
    }
}

/// Applies `erase` of one tag `n` times.
pub open spec fn erase_n(m: SchemaModel, freq: Seq<usize>, tag: int, n: nat) -> Seq<usize>
    decreases n,
{
    if n == 0 {
        freq
    } else {
        spec_erase(m, erase_n(m, freq, tag, (n - 1) as nat), tag)
    }
}

/// The group totals of a frequency vector, summed over the group table.
pub open spec fn groups_sum(gs: Seq<IndexGroupModel>, freq: Seq<usize>) -> int
    decreases gs.len(),
{
    if gs.len() == 0 {
        0
    } else {
        idx_sum(gs.first().members, freq) + groups_sum(gs.drop_first(), freq)
    }
}

// ---------------------------------------------------------------------------
// After one record, the check reads the weight.
// ---------------------------------------------------------------------------
/// For every tracked variant, recording it once on a fresh counter makes its
/// check read exactly its weight.
pub proof fn lemma_record_once_checks_weight(m: SchemaModel, tag: int, i: usize)
    requires
        schema_wf(m),
        spec_lookup(m, tag) == Some(i),
    ensures
        spec_check(m, spec_record(m, zero_freq(m), tag), tag) == Some(m.weights[i as int]),
{
}

// ---------------------------------------------------------------------------
// Records and erases balance with saturation only at zero.
// ---------------------------------------------------------------------------
/// `n` records of one tracked variant on a fresh counter leave exactly
/// `n * weight` in its slot, as long as that product fits the machine word.
proof fn lemma_record_n_freq(m: SchemaModel, tag: int, i: usize, n: nat)
    requires
        schema_wf(m),
        spec_lookup(m, tag) == Some(i),
        n * m.weights[i as int] <= usize::MAX,
    ensures
        record_n(m, zero_freq(m), tag, n) == zero_freq(m).update(
            i as int,
            (n * m.weights[i as int]) as usize,
        ),
    decreases n,
{
    let w = m.weights[i as int] as int;
    if n == 0 {
        assert(n * m.weights[i as int] == 0) by (nonlinear_arith)
            requires
                n == 0,
        ;
        assert(zero_freq(m).update(i as int, 0usize) =~= zero_freq(m));
    } else {
        assert(((n - 1) as nat) * w <= n * w && 0 <= ((n - 1) as nat) * w && ((n - 1) as nat) * w
            + w == n * w) by (nonlinear_arith)
            requires
                n >= 1,
                w >= 0,
        ;
        lemma_record_n_freq(m, tag, i, (n - 1) as nat);
        let prev = zero_freq(m).update(i as int, (((n - 1) as nat) * w) as usize);
        assert(prev[i as int] == (((n - 1) as nat) * w) as usize);
        assert(spec_record(m, prev, tag) =~= zero_freq(m).update(i as int, (n * w) as usize));
    }
}

/// `k` erases of one tracked variant holding `n * weight` leave
/// `max(0, n - k) * weight`: the subtraction saturates at zero, never below.
proof fn lemma_erase_k_freq(m: SchemaModel, tag: int, i: usize, n: nat, k: nat)
    requires
        schema_wf(m),
        spec_lookup(m, tag) == Some(i),
        n * m.weights[i as int] <= usize::MAX,
    ensures
        erase_n(m, zero_freq(m).update(i as int, (n * m.weights[i as int]) as usize), tag, k)
            == zero_freq(m).update(
            i as int,
            ((if k <= n {
                (n - k) * m.weights[i as int]
            } else {
                0int
            })) as usize,
        ),
    decreases k,
{
    let w = m.weights[i as int] as int;
    if k == 0 {
    } else {
        lemma_erase_k_freq(m, tag, i, n, (k - 1) as nat);
        let jv: int = if k - 1 <= n {
            (n - (k - 1)) * w
        } else {
            0int
        };
        assert(0 <= jv && jv <= n * w) by (nonlinear_arith)
            requires
                w >= 0,
                n >= 0,
                k >= 1,
                jv == (if k - 1 <= n {
                    (n - (k - 1)) * w
                } else {
                    0int
                }),
        ;
        let prev = zero_freq(m).update(i as int, jv as usize);
        assert(erase_n(
            m,
            zero_freq(m).update(i as int, (n * w) as usize),
            tag,
            k,
        ) == spec_erase(m, prev, tag));
        assert(prev[i as int] == jv as usize);
        let next: int = if k <= n {
            (n - k) * w
        } else {
            0int
        };
        assert(jv - w <= next && next <= jv && (jv >= w ==> jv - w == next) && (jv < w ==> next
            == 0 || jv == next + w)) by (nonlinear_arith)
            requires
                w >= 0,
                n >= 0,
                k >= 1,
                jv == (if k - 1 <= n {
                    (n - (k - 1)) * w
                } else {
                    0int
                }),
                next == (if k <= n {
                    (n - k) * w
                } else {
                    0int
                }),
        ;
        assert(spec_erase(m, prev, tag) =~= zero_freq(m).update(i as int, next as usize));
    }
}

/// After `n` records and then `k` erases of one tracked variant on a fresh
/// counter, its check reads `max(0, n - k) * weight`, provided `n * weight`
/// fits the machine word: saturation holds at zero, not below.
pub proof fn lemma_record_erase_balance(m: SchemaModel, tag: int, i: usize, n: nat, k: nat)
    requires
        schema_wf(m),
        spec_lookup(m, tag) == Some(i),
        n * m.weights[i as int] <= usize::MAX,
    ensures
        spec_check(m, erase_n(m, record_n(m, zero_freq(m), tag, n), tag, k), tag) == Some(
            ((if k <= n {
                (n - k) * m.weights[i as int]
            } else {
                0int
            })) as usize,
        ),
{
    lemma_record_n_freq(m, tag, i, n);
    lemma_erase_k_freq(m, tag, i, n, k);
}

// ---------------------------------------------------------------------------
// Discard and reset clear the checks.
// ---------------------------------------------------------------------------
/// Discarding a tracked variant makes its check read zero, whatever was
/// recorded before.
pub proof fn lemma_discard_checks_zero(m: SchemaModel, freq: Seq<usize>, tag: int)
    requires
        schema_wf(m),
        freq.len() == m.names.len(),
        spec_lookup(m, tag) is Some,
    ensures
        spec_check(m, spec_discard(m, freq, tag), tag) == Some(0usize),
{
}

/// After a reset, every tracked variant's check reads zero.
pub proof fn lemma_reset_checks_zero(m: SchemaModel, tag: int)
    requires
        schema_wf(m),
        spec_lookup(m, tag) is Some,
    ensures
        spec_check(m, zero_freq(m), tag) == Some(0usize),
{
}

// ---------------------------------------------------------------------------
// There are at most as many groups as tracked variants.
// ---------------------------------------------------------------------------
/// A table of non-empty groups flattens to at least one member per group.
proof fn lemma_flatten_members_len(gs: Seq<IndexGroupModel>)
    requires
        forall|g: int| 0 <= g < gs.len() ==> (#[trigger] gs[g]).members.len() >= 1,
    ensures
        flatten_members(gs).len() >= gs.len(),
    decreases gs.len(),
{
    if gs.len() > 0 {
        let tail = gs.drop_first();
        assert(forall|g: int|
            0 <= g < tail.len() ==> (#[trigger] tail[g]) == gs[g + 1]);
        lemma_flatten_members_len(tail);
    }
}

/// A well-formed schema has no more groups than tracked variants.
pub proof fn lemma_group_count_bound(m: SchemaModel)
    requires
        schema_wf(m),
    ensures
        m.groups.len() <= m.names.len(),
{
    lemma_flatten_members_len(m.groups);
    flatten_members(m.groups).to_multiset_ensures();
    Seq::new(m.names.len(), |i: int| i as usize).to_multiset_ensures();
}

/// Strictly sorted group names are pairwise ordered.
proof fn lemma_sorted_pairwise(gs: Seq<IndexGroupModel>, g1: int, g2: int)
    requires
        sorted_group_names(gs),
        0 <= g1 < g2 < gs.len(),
    ensures
        lex_lt(gs[g1].name, gs[g2].name),
    decreases g2 - g1,
{
    if g1 + 1 < g2 {
        lemma_sorted_pairwise(gs, g1, g2 - 1);
        crate::text::lemma_lex_lt_trans(gs[g1].name, gs[g2 - 1].name, gs[g2].name);
    }
}

/// The groups of a well-formed schema carry pairwise distinct names, so the
/// group table's length is the number of distinct groups.
pub proof fn lemma_group_names_distinct(m: SchemaModel)
    requires
        schema_wf(m),
    ensures
        forall|g1: int, g2: int|
            0 <= g1 < g2 < m.groups.len() ==> (#[trigger] m.groups[g1]).name != (
            #[trigger] m.groups[g2]).name,
{
    assert forall|g1: int, g2: int|
        0 <= g1 < g2 < m.groups.len() implies (#[trigger] m.groups[g1]).name != (
    #[trigger] m.groups[g2]).name by {
        lemma_sorted_pairwise(m.groups, g1, g2);
        crate::text::lemma_lex_lt_trichotomy(m.groups[g1].name, m.groups[g2].name);
    }
}

// ---------------------------------------------------------------------------
// The group totals sum to the plain total.
// ---------------------------------------------------------------------------
/// Index sums split over concatenation.
proof fn lemma_idx_sum_concat(a: Seq<usize>, b: Seq<usize>, freq: Seq<usize>)
    ensures
        idx_sum(a + b, freq) == idx_sum(a, freq) + idx_sum(b, freq),
    decreases b.len(),
{
    if b.len() == 0 {
        assert(a + b =~= a);
    } else {
        assert((a + b).drop_last() =~= a + b.drop_last());
        assert((a + b).last() == b.last());
        lemma_idx_sum_concat(a, b.drop_last(), freq);
    }
}

/// The group totals sum to the index sum of the flattened member lists.
proof fn lemma_groups_sum_flatten(gs: Seq<IndexGroupModel>, freq: Seq<usize>)
    ensures
        groups_sum(gs, freq) == idx_sum(flatten_members(gs), freq),
    decreases gs.len(),
{
    if gs.len() > 0 {
        lemma_groups_sum_flatten(gs.drop_first(), freq);
        lemma_idx_sum_concat(gs.first().members, flatten_members(gs.drop_first()), freq);
    }
}

/// An index sum is a right fold of the frequency lookups.
proof fn lemma_idx_sum_fold(s: Seq<usize>, freq: Seq<usize>, b: int)
    ensures
        s.fold_right(|i: usize, acc: int| acc + freq[i as int], b) == idx_sum(s, freq) + b,
    decreases s.len(),
{
    if s.len() > 0 {
        lemma_idx_sum_fold(s.drop_last(), freq, b + freq[s.last() as int]);
    }
}

/// Index sums depend only on the multiset of indices.
proof fn lemma_idx_sum_permutation(s1: Seq<usize>, s2: Seq<usize>, freq: Seq<usize>)
    requires
        s1.to_multiset() == s2.to_multiset(),
    ensures
        idx_sum(s1, freq) == idx_sum(s2, freq),
{
    let f = |i: usize, acc: int| acc + freq[i as int];
    assert(commutative_foldr(f)) by {
        assert(forall|x: usize, y: usize, v: int| #[trigger] f(x, f(y, v)) == f(y, f(x, v)));
    }
    lemma_fold_right_permutation(s1, s2, f, 0);
    lemma_idx_sum_fold(s1, freq, 0);
    lemma_idx_sum_fold(s2, freq, 0);
}

/// Summing the frequencies by identity indices is summing the frequencies.
proof fn lemma_idx_sum_identity(n: int, freq: Seq<usize>)
    requires
        0 <= n <= freq.len(),
        n <= usize::MAX,
    ensures
        idx_sum(Seq::new(n as nat, |i: int| i as usize), freq) == sum_of(freq.take(n)),
    decreases n,
{
    if n > 0 {
        lemma_idx_sum_identity(n - 1, freq);
        assert(Seq::new(n as nat, |i: int| i as usize).drop_last() =~= Seq::new(
            (n - 1) as nat,
            |i: int| i as usize,
        ));
        assert(freq.take(n).drop_last() =~= freq.take(n - 1));
        assert(freq.take(n).last() == freq[n - 1]);
        assert(Seq::new(n as nat, |i: int| i as usize).last() == (n - 1) as usize);
    }
}

/// Because every tracked variant belongs to exactly one group, the group
/// totals sum to the plain total of the frequency vector.
pub proof fn lemma_sum_partition(m: SchemaModel, freq: Seq<usize>)
    requires
        schema_wf(m),
        freq.len() == m.names.len(),
    ensures
        groups_sum(m.groups, freq) == sum_of(freq),
{
    lemma_groups_sum_flatten(m.groups, freq);
    lemma_idx_sum_permutation(
        flatten_members(m.groups),
        Seq::new(m.names.len(), |i: int| i as usize),
        freq,
    );
    lemma_idx_sum_identity(m.names.len() as int, freq);
    assert(freq.take(freq.len() as int) =~= freq);
}

// ---------------------------------------------------------------------------
// The weight vector indexes the parsed weights.
// ---------------------------------------------------------------------------
/// Variant names are unique within the type.
pub open spec fn distinct_names(vs: Seq<VariantDef>) -> bool {
    forall|p: int, q: int| 0 <= p < q < vs.len() ==> vs[p].name@ != vs[q].name@
}

/// The explicit weight recorded for a name, if any.
pub open spec fn weight_lookup(ws: Seq<WeightModel>, name: Seq<char>) -> Option<usize>
    decreases ws.len(),
{
    if ws.len() == 0 {
        None
    } else if ws.last().name == name {
        Some(ws.last().weight)
    } else {
        weight_lookup(ws.drop_last(), name)
    }
}

/// A name carried by no variant has no recorded weight.
proof fn lemma_weight_lookup_absent(vs: Seq<VariantDef>, n: Seq<char>)
    requires
        forall|p: int| 0 <= p < vs.len() ==> (#[trigger] vs[p]).name@ != n,
    ensures
        weight_lookup(weights_model(vs), n) == None::<usize>,
    decreases vs.len(),
{
    if vs.len() > 0 {
        assert(forall|p: int|
            0 <= p < vs.len() - 1 ==> (#[trigger] vs.drop_last()[p]) == vs[p]);
        lemma_weight_lookup_absent(vs.drop_last(), n);
        assert(vs[vs.len() - 1].name@ != n);
        if !has_ignore(vs.last()) && weight_value(vs.last().attrs@) is Some {
            assert(weights_model(vs).drop_last() =~= weights_model(vs.drop_last()));
            assert(weights_model(vs).last().name == vs.last().name@);
        }
    }
}

/// A name carried by no variant names no tracked variant.
proof fn lemma_names_model_absent(vs: Seq<VariantDef>, n: Seq<char>)
    requires
        forall|p: int| 0 <= p < vs.len() ==> (#[trigger] vs[p]).name@ != n,
    ensures
        forall|i: int| 0 <= i < names_model(vs).len() ==> names_model(vs)[i] != n,
    decreases vs.len(),
{
    if vs.len() > 0 {
        assert(forall|p: int|
            0 <= p < vs.len() - 1 ==> (#[trigger] vs.drop_last()[p]) == vs[p]);
        lemma_names_model_absent(vs.drop_last(), n);
        assert(vs[vs.len() - 1].name@ != n);
        assert forall|i: int| 0 <= i < names_model(vs).len() implies names_model(vs)[i]
            != n by {
            if !has_ignore(vs.last()) && i == names_model(vs.drop_last()).len() {
                assert(names_model(vs)[i] == vs.last().name@);
            } else {
                assert(names_model(vs)[i] == names_model(vs.drop_last())[i]);
            }
        }
    }
}

/// The weight vector indexes the parsed weights by tracked variant name,
/// with the default weight 1 where no explicit weight was given — as long
/// as variant names are unique, as they are within one type.
pub proof fn lemma_weight_vector_from_weights(vs: Seq<VariantDef>)
    requires
        distinct_names(vs),
    ensures
        forall|i: int|
            0 <= i < names_model(vs).len() ==> #[trigger] weight_model(vs)[i] == (
            match weight_lookup(weights_model(vs), names_model(vs)[i]) {
                Some(w) => w,
                None => 1usize,
            }),
    decreases vs.len(),
{
    if vs.len() > 0 {
        let u = vs.drop_last();
        assert(forall|p: int| 0 <= p < u.len() ==> (#[trigger] u[p]) == vs[p]);
        lemma_weight_vector_from_weights(u);
        crate::schema::lemma_model_lens(u);
        crate::schema::lemma_model_lens(vs);
        let last = vs.last();
        if has_ignore(last) {
        } else {
            let nm = names_model(u);
            let k = nm.len() as int;
            assert(forall|p: int| 0 <= p < u.len() ==> (#[trigger] u[p]).name@ != last.name@);
            lemma_names_model_absent(u, last.name@);
            lemma_weight_lookup_absent(u, last.name@);
            assert forall|i: int|
                0 <= i < names_model(vs).len() implies #[trigger] weight_model(vs)[i] == (
                match weight_lookup(weights_model(vs), names_model(vs)[i]) {
                    Some(w) => w,
                    None => 1usize,
                }) by {
                if i < k {
                    assert(names_model(vs)[i] == nm[i]);
                    assert(weight_model(vs)[i] == weight_model(u)[i]);
                    if weight_value(last.attrs@) is Some {
                        assert(weights_model(vs).last().name == last.name@);
                        assert(weights_model(vs).drop_last() == weights_model(u));
                        assert(nm[i] != last.name@);
                    }
                } else {
                    assert(names_model(vs)[i] == last.name@);
                    match weight_value(last.attrs@) {
                        Some(w) => {
                            assert(weights_model(vs).last().name == last.name@);
                            assert(weight_model(vs)[i] == w);
                        },
                        None => {
                            assert(weights_model(vs) == weights_model(u));
                            assert(weight_lookup(weights_model(vs), last.name@)
                                == None::<usize>);
                            assert(weight_model(vs)[i] == 1usize);
                        },
                    }
                }
            }
        }
    }
}

// ---------------------------------------------------------------------------
// The index groups mirror the name groups through the index bijection.
// ---------------------------------------------------------------------------
/// The index-based group table is the name-based group table with every
/// member name replaced by its dense index into `names`.
pub open spec fn groups_correspond(
    gn: Seq<GroupModel>,
    gi: Seq<IndexGroupModel>,
    names: Seq<Seq<char>>,
) -> bool {
    &&& gn.len() == gi.len()
    &&& forall|g: int|
        0 <= g < gn.len() ==> {
            &&& (#[trigger] gi[g]).name == gn[g].name
            &&& gi[g].members.len() == gn[g].members.len()
            &&& forall|j: int|
                0 <= j < gi[g].members.len() ==> #[trigger] gi[g].members[j] < names.len()
                    && gn[g].members[j] == names[gi[g].members[j] as int]
        }
}

/// Appending a fresh name leaves an existing correspondence intact.
proof fn lemma_correspond_extend(
    gn: Seq<GroupModel>,
    gi: Seq<IndexGroupModel>,
    names: Seq<Seq<char>>,
    x: Seq<char>,
)
    requires
        groups_correspond(gn, gi, names),
    ensures
        groups_correspond(gn, gi, names.push(x)),
{
    assert forall|g: int| 0 <= g < gn.len() implies {
        &&& (#[trigger] gi[g]).name == gn[g].name
        &&& gi[g].members.len() == gn[g].members.len()
        &&& forall|j: int|
            0 <= j < gi[g].members.len() ==> #[trigger] gi[g].members[j] < names.push(x).len()
                && gn[g].members[j] == names.push(x)[gi[g].members[j] as int]
    } by {
        assert forall|j: int|
            0 <= j < gi[g].members.len() implies #[trigger] gi[g].members[j]
            < names.push(x).len() && gn[g].members[j] == names.push(x)[gi[g].members[j] as int] by {
            assert(gi[g].members[j] < names.len());
            assert(names.push(x)[gi[g].members[j] as int] == names[gi[g].members[j] as int]);
        }
    }
}

/// Inserting a member name and inserting its dense index keep the two group
/// tables corresponding, when the index is the position of the freshly
/// appended name.
proof fn lemma_insert_parallel(
    gn: Seq<GroupModel>,
    gi: Seq<IndexGroupModel>,
    names: Seq<Seq<char>>,
    gname: Seq<char>,
    vname: Seq<char>,
    idx: usize,
)
    requires
        groups_correspond(gn, gi, names),
        idx == names.len(),
    ensures
        groups_correspond(
            insert_member(gn, gname, vname),
            insert_imember(gi, gname, idx),
            names.push(vname),
        ),
    decreases gn.len(),
{
    let names2 = names.push(vname);
    let rn = insert_member(gn, gname, vname);
    let ri = insert_imember(gi, gname, idx);
    lemma_correspond_extend(gn, gi, names, vname);
    assert(names2[idx as int] == vname);
    if gn.len() == 0 {
        assert(rn == seq![GroupModel { name: gname, members: seq![vname] }]);
        assert(ri == seq![IndexGroupModel { name: gname, members: seq![idx] }]);
        assert(groups_correspond(rn, ri, names2));
    } else if gn[0].name == gname {
        assert(gi[0].name == gname);
        assert(rn == seq![GroupModel { name: gname, members: gn[0].members.push(vname) }]
            + gn.drop_first());
        assert(ri == seq![IndexGroupModel { name: gname, members: gi[0].members.push(idx) }]
            + gi.drop_first());
        assert forall|g: int| 0 <= g < rn.len() implies {
            &&& (#[trigger] ri[g]).name == rn[g].name
            &&& ri[g].members.len() == rn[g].members.len()
            &&& forall|j: int|
                0 <= j < ri[g].members.len() ==> #[trigger] ri[g].members[j] < names2.len()
                    && rn[g].members[j] == names2[ri[g].members[j] as int]
        } by {
            if g == 0 {
                assert forall|j: int|
                    0 <= j < ri[0].members.len() implies #[trigger] ri[0].members[j]
                    < names2.len() && rn[0].members[j] == names2[ri[0].members[j] as int] by {
                    if j < gi[0].members.len() {
                        assert(ri[0].members[j] == gi[0].members[j]);
                        assert(rn[0].members[j] == gn[0].members[j]);
                        assert(gi[0].members[j] < names2.len());
                    } else {
                        assert(ri[0].members[j] == idx);
                        assert(rn[0].members[j] == vname);
                    }
                }
            } else {
                assert(rn[g] == gn[g]);
                assert(ri[g] == gi[g]);
            }
        }
    } else if lex_lt(gn[0].name, gname) {
        assert(gi[0].name == gn[0].name);
        let tn = gn.drop_first();
        let ti = gi.drop_first();
        assert forall|g: int| 0 <= g < tn.len() implies {
            &&& (#[trigger] ti[g]).name == tn[g].name
            &&& ti[g].members.len() == tn[g].members.len()
            &&& forall|j: int|
                0 <= j < ti[g].members.len() ==> #[trigger] ti[g].members[j] < names.len()
                    && tn[g].members[j] == names[ti[g].members[j] as int]
        } by {
            assert(tn[g] == gn[g + 1]);
            assert(ti[g] == gi[g + 1]);
        }
        lemma_insert_parallel(tn, ti, names, gname, vname, idx);
        let sn = insert_member(tn, gname, vname);
        let si = insert_imember(ti, gname, idx);
        assert(rn == seq![gn[0]] + sn);
        assert(ri == seq![gi[0]] + si);
        assert forall|g: int| 0 <= g < rn.len() implies {
            &&& (#[trigger] ri[g]).name == rn[g].name
            &&& ri[g].members.len() == rn[g].members.len()
            &&& forall|j: int|
                0 <= j < ri[g].members.len() ==> #[trigger] ri[g].members[j] < names2.len()
                    && rn[g].members[j] == names2[ri[g].members[j] as int]
        } by {
            if g == 0 {
                assert(rn[0] == gn[0]);
                assert(ri[0] == gi[0]);
            } else {
                assert(rn[g] == sn[g - 1]);
                assert(ri[g] == si[g - 1]);
            }
        }
    } else {
        assert(rn == seq![GroupModel { name: gname, members: seq![vname] }] + gn);
        assert(ri == seq![IndexGroupModel { name: gname, members: seq![idx] }] + gi);
        assert forall|g: int| 0 <= g < rn.len() implies {
            &&& (#[trigger] ri[g]).name == rn[g].name
            &&& ri[g].members.len() == rn[g].members.len()
            &&& forall|j: int|
                0 <= j < ri[g].members.len() ==> #[trigger] ri[g].members[j] < names2.len()
                    && rn[g].members[j] == names2[ri[g].members[j] as int]
        } by {
            if g > 0 {
                assert(rn[g] == gn[g - 1]);
                assert(ri[g] == gi[g - 1]);
            }
        }
    }
}

/// The schema's index-based group table is the validator's name-based group
/// table translated through the index bijection: member for member, the
/// dense index points at the member's name.
pub proof fn lemma_group_indices_from_groups(vs: Seq<VariantDef>)
    requires
        vs.len() <= usize::MAX,
    ensures
        groups_correspond(groups_model(vs), igroups_model(vs), names_model(vs)),
    decreases vs.len(),
{
    if vs.len() > 0 {
        let u = vs.drop_last();
        lemma_group_indices_from_groups(u);
        crate::schema::lemma_model_lens(u);
        if !has_ignore(vs.last()) {
            lemma_insert_parallel(
                groups_model(u),
                igroups_model(u),
                names_model(u),
                eff_group(vs.last()),
                vs.last().name@,
                tracked_count(u) as usize,
            );
        }
    }
}

// ---------------------------------------------------------------------------
// Group enumeration order is lexicographic.
// ---------------------------------------------------------------------------
/// The schema's group table is strictly sorted by name.
pub proof fn lemma_igroups_sorted(vs: Seq<VariantDef>)
    ensures
        sorted_group_names(igroups_model(vs)),
    decreases vs.len(),
{
    if vs.len() > 0 {
        lemma_igroups_sorted(vs.drop_last());
        if !has_ignore(vs.last()) {
            crate::schema::lemma_insert_imember_props(
                igroups_model(vs.drop_last()),
                eff_group(vs.last()),
                tracked_count(vs.drop_last()) as usize,
            );
        }
    }
}

/// The validator's group table is enumerated in strictly increasing
/// lexicographic name order.
pub proof fn lemma_group_order_lexicographic(vs: Seq<VariantDef>)
    requires
        vs.len() <= usize::MAX,
    ensures
        forall|g: int|
            0 <= g < groups_model(vs).len() - 1 ==> lex_lt(
                (#[trigger] groups_model(vs)[g]).name,
                groups_model(vs)[g + 1].name,
            ),
{
    lemma_igroups_sorted(vs);
    lemma_group_indices_from_groups(vs);
    assert forall|g: int|
        0 <= g < groups_model(vs).len() - 1 implies lex_lt(
        (#[trigger] groups_model(vs)[g]).name,
        groups_model(vs)[g + 1].name,
    ) by {
        assert(lex_lt(igroups_model(vs)[g].name, igroups_model(vs)[g + 1].name));
        assert(igroups_model(vs)[g].name == groups_model(vs)[g].name);
        assert(igroups_model(vs)[g + 1].name == groups_model(vs)[g + 1].name);
    }
}

// ---------------------------------------------------------------------------
// Deriving the schema is deterministic.
// ---------------------------------------------------------------------------
/// Building the schema from the same variant list twice yields identical
/// index assignments, names, weights and groups: the schema is a function of
/// the list alone.
pub proof fn lemma_rederive_identical(vs: Seq<VariantDef>, a: SchemaModel, b: SchemaModel)
    requires
        a == schema_model(vs),
        b == schema_model(vs),
    ensures
        a.index == b.index,
        a.names == b.names,
        a.weights == b.weights,
        a.groups == b.groups,
{
}

// ---------------------------------------------------------------------------
// The validation failures are owed.
// ---------------------------------------------------------------------------
/// A non-empty list of well-formed annotations whose variants are all
/// ignored is rejected with exactly `AllVariantsIgnored`.
pub proof fn lemma_all_ignored_rejected(vs: Seq<VariantDef>)
    requires
        vs.len() > 0,
        scan_error(vs) is None,
        all_ignored(vs),
    ensures
        parse_error(vs) == Some(ErrorModel::AllVariantsIgnored),
{
}

/// Somewhere a conflicted variant exists, so the first one is found.
proof fn lemma_first_conflict_exists(vs: Seq<VariantDef>)
    requires
        exists|p: int| 0 <= p < vs.len() && conflicted(#[trigger] vs[p]),
    ensures
        first_conflict(vs) is Some,
    decreases vs.len(),
{
    if !conflicted(vs.last()) || first_conflict(vs.drop_last()) is Some {
        let p = choose|p: int| 0 <= p < vs.len() && conflicted(#[trigger] vs[p]);
        if p < vs.len() - 1 {
            assert(vs.drop_last()[p] == vs[p]);
            lemma_first_conflict_exists(vs.drop_last());
        }
    }
}

/// A list with a variant that is both ignored and grouped or weighted is
/// rejected with a `ConflictingIgnoreAndGroup` error, as long as its
/// annotations are otherwise well-formed and some variant stays tracked.
pub proof fn lemma_conflict_rejected(vs: Seq<VariantDef>, p: int)
    requires
        scan_error(vs) is None,
        !all_ignored(vs),
        0 <= p < vs.len(),
        conflicted(vs[p]),
    ensures
        parse_error(vs) matches Some(e) && e is ConflictingIgnoreAndGroup,
{
    lemma_first_conflict_exists(vs);
}

} // verus!

