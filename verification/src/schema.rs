//! The schema model: dense index assignment, the weight vector and the group
//! table, derived from a validated variant list.
//!
//! Every non-ignored variant receives a dense zero-based index in declaration
//! order; ignored variants consume no index. Each tracked variant belongs to
//! exactly one group (the implicit self-group when ungrouped), and groups are
//! enumerated in lexicographic name order.

use vstd::prelude::*;
use vstd::multiset::Multiset;
use vstd::seq_lib::lemma_multiset_commutative;

use crate::attrs::AttrValue;
use crate::attrs::all_ignored;
use crate::attrs::VariantDef;
use crate::attrs::group_value;
use crate::attrs::has_ignore;
use crate::attrs::eff_group;
use crate::attrs::opt_text_matches;
use crate::attrs::weight_value;
use crate::text::lex_lt;
use crate::text::str_is;
use crate::text::str_lt;

verus! {

/// One named group holding the dense indices of its member variants, in
/// declaration order.
pub struct IndexGroup {
    pub name: String,
    pub members: Vec<usize>,
}

/// The mathematical shape of an `IndexGroup`.
pub struct IndexGroupModel {
    pub name: Seq<char>,
    pub members: Seq<usize>,
}

impl DeepView for IndexGroup {
    type V = IndexGroupModel;

    open spec fn deep_view(&self) -> IndexGroupModel {
        IndexGroupModel { name: self.name@, members: self.members@ }
    }
}

/// The mathematical shape of a schema: the declaration-position to dense
/// index map, the tracked variant names and weights by dense index, and the
/// group table in lexicographic name order.
pub struct SchemaModel {
    pub index: Seq<Option<usize>>,
    pub names: Seq<Seq<char>>,
    pub weights: Seq<usize>,
    pub groups: Seq<IndexGroupModel>,
}

// ---------------------------------------------------------------------------
// The schema, modelled from the variant list.
// ---------------------------------------------------------------------------
/// How many variants of the list are tracked (not ignored).
pub open spec fn tracked_count(vs: Seq<VariantDef>) -> int
    decreases vs.len(),
{
    if vs.len() == 0 {
        0
    } else {
        tracked_count(vs.drop_last()) + if has_ignore(vs.last()) {
            0int
        } else {
            1int
        }
    }
}

/// The dense index of each declaration position: `None` for an ignored
/// variant, otherwise the number of tracked variants declared before it.
pub open spec fn index_model(vs: Seq<VariantDef>) -> Seq<Option<usize>>
    decreases vs.len(),
{
    if vs.len() == 0 {
        Seq::empty()
    } else {
        index_model(vs.drop_last()).push(
            if has_ignore(vs.last()) {
                None
            } else {
                Some(tracked_count(vs.drop_last()) as usize)
            },
        )
    }
}

/// The names of the tracked variants, by dense index.
pub open spec fn names_model(vs: Seq<VariantDef>) -> Seq<Seq<char>>
    decreases vs.len(),
{
    if vs.len() == 0 {
        Seq::empty()
    } else if has_ignore(vs.last()) {
        names_model(vs.drop_last())
    } else {
        names_model(vs.drop_last()).push(vs.last().name@)
    }
}

/// The weight of each tracked variant, by dense index: its explicit weight,
/// or the default weight 1.
pub open spec fn weight_model(vs: Seq<VariantDef>) -> Seq<usize>
    decreases vs.len(),
{
    if vs.len() == 0 {
        Seq::empty()
    } else if has_ignore(vs.last()) {
        weight_model(vs.drop_last())
    } else {
        weight_model(vs.drop_last()).push(
            match weight_value(vs.last().attrs@) {
                Some(w) => w,
                None => 1usize,
            },
        )
    }
}

/// Adds one dense index to the group table kept in strictly increasing
/// lexicographic name order: an existing group gains the index at the end of
/// its member list, a new group opens at its sorted position.
pub open spec fn insert_imember(gs: Seq<IndexGroupModel>, gname: Seq<char>, idx: usize) -> Seq<
    IndexGroupModel,
>
    decreases gs.len(),
{
    if gs.len() == 0 {
        seq![IndexGroupModel { name: gname, members: seq![idx] }]
    } else if gs[0].name == gname {
        seq![IndexGroupModel { name: gname, members: gs[0].members.push(idx) }] + gs.drop_first()
    } else if lex_lt(gs[0].name, gname) {
        seq![gs[0]] + insert_imember(gs.drop_first(), gname, idx)
    } else {
        seq![IndexGroupModel { name: gname, members: seq![idx] }] + gs
    }
}

/// The group table over dense indices: every tracked variant's index joins
/// its effective group, in declaration order.
pub open spec fn igroups_model(vs: Seq<VariantDef>) -> Seq<IndexGroupModel>
    decreases vs.len(),
{
    if vs.len() == 0 {
        Seq::empty()
    } else if has_ignore(vs.last()) {
        igroups_model(vs.drop_last())
    } else {
        insert_imember(
            igroups_model(vs.drop_last()),
            eff_group(vs.last()),
            tracked_count(vs.drop_last()) as usize,
        )
    }
}

/// The whole schema of a variant list.
pub open spec fn schema_model(vs: Seq<VariantDef>) -> SchemaModel {
    SchemaModel {
        index: index_model(vs),
        names: names_model(vs),
        weights: weight_model(vs),
        groups: igroups_model(vs),
    }
}

// ---------------------------------------------------------------------------
// Well-formedness.
// ---------------------------------------------------------------------------
/// The member lists of all groups, concatenated in group order.
pub open spec fn flatten_members(gs: Seq<IndexGroupModel>) -> Seq<usize>
    decreases gs.len(),
{
    if gs.len() == 0 {
        Seq::empty()
    } else {
        gs.first().members + flatten_members(gs.drop_first())
    }
}

/// Group names are strictly increasing in lexicographic order.
pub open spec fn sorted_group_names(gs: Seq<IndexGroupModel>) -> bool {
    forall|g: int| 0 <= g < gs.len() - 1 ==> lex_lt(#[trigger] gs[g].name, gs[g + 1].name)
}

/// A well-formed schema: at least one tracked variant, one weight per tracked
/// variant, every dense index in range, and a group table whose names are
/// strictly sorted and whose member lists partition the dense indices.
pub open spec fn schema_wf(m: SchemaModel) -> bool {
    &&& 1 <= m.names.len() <= usize::MAX
    &&& m.weights.len() == m.names.len()
    &&& forall|p: int|
        0 <= p < m.index.len() ==> match #[trigger] m.index[p] {
            Some(i) => i < m.names.len(),
            None => true,
        }
    &&& forall|g: int| 0 <= g < m.groups.len() ==> (#[trigger] m.groups[g]).members.len() >= 1
    &&& forall|g: int, j: int|
        0 <= g < m.groups.len() && 0 <= j < m.groups[g].members.len()
            ==> #[trigger] m.groups[g].members[j] < m.names.len()
    &&& sorted_group_names(m.groups)
    &&& flatten_members(m.groups).to_multiset() == Seq::new(
        m.names.len(),
        |i: int| i as usize,
    ).to_multiset()
}

// ---------------------------------------------------------------------------
// Properties of sorted insertion.
// ---------------------------------------------------------------------------
/// Inserting a member keeps the group table sorted and non-empty per group,
/// and adds exactly that member to the table's contents.
pub proof fn lemma_insert_imember_props(gs: Seq<IndexGroupModel>, gname: Seq<char>, idx: usize)
    requires
        sorted_group_names(gs),
    ensures
        sorted_group_names(insert_imember(gs, gname, idx)),
        (forall|g: int| 0 <= g < gs.len() ==> (#[trigger] gs[g]).members.len() >= 1)
            ==> (forall|g2: int|
            0 <= g2 < insert_imember(gs, gname, idx).len() ==> (#[trigger] insert_imember(
                gs,
                gname,
                idx,
            )[g2]).members.len() >= 1),
        flatten_members(insert_imember(gs, gname, idx)).to_multiset() == flatten_members(
            gs,
        ).to_multiset().insert(idx),
        insert_imember(gs, gname, idx).len() >= 1,
        insert_imember(gs, gname, idx)[0].name == gname || (gs.len() > 0 && insert_imember(
            gs,
            gname,
            idx,
        )[0].name == gs[0].name),
    decreases gs.len(),
{
    let res = insert_imember(gs, gname, idx);
    if gs.len() == 0 {
        assert(res.drop_first() =~= Seq::<IndexGroupModel>::empty());
        assert(flatten_members(Seq::<IndexGroupModel>::empty()) == Seq::<usize>::empty());
        assert(flatten_members(res) =~= seq![idx]);
        assert(seq![idx].to_multiset() =~= flatten_members(gs).to_multiset().insert(idx)) by {
            seq![idx].to_multiset_ensures();
            assert(seq![idx].drop_last() =~= Seq::<usize>::empty());
            Seq::<usize>::empty().to_multiset_ensures();
        }
    } else if gs[0].name == gname {
        let upd = IndexGroupModel { name: gname, members: gs[0].members.push(idx) };
        assert(res == seq![upd] + gs.drop_first());
        assert(res.drop_first() =~= gs.drop_first());
        assert(res.first() == upd);
        assert(flatten_members(res) =~= gs[0].members.push(idx) + flatten_members(
            gs.drop_first(),
        ));
        assert(flatten_members(gs) == gs[0].members + flatten_members(gs.drop_first()));
        lemma_multiset_commutative(gs[0].members.push(idx), flatten_members(gs.drop_first()));
        lemma_multiset_commutative(gs[0].members, flatten_members(gs.drop_first()));
        gs[0].members.to_multiset_ensures();
        assert(gs[0].members.push(idx).to_multiset() == gs[0].members.to_multiset().insert(idx));
        assert(flatten_members(res).to_multiset() =~= flatten_members(
            gs,
        ).to_multiset().insert(idx));
        assert forall|g: int| 0 <= g < res.len() - 1 implies lex_lt(
            #[trigger] res[g].name,
            res[g + 1].name,
        ) by {
            assert(res[g].name == gs[g].name);
            assert(res[g + 1].name == gs[g + 1].name);
        }
    } else if lex_lt(gs[0].name, gname) {
        let tail = gs.drop_first();
        assert forall|g: int| 0 <= g < tail.len() - 1 implies lex_lt(
            #[trigger] tail[g].name,
            tail[g + 1].name,
        ) by {
            assert(tail[g] == gs[g + 1]);
            assert(tail[g + 1] == gs[g + 2]);
        }
        lemma_insert_imember_props(tail, gname, idx);
        let rec = insert_imember(tail, gname, idx);
        assert(res == seq![gs[0]] + rec);
        assert(res.drop_first() =~= rec);
        assert(res.first() == gs[0]);
        assert(flatten_members(res) =~= gs[0].members + flatten_members(rec));
        assert(flatten_members(gs) == gs[0].members + flatten_members(tail));
        lemma_multiset_commutative(gs[0].members, flatten_members(rec));
        lemma_multiset_commutative(gs[0].members, flatten_members(tail));
        assert(flatten_members(res).to_multiset() =~= flatten_members(
            gs,
        ).to_multiset().insert(idx));
        assert forall|g: int| 0 <= g < res.len() - 1 implies lex_lt(
            #[trigger] res[g].name,
            res[g + 1].name,
        ) by {
            if g == 0 {
                assert(res[1] == rec[0]);
                if rec[0].name == gname {
                    assert(lex_lt(gs[0].name, gname));
                } else {
                    assert(tail.len() > 0 && rec[0].name == tail[0].name);
                    assert(lex_lt(gs[0].name, gs[1].name));
                }
            } else {
                assert(res[g] == rec[g - 1]);
                assert(res[g + 1] == rec[g]);
            }
        }
    } else {
        let fresh = IndexGroupModel { name: gname, members: seq![idx] };
        assert(res == seq![fresh] + gs);
        assert(res.drop_first() =~= gs);
        assert(res.first() == fresh);
        assert(flatten_members(res) =~= seq![idx] + flatten_members(gs));
        lemma_multiset_commutative(seq![idx], flatten_members(gs));
        assert(seq![idx].to_multiset() =~= Multiset::<usize>::empty().insert(idx)) by {
            seq![idx].to_multiset_ensures();
            assert(seq![idx].drop_last() =~= Seq::<usize>::empty());
            Seq::<usize>::empty().to_multiset_ensures();
        }
        assert(flatten_members(res).to_multiset() =~= flatten_members(
            gs,
        ).to_multiset().insert(idx));
        crate::text::lemma_lex_lt_trichotomy(gs[0].name, gname);
        assert forall|g: int| 0 <= g < res.len() - 1 implies lex_lt(
            #[trigger] res[g].name,
            res[g + 1].name,
        ) by {
            if g == 0 {
                assert(res[1] == gs[0]);
                assert(lex_lt(gname, gs[0].name));
            } else {
                assert(res[g] == gs[g - 1]);
                assert(res[g + 1] == gs[g]);
            }
        }
    }
}

/// Every member the insertion leaves in the table is an old member or the
/// new index.
pub proof fn lemma_insert_imember_bound(
    gs: Seq<IndexGroupModel>,
    gname: Seq<char>,
    idx: usize,
    bound: usize,
)
    requires
        forall|g: int, j: int|
            0 <= g < gs.len() && 0 <= j < gs[g].members.len() ==> #[trigger] gs[g].members[j]
                < bound,
        idx < bound,
    ensures
        forall|g: int, j: int|
            0 <= g < insert_imember(gs, gname, idx).len() && 0 <= j < insert_imember(
                gs,
                gname,
                idx,
            )[g].members.len() ==> #[trigger] insert_imember(gs, gname, idx)[g].members[j] < bound,
    decreases gs.len(),
{
    let res = insert_imember(gs, gname, idx);
    if gs.len() == 0 {
    } else if gs[0].name == gname {
        assert forall|g: int, j: int|
            0 <= g < res.len() && 0 <= j < res[g].members.len() implies #[trigger] res[g].members[j]
            < bound by {
            if g == 0 {
                if j < gs[0].members.len() {
                    assert(res[0].members[j] == gs[0].members[j]);
                }
            } else {
                assert(res[g] == gs[g]);
            }
        }
    } else if lex_lt(gs[0].name, gname) {
        let tail = gs.drop_first();
        assert forall|g: int, j: int|
            0 <= g < tail.len() && 0 <= j < tail[g].members.len() implies #[trigger] tail[g].members[j]
            < bound by {
            assert(tail[g] == gs[g + 1]);
        }
        lemma_insert_imember_bound(tail, gname, idx, bound);
        let rec = insert_imember(tail, gname, idx);
        assert forall|g: int, j: int|
            0 <= g < res.len() && 0 <= j < res[g].members.len() implies #[trigger] res[g].members[j]
            < bound by {
            if g == 0 {
                assert(res[0] == gs[0]);
            } else {
                assert(res[g] == rec[g - 1]);
            }
        }
    } else {
        assert forall|g: int, j: int|
            0 <= g < res.len() && 0 <= j < res[g].members.len() implies #[trigger] res[g].members[j]
            < bound by {
            if g > 0 {
                assert(res[g] == gs[g - 1]);
            }
        }
    }
}


// ---------------------------------------------------------------------------
// Lengths and bounds of the models.
// ---------------------------------------------------------------------------
/// The model components have the expected lengths.
pub proof fn lemma_model_lens(vs: Seq<VariantDef>)
    ensures
        names_model(vs).len() == tracked_count(vs),
        weight_model(vs).len() == tracked_count(vs),
        index_model(vs).len() == vs.len(),
        0 <= tracked_count(vs) <= vs.len(),
    decreases vs.len(),
{
    if vs.len() > 0 {
        lemma_model_lens(vs.drop_last());
    }
}

/// A list with some non-ignored variant tracks at least one variant.
pub proof fn lemma_tracked_positive(vs: Seq<VariantDef>)
    requires
        vs.len() > 0,
        !all_ignored(vs),
    ensures
        tracked_count(vs) >= 1,
    decreases vs.len(),
{
    lemma_model_lens(vs.drop_last());
    if has_ignore(vs.last()) {
        let p = choose|p: int| 0 <= p < vs.len() && !has_ignore(#[trigger] vs[p]);
        assert(vs.drop_last()[p] == vs[p]);
        assert(!all_ignored(vs.drop_last()));
        lemma_tracked_positive(vs.drop_last());
    }
}

// ---------------------------------------------------------------------------
// The schema and its builder.
// ---------------------------------------------------------------------------
/// The immutable, validated description of a type's variants, groups,
/// weights and indices. Built once, before any counter is constructed, and
/// never changed afterwards.
pub struct Schema {
    pub(crate) index: Vec<Option<usize>>,
    pub(crate) names: Vec<String>,
    pub(crate) weights: Vec<usize>,
    pub(crate) groups: Vec<IndexGroup>,
}

impl View for Schema {
    type V = SchemaModel;

    closed spec fn view(&self) -> SchemaModel {
        SchemaModel {
            index: self.index@,
            names: self.names.deep_view(),
            weights: self.weights@,
            groups: self.groups.deep_view(),
        }
    }
}

impl Schema {
    #[verifier::type_invariant]
    pub(crate) open spec fn inv(self) -> bool {
        schema_wf(self@)
    }

    /// The total number of variants, ignored ones included.
    pub fn variant_count(&self) -> (r: usize)
        ensures
            r == self@.index.len(),
    {
        self.index.len()
    }

    /// The number of tracked variants.
    pub fn tracked_count(&self) -> (r: usize)
        ensures
            r == self@.names.len(),
    {
        self.names.len()
    }

    /// The number of groups.
    pub fn group_count(&self) -> (r: usize)
        ensures
            r == self@.groups.len(),
    {
        self.groups.len()
    }

    /// The dense index of the variant at a declaration position: `None` for
    /// an ignored variant or an out-of-range position.
    pub fn lookup(&self, tag: usize) -> (r: Option<usize>)
        ensures
            r == spec_lookup(self@, tag as int),
            match r {
                Some(i) => i < self@.names.len(),
                None => true,
            },
    {
        proof {
            use_type_invariant(self);
        }
        if tag < self.index.len() {
            self.index[tag]
        } else {
            None
        }
    }

    /// The weight of the tracked variant at a dense index.
    pub fn weight_at(&self, i: usize) -> (r: usize)
        requires
            i < self@.weights.len(),
        ensures
            r == self@.weights[i as int],
    {
        proof {
            use_type_invariant(self);
        }
        self.weights[i]
    }

    /// The name of the tracked variant at a dense index.
    pub fn name_at(&self, i: usize) -> (r: String)
        requires
            i < self@.names.len(),
        ensures
            r@ == self@.names[i as int],
    {
        proof {
            use_type_invariant(self);
        }
        self.names[i].clone()
    }

    /// The name of a group.
    pub fn group_name_at(&self, g: usize) -> (r: String)
        requires
            g < self@.groups.len(),
        ensures
            r@ == self@.groups[g as int].name,
    {
        proof {
            use_type_invariant(self);
        }
        self.groups[g].name.clone()
    }

    /// How many members a group has.
    pub fn members_len_at(&self, g: usize) -> (r: usize)
        requires
            g < self@.groups.len(),
        ensures
            r == self@.groups[g as int].members.len(),
    {
        proof {
            use_type_invariant(self);
        }
        self.groups[g].members.len()
    }

    /// One member index of a group; always a valid dense index.
    pub fn member_at(&self, g: usize, j: usize) -> (r: usize)
        requires
            g < self@.groups.len(),
            j < self@.groups[g as int].members.len(),
        ensures
            r == self@.groups[g as int].members[j as int],
            r < self@.names.len(),
    {
        proof {
            use_type_invariant(self);
        }
        self.groups[g].members[j]
    }

    pub(crate) fn copy_index(&self) -> (r: Vec<Option<usize>>)
        ensures
            r@ == self@.index,
    {
        let mut r: Vec<Option<usize>> = Vec::new();
        let mut i: usize = 0;
        while i < self.index.len()
            invariant
                i <= self.index@.len(),
                r@ == self.index@.take(i as int),
            decreases self.index@.len() - i,
        {
            r.push(self.index[i]);
            proof {
                assert(self.index@.take(i as int).push(self.index@[i as int])
                    =~= self.index@.take(i as int + 1));
            }
            i += 1;
        }
        proof {
            assert(self.index@.take(i as int) =~= self.index@);
        }
        r
    }

    /// A copy of this schema, equal in every component: the schema is built
    /// once and every counter for the type references its own equal copy.
    pub fn duplicate(&self) -> (r: Schema)
        ensures
            r@ == self@,
    {
        let index = self.copy_index();
        let names = copy_string_list(&self.names);
        let weights = self.copy_weights();
        let groups = copy_group_list(&self.groups);
        proof {
            use_type_invariant(self);
        }
        Schema { index, names, weights, groups }
    }

    pub(crate) fn copy_weights(&self) -> (r: Vec<usize>)
        ensures
            r@ == self@.weights,
    {
        let mut r: Vec<usize> = Vec::new();
        let mut i: usize = 0;
        while i < self.weights.len()
            invariant
                i <= self.weights@.len(),
                r@ == self.weights@.take(i as int),
            decreases self.weights@.len() - i,
        {
            r.push(self.weights[i]);
            proof {
                assert(self.weights@.take(i as int).push(self.weights@[i as int])
                    =~= self.weights@.take(i as int + 1));
            }
            i += 1;
        }
        proof {
            assert(self.weights@.take(i as int) =~= self.weights@);
        }
        r
    }

    /// The `(group name, member variant names)` enumeration, for
    /// documentation and debugging: each member index resolved to the name
    /// of its tracked variant, groups in lexicographic name order.
    pub fn group_table(&self) -> (r: Vec<crate::attrs::GroupDef>)
        ensures
            r.deep_view().len() == self@.groups.len(),
            forall|g: int|
                0 <= g < r.deep_view().len() ==> {
                    &&& (#[trigger] r.deep_view()[g]).name == self@.groups[g].name
                    &&& r.deep_view()[g].members.len() == self@.groups[g].members.len()
                    &&& forall|j: int|
                        0 <= j < r.deep_view()[g].members.len() ==> r.deep_view()[g].members[j]
                            == self@.names[self@.groups[g].members[j] as int]
                },
    {
        proof {
            use_type_invariant(self);
        }
        let mut table: Vec<crate::attrs::GroupDef> = Vec::new();
        let mut g: usize = 0;
        while g < self.groups.len()
            invariant
                schema_wf(self@),
                g <= self@.groups.len(),
                table.deep_view().len() == g,
                forall|h: int|
                    0 <= h < g ==> {
                        &&& (#[trigger] table.deep_view()[h]).name == self@.groups[h].name
                        &&& table.deep_view()[h].members.len() == self@.groups[h].members.len()
                        &&& forall|j: int|
                            0 <= j < table.deep_view()[h].members.len()
                                ==> table.deep_view()[h].members[j]
                                == self@.names[self@.groups[h].members[j] as int]
                    },
            decreases self@.groups.len() - g,
        {
            let grp = &self.groups[g];
            let mut members: Vec<String> = Vec::new();
            let mut j: usize = 0;
            while j < grp.members.len()
                invariant
                    schema_wf(self@),
                    0 <= g < self@.groups.len(),
                    *grp == self.groups@[g as int],
                    j <= grp.members@.len(),
                    members.deep_view().len() == j,
                    forall|q: int|
                        0 <= q < j ==> members.deep_view()[q]
                            == self@.names[self@.groups[g as int].members[q] as int],
                decreases grp.members@.len() - j,
            {
                let idx = grp.members[j];
                proof {
                    assert(idx == self@.groups[g as int].members[j as int]);
                    assert(idx < self@.names.len());
                }
                let ghost members_before = members@;
                let ghost members_dv_before = members.deep_view();
                members.push(self.names[idx].clone());
                proof {
                    assert forall|q: int| 0 <= q < j + 1 implies members.deep_view()[q]
                        == self@.names[self@.groups[g as int].members[q] as int] by {
                        if q < j {
                            assert(members@[q] == members_before[q]);
                            assert(members.deep_view()[q] == members_dv_before[q]);
                        } else {
                            assert(members.deep_view()[j as int] == self@.names[idx as int]);
                        }
                    }
                }
                j += 1;
            }
            let ghost members_snap = members.deep_view();
            let ghost table_before = table@;
            let ghost table_dv_before = table.deep_view();
            table.push(crate::attrs::GroupDef { name: grp.name.clone(), members });
            proof {
                assert forall|h: int| 0 <= h < g + 1 implies {
                    &&& (#[trigger] table.deep_view()[h]).name == self@.groups[h].name
                    &&& table.deep_view()[h].members.len() == self@.groups[h].members.len()
                    &&& forall|j2: int|
                        0 <= j2 < table.deep_view()[h].members.len()
                            ==> table.deep_view()[h].members[j2]
                            == self@.names[self@.groups[h].members[j2] as int]
                } by {
                    if h < g {
                        assert(table@[h] == table_before[h]);
                        assert(table.deep_view()[h] == table_dv_before[h]);
                    } else {
                        assert(table.deep_view()[g as int].members == members_snap);
                        assert(table.deep_view()[g as int].name == self@.groups[g as int].name);
                    }
                }
            }
            g += 1;
        }
        table
    }

    /// Assigns indices, weights and groups by one pass over the declaration
    /// order; the caller has already validated the variant list.
    pub fn build(variants: &Vec<VariantDef>) -> (s: Schema)
        requires
            tracked_count(variants@) >= 1,
        ensures
            s@ == schema_model(variants@),
            schema_wf(s@),
    {
        let mut index: Vec<Option<usize>> = Vec::new();
        let mut names: Vec<String> = Vec::new();
        let mut weights: Vec<usize> = Vec::new();
        let mut groups: Vec<IndexGroup> = Vec::new();
        let mut p: usize = 0;
        proof {
            assert(variants@.take(0) =~= Seq::<VariantDef>::empty());
            assert(flatten_members(Seq::<IndexGroupModel>::empty()) == Seq::<usize>::empty());
            assert(Seq::<usize>::empty() =~= Seq::new(0, |i: int| i as usize));
        }
        while p < variants.len()
            invariant
                p <= variants@.len(),
                index@ == index_model(variants@.take(p as int)),
                names.deep_view() == names_model(variants@.take(p as int)),
                weights@ == weight_model(variants@.take(p as int)),
                groups.deep_view() == igroups_model(variants@.take(p as int)),
                names@.len() == tracked_count(variants@.take(p as int)),
                forall|q: int|
                    0 <= q < index@.len() ==> match #[trigger] index@[q] {
                        Some(i) => i < names@.len(),
                        None => true,
                    },
                forall|g: int|
                    0 <= g < groups.deep_view().len() ==> (#[trigger] groups.deep_view()[g]).members.len() >= 1,
                forall|g: int, j: int|
                    0 <= g < groups.deep_view().len() && 0 <= j < groups.deep_view()[g].members.len()
                        ==> #[trigger] groups.deep_view()[g].members[j] < names@.len(),
                sorted_group_names(groups.deep_view()),
                flatten_members(groups.deep_view()).to_multiset() == Seq::new(
                    names@.len(),
                    |i: int| i as usize,
                ).to_multiset(),
            decreases variants@.len() - p,
        {
            let v = &variants[p];
            let (ignored, grp, wgt) = scan_variant(v);
            proof {
                assert(variants@.take(p as int + 1).drop_last() =~= variants@.take(p as int));
                assert(variants@.take(p as int + 1).last() == variants@[p as int]);
            }
            if ignored {
                index.push(None);
            } else {
                let i = names.len();
                let ghost gs_before = groups.deep_view();
                index.push(Some(i));
                names.push(v.name.clone());
                let bound = names.len();
                weights.push(
                    match wgt {
                        Some(w) => w,
                        None => 1,
                    },
                );
                let gname: String = match grp {
                    Some(g) => g,
                    None => v.name.clone(),
                };
                proof {
                    assert(bound == i + 1);
                    lemma_insert_imember_props(gs_before, gname@, i);
                    lemma_insert_imember_bound(gs_before, gname@, i, bound);
                    assert(Seq::new(names@.len(), |q: int| q as usize) =~= Seq::new(
                        i as nat,
                        |q: int| q as usize,
                    ).push(i));
                    Seq::new(i as nat, |q: int| q as usize).to_multiset_ensures();
                }
                insert_igroup(&mut groups, gname, i);
                proof {
                    assert(names.deep_view() =~= names_model(variants@.take(p as int + 1)));
                }
            }
            p += 1;
        }
        proof {
            assert(variants@.take(p as int) =~= variants@);
            lemma_model_lens(variants@);
        }
        let s = Schema { index, names, weights, groups };
        proof {
            assert(s@ == schema_model(variants@));
        }
        s
    }
}

/// The dense index the schema assigns to a declaration position.
pub open spec fn spec_lookup(m: SchemaModel, tag: int) -> Option<usize> {
    if 0 <= tag < m.index.len() {
        m.index[tag]
    } else {
        None
    }
}

/// Reads one variant's annotations: the ignore flag, the last group text and
/// the last weight number. Unrecognized annotations contribute nothing; the
/// validator has already rejected them where it matters.
fn scan_variant(v: &VariantDef) -> (r: (bool, Option<String>, Option<usize>))
    ensures
        r.0 == has_ignore(*v),
        opt_text_matches(r.1, group_value(v.attrs@)),
        r.2 == weight_value(v.attrs@),
{
    let mut ignored = false;
    let mut grp: Option<String> = None;
    let mut wgt: Option<usize> = None;
    let mut j: usize = 0;
    proof {
        assert(v.attrs@.take(0) =~= Seq::<crate::attrs::RawAttr>::empty());
    }
    while j < v.attrs.len()
        invariant
            j <= v.attrs@.len(),
            ignored == crate::attrs::attrs_have_ignore(v.attrs@.take(j as int)),
            opt_text_matches(grp, group_value(v.attrs@.take(j as int))),
            wgt == weight_value(v.attrs@.take(j as int)),
        decreases v.attrs@.len() - j,
    {
        let a = &v.attrs[j];
        proof {
            assert(v.attrs@.take(j as int + 1).drop_last() =~= v.attrs@.take(j as int));
            assert(v.attrs@.take(j as int + 1).last() == v.attrs@[j as int]);
        }
        match &a.value {
            AttrValue::Unit => {
                if str_is(a.key.as_str(), "ignore") {
                    ignored = true;
                }
            },
            AttrValue::Text(t) => {
                if str_is(a.key.as_str(), "group") {
                    grp = Some(t.clone());
                }
            },
            AttrValue::Number(n) => {
                if str_is(a.key.as_str(), "weight") {
                    wgt = Some(*n);
                }
            },
        }
        j += 1;
    }
    proof {
        assert(v.attrs@.take(j as int) =~= v.attrs@);
    }
    (ignored, grp, wgt)
}

/// Adds one dense index to the group table, keeping the table sorted by
/// group name.
fn insert_igroup(groups: &mut Vec<IndexGroup>, gname: String, idx: usize)
    ensures
        final(groups).deep_view() == insert_imember(old(groups).deep_view(), gname@, idx),
{
    let ghost gs0 = groups.deep_view();
    let mut k: usize = 0;
    loop
        invariant
            k <= groups.len(),
            groups.deep_view() == gs0,
            forall|i: int| 0 <= i < k ==> lex_lt(#[trigger] gs0[i].name, gname@),
        ensures
            k <= groups.len(),
            groups.deep_view() == gs0,
            forall|i: int| 0 <= i < k ==> lex_lt(#[trigger] gs0[i].name, gname@),
            k < groups.len() ==> !lex_lt(gs0[k as int].name, gname@),
        decreases groups.len() - k,
    {
        if k == groups.len() {
            break ;
        }
        if !str_lt(groups[k].name.as_str(), gname.as_str()) {
            break ;
        }
        k += 1;
    }
    proof {
        lemma_insert_imember_at(gs0, gname@, idx, k as int);
    }
    let ghost v0 = groups@;
    if k < groups.len() && str_is(groups[k].name.as_str(), gname.as_str()) {
        let mut g = groups.remove(k);
        g.members.push(idx);
        let ghost gsnap = g;
        groups.insert(k, g);
        proof {
            assert(groups@ =~= v0.update(k as int, gsnap));
            assert forall|i: int| 0 <= i < groups@.len() implies groups.deep_view()[i]
                == gs0.update(
                k as int,
                IndexGroupModel { name: gname@, members: gs0[k as int].members.push(idx) },
            )[i] by {
                if i != k {
                    assert(groups@[i] == v0[i]);
                }
            }
            assert(groups.deep_view() =~= gs0.update(
                k as int,
                IndexGroupModel { name: gname@, members: gs0[k as int].members.push(idx) },
            ));
        }
    } else {
        let mut members: Vec<usize> = Vec::new();
        members.push(idx);
        let ghost gsnap = IndexGroup { name: gname, members };
        groups.insert(k, IndexGroup { name: gname, members });
        proof {
            assert(groups@ =~= v0.insert(k as int, gsnap));
            assert forall|i: int| 0 <= i < groups@.len() implies groups.deep_view()[i]
                == gs0.insert(
                k as int,
                IndexGroupModel { name: gname@, members: seq![idx] },
            )[i] by {
                if i < k {
                    assert(groups@[i] == v0[i]);
                } else if i > k {
                    assert(groups@[i] == v0[i - 1]);
                }
            }
            assert(groups.deep_view() =~= gs0.insert(
                k as int,
                IndexGroupModel { name: gname@, members: seq![idx] },
            ));
        }
    }
}

/// Inserting at the position found by a linear scan agrees with the
/// recursive definition of `insert_imember`.
proof fn lemma_insert_imember_at(gs: Seq<IndexGroupModel>, gname: Seq<char>, idx: usize, k: int)
    requires
        0 <= k <= gs.len(),
        forall|i: int| 0 <= i < k ==> lex_lt(#[trigger] gs[i].name, gname),
        k < gs.len() ==> !lex_lt(gs[k].name, gname),
    ensures
        insert_imember(gs, gname, idx) == (if k < gs.len() && gs[k].name == gname {
            gs.update(k, IndexGroupModel { name: gname, members: gs[k].members.push(idx) })
        } else {
            gs.insert(k, IndexGroupModel { name: gname, members: seq![idx] })
        }),
    decreases k,
{
    let fresh = IndexGroupModel { name: gname, members: seq![idx] };
    if k == 0 {
        if gs.len() == 0 {
            assert(insert_imember(gs, gname, idx) =~= gs.insert(0, fresh));
        } else if gs[0].name == gname {
            assert(seq![IndexGroupModel { name: gname, members: gs[0].members.push(idx) }]
                + gs.drop_first() =~= gs.update(
                0,
                IndexGroupModel { name: gname, members: gs[0].members.push(idx) },
            ));
        } else {
            crate::text::lemma_lex_lt_trichotomy(gs[0].name, gname);
            assert(seq![fresh] + gs =~= gs.insert(0, fresh));
        }
    } else {
        crate::text::lemma_lex_lt_trichotomy(gs[0].name, gname);
        assert(lex_lt(gs[0].name, gname));
        assert(gs[0].name != gname);
        let tail = gs.drop_first();
        assert(forall|i: int| 0 <= i < k - 1 ==> #[trigger] tail[i].name == gs[i + 1].name);
        lemma_insert_imember_at(tail, gname, idx, k - 1);
        if k < gs.len() && gs[k].name == gname {
            assert(tail[k - 1] == gs[k]);
            assert(seq![gs[0]] + tail.update(
                k - 1,
                IndexGroupModel { name: gname, members: gs[k].members.push(idx) },
            ) =~= gs.update(k, IndexGroupModel { name: gname, members: gs[k].members.push(idx) }));
        } else {
            assert(seq![gs[0]] + tail.insert(k - 1, fresh) =~= gs.insert(k, fresh));
        }
    }
}


/// Copies a list of strings, value for value.
fn copy_string_list(v: &Vec<String>) -> (r: Vec<String>)
    ensures
        r@ == v@,
{
    let mut r: Vec<String> = Vec::new();
    let mut i: usize = 0;
    while i < v.len()
        invariant
            i <= v@.len(),
            r@ == v@.take(i as int),
        decreases v@.len() - i,
    {
        r.push(v[i].clone());
        proof {
            assert(v@.take(i as int).push(v@[i as int]) =~= v@.take(i as int + 1));
        }
        i += 1;
    }
    proof {
        assert(v@.take(i as int) =~= v@);
    }
    r
}

/// Copies a list of dense indices.
pub(crate) fn copy_usize_list(v: &Vec<usize>) -> (r: Vec<usize>)
    ensures
        r@ == v@,
{
    let mut r: Vec<usize> = Vec::new();
    let mut i: usize = 0;
    while i < v.len()
        invariant
            i <= v@.len(),
            r@ == v@.take(i as int),
        decreases v@.len() - i,
    {
        r.push(v[i]);
        proof {
            assert(v@.take(i as int).push(v@[i as int]) =~= v@.take(i as int + 1));
        }
        i += 1;
    }
    proof {
        assert(v@.take(i as int) =~= v@);
    }
    r
}

/// Copies the group table, group for group.
fn copy_group_list(v: &Vec<IndexGroup>) -> (r: Vec<IndexGroup>)
    ensures
        r.deep_view() == v.deep_view(),
{
    let mut r: Vec<IndexGroup> = Vec::new();
    let mut i: usize = 0;
    while i < v.len()
        invariant
            i <= v@.len(),
            r.deep_view() == v.deep_view().take(i as int),
        decreases v@.len() - i,
    {
        let ghost raw_before = r@;
        let ghost dv_before = r.deep_view();
        let grp = &v[i];
        let elem = IndexGroup { name: grp.name.clone(), members: copy_usize_list(&grp.members) };
        let ghost esnap = elem;
        r.push(elem);
        proof {
            assert(dv_before.len() == i as int);
            assert(raw_before.len() == i as int);
            assert(r@ == raw_before.push(esnap));
            assert(esnap.deep_view() == v.deep_view()[i as int]);
            assert forall|q: int| 0 <= q < i + 1 implies r.deep_view()[q] == v.deep_view().take(
                i as int + 1,
            )[q] by {
                if q < i {
                    assert(r@[q] == raw_before[q]);
                    assert(r.deep_view()[q] == dv_before[q]);
                } else {
                    assert(r.deep_view()[q] == v.deep_view()[i as int]);
                }
            }
            assert(r.deep_view() =~= v.deep_view().take(i as int + 1));
        }
        i += 1;
    }
    proof {
        assert(v.deep_view().take(i as int) =~= v.deep_view());
    }
    r
}

} // verus!
