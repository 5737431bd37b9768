//! The annotation model and the attribute parser/validator.
//!
//! A variant of the host sum type arrives as its name together with the list
//! of raw annotations attached to it, each already tokenized into a key and a
//! value shape (bare, string text, or non-negative number). `ParsedAttr::parse`
//! walks the variants in declaration order, recognizes the `ignore`,
//! `group = <text>` and `weight = <number>` annotations, rejects everything
//! else, and enforces the cross-variant legality rules.

use vstd::prelude::*;

use crate::text::lex_lt;
use crate::text::str_is;
use crate::text::str_lt;

verus! {

/// The shape of an annotation's value: a bare key, a string literal, or a
/// non-negative integer literal.
pub enum AttrValue {
    Unit,
    Text(String),
    Number(usize),
}

/// One raw annotation attached to a variant.
pub struct RawAttr {
    pub key: String,
    pub value: AttrValue,
}

/// One variant of the host type: its name and its annotations, in source
/// order.
pub struct VariantDef {
    pub name: String,
    pub attrs: Vec<RawAttr>,
}

/// A build-time validation failure. Runtime counter operations never fail;
/// every error of the library is found while the schema is built.
pub enum ValidationError {
    /// An annotation key other than `ignore`, `group` or `weight`; carries the
    /// offending key.
    UnrecognizedAttribute(String),
    /// A `group` annotation whose value is not a string; carries the variant
    /// name.
    InvalidGroupType(String),
    /// A `weight` annotation whose value is not a non-negative integer;
    /// carries the variant name.
    InvalidWeightType(String),
    /// A variant that is both ignored and grouped or weighted; carries the
    /// variant name.
    ConflictingIgnoreAndGroup(String),
    /// Every variant is ignored, so nothing could be counted.
    AllVariantsIgnored,
    /// The type declares no variants at all.
    EmptyVariantSet,
}

/// The mathematical shape of a `ValidationError`.
pub enum ErrorModel {
    UnrecognizedAttribute(Seq<char>),
    InvalidGroupType(Seq<char>),
    InvalidWeightType(Seq<char>),
    ConflictingIgnoreAndGroup(Seq<char>),
    AllVariantsIgnored,
    EmptyVariantSet,
}

impl DeepView for ValidationError {
    type V = ErrorModel;

    open spec fn deep_view(&self) -> ErrorModel {
        match self {
            ValidationError::UnrecognizedAttribute(k) => ErrorModel::UnrecognizedAttribute(k@),
            ValidationError::InvalidGroupType(n) => ErrorModel::InvalidGroupType(n@),
            ValidationError::InvalidWeightType(n) => ErrorModel::InvalidWeightType(n@),
            ValidationError::ConflictingIgnoreAndGroup(n) => ErrorModel::ConflictingIgnoreAndGroup(
                n@,
            ),
            ValidationError::AllVariantsIgnored => ErrorModel::AllVariantsIgnored,
            ValidationError::EmptyVariantSet => ErrorModel::EmptyVariantSet,
        }
    }
}

/// One named group and the names of its member variants, in insertion order.
pub struct GroupDef {
    pub name: String,
    pub members: Vec<String>,
}

/// The mathematical shape of a `GroupDef`.
pub struct GroupModel {
    pub name: Seq<char>,
    pub members: Seq<Seq<char>>,
}

impl DeepView for GroupDef {
    type V = GroupModel;

    open spec fn deep_view(&self) -> GroupModel {
        GroupModel { name: self.name@, members: self.members.deep_view() }
    }
}

/// An explicit weight recorded for one variant.
pub struct WeightDef {
    pub name: String,
    pub weight: usize,
}

/// The mathematical shape of a `WeightDef`.
pub struct WeightModel {
    pub name: Seq<char>,
    pub weight: usize,
}

impl DeepView for WeightDef {
    type V = WeightModel;

    open spec fn deep_view(&self) -> WeightModel {
        WeightModel { name: self.name@, weight: self.weight }
    }
}

/// The validator's output: which variants are ignored, the group table in
/// lexicographic name order, and the explicit weights, all keyed by variant
/// name and all in declaration order within each list.
pub struct ParsedAttr {
    pub ignores: Vec<String>,
    pub groups: Vec<GroupDef>,
    pub weights: Vec<WeightDef>,
}

// ---------------------------------------------------------------------------
// Recognizing single annotations.
// ---------------------------------------------------------------------------
/// A bare `ignore` annotation.
pub open spec fn is_ignore_attr(a: RawAttr) -> bool {
    a.key@ == "ignore"@ && a.value is Unit
}

/// A `group = <text>` annotation.
pub open spec fn is_group_attr(a: RawAttr) -> bool {
    a.key@ == "group"@ && a.value is Text
}

/// A `weight = <number>` annotation.
pub open spec fn is_weight_attr(a: RawAttr) -> bool {
    a.key@ == "weight"@ && a.value is Number
}

/// An annotation the parser accepts.
pub open spec fn attr_recognized(a: RawAttr) -> bool {
    is_ignore_attr(a) || is_group_attr(a) || is_weight_attr(a)
}

/// The group name carried by a `group` annotation.
pub open spec fn group_text(a: RawAttr) -> Seq<char> {
    match a.value {
        AttrValue::Text(s) => s@,
        _ => Seq::empty(),
    }
}

/// The weight carried by a `weight` annotation.
pub open spec fn weight_num(a: RawAttr) -> usize {
    match a.value {
        AttrValue::Number(n) => n,
        _ => 0,
    }
}

/// The error an unrecognized annotation produces: a `group` key with a
/// non-text value and a `weight` key with a non-number value name the variant;
/// any other rejected annotation names its key.
pub open spec fn attr_error(vname: Seq<char>, a: RawAttr) -> ErrorModel
    recommends
        !attr_recognized(a),
{
    match a.value {
        AttrValue::Unit => ErrorModel::UnrecognizedAttribute(a.key@),
        AttrValue::Text(_) => if a.key@ == "weight"@ {
            ErrorModel::InvalidWeightType(vname)
        } else {
            ErrorModel::UnrecognizedAttribute(a.key@)
        },
        AttrValue::Number(_) => if a.key@ == "group"@ {
            ErrorModel::InvalidGroupType(vname)
        } else {
            ErrorModel::UnrecognizedAttribute(a.key@)
        },
    }
}

// ---------------------------------------------------------------------------
// Scanning one variant's annotation list.
// ---------------------------------------------------------------------------
/// The error of the first unrecognized annotation in `attrs`, if any.
pub open spec fn scan_attr_error(vname: Seq<char>, attrs: Seq<RawAttr>) -> Option<ErrorModel>
    decreases attrs.len(),
{
    if attrs.len() == 0 {
        None
    } else {
        match scan_attr_error(vname, attrs.drop_last()) {
            Some(e) => Some(e),
            None => if attr_recognized(attrs.last()) {
                None
            } else {
                Some(attr_error(vname, attrs.last()))
            },
        }
    }
}

/// Whether the list carries a bare `ignore` annotation.
pub open spec fn attrs_have_ignore(attrs: Seq<RawAttr>) -> bool
    decreases attrs.len(),
{
    if attrs.len() == 0 {
        false
    } else {
        is_ignore_attr(attrs.last()) || attrs_have_ignore(attrs.drop_last())
    }
}

/// The text of the last `group` annotation in the list, if any: a repeated
/// annotation must not fail, and the last occurrence wins.
pub open spec fn group_value(attrs: Seq<RawAttr>) -> Option<Seq<char>>
    decreases attrs.len(),
{
    if attrs.len() == 0 {
        None
    } else if is_group_attr(attrs.last()) {
        Some(group_text(attrs.last()))
    } else {
        group_value(attrs.drop_last())
    }
}

/// The number of the last `weight` annotation in the list, if any.
pub open spec fn weight_value(attrs: Seq<RawAttr>) -> Option<usize>
    decreases attrs.len(),
{
    if attrs.len() == 0 {
        None
    } else if is_weight_attr(attrs.last()) {
        Some(weight_num(attrs.last()))
    } else {
        weight_value(attrs.drop_last())
    }
}

/// A variant is ignored when it carries a bare `ignore` annotation.
pub open spec fn has_ignore(v: VariantDef) -> bool {
    attrs_have_ignore(v.attrs@)
}

/// The group a tracked variant belongs to: its explicit group, or the implicit
/// self-group named after the variant.
pub open spec fn eff_group(v: VariantDef) -> Seq<char> {
    match group_value(v.attrs@) {
        Some(g) => g,
        None => v.name@,
    }
}

/// A variant that is ignored and also grouped or weighted: a hard validation
/// failure.
pub open spec fn conflicted(v: VariantDef) -> bool {
    has_ignore(v) && (group_value(v.attrs@) is Some || weight_value(v.attrs@) is Some)
}

// ---------------------------------------------------------------------------
// Scanning the whole variant list.
// ---------------------------------------------------------------------------
/// The scan error of the first variant whose annotations fail to parse.
pub open spec fn scan_error(vs: Seq<VariantDef>) -> Option<ErrorModel>
    decreases vs.len(),
{
    if vs.len() == 0 {
        None
    } else {
        match scan_error(vs.drop_last()) {
            Some(e) => Some(e),
            None => scan_attr_error(vs.last().name@, vs.last().attrs@),
        }
    }
}

/// Every variant is ignored.
pub open spec fn all_ignored(vs: Seq<VariantDef>) -> bool {
    forall|p: int| 0 <= p < vs.len() ==> has_ignore(#[trigger] vs[p])
}

/// The name of the first conflicted variant, if any.
pub open spec fn first_conflict(vs: Seq<VariantDef>) -> Option<Seq<char>>
    decreases vs.len(),
{
    if vs.len() == 0 {
        None
    } else {
        match first_conflict(vs.drop_last()) {
            Some(n) => Some(n),
            None => if conflicted(vs.last()) {
                Some(vs.last().name@)
            } else {
                None
            },
        }
    }
}

/// The outcome of validation: the empty type is rejected first, then the first
/// malformed annotation in declaration order, then a type whose variants are
/// all ignored, then the first variant that is both ignored and
/// grouped or weighted. A `None` outcome means the variant list is legal.
pub open spec fn parse_error(vs: Seq<VariantDef>) -> Option<ErrorModel> {
    if vs.len() == 0 {
        Some(ErrorModel::EmptyVariantSet)
    } else if scan_error(vs) is Some {
        scan_error(vs)
    } else if all_ignored(vs) {
        Some(ErrorModel::AllVariantsIgnored)
    } else {
        match first_conflict(vs) {
            Some(n) => Some(ErrorModel::ConflictingIgnoreAndGroup(n)),
            None => None,
        }
    }
}

// ---------------------------------------------------------------------------
// The validator's output, modelled.
// ---------------------------------------------------------------------------
/// The names of the ignored variants, in declaration order.
pub open spec fn ignored_model(vs: Seq<VariantDef>) -> Seq<Seq<char>>
    decreases vs.len(),
{
    if vs.len() == 0 {
        Seq::empty()
    } else if has_ignore(vs.last()) {
        ignored_model(vs.drop_last()).push(vs.last().name@)
    } else {
        ignored_model(vs.drop_last())
    }
}

/// Adds one member to the group table kept in strictly increasing
/// lexicographic name order: an existing group gains the member at the end of
/// its list, a new group opens at its sorted position.
pub open spec fn insert_member(gs: Seq<GroupModel>, gname: Seq<char>, m: Seq<char>) -> Seq<
    GroupModel,
>
    decreases gs.len(),
{
    if gs.len() == 0 {
        seq![GroupModel { name: gname, members: seq![m] }]
    } else if gs[0].name == gname {
        seq![GroupModel { name: gname, members: gs[0].members.push(m) }] + gs.drop_first()
    } else if lex_lt(gs[0].name, gname) {
        seq![gs[0]] + insert_member(gs.drop_first(), gname, m)
    } else {
        seq![GroupModel { name: gname, members: seq![m] }] + gs
    }
}

/// The group table of the variant list: every tracked variant joins its
/// effective group, in declaration order.
pub open spec fn groups_model(vs: Seq<VariantDef>) -> Seq<GroupModel>
    decreases vs.len(),
{
    if vs.len() == 0 {
        Seq::empty()
    } else if has_ignore(vs.last()) {
        groups_model(vs.drop_last())
    } else {
        insert_member(groups_model(vs.drop_last()), eff_group(vs.last()), vs.last().name@)
    }
}

/// The explicit weights of the tracked variants, in declaration order.
pub open spec fn weights_model(vs: Seq<VariantDef>) -> Seq<WeightModel>
    decreases vs.len(),
{
    if vs.len() == 0 {
        Seq::empty()
    } else {
        let rest = weights_model(vs.drop_last());
        if !has_ignore(vs.last()) && weight_value(vs.last().attrs@) is Some {
            rest.push(
                WeightModel {
                    name: vs.last().name@,
                    weight: match weight_value(vs.last().attrs@) {
                        Some(w) => w,
                        None => 0,
                    },
                },
            )
        } else {
            rest
        }
    }
}

/// What a legal parse returns, stated against the models above.
pub open spec fn parsed_matches(p: ParsedAttr, vs: Seq<VariantDef>) -> bool {
    &&& p.ignores.deep_view() == ignored_model(vs)
    &&& p.groups.deep_view() == groups_model(vs)
    &&& p.weights.deep_view() == weights_model(vs)
}

/// An optional string held in executable code agrees with an optional
/// character sequence of the model.
pub open spec fn opt_text_matches(o: Option<String>, m: Option<Seq<char>>) -> bool {
    match (o, m) {
        (Option::None, Option::None) => true,
        (Option::Some(s), Option::Some(t)) => s@ == t,
        _ => false,
    }
}

// ---------------------------------------------------------------------------
// Helper lemmas.
// ---------------------------------------------------------------------------
/// Once a prefix of the annotation list has failed, the whole list fails the
/// same way.
proof fn lemma_scan_attr_monotone(vname: Seq<char>, attrs: Seq<RawAttr>, j: int)
    requires
        0 <= j <= attrs.len(),
        scan_attr_error(vname, attrs.take(j)) is Some,
    ensures
        scan_attr_error(vname, attrs) == scan_attr_error(vname, attrs.take(j)),
    decreases attrs.len() - j,
{
    if j < attrs.len() {
        assert(attrs.take(j + 1).drop_last() =~= attrs.take(j));
        lemma_scan_attr_monotone(vname, attrs, j + 1);
    } else {
        assert(attrs.take(j) =~= attrs);
    }
}

/// Once a prefix of the variant list has failed, the whole list fails the
/// same way.
proof fn lemma_scan_error_monotone(vs: Seq<VariantDef>, p: int)
    requires
        0 <= p <= vs.len(),
        scan_error(vs.take(p)) is Some,
    ensures
        scan_error(vs) == scan_error(vs.take(p)),
    decreases vs.len() - p,
{
    if p < vs.len() {
        assert(vs.take(p + 1).drop_last() =~= vs.take(p));
        lemma_scan_error_monotone(vs, p + 1);
    } else {
        assert(vs.take(p) =~= vs);
    }
}

/// There are at most as many ignored variants as variants, with equality
/// exactly when every variant is ignored.
proof fn lemma_ignored_len(vs: Seq<VariantDef>)
    ensures
        ignored_model(vs).len() <= vs.len(),
        (ignored_model(vs).len() == vs.len()) == all_ignored(vs),
    decreases vs.len(),
{
    if vs.len() > 0 {
        lemma_ignored_len(vs.drop_last());
        assert(forall|p: int|
            0 <= p < vs.len() - 1 ==> vs.drop_last()[p] == #[trigger] vs[p]);
        if ignored_model(vs).len() == vs.len() {
            assert(has_ignore(vs.last()));
            assert(all_ignored(vs.drop_last()));
            assert forall|p: int| 0 <= p < vs.len() implies has_ignore(#[trigger] vs[p]) by {
                if p < vs.len() - 1 {
                    assert(has_ignore(vs.drop_last()[p]));
                }
            }
        }
        if all_ignored(vs) {
            assert forall|p: int| 0 <= p < vs.len() - 1 implies has_ignore(
                #[trigger] vs.drop_last()[p],
            ) by {
                assert(has_ignore(vs[p]));
            }
            assert(has_ignore(vs.last()));
        }
    }
}

/// Inserting at the position found by a linear scan agrees with the recursive
/// definition of `insert_member`.
proof fn lemma_insert_member_at(gs: Seq<GroupModel>, gname: Seq<char>, m: Seq<char>, k: int)
    requires
        0 <= k <= gs.len(),
        forall|i: int| 0 <= i < k ==> lex_lt(#[trigger] gs[i].name, gname),
        k < gs.len() ==> !lex_lt(gs[k].name, gname),
    ensures
        insert_member(gs, gname, m) == (if k < gs.len() && gs[k].name == gname {
            gs.update(k, GroupModel { name: gname, members: gs[k].members.push(m) })
        } else {
            gs.insert(k, GroupModel { name: gname, members: seq![m] })
        }),
    decreases k,
{
    let fresh = GroupModel { name: gname, members: seq![m] };
    if k == 0 {
        if gs.len() == 0 {
            assert(insert_member(gs, gname, m) =~= gs.insert(0, fresh));
        } else if gs[0].name == gname {
            assert(seq![GroupModel { name: gname, members: gs[0].members.push(m) }]
                + gs.drop_first() =~= gs.update(
                0,
                GroupModel { name: gname, members: gs[0].members.push(m) },
            ));
        } else {
            crate::text::lemma_lex_lt_trichotomy(gs[0].name, gname);
            assert(!lex_lt(gs[0].name, gname));
            assert(seq![fresh] + gs =~= gs.insert(0, fresh));
        }
    } else {
        crate::text::lemma_lex_lt_trichotomy(gs[0].name, gname);
        assert(lex_lt(gs[0].name, gname));
        assert(gs[0].name != gname);
        let tail = gs.drop_first();
        assert(forall|i: int| 0 <= i < k - 1 ==> #[trigger] tail[i].name == gs[i + 1].name);
        lemma_insert_member_at(tail, gname, m, k - 1);
        if k < gs.len() && gs[k].name == gname {
            assert(tail[k - 1] == gs[k]);
            assert(seq![gs[0]] + tail.update(
                k - 1,
                GroupModel { name: gname, members: gs[k].members.push(m) },
            ) =~= gs.update(k, GroupModel { name: gname, members: gs[k].members.push(m) }));
        } else {
            assert(seq![gs[0]] + tail.insert(k - 1, fresh) =~= gs.insert(k, fresh));
        }
    }
}

// ---------------------------------------------------------------------------
// The executable validator.
// ---------------------------------------------------------------------------
/// Adds one member to the group table, keeping the table sorted by group name:
/// an existing group gains the member at the end of its list, a new group
/// opens at its lexicographic position.
fn insert_group(groups: &mut Vec<GroupDef>, gname: String, member: String)
    ensures
        final(groups).deep_view() == insert_member(old(groups).deep_view(), gname@, member@),
{
    let ghost gs0 = groups.deep_view();
    let mut k: usize = 0;
    loop
        invariant
            k <= groups.len(),
            groups.deep_view() == gs0,
            forall|i: int| 0 <= i < k ==> lex_lt(#[trigger] gs0[i].name, gname@),
        ensures
            k <= groups.len(),
            groups.deep_view() == gs0,
            forall|i: int| 0 <= i < k ==> lex_lt(#[trigger] gs0[i].name, gname@),
            k < groups.len() ==> !lex_lt(gs0[k as int].name, gname@),
        decreases groups.len() - k,
    {
        if k == groups.len() {
            break ;
        }
        if !str_lt(groups[k].name.as_str(), gname.as_str()) {
            break ;
        }
        k += 1;
    }
    proof {
        lemma_insert_member_at(gs0, gname@, member@, k as int);
    }
    let ghost v0 = groups@;
    if k < groups.len() && str_is(groups[k].name.as_str(), gname.as_str()) {
        let mut g = groups.remove(k);
        g.members.push(member);
        let ghost gsnap = g;
        groups.insert(k, g);
        proof {
            assert(groups@ =~= v0.update(k as int, gsnap));
            assert(gsnap.members.deep_view() =~= gs0[k as int].members.push(member@));
            assert forall|i: int| 0 <= i < groups@.len() implies groups.deep_view()[i]
                == gs0.update(
                k as int,
                GroupModel { name: gname@, members: gs0[k as int].members.push(member@) },
            )[i] by {
                if i != k {
                    assert(groups@[i] == v0[i]);
                }
            }
            assert(groups.deep_view() =~= gs0.update(
                k as int,
                GroupModel { name: gname@, members: gs0[k as int].members.push(member@) },
            ));
        }
    } else {
        let mut members: Vec<String> = Vec::new();
        members.push(member);
        let ghost gsnap = GroupDef { name: gname, members };
        groups.insert(k, GroupDef { name: gname, members });
        proof {
            assert(groups@ =~= v0.insert(k as int, gsnap));
            assert(gsnap.members.deep_view() =~= seq![member@]);
            assert forall|i: int| 0 <= i < groups@.len() implies groups.deep_view()[i]
                == gs0.insert(
                k as int,
                GroupModel { name: gname@, members: seq![member@] },
            )[i] by {
                if i < k {
                    assert(groups@[i] == v0[i]);
                } else if i > k {
                    assert(groups@[i] == v0[i - 1]);
                }
            }
            assert(groups.deep_view() =~= gs0.insert(
                k as int,
                GroupModel { name: gname@, members: seq![member@] },
            ));
        }
    }
}

impl ParsedAttr {
    /// Walks the variants in declaration order, recognizes `ignore`,
    /// `group = <text>` and `weight = <number>` annotations, and enforces the
    /// legality rules: the first malformed annotation, a type with no
    /// variants, a type whose variants are all ignored, and a variant both
    /// ignored and grouped or weighted are each rejected with their error.
    pub fn parse(variants: &Vec<VariantDef>) -> (r: Result<ParsedAttr, ValidationError>)
        ensures
            match r {
                Ok(p) => parse_error(variants@) is None && parsed_matches(p, variants@),
                Err(e) => parse_error(variants@) == Some(e.deep_view()),
            },
    {
        if variants.len() == 0 {
            return Err(ValidationError::EmptyVariantSet);
        }
        let mut ignores: Vec<String> = Vec::new();
        let mut groups: Vec<GroupDef> = Vec::new();
        let mut weights: Vec<WeightDef> = Vec::new();
        let mut conflict: Option<String> = None;
        let mut p: usize = 0;
        while p < variants.len()
            invariant
                p <= variants@.len(),
                scan_error(variants@.take(p as int)) is None,
                ignores.deep_view() == ignored_model(variants@.take(p as int)),
                groups.deep_view() == groups_model(variants@.take(p as int)),
                weights.deep_view() == weights_model(variants@.take(p as int)),
                opt_text_matches(conflict, first_conflict(variants@.take(p as int))),
            decreases variants@.len() - p,
        {
            let v = &variants[p];
            let mut ignored = false;
            let mut grp: Option<String> = None;
            let mut wgt: Option<usize> = None;
            let mut j: usize = 0;
            proof {
                assert(v.attrs@.take(0) =~= Seq::<RawAttr>::empty());
            }
            while j < v.attrs.len()
                invariant
                    j <= v.attrs@.len(),
                    *v == variants@[p as int],
                    0 <= p < variants@.len(),
                    scan_error(variants@.take(p as int)) is None,
                    scan_attr_error(v.name@, v.attrs@.take(j as int)) is None,
                    ignored == attrs_have_ignore(v.attrs@.take(j as int)),
                    opt_text_matches(grp, group_value(v.attrs@.take(j as int))),
                    wgt == weight_value(v.attrs@.take(j as int)),
                decreases v.attrs@.len() - j,
            {
                let a = &v.attrs[j];
                proof {
                    assert(v.attrs@.take(j as int + 1).drop_last() =~= v.attrs@.take(j as int));
                    assert(v.attrs@.take(j as int + 1).last() == v.attrs@[j as int]);
                }
                let bad: ValidationError;
                match &a.value {
                    AttrValue::Unit => {
                        if str_is(a.key.as_str(), "ignore") {
                            ignored = true;
                            j += 1;
                            continue ;
                        }
                        bad = ValidationError::UnrecognizedAttribute(a.key.clone());
                    },
                    AttrValue::Text(s) => {
                        if str_is(a.key.as_str(), "group") {
                            grp = Some(s.clone());
                            j += 1;
                            continue ;
                        }
                        if str_is(a.key.as_str(), "weight") {
                            bad = ValidationError::InvalidWeightType(v.name.clone());
                        } else {
                            bad = ValidationError::UnrecognizedAttribute(a.key.clone());
                        }
                    },
                    AttrValue::Number(n) => {
                        if str_is(a.key.as_str(), "weight") {
                            wgt = Some(*n);
                            j += 1;
                            continue ;
                        }
                        if str_is(a.key.as_str(), "group") {
                            bad = ValidationError::InvalidGroupType(v.name.clone());
                        } else {
                            bad = ValidationError::UnrecognizedAttribute(a.key.clone());
                        }
                    },
                }
                proof {
                    assert(scan_attr_error(v.name@, v.attrs@.take(j as int + 1)) == Some(
                        bad.deep_view(),
                    ));
                    lemma_scan_attr_monotone(v.name@, v.attrs@, j as int + 1);
                    assert(variants@.take(p as int + 1).drop_last() =~= variants@.take(p as int));
                    assert(variants@.take(p as int + 1).last() == variants@[p as int]);
                    assert(scan_error(variants@.take(p as int + 1)) == Some(bad.deep_view()));
                    lemma_scan_error_monotone(variants@, p as int + 1);
                }
                return Err(bad);
            }
            proof {
                assert(v.attrs@.take(j as int) =~= v.attrs@);
                assert(variants@.take(p as int + 1).drop_last() =~= variants@.take(p as int));
                assert(variants@.take(p as int + 1).last() == variants@[p as int]);
            }
            if ignored {
                ignores.push(v.name.clone());
                if conflict.is_none() && (grp.is_some() || wgt.is_some()) {
                    conflict = Some(v.name.clone());
                }
                proof {
                    assert(ignores.deep_view() =~= ignored_model(
                        variants@.take(p as int + 1),
                    ));
                }
            } else {
                let gname: String = match grp {
                    Some(g) => g,
                    None => v.name.clone(),
                };
                insert_group(&mut groups, gname, v.name.clone());
                if let Some(w) = wgt {
                    weights.push(WeightDef { name: v.name.clone(), weight: w });
                    proof {
                        assert(weights.deep_view() =~= weights_model(
                            variants@.take(p as int + 1),
                        ));
                    }
                }
            }
            p += 1;
        }
        proof {
            assert(variants@.take(p as int) =~= variants@);
            lemma_ignored_len(variants@);
        }
        if ignores.len() == variants.len() {
            return Err(ValidationError::AllVariantsIgnored);
        }
        match conflict {
            Some(n) => Err(ValidationError::ConflictingIgnoreAndGroup(n)),
            None => Ok(ParsedAttr { ignores, groups, weights }),
        }
    }
}

/// Whether a group's member list holds the given variant name.
pub open spec fn group_has_member(g: GroupModel, name: Seq<char>) -> bool {
    exists|j: int| 0 <= j < g.members.len() && g.members[j] == name
}

impl GroupDef {
    /// Whether this group's member list holds the given variant name.
    fn has_member(&self, name: &str) -> (r: bool)
        ensures
            r == group_has_member(self.deep_view(), name@),
    {
        let mut j: usize = 0;
        while j < self.members.len()
            invariant
                j <= self.members@.len(),
                forall|q: int| 0 <= q < j ==> self.deep_view().members[q] != name@,
            decreases self.members@.len() - j,
        {
            if str_is(self.members[j].as_str(), name) {
                assert(self.deep_view().members[j as int] == name@);
                return true;
            }
            j += 1;
        }
        false
    }
}

impl ParsedAttr {
    /// Whether the named variant is ignored.
    pub fn is_ignored(&self, name: &str) -> (r: bool)
        ensures
            r == exists|q: int|
                0 <= q < self.ignores.deep_view().len() && self.ignores.deep_view()[q] == name@,
    {
        let mut q: usize = 0;
        while q < self.ignores.len()
            invariant
                q <= self.ignores@.len(),
                forall|j: int| 0 <= j < q ==> self.ignores.deep_view()[j] != name@,
            decreases self.ignores@.len() - q,
        {
            if str_is(self.ignores[q].as_str(), name) {
                assert(self.ignores.deep_view()[q as int] == name@);
                return true;
            }
            q += 1;
        }
        false
    }

    /// Whether any variant carries an explicit weight.
    pub fn has_weight(&self) -> (r: bool)
        ensures
            r == (self.weights@.len() > 0),
    {
        self.weights.len() > 0
    }

    /// The first group, in table order, that holds the named variant as a
    /// member, together with its position.
    pub fn index_group(&self, name: &str) -> (r: Option<(usize, String)>)
        ensures
            match r {
                Some(found) => {
                    &&& 0 <= found.0 < self.groups.deep_view().len()
                    &&& group_has_member(self.groups.deep_view()[found.0 as int], name@)
                    &&& found.1@ == self.groups.deep_view()[found.0 as int].name
                    &&& forall|g: int|
                        0 <= g < found.0 ==> !group_has_member(
                            #[trigger] self.groups.deep_view()[g],
                            name@,
                        )
                },
                None => forall|g: int|
                    0 <= g < self.groups.deep_view().len() ==> !group_has_member(
                        #[trigger] self.groups.deep_view()[g],
                        name@,
                    ),
            },
    {
        let mut g: usize = 0;
        while g < self.groups.len()
            invariant
                g <= self.groups@.len(),
                forall|q: int|
                    0 <= q < g ==> !group_has_member(#[trigger] self.groups.deep_view()[q], name@),
            decreases self.groups@.len() - g,
        {
            if self.groups[g].has_member(name) {
                let gname = self.groups[g].name.clone();
                return Some((g, gname));
            }
            g += 1;
        }
        None
    }
}

} // verus!
