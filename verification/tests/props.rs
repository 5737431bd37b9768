use variant_counter::attrs::{AttrValue, ParsedAttr, RawAttr, ValidationError, VariantDef};
use variant_counter::derive_variant_count;

fn plain(name: &str) -> VariantDef {
    VariantDef { name: name.to_string(), attrs: vec![] }
}

fn ignored(name: &str) -> VariantDef {
    VariantDef {
        name: name.to_string(),
        attrs: vec![RawAttr { key: "ignore".to_string(), value: AttrValue::Unit }],
    }
}

fn grouped(name: &str, group: &str) -> VariantDef {
    VariantDef {
        name: name.to_string(),
        attrs: vec![RawAttr { key: "group".to_string(), value: AttrValue::Text(group.to_string()) }],
    }
}

fn weighted_variant(name: &str, weight: usize) -> VariantDef {
    VariantDef {
        name: name.to_string(),
        attrs: vec![RawAttr { key: "weight".to_string(), value: AttrValue::Number(weight) }],
    }
}

fn with_attr(name: &str, key: &str, value: AttrValue) -> VariantDef {
    VariantDef { name: name.to_string(), attrs: vec![RawAttr { key: key.to_string(), value }] }
}

#[test]
fn empty_variant_set_rejected() {
    let variants: Vec<VariantDef> = vec![];
    match derive_variant_count(&variants) {
        Err(ValidationError::EmptyVariantSet) => {}
        _ => panic!("an empty variant list must be rejected"),
    }
}

#[test]
fn unrecognized_attribute_rejected() {
    let variants = vec![plain("A"), with_attr("B", "flag", AttrValue::Unit)];
    match derive_variant_count(&variants) {
        Err(ValidationError::UnrecognizedAttribute(key)) => assert_eq!(key, "flag"),
        _ => panic!("an unknown annotation key must be rejected"),
    }
}

#[test]
fn invalid_group_type_rejected() {
    let variants = vec![with_attr("A", "group", AttrValue::Number(3)), plain("B")];
    match derive_variant_count(&variants) {
        Err(ValidationError::InvalidGroupType(name)) => assert_eq!(name, "A"),
        _ => panic!("a non-text group value must be rejected"),
    }
}

#[test]
fn invalid_weight_type_rejected() {
    let variants = vec![plain("A"), with_attr("B", "weight", AttrValue::Text("heavy".to_string()))];
    match derive_variant_count(&variants) {
        Err(ValidationError::InvalidWeightType(name)) => assert_eq!(name, "B"),
        _ => panic!("a non-numeric weight value must be rejected"),
    }
}

#[test]
fn conflicting_ignore_and_group_rejected() {
    let mut conflicted = ignored("A");
    conflicted.attrs.push(RawAttr { key: "group".to_string(), value: AttrValue::Text("X".to_string()) });
    let variants = vec![conflicted, plain("B")];
    match derive_variant_count(&variants) {
        Err(ValidationError::ConflictingIgnoreAndGroup(name)) => assert_eq!(name, "A"),
        _ => panic!("ignore together with group must be rejected"),
    }
}

#[test]
fn conflicting_ignore_and_weight_rejected() {
    let mut conflicted = ignored("A");
    conflicted.attrs.push(RawAttr { key: "weight".to_string(), value: AttrValue::Number(2) });
    let variants = vec![conflicted, plain("B")];
    match derive_variant_count(&variants) {
        Err(ValidationError::ConflictingIgnoreAndGroup(name)) => assert_eq!(name, "A"),
        _ => panic!("ignore together with weight must be rejected"),
    }
}

#[test]
fn all_variants_ignored_rejected() {
    let variants = vec![ignored("A"), ignored("B")];
    match derive_variant_count(&variants) {
        Err(ValidationError::AllVariantsIgnored) => {}
        _ => panic!("a list of only ignored variants must be rejected"),
    }
}

#[test]
fn record_once_reads_weight() {
    let variants = vec![plain("A"), weighted_variant("B", 7)];
    let mut counter = derive_variant_count(&variants).ok().unwrap().counter();
    counter.record(1);
    assert_eq!(counter.check(1), Some(7));
    assert_eq!(counter.check(0), Some(0));
}

#[test]
fn records_and_erases_balance() {
    let variants = vec![weighted_variant("A", 3)];
    let mut counter = derive_variant_count(&variants).ok().unwrap().counter();
    for _ in 0..5 {
        counter.record(0);
    }
    counter.erase(0);
    counter.erase(0);
    assert_eq!(counter.check(0), Some(9));
    for _ in 0..10 {
        counter.erase(0);
    }
    assert_eq!(counter.check(0), Some(0));
}

#[test]
fn discard_and_reset_clear() {
    let variants = vec![plain("A"), plain("B"), ignored("C")];
    let mut counter = derive_variant_count(&variants).ok().unwrap().counter();
    counter.record(0);
    counter.record(0);
    counter.record(1);
    counter.discard(0);
    assert_eq!(counter.check(0), Some(0));
    assert_eq!(counter.check(1), Some(1));
    counter.record(0);
    counter.reset();
    assert_eq!(counter.check(0), Some(0));
    assert_eq!(counter.check(1), Some(0));
    assert_eq!(counter.check(2), None);
}

#[test]
fn aggregate_lengths() {
    let variants = vec![
        grouped("A", "left"),
        grouped("B", "left"),
        plain("C"),
        ignored("D"),
    ];
    let counter = derive_variant_count(&variants).ok().unwrap().counter();
    assert_eq!(counter.tracked_count(), 3);
    assert_eq!(counter.aggregate().len(), 3);
    let groups = counter.group_aggregate();
    assert_eq!(groups.len(), 2);
    assert!(groups.len() <= counter.tracked_count());
}

#[test]
fn sums_agree_across_views() {
    let variants = vec![
        grouped("A", "left"),
        grouped("B", "left"),
        weighted_variant("C", 4),
        plain("D"),
        ignored("E"),
    ];
    let mut counter = derive_variant_count(&variants).ok().unwrap().counter();
    counter.record(0);
    counter.record(1);
    counter.record(1);
    counter.record(2);
    counter.record(3);

    let aggregate_total: usize = counter.aggregate().iter().map(|p| p.1).sum();
    let group_total: usize = counter.group_aggregate().iter().map(|p| p.1).sum();
    assert_eq!(aggregate_total, counter.sum());
    assert_eq!(group_total, counter.sum());
    assert_eq!(counter.sum(), 8);
}

#[test]
fn rederiving_is_deterministic() {
    let variants = vec![
        grouped("A", "right"),
        ignored("B"),
        weighted_variant("C", 2),
        plain("D"),
    ];
    let first = derive_variant_count(&variants).ok().unwrap();
    let second = derive_variant_count(&variants).ok().unwrap();
    let mut c1 = first.counter();
    let mut c2 = second.counter();
    for t in 0..4 {
        c1.record(t);
        c2.record(t);
        assert_eq!(c1.check(t), c2.check(t));
    }
    assert_eq!(c1.aggregate(), c2.aggregate());
    assert_eq!(c1.group_aggregate(), c2.group_aggregate());
}

#[test]
fn self_groups_mirror_aggregate() {
    let variants = vec![
        ignored("Trace"),
        plain("Debug"),
        plain("Info"),
        plain("Warn"),
        plain("Error"),
    ];
    let mut counter = derive_variant_count(&variants).ok().unwrap().counter();
    assert_eq!(counter.tracked_count(), 4);
    counter.record(1);
    counter.record(1);
    counter.record(2);

    let aggregate = counter.aggregate();
    assert_eq!(
        aggregate,
        vec![
            ("Debug".to_string(), 2),
            ("Info".to_string(), 1),
            ("Warn".to_string(), 0),
            ("Error".to_string(), 0),
        ]
    );
    let groups = counter.group_aggregate();
    assert_eq!(groups.len(), aggregate.len());
    for (name, total) in aggregate.iter() {
        let found = groups.iter().find(|p| p.0 == *name).map(|p| p.1);
        assert_eq!(found, Some(*total));
    }
}

#[test]
fn platform_groups_sorted() {
    let variants = vec![
        grouped("Android", "Mobile"),
        grouped("IOS", "Mobile"),
        grouped("Windows", "Desktop"),
        grouped("Linux", "Desktop"),
    ];
    let mut counter = derive_variant_count(&variants).ok().unwrap().counter();
    counter.record(0);
    counter.record(2);
    let groups = counter.group_aggregate();
    assert_eq!(groups, vec![("Desktop".to_string(), 1), ("Mobile".to_string(), 1)]);
}

#[test]
fn weighted_one_of_each() {
    let variants = vec![
        weighted_variant("Hated", 1),
        weighted_variant("Disliked", 2),
        weighted_variant("Ok", 3),
        weighted_variant("Liked", 4),
        weighted_variant("Loved", 5),
    ];
    let mut counter = derive_variant_count(&variants).ok().unwrap().counter();
    counter.record(1);
    counter.record(2);
    counter.record(3);
    counter.record(4);
    let weighted = counter.weighted();
    assert_eq!(weighted.sum(), 14);
    assert_eq!(weighted.total_weight(), 15);
}

#[test]
fn record_saturates_at_the_top() {
    let variants = vec![weighted_variant("A", usize::MAX)];
    let mut counter = derive_variant_count(&variants).ok().unwrap().counter();
    counter.record(0);
    counter.record(0);
    assert_eq!(counter.check(0), Some(usize::MAX));
    counter.erase(0);
    assert_eq!(counter.check(0), Some(0));
}

#[test]
fn unknown_and_ignored_tags_are_no_ops() {
    let variants = vec![ignored("A"), plain("B")];
    let mut counter = derive_variant_count(&variants).ok().unwrap().counter();
    counter.record(0);
    counter.record(9);
    counter.erase(0);
    counter.discard(9);
    assert_eq!(counter.check(0), None);
    assert_eq!(counter.check(9), None);
    assert_eq!(counter.sum(), 0);
}

#[test]
fn parse_output_shape() {
    let variants = vec![
        grouped("B", "zulu"),
        plain("A"),
        ignored("C"),
        weighted_variant("D", 6),
    ];
    let parsed = ParsedAttr::parse(&variants).ok().unwrap();
    assert_eq!(parsed.ignores.len(), 1);
    assert_eq!(parsed.ignores[0], "C");
    assert_eq!(parsed.weights.len(), 1);
    assert_eq!(parsed.weights[0].name, "D");
    assert_eq!(parsed.weights[0].weight, 6);
    let names: Vec<String> = parsed.groups.iter().map(|g| g.name.clone()).collect();
    assert_eq!(names, vec!["A".to_string(), "D".to_string(), "zulu".to_string()]);
    assert_eq!(parsed.groups[2].members, vec!["B".to_string()]);
}

#[test]
fn last_group_annotation_wins() {
    let mut variant = grouped("A", "first");
    variant.attrs.push(RawAttr { key: "group".to_string(), value: AttrValue::Text("second".to_string()) });
    let variants = vec![variant, plain("B")];
    let counter = derive_variant_count(&variants).ok().unwrap().counter();
    let groups = counter.group_aggregate();
    assert_eq!(groups.len(), 2);
    assert_eq!(groups[0].0, "B");
    assert_eq!(groups[1].0, "second");
}

#[test]
fn group_table_resolves_names() {
    let variants = vec![
        grouped("Android", "Mobile"),
        grouped("IOS", "Mobile"),
        plain("Others"),
        ignored("Hidden"),
    ];
    let schema = derive_variant_count(&variants).ok().unwrap();
    let table = schema.group_table();
    assert_eq!(table.len(), 2);
    assert_eq!(table[0].name, "Mobile");
    assert_eq!(table[0].members, vec!["Android".to_string(), "IOS".to_string()]);
    assert_eq!(table[1].name, "Others");
    assert_eq!(table[1].members, vec!["Others".to_string()]);
}

#[test]
fn parsed_attr_lookups() {
    let variants = vec![
        ignored("A"),
        grouped("B", "bucket"),
        weighted_variant("C", 2),
        plain("D"),
    ];
    let parsed = ParsedAttr::parse(&variants).ok().unwrap();
    assert!(parsed.is_ignored("A"));
    assert!(!parsed.is_ignored("B"));
    assert!(parsed.has_weight());
    let found = parsed.index_group("B").unwrap();
    assert_eq!(found.1, "bucket");
    assert_eq!(parsed.index_group("B").unwrap().0, 2);
    assert!(parsed.index_group("A").is_none());

    let unweighted = ParsedAttr::parse(&vec![plain("X")]).ok().unwrap();
    assert!(!unweighted.has_weight());
}

#[test]
fn last_weight_annotation_wins() {
    let mut variant = weighted_variant("A", 2);
    variant.attrs.push(RawAttr { key: "weight".to_string(), value: AttrValue::Number(9) });
    let variants = vec![variant];
    let mut counter = derive_variant_count(&variants).ok().unwrap().counter();
    counter.record(0);
    assert_eq!(counter.check(0), Some(9));
}

#[test]
fn indices_skip_ignored_variants() {
    let variants = vec![plain("A"), ignored("B"), plain("C")];
    let mut counter = derive_variant_count(&variants).ok().unwrap().counter();
    counter.record(2);
    assert_eq!(counter.check(1), None);
    assert_eq!(counter.check(2), Some(1));
    let aggregate = counter.aggregate();
    assert_eq!(aggregate, vec![("A".to_string(), 0), ("C".to_string(), 1)]);
}
