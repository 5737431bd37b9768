use variant_counter::attrs::{AttrValue, RawAttr, VariantDef};
use variant_counter::derive_variant_count;

fn plain(name: &str) -> VariantDef {
    VariantDef { name: name.to_string(), attrs: vec![] }
}

fn grouped(name: &str, group: &str) -> VariantDef {
    VariantDef {
        name: name.to_string(),
        attrs: vec![RawAttr { key: "group".to_string(), value: AttrValue::Text(group.to_string()) }],
    }
}

fn value_of(pairs: &[(String, usize)], key: &str) -> Option<usize> {
    pairs.iter().find(|p| p.0 == key).map(|p| p.1)
}

#[test]
fn test_group() {
    let variants = vec![
        grouped("Android", "mobile"),
        grouped("IOS", "mobile"),
        grouped("Windows", "desktop"),
        grouped("Linux", "desktop"),
        grouped("MacOS", "desktop"),
        grouped("ChromeOS", "desktop"),
        plain("Others"),
    ];
    let schema = derive_variant_count(&variants).ok().unwrap();
    assert_eq!(schema.variant_count(), 7);

    let mut counter = schema.counter();
    let android = 0usize;
    let ios = 1usize;
    let windows = 2usize;
    let others = 6usize;
    counter.record(android);
    counter.record(android);
    counter.record(windows);
    counter.record(ios);
    counter.record(others);
    assert_eq!(counter.check(android), Some(2));

    let map = counter.aggregate();
    assert_eq!(map.len(), 7);
    assert_eq!(
        (
            value_of(&map, "Android"),
            value_of(&map, "IOS"),
            value_of(&map, "Windows"),
            value_of(&map, "Linux"),
            value_of(&map, "MacOS"),
            value_of(&map, "ChromeOS"),
            value_of(&map, "Others"),
        ),
        (
            Some(2),
            Some(1),
            Some(1),
            Some(0),
            Some(0),
            Some(0),
            Some(1),
        )
    );

    let group_map = counter.group_aggregate();
    assert_eq!(group_map.len(), 3);
    assert_eq!(
        (
            value_of(&group_map, "mobile"),
            value_of(&group_map, "desktop"),
            value_of(&group_map, "Others"),
        ),
        (Some(3), Some(1), Some(1),)
    );
}

#[test]
fn test_group_alias() {
    let variants = vec![
        plain("Basketball"),
        plain("Volleyball"),
        plain("Football"),
        grouped("Soccer", "Football"),
    ];
    let schema = derive_variant_count(&variants).ok().unwrap();
    assert_eq!(schema.variant_count(), 4);

    let mut counter = schema.counter();
    counter.record(0);
    counter.record(1);
    counter.record(2);
    counter.record(3);

    let football = 2usize;
    let soccer = 3usize;
    assert_eq!(counter.check(football), Some(1));
    assert_eq!(counter.check(soccer), Some(1));

    let group_map = counter.group_aggregate();
    assert_eq!(group_map.len(), 3);
    assert_eq!(
        (
            value_of(&group_map, "Basketball"),
            value_of(&group_map, "Volleyball"),
            value_of(&group_map, "Football"),
        ),
        (Some(1), Some(1), Some(2),)
    );
}
