use variant_counter::attrs::{AttrValue, RawAttr, VariantDef};
use variant_counter::derive_variant_count;

fn grouped(name: &str, group: &str) -> VariantDef {
    VariantDef {
        name: name.to_string(),
        attrs: vec![RawAttr { key: "group".to_string(), value: AttrValue::Text(group.to_string()) }],
    }
}

#[test]
fn test_no_std() {
    let variants = vec![
        grouped("Rust", "Non-GC"),
        grouped("Cpp", "Non-GC"),
        grouped("Golang", "GC"),
        grouped("Swift", "GC"),
    ];
    let schema = derive_variant_count(&variants).ok().unwrap();
    let mut counter = schema.counter();
    counter.record(0);
    counter.record(1);
    counter.record(2);
    counter.record(3);

    let data = counter.group_aggregate();
    assert_eq!(data[0], ("GC".to_string(), 2));
    assert_eq!(data[1], ("Non-GC".to_string(), 2));
}
