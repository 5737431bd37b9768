use variant_counter::attrs::{AttrValue, RawAttr, VariantDef};
use variant_counter::derive_variant_count;

fn plain(name: &str) -> VariantDef {
    VariantDef { name: name.to_string(), attrs: vec![] }
}

fn ignored(name: &str) -> VariantDef {
    VariantDef {
        name: name.to_string(),
        attrs: vec![RawAttr { key: "ignore".to_string(), value: AttrValue::Unit }],
    }
}

#[test]
fn test_ignore() {
    let variants = vec![ignored("Trace"), plain("Debug"), plain("Info"), plain("Warn"), plain("Error")];
    let schema = derive_variant_count(&variants).ok().unwrap();
    assert_eq!(schema.variant_count(), 5);

    let mut counter = schema.counter();

    let trace = 0usize;
    counter.record(trace);
}
