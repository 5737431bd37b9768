// Recording adds the variant's weight to its frequency, so a plain check of
// a weighted variant reads multiples of its weight.
use variant_counter::attrs::{AttrValue, RawAttr, VariantDef};
use variant_counter::derive_variant_count;

fn plain(name: &str) -> VariantDef {
    VariantDef { name: name.to_string(), attrs: vec![] }
}

fn weighted_variant(name: &str, weight: usize) -> VariantDef {
    VariantDef {
        name: name.to_string(),
        attrs: vec![RawAttr { key: "weight".to_string(), value: AttrValue::Number(weight) }],
    }
}

#[allow(unused)]
enum Level {
    Trace,
    Debug,
    Info,
    Warn,
    Error,
}

fn tag(level: &Level) -> usize {
    match level {
        Level::Trace => 0,
        Level::Debug => 1,
        Level::Info => 2,
        Level::Warn => 3,
        Level::Error => 4,
    }
}

#[test]
fn test_weight() {
    let variants = vec![
        plain("Trace"),
        plain("Debug"),
        weighted_variant("Info", 2),
        weighted_variant("Warn", 5),
        weighted_variant("Error", 10),
    ];
    let schema = derive_variant_count(&variants).ok().unwrap();
    assert_eq!(schema.variant_count(), 5);

    let mut counter = schema.counter();

    let debug = Level::Debug;
    assert_eq!(counter.check(tag(&debug)), Some(0));

    counter.record(tag(&debug));
    counter.record(tag(&debug));
    counter.erase(tag(&debug));
    assert_eq!(counter.check(tag(&debug)), Some(1));

    counter.record(tag(&Level::Info));
    assert_eq!(counter.check(tag(&Level::Info)), Some(2));
    counter.erase(tag(&Level::Info));
    assert_eq!(counter.check(tag(&Level::Info)), Some(0));

    counter.record(tag(&Level::Warn));
    counter.record(tag(&Level::Error));
    assert_eq!(counter.check(tag(&Level::Warn)), Some(5));
    assert_eq!(counter.check(tag(&Level::Error)), Some(10));

    let weighted = counter.weighted();
    assert_eq!(weighted.check(tag(&Level::Warn)), Some(5));
    assert_eq!(weighted.check(tag(&Level::Error)), Some(10));
}
