use variant_counter::VariantCount;
use variant_counter::attrs::VariantDef;
use variant_counter::counter::Counter;
use variant_counter::derive_variant_count;

fn plain(name: &str) -> VariantDef {
    VariantDef { name: name.to_string(), attrs: vec![] }
}

fn level_variants() -> Vec<VariantDef> {
    vec![plain("Trace"), plain("Debug"), plain("Info"), plain("Warn"), plain("Error")]
}

#[allow(unused)]
enum Level {
    Trace,
    Debug,
    Info,
    Warn,
    Error,
}

impl VariantCount for Level {
    type Counter = Counter;

    fn counter() -> Counter {
        derive_variant_count(&level_variants()).ok().unwrap().counter()
    }
}

fn tag(level: &Level) -> usize {
    match level {
        Level::Trace => 0,
        Level::Debug => 1,
        Level::Info => 2,
        Level::Warn => 3,
        Level::Error => 4,
    }
}

#[test]
fn test_basic() {
    let schema = derive_variant_count(&level_variants()).ok().unwrap();
    assert_eq!(schema.variant_count(), 5);

    let mut counter = Level::counter();

    let debug = Level::Debug;
    assert_eq!(counter.check(tag(&debug)), Some(0));

    counter.record(tag(&debug));
    counter.record(tag(&debug));
    assert_eq!(counter.check(tag(&debug)), Some(2));

    counter.erase(tag(&debug));
    assert_eq!(counter.check(tag(&debug)), Some(1));

    counter.discard(tag(&debug));
    assert_eq!(counter.check(tag(&debug)), Some(0));

    counter.record(tag(&Level::Info));
    counter.record(tag(&Level::Warn));
    counter.record(tag(&Level::Error));
    counter.reset();
    assert_eq!(counter.check(tag(&Level::Info)), Some(0));
    assert_eq!(counter.check(tag(&Level::Warn)), Some(0));
    assert_eq!(counter.check(tag(&Level::Error)), Some(0));
}
