use variant_counter::attrs::VariantDef;
use variant_counter::derive_variant_count;

fn plain(name: &str) -> VariantDef {
    VariantDef { name: name.to_string(), attrs: vec![] }
}

#[allow(unused)]
struct Info {
    message: String,
    file: String,
    line: u64,
}

#[allow(unused)]
enum ComplexLevel<'a> {
    Trace,
    Debug { line: usize },
    Info(Info),
    Warn(),
    Error(usize),
    Fatal(&'a str),
}

fn tag(level: &ComplexLevel<'_>) -> usize {
    match level {
        ComplexLevel::Trace => 0,
        ComplexLevel::Debug { .. } => 1,
        ComplexLevel::Info(_) => 2,
        ComplexLevel::Warn() => 3,
        ComplexLevel::Error(_) => 4,
        ComplexLevel::Fatal(_) => 5,
    }
}

#[test]
fn test_complex() {
    type C = ComplexLevel<'static>;

    let variants = vec![
        plain("Trace"),
        plain("Debug"),
        plain("Info"),
        plain("Warn"),
        plain("Error"),
        plain("Fatal"),
    ];
    let schema = derive_variant_count(&variants).ok().unwrap();
    assert_eq!(schema.variant_count(), 6);

    let mut counter = schema.counter();
    counter.record(tag(&C::Trace));
    counter.record(tag(&C::Debug { line: 10 }));
    counter.record(tag(&C::Info(Info {
        message: "info".into(),
        file: "test.rs".into(),
        line: 1,
    })));
    counter.record(tag(&C::Warn()));
    counter.record(tag(&C::Error(1)));
    counter.record(tag(&C::Fatal("fatal error")));
}
