use variant_counter::attrs::VariantDef;
use variant_counter::derive_variant_count;
use variant_counter::schema::Schema;

fn plain(name: &str) -> VariantDef {
    VariantDef { name: name.to_string(), attrs: vec![] }
}

fn schema_of(names: &[&str]) -> Schema {
    let variants: Vec<VariantDef> = names.iter().map(|n| plain(n)).collect();
    derive_variant_count(&variants).ok().unwrap()
}

#[allow(unused)]
enum Opt<T> {
    Filled(T),
    Vacant,
}

fn opt_tag<T>(value: &Opt<T>) -> usize {
    match value {
        Opt::Filled(_) => 0,
        Opt::Vacant => 1,
    }
}

#[allow(unused)]
enum Either<A, B> {
    A(A),
    B(B),
}

fn either_tag<A, B>(value: &Either<A, B>) -> usize {
    match value {
        Either::A(_) => 0,
        Either::B(_) => 1,
    }
}

#[allow(unused)]
enum Text<'a, T: Sized> {
    Str(&'a str),
    Owned(String),
    RichText(T),
}

fn text_tag<T>(value: &Text<'_, T>) -> usize {
    match value {
        Text::Str(_) => 0,
        Text::Owned(_) => 1,
        Text::RichText(_) => 2,
    }
}

#[test]
fn test_opt() {
    let schema = schema_of(&["Some", "None"]);
    assert_eq!(schema.variant_count(), 2);

    let mut counter = schema.counter();
    let opt_some = Opt::<usize>::Filled(1);
    let opt_none = Opt::<usize>::Vacant;

    assert_eq!(counter.check(opt_tag(&opt_some)), Some(0));
    assert_eq!(counter.check(opt_tag(&opt_none)), Some(0));

    counter.record(opt_tag(&opt_some));
    counter.record(opt_tag(&opt_none));

    assert_eq!(counter.check(opt_tag(&opt_some)), Some(1));
    assert_eq!(counter.check(opt_tag(&opt_none)), Some(1));
}

#[test]
fn test_either() {
    type E = Either<bool, usize>;
    let schema = schema_of(&["A", "B"]);
    assert_eq!(schema.variant_count(), 2);

    let mut counter = schema.counter();
    assert_eq!(counter.check(0), Some(0));
    assert_eq!(counter.check(1), Some(0));

    counter.record(either_tag(&E::A(true)));
    counter.record(either_tag(&E::B(1)));

    assert_eq!(counter.check(0), Some(1));
    assert_eq!(counter.check(1), Some(1));
}

#[test]
fn test_text() {
    type T = Text<'static, Vec<u8>>;
    let schema = schema_of(&["Str", "String", "RichText"]);
    assert_eq!(schema.variant_count(), 3);

    let mut counter = schema.counter();
    counter.record(text_tag(&T::Str("rust")));
    counter.record(text_tag(&T::Owned(String::from("hello world"))));
    counter.record(text_tag(&T::RichText(Vec::from("<p>Rust</p>"))));

    assert_eq!(counter.check(0), Some(1));
}
