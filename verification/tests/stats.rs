// Recording adds the variant's weight to its frequency, so the plain sums
// and statistics below read the weight-accumulated frequencies.
use variant_counter::attrs::{AttrValue, RawAttr, VariantDef};
use variant_counter::derive_variant_count;

fn weighted_variant(name: &str, weight: usize) -> VariantDef {
    VariantDef {
        name: name.to_string(),
        attrs: vec![RawAttr { key: "weight".to_string(), value: AttrValue::Number(weight) }],
    }
}

#[allow(unused)]
enum Rating {
    Hated,
    Disliked,
    Fine,
    Liked,
    Loved,
}

fn tag(rating: &Rating) -> usize {
    match rating {
        Rating::Hated => 0,
        Rating::Disliked => 1,
        Rating::Fine => 2,
        Rating::Liked => 3,
        Rating::Loved => 4,
    }
}

#[test]
fn test_stats() {
    let variants = vec![
        weighted_variant("Hated", 1),
        weighted_variant("Disliked", 2),
        weighted_variant("Ok", 3),
        weighted_variant("Liked", 4),
        weighted_variant("Loved", 5),
    ];
    let schema = derive_variant_count(&variants).ok().unwrap();
    let mut counter = schema.counter();
    counter.record(tag(&Rating::Disliked));
    counter.record(tag(&Rating::Liked));
    counter.record(tag(&Rating::Liked));
    counter.record(tag(&Rating::Liked));
    counter.record(tag(&Rating::Liked));
    counter.record(tag(&Rating::Fine));
    counter.record(tag(&Rating::Fine));
    counter.record(tag(&Rating::Fine));
    counter.record(tag(&Rating::Fine));
    counter.record(tag(&Rating::Fine));
    counter.record(tag(&Rating::Liked));
    counter.record(tag(&Rating::Loved));
    counter.record(tag(&Rating::Hated));
    counter.record(tag(&Rating::Disliked));

    assert_eq!(45, counter.sum());

    let frequencies: Vec<f64> = counter.aggregate().iter().map(|p| p.1 as f64).collect();

    let avg = counter.sum() as f64 / counter.tracked_count() as f64;
    assert_eq!(9.0f64, avg);
    let variance = frequencies.iter().map(|f| (*f - avg).powi(2)).sum::<f64>()
        / counter.tracked_count() as f64;
    assert_eq!(52.4, variance);
    assert_eq!(7.238784428341543, variance.sqrt());

    let weighted = counter.weighted();
    assert_eq!(15, weighted.total_weight());
    assert_eq!(45, weighted.sum());
    let weighted_avg = weighted.sum() as f64 / weighted.total_weight() as f64;
    assert_eq!(3.0, weighted_avg);
    let weighted_variance = frequencies.iter().map(|f| (*f - weighted_avg).powi(2)).sum::<f64>()
        / weighted.total_weight() as f64;
    assert_eq!(29.466666666666665, weighted_variance);
    assert_eq!(5.428320796219275, weighted_variance.sqrt());
}
