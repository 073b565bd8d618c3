use fertilizer_calc::float_format::FloatFormat;
use fertilizer_calc::simplex::FloatKey;
use fertilizer_calc::nutrients::{
    nutrient_css_class, nutrient_input_css_class, Deficites, ElemName, IdGenerator,
};

#[test]
fn deficites_any() {
    let none = Deficites { N: false, P: false, K: false, Mg: false };
    assert!(!none.any());
    let mg = Deficites { N: false, P: false, K: false, Mg: true };
    assert!(mg.any());
    assert!(mg.get(ElemName::Magnesium));
    assert!(!mg.get(ElemName::Nitrogen));
}

#[test]
fn css_classes() {
    assert_eq!(nutrient_css_class(ElemName::Nitrogen), "nutrient-N");
    assert_eq!(nutrient_css_class(ElemName::Magnesium), "nutrient-Mg");
    assert_eq!(nutrient_input_css_class(ElemName::Phosphorus), "nutrient-P-input");
    assert_eq!(nutrient_input_css_class(ElemName::Potassium), "nutrient-K-input");
}

#[test]
fn ids_count_up() {
    let mut ids = IdGenerator::new(7);
    assert_eq!(ids.peek(), 7);
    assert_eq!(ids.new_id(), 7);
    assert_eq!(ids.new_id(), 8);
}

#[test]
fn float_format_trims() {
    let cases = [
        ("12.500", "12.5"),
        ("12.000", "12"),
        ("100", "100"),
        ("0.0", "0"),
        ("7.", "7"),
        ("100.010", "100.01"),
    ];
    for (input, expected) in cases {
        assert_eq!(FloatFormat::from_text(input.to_string()).trim(), expected);
    }
    assert_eq!(FloatFormat::from_text(format!("{:.*}", 3, 2.5f64)).trim(), "2.5");
}

#[test]
fn deficites_from_probe() {
    let none = Deficites::from_phantom_contributions(None);
    assert_eq!(none, Deficites { N: false, P: false, K: false, Mg: false });
    let d = Deficites::from_phantom_contributions(Some((
        FloatKey::Ordered(5),
        FloatKey::Ordered(0),
        FloatKey::Ordered(-1),
        FloatKey::NaN,
    )));
    assert_eq!(d, Deficites { N: true, P: false, K: false, Mg: false });
}
