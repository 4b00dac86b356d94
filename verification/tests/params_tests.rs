//! The schema resolver: typed coercion, defaults, indirection, and the
//! bookkeeping of undeclared keys.

use geodesy::{OpParameter, ParsedParameters, RawParameters};

fn gamut() -> Vec<OpParameter> {
    vec![
        OpParameter::Flag { key: String::from("flag") },
        OpParameter::Natural { key: String::from("natural"), default: Some(0) },
        OpParameter::Integer { key: String::from("integer"), default: Some(-1) },
        OpParameter::Real { key: String::from("real"), default: Some(String::from("1.25")) },
        OpParameter::Series { key: String::from("series"), default: Some(String::from("1,2,3,4")) },
        OpParameter::Text { key: String::from("text"), default: Some(String::from("text")) },
    ]
}

#[test]
fn basic() -> Result<(), geodesy::Error> {
    let invocation = String::from("cucumber flag");
    let raw = RawParameters::new(&invocation, &[]);
    let p = ParsedParameters::new(&raw, &gamut())?;

    // Booleans correctly parsed?
    assert!(
        p.boolean("flag"),
        "`flag` not in registered booleans: {:#?}",
        p.boolean
    );
    assert!(
        !p.boolean("galf"),
        "`galf` not in registered booleans: {:?}",
        p.boolean
    );

    // Series correctly parsed?
    let series = p.series("series").unwrap();
    assert_eq!(series.len(), 4);
    assert_eq!(series[0].parse::<f64>().unwrap(), 1.);
    assert_eq!(series[3].parse::<f64>().unwrap(), 4.);

    // Etc.
    assert_eq!(p.natural("natural").unwrap(), 0_usize);
    assert_eq!(p.integer("integer").unwrap(), -1);
    assert_eq!(p.text("text").unwrap(), "text");

    Ok(())
}

#[test]
fn missing_required_parameter() {
    let g = vec![OpParameter::Natural { key: String::from("zone"), default: None }];
    let invocation = String::from("utm");
    let raw = RawParameters::new(&invocation, &[]);
    match ParsedParameters::new(&raw, &g) {
        Err(geodesy::Error::MissingParam(k)) => assert_eq!(k, "zone"),
        other => panic!("expected a missing parameter, got {:?}", other),
    }
}

#[test]
fn malformed_values() {
    let g = vec![OpParameter::Natural { key: String::from("zone"), default: None }];
    let invocation = String::from("utm zone:banana");
    let raw = RawParameters::new(&invocation, &[]);
    match ParsedParameters::new(&raw, &g) {
        Err(geodesy::Error::BadParam(k, v)) => {
            assert_eq!(k, "zone");
            assert_eq!(v, "banana");
        },
        other => panic!("expected a malformed value, got {:?}", other),
    }

    let g = vec![OpParameter::Real { key: String::from("lat_0"), default: None }];
    let invocation = String::from("laea lat_0:5x2");
    let raw = RawParameters::new(&invocation, &[]);
    assert!(matches!(
        ParsedParameters::new(&raw, &g),
        Err(geodesy::Error::BadParam(_, _))
    ));

    // All the real-token shapes the coercion accepts.
    for ok in ["52", "-52.5", "+.5", "1.", "1e3", "-1.25E-2", "inf", "-Infinity", "NaN"] {
        let invocation = format!("laea lat_0:{}", ok);
        let raw = RawParameters::new(&invocation, &[]);
        assert!(ParsedParameters::new(&raw, &g).is_ok(), "rejected {}", ok);
    }
    for bad in ["", ".", "1e", "e5", "1.2.3", "one", "0x10"] {
        let invocation = format!("laea lat_0:{}", bad);
        let raw = RawParameters::new(&invocation, &[]);
        assert!(ParsedParameters::new(&raw, &g).is_err(), "accepted {}", bad);
    }
}

#[test]
fn globals_and_indirection() -> Result<(), geodesy::Error> {
    let g = vec![
        OpParameter::Text { key: String::from("ellps"), default: Some(String::from("GRS80")) },
        OpParameter::Real { key: String::from("x"), default: None },
    ];
    let globals = [
        (String::from("ellps"), String::from("intl")),
        (String::from("handle"), String::from("42")),
    ];
    // The local value chases `^handle` into the globals.
    let invocation = String::from("helmert x:^handle");
    let raw = RawParameters::new(&invocation, &globals);
    let p = ParsedParameters::new(&raw, &g)?;
    assert_eq!(p.text("ellps")?, "intl");
    assert_eq!(p.real_text("x")?, "42");
    Ok(())
}

#[test]
fn indirection_depth_is_bounded() {
    let g = vec![OpParameter::Real { key: String::from("x"), default: None }];
    // The chain runs off the scopes: an incomplete definition.
    let invocation = String::from("helmert x:^nowhere");
    let raw = RawParameters::new(&invocation, &[]);
    assert!(matches!(
        ParsedParameters::new(&raw, &g),
        Err(geodesy::Error::Syntax(_))
    ));
}

#[test]
fn ignored_keys_are_collected() -> Result<(), geodesy::Error> {
    let g = vec![OpParameter::Text {
        key: String::from("ellps"),
        default: Some(String::from("GRS80")),
    }];
    let invocation = String::from("cart ellps:intl cucumber:green pickle:sour");
    let raw = RawParameters::new(&invocation, &[]);
    let p = ParsedParameters::new(&raw, &g)?;
    let ignored = p.ignored();
    assert_eq!(ignored.len(), 2);
    assert!(ignored.contains(&String::from("cucumber")));
    assert!(ignored.contains(&String::from("pickle")));
    assert!(!ignored.contains(&String::from("ellps")));
    assert!(!ignored.contains(&String::from("name")));
    assert_eq!(p.name, "cart");
    Ok(())
}

#[test]
fn inline_defaults() -> Result<(), geodesy::Error> {
    let g = vec![OpParameter::Text { key: String::from("pin"), default: None }];
    // `*fallback` stages an inline default that no other source overrides.
    let invocation = String::from("noop pin:*fallback");
    let raw = RawParameters::new(&invocation, &[]);
    let p = ParsedParameters::new(&raw, &g)?;
    assert_eq!(p.text("pin")?, "fallback");
    Ok(())
}

#[test]
fn slots_take_schema_values() -> Result<(), geodesy::Error> {
    // Fixed slots are filled by the operator constructors; the resolver
    // leaves the declared defaults in place.
    let invocation = String::from("tmerc lon_0:9");
    let raw = RawParameters::new(&invocation, &[]);
    let p = ParsedParameters::new(&raw, &geodesy::tmerc::gamut())?;
    assert_eq!(p.real_text("lon_0")?, "9");
    assert_eq!(p.real_text("k_0")?, "1");
    assert_eq!(p.lat(0), "0");
    Ok(())
}

#[test]
fn flags_never_fail() -> Result<(), geodesy::Error> {
    let g = vec![geodesy::OpParameter::Flag { key: String::from("inv") }];
    // Empty and the word true, case ignored, set the flag.
    for yes in ["cart inv", "cart inv:true", "cart inv:TrUe"] {
        let raw = RawParameters::new(yes, &[]);
        assert!(ParsedParameters::new(&raw, &g)?.boolean("inv"), "{}", yes);
    }
    // Anything else, the word false included, reads as unset.
    for no in ["cart", "cart inv:false", "cart inv:banana"] {
        let raw = RawParameters::new(no, &[]);
        assert!(!ParsedParameters::new(&raw, &g)?.boolean("inv"), "{}", no);
    }
    Ok(())
}
