//! Operator construction: the built-in constructors, the UTM validation,
//! the pipeline composer, and the application plan honoring inversion.

use geodesy::{block_steps_to_gys, BlockStep, BlockValue, Context, Direction, RawParameters};
use geodesy::op::flip;

#[test]
fn utm_constructor() {
    let raw = RawParameters::new("utm zone:32", &[]);
    let op = geodesy::tmerc::utm(&raw).unwrap();
    assert_eq!(op.params.name, "utm");
    assert_eq!(op.params.k(0), "0.9996");
    assert_eq!(op.params.x(0), "500000");
    assert_eq!(op.params.lat(0), "0");
    assert_eq!(op.params.lon(0), "9");
    assert!(!op.descriptor.inverted);
    assert!(op.descriptor.invertible);
    assert_eq!(op.params.natural("zone").unwrap(), 32);

    // The central meridian of zone 1 lies west of Greenwich.
    let raw = RawParameters::new("utm zone:1", &[]);
    let op = geodesy::tmerc::utm(&raw).unwrap();
    assert_eq!(op.params.lon(0), "-177");
}

#[test]
fn utm_zone_validation() {
    for bad in ["utm zone:0", "utm zone:61", "utm zone:1000"] {
        let raw = RawParameters::new(bad, &[]);
        match geodesy::tmerc::utm(&raw) {
            Err(geodesy::Error::General(m)) => {
                assert_eq!(m, "UTM: 'zone' must be an integer in the interval 1..60")
            },
            other => panic!("expected a zone error for {}, got {:?}", bad, other),
        }
    }
    // A missing zone is a missing required parameter.
    let raw = RawParameters::new("utm", &[]);
    assert!(matches!(
        geodesy::tmerc::utm(&raw),
        Err(geodesy::Error::MissingParam(_))
    ));
    // And so through the closed-form variant.
    let raw = RawParameters::new("butm zone:32", &[]);
    let op = geodesy::btmerc::utm(&raw).unwrap();
    assert_eq!(op.params.lon(0), "9");
}

#[test]
fn tmerc_constructor() {
    let raw = RawParameters::new("tmerc k_0:0.9996 lon_0:9 x_0:500000", &[]);
    let op = geodesy::tmerc::new(&raw).unwrap();
    assert_eq!(op.params.name, "tmerc");
    assert_eq!(op.params.k(0), "0.9996");
    assert_eq!(op.params.lon(0), "9");
    assert_eq!(op.params.x(0), "500000");
    assert_eq!(op.params.y(0), "0");
    assert_eq!(op.params.ellps(0), "GRS80");
}

#[test]
fn laea_constructor() {
    let globals = [(String::from("ellps"), String::from("GRS80"))];
    let raw = RawParameters::new(
        "laea ellps:GRS80 lat_0:52 lon_0:10 x_0:4321000 y_0:3210000",
        &globals,
    );
    let op = geodesy::laea::new(&raw).unwrap();
    assert_eq!(op.params.lat(0), "52");
    assert_eq!(op.params.lon(0), "10");
    assert_eq!(op.params.x(0), "4321000");
    assert_eq!(op.params.y(0), "3210000");

    // A central latitude that reads as NaN is rejected, and so is one
    // beyond ninety degrees in magnitude, or an infinity.
    for bad in [
        "laea lat_0:nan",
        "laea lat_0:91",
        "laea lat_0:-90.0001",
        "laea lat_0:inf",
        "laea lat_0:-Infinity",
        "laea lat_0:9.1e1",
        "laea lat_0:1e3",
    ] {
        let raw = RawParameters::new(bad, &globals);
        match geodesy::laea::new(&raw) {
            Err(geodesy::Error::BadParam(k, v)) => {
                assert_eq!(k, "lat_0");
                assert_eq!(v, bad);
            },
            other => panic!("expected rejection of {}, got {:?}", bad, other),
        }
    }
    // The poles themselves, and equivalent spellings of ninety, pass.
    for ok in [
        "laea lat_0:90",
        "laea lat_0:-90",
        "laea lat_0:90.000",
        "laea lat_0:9e1",
        "laea lat_0:0.09e3",
        "laea lat_0:89.9999",
        "laea",
    ] {
        let raw = RawParameters::new(ok, &globals);
        assert!(geodesy::laea::new(&raw).is_ok(), "rejected {}", ok);
    }
}

#[test]
fn context_builds_and_interns() {
    let mut ctx = Context::new();

    // The corner case of giving just "inv" as operation name
    let inv = ctx.op("[inv]");
    assert!(inv.is_err());

    // An inv-operator actually instantiates
    let invcart = ctx.op("[cart inv]");
    assert!(invcart.is_ok());
    let h = invcart.unwrap();
    assert!(ctx.get_op(h).descriptor.inverted);

    // The same definition is interned, a fresh one appended.
    let again = ctx.op("[cart inv]").unwrap();
    assert_eq!(h, again);
    let other = ctx.op("cart").unwrap();
    assert_ne!(h, other);

    // Unknown operator names are reported.
    match ctx.op("mercator lat_ts:56") {
        Err(geodesy::Error::NotFound(n, _)) => assert_eq!(n, "mercator"),
        other => panic!("expected not-found, got {:?}", other),
    }
}

#[test]
fn pipeline_composition() {
    let mut ctx = Context::new();
    let h = ctx
        .op("cart ellps:intl | helmert x:-87 y:-96 z:-120 | cart inv ellps:GRS80")
        .unwrap();
    let op = ctx.get_op(h);
    assert_eq!(op.steps.len(), 3);
    assert_eq!(op.params.name, "pipeline");
    assert!(!op.descriptor.inverted);
    assert_eq!(op.steps[0].params.name, "cart");
    assert_eq!(op.steps[0].params.ellps(0), "intl");
    assert_eq!(op.steps[1].params.name, "helmert");
    assert_eq!(op.steps[1].params.real_text("x").unwrap(), "-87");
    assert!(op.steps[2].descriptor.inverted);
    assert_eq!(op.steps[2].params.ellps(0), "GRS80");

    // A failing step fails the whole pipeline.
    assert!(ctx.op("cart | gnomonic | cart inv").is_err());
}

#[test]
fn application_plan_inverts() {
    let mut ctx = Context::new();
    let h = ctx
        .op("cart ellps:intl | helmert x:-87 | cart inv ellps:GRS80")
        .unwrap();
    let op = ctx.get_op(h);

    let fwd = op.application_plan(Direction::Fwd);
    assert_eq!(
        fwd,
        vec![
            (0usize, Direction::Fwd),
            (1usize, Direction::Fwd),
            (2usize, Direction::Inv),
        ]
    );

    // The inverse plan is the forward plan reversed, each step flipped.
    let inv = op.application_plan(Direction::Inv);
    assert_eq!(inv.len(), fwd.len());
    let n = fwd.len();
    for i in 0..n {
        assert_eq!(inv[i].0, fwd[n - 1 - i].0);
        assert_eq!(inv[i].1, flip(fwd[n - 1 - i].1));
    }
}

#[test]
fn helmert_accepts_both_spellings() {
    let raw = RawParameters::new("helmert dx:-87 dy:-96 dz:-120", &[]);
    let op = geodesy::helmert::new(&raw).unwrap();
    assert_eq!(op.params.real_text("dx").unwrap(), "-87");
    assert_eq!(op.params.real_text("x").unwrap(), "0");

    let raw = RawParameters::new("helmert x:-87 y:-96 z:-120", &[]);
    let op = geodesy::helmert::new(&raw).unwrap();
    assert_eq!(op.params.real_text("x").unwrap(), "-87");
}

#[test]
fn error_descriptions() {
    assert_eq!(
        geodesy::Error::MissingParam(String::from("zone")).text(),
        "missing required parameter zone"
    );
    assert_eq!(
        geodesy::Error::BadParam(String::from("zone"), String::from("banana")).text(),
        "malformed value for parameter zone: banana"
    );
    assert_eq!(
        geodesy::Error::NotFound(String::from("mercator"), String::new()).text(),
        "operator mercator not found"
    );
    assert_eq!(geodesy::Error::Unknown.text(), "unknown error");
}

#[test]
fn pipeline_syntax_failures() {
    let mut ctx = Context::new();
    // An empty step inside a pipeline is a syntax error.
    match ctx.op("cart | | cart inv") {
        Err(geodesy::Error::Syntax(d)) => assert_eq!(d, "Empty step!"),
        other => panic!("expected a syntax error, got {:?}", other),
    }
    // So is a trailing key with no value, carrying the offending step.
    match ctx.op("helmert x: | cart") {
        Err(geodesy::Error::Syntax(d)) => assert_eq!(d, "helmert x:"),
        other => panic!("expected a syntax error, got {:?}", other),
    }
    // A definition with nothing in it is reported with its remains.
    assert!(matches!(ctx.op("  "), Err(geodesy::Error::Syntax(_))));
}

#[test]
fn block_rendering() {
    let steps = vec![
        BlockStep {
            name: String::from("cart"),
            args: vec![(String::from("ellps"), BlockValue::Text(String::from("intl")))],
        },
        BlockStep {
            name: String::from("helmert"),
            args: vec![
                (String::from("x"), BlockValue::Integer(-87)),
                (String::from("inv"), BlockValue::Boolean(true)),
                (String::from("note"), BlockValue::Text(String::new())),
                (String::from("s"), BlockValue::Real(String::from("0.5"))),
            ],
        },
    ];
    // An empty scalar contributes nothing; the rest render in order.
    assert_eq!(
        block_steps_to_gys(&steps),
        "cart ellps:intl | helmert x:-87 inv:true s:0.5"
    );
    // A single step needs no pipe.
    let single = vec![BlockStep {
        name: String::from("utm"),
        args: vec![(String::from("zone"), BlockValue::Integer(32))],
    }];
    assert_eq!(block_steps_to_gys(&single), "utm zone:32");
}

#[test]
fn pipeline_globals_overlay() {
    let mut ctx = Context::new();
    let extra = [
        (String::from("ellps"), String::from("intl")),
        (String::from("inv"), String::from("true")),
    ];
    let h = ctx
        .op_with_globals("cart | helmert x:1", &extra)
        .unwrap();
    let op = ctx.get_op(h);
    // The declared globals overlay the context's defaults...
    assert_eq!(op.steps[0].params.ellps(0), "intl");
    // ...but the direction flag is not inherited...
    assert!(!op.steps[0].descriptor.inverted);
    // ...and the context's own defaults come back afterwards.
    assert_eq!(ctx.globals.len(), 1);
    assert_eq!(ctx.globals[0].1, "GRS80");
    let plain = ctx.op("cart").unwrap();
    assert_eq!(ctx.get_op(plain).params.ellps(0), "GRS80");
}
