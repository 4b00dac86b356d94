//! The shorthand recognizer, the shorthand-to-block converter, and the
//! resource and argument decomposition.

use geodesy::{Context, GysArgs, GysResource};

// Testing GysArgs
#[test]
fn args() -> Result<(), geodesy::Error> {
    let globals: [(String, String); 6] = [
        (String::from("a"), String::from("a def")),
        (String::from("b"), String::from("b def")),
        (String::from("c"), String::from("c def")),
        (String::from("d"), String::from("d def")),
        (String::from("e"), String::from("e def")),
        (String::from("f"), String::from("f def")),
    ];

    let locals: [(String, String); 7] = [
        (String::from("a"), String::from("   ^b  ")),
        (String::from("b"), String::from("2 b def")),
        (String::from("c"), String::from("*2 c def")),
        (String::from("d"), String::from("^2 d def")),
        (String::from("e"), String::from("    2 e def   ")),
        (String::from("f"), String::from("^a")),
        (String::from("g"), String::from("*default")),
    ];

    let mut arg = GysArgs::new_symmetric(&globals, &locals);

    // Check plain lookup functionality
    let f = arg.value("  f  ")?;
    assert_eq!(f.unwrap(), globals[1].1);

    let e = arg.value("  e  ")?;
    assert_eq!(e.unwrap(), "2 e def");

    // Check default value lookups
    let c = arg.value("  c  ")?;
    assert_eq!(c.unwrap(), "c def");

    let g = arg.value("  g  ")?;
    assert_eq!(g.unwrap(), "default");

    if let Err(d) = arg.value("d") {
        println!("d: {:?}", d.text());
        assert!(d.text().starts_with("syntax error"));
    }
    let d = arg.value("  d  ").unwrap_err();
    assert!(d.text().starts_with("syntax error"));

    let _d = arg.value("  d  ").unwrap_or_else(|e| {
        if !e.text().starts_with("syntax error") {
            panic!("Expected syntax error here!");
        } else {
            Some(String::default())
        }
    });

    // step_to_local_args - check the 'name'-magic
    let step = "a b:c d:e f g:h";
    let args = GysArgs::step_to_local_args(step);
    assert_eq!(args.len(), 5);
    assert_eq!(args[0].0, "name");
    assert_eq!(args[0].1, "a");

    let mut arg = GysArgs::new(
        &globals,
        "banana tomato aa:^a bb:b c:*no cc:*yes 33:33 true:FaLsE",
    );
    assert_eq!(arg.flag("tomato")?, true);
    assert_eq!(arg.string("name", "")?, "banana");

    assert_eq!(arg.string("c", "")?, "c def");
    assert_eq!(arg.string("cc", "")?, "yes");

    assert_eq!(arg.flag("33")?, true);
    assert_eq!(arg.string("33", "44")?, "33");
    assert_eq!(arg.string("33", "44")?.parse::<f64>().unwrap(), 33.);

    assert_eq!(arg.flag("true")?, false);

    Ok(())
}

// Testing GysResource
#[test]
fn resource() -> Result<(), geodesy::Error> {
    let text = "\n # agurk \n en # agurk\r\n  ## Document all cucumbers \n##\n## agurker\n\ta b:c|  c   d: e    |f g:h|\t\th\n\n\n";
    let gys = GysResource::from(text);
    assert!(gys.doc.starts_with("Document all cucumbers"));
    assert!(gys.doc.ends_with("agurker"));
    assert_eq!(gys.steps.len(), 4);

    let gys = GysResource::from("");
    assert!(gys.doc.is_empty());
    assert_eq!(gys.steps.len(), 0);

    Ok(())
}

#[test]
fn resource_canonical_steps() {
    let gys = GysResource::from("\ta b:c|  c   d: e    |f g:h|\t\th");
    assert_eq!(gys.steps[0], "a b:c");
    assert_eq!(gys.steps[1], "c d:e");
    assert_eq!(gys.steps[2], "f g:h");
    assert_eq!(gys.steps[3], "h");
    assert_eq!(gys.globals.len(), 1);
    assert_eq!(gys.globals[0].0, "ellps");
    assert_eq!(gys.globals[0].1, "GRS80");
}

#[test]
fn shorthand_indicators() {
    assert!(Context::is_gys("[cart]"));
    assert!(Context::is_gys("|cart|"));
    assert!(Context::is_gys("|cart"));
    assert!(Context::is_gys("cart|"));
    assert!(!Context::is_gys("[cart"));
    assert!(!Context::is_gys("cart]"));
    assert!(Context::is_gys("cart ellps: intl | helmert x:-87"));
    assert!(Context::is_gys("utm zone:32"));
    assert!(!Context::is_gys("ed50_etrs89: {steps: []}"));
}

#[test]
fn to_yaml_single_step() {
    assert_eq!(Context::gys_to_yaml("utm zone:32"), "utm: {zone: 32}");
    assert_eq!(Context::gys_to_yaml("[cart]"), "cart: {}");
    assert_eq!(Context::gys_to_yaml("cart inv ellps:GRS80"), "cart: {inv: true, ellps: GRS80}");
    assert_eq!(Context::gys_to_yaml("cart ellps: intl"), "cart: {ellps: intl}");
}

#[test]
fn to_yaml_pipeline() {
    let gys = "cart ellps: intl | helmert x:-87 y:-96 z:-120 | cart inv ellps:GRS80";
    let yaml = Context::gys_to_yaml(gys);
    let expected = "pipeline_from_gys: {\n  steps: [\n    cart: {ellps: intl},\n    \
                    helmert: {x: -87, y: -96, z: -120},\n    \
                    cart: {inv: true, ellps: GRS80}\n  ]\n}";
    assert_eq!(yaml, expected);
}

#[test]
fn to_yaml_errors() {
    assert_eq!(Context::gys_to_yaml("cart | | cart inv"), "Error: Empty step!");
    assert_eq!(
        Context::gys_to_yaml("helmert x: |cart"),
        "Missing value for key 'x:'"
    );
}

#[test]
fn to_yaml_keeps_block_form() {
    let yaml = "ed50_etrs89: {\n  steps: [\n    cart: {ellps: intl}\n  ]\n}";
    assert_eq!(Context::gys_to_yaml(yaml), yaml);
}

#[test]
fn value_records_usage() -> Result<(), geodesy::Error> {
    let globals: [(String, String); 1] = [(String::from("ellps"), String::from("GRS80"))];
    let mut arg = GysArgs::new(&globals, "cart inv");
    assert_eq!(arg.used.len(), 0);
    let v = arg.value("ellps")?;
    assert_eq!(v.unwrap(), "GRS80");
    assert_eq!(arg.used.len(), 1);
    assert_eq!(arg.used[0].0, "ellps");
    assert_eq!(arg.used[0].1, "GRS80");
    // A missing key records nothing.
    assert!(arg.value("zone")?.is_none());
    assert_eq!(arg.used.len(), 1);
    // An empty key is a syntax error.
    assert!(arg.value("   ").is_err());
    Ok(())
}
