//! The operator-argument map with `^`-indirection, and the YAML value
//! types the block form is carried in.

use geodesy::OperatorArgs;
use yaml_rust::Yaml;

#[test]
fn operator_args() {
    let mut args = OperatorArgs::new();

    // dx and dy are straightforward
    args.insert("dx", "1");
    args.insert("dy", "2");

    // But we hide dz behind two levels of indirection
    args.insert("dz", "^ddz");
    args.insert("ddz", "^dddz");
    args.insert("dddz", "3");
    println!("args: {:?}", args.args);

    assert_eq!("1", args.value("dx", ""));
    assert_eq!("2", args.value("dy", ""));
    assert_eq!(args.used.len(), 2);

    assert_eq!("3", args.value("dz", ""));
    assert_eq!(3.0, args.value("dz", "").parse::<f64>().unwrap_or(42.0));

    assert_eq!(args.used.len(), 3);
    assert_eq!(args.all_used.len(), 5);

    println!("used: {:?}", &args.used);
    println!("all_used: {:?}", &args.all_used);

    assert_eq!("", args.value("abcdefg", ""));

    // Finally one for testing NAN returned for non-numerics
    args.insert("ds", "foo");
    assert!(args.value("ds", "").parse::<f64>().unwrap_or(f64::NAN).is_nan());
}

#[test]
fn bad_value() {
    let v = Yaml::BadValue;
    assert!(v.is_badvalue());
    let v = Yaml::Null;
    assert!(v.is_null());
    let v = Yaml::Integer(77);
    assert!(v == Yaml::Integer(77));
}

#[test]
fn indirection_cycle_terminates() {
    let mut args = OperatorArgs::new();
    args.insert("a", "^b");
    args.insert("b", "^a");
    // A cyclic chain exhausts the bound and the default stands in.
    assert_eq!("fallback", args.value("a", "fallback"));
    assert_eq!(false, args.boolean_value("a"));
}

#[test]
fn boolean_values() {
    let mut args = OperatorArgs::new();
    args.insert("flipped", "true");
    args.insert("plain", "false");
    args.insert("odd", "banana");
    assert!(args.boolean_value("flipped"));
    assert!(!args.boolean_value("plain"));
    assert!(args.boolean_value("odd"));
    assert!(!args.boolean_value("absent"));
}

#[test]
fn append_overwrites() {
    let mut a = OperatorArgs::new();
    a.insert("ellps", "intl");
    a.insert("x", "1");
    let mut b = OperatorArgs::new();
    b.insert("ellps", "GRS80");
    a.append(&b);
    assert_eq!("GRS80", a.value("ellps", ""));
    assert_eq!("1", a.value("x", ""));
}
