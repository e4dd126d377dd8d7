use ev3dev_lang::device::{AttributeMatches, Connected, Device, DeviceIndex};
use ev3dev_lang::sysfs::{AttrFile, DeviceDir, DirListing};
use ev3dev_lang::Error;
use std::collections::HashSet;

fn file(name: &str, contents: &str) -> AttrFile {
    AttrFile { name: name.to_string(), contents: contents.to_string() }
}

fn touch_sensor_dir(dirname: &str) -> DeviceDir {
    DeviceDir {
        name: dirname.to_string(),
        files: vec![
            file("modes", "TOUCH"),
            file("mode", "TOUCH"),
            file("port_name", "in1"),
            file("name", "lego-ev3-touch"),
            file("num_values", "1"),
            file("value0", "0"),
            file("dp", "0"),
        ],
    }
}

fn root_with(dirs: Vec<DeviceDir>) -> DirListing {
    DirListing { entries: Some(dirs) }
}

fn spec_one(attr: &str, value: &str) -> AttributeMatches {
    vec![(attr.to_string(), vec![value.to_string()])]
}

#[test]
fn try_types() {
    let mut matches = HashSet::new();
    matches.insert("Linux");
}

#[test]
fn device_basics() {
    let root = root_with(vec![touch_sensor_dir("sensor0")]);
    let mut dut = Device::new();
    assert!(dut.connect(&root, "sensor", &spec_one("port_name", "in1")).is_ok());
    assert!(dut.connected());
    assert_eq!(dut.get_device_index(), Ok(0));
    assert_eq!(dut.device_index(), Ok(0));
    assert!(dut.set_attr_int("value0", 1).is_ok());
    assert_eq!(dut.get_attr_int("value0"), Ok(1));
}

#[test]
fn connect_reads_identity() {
    let root = root_with(vec![touch_sensor_dir("sensor0")]);
    let mut dut = Device::new();
    assert!(dut.connect(&root, "sensor", &spec_one("port_name", "in1")).is_ok());
    assert_eq!(dut.get_attr_string("port_name"), Ok("in1".to_string()));
    assert_eq!(dut.get_attr_string("name"), Ok("lego-ev3-touch".to_string()));
    assert_eq!(dut.get_attr_string("mode"), Ok("TOUCH".to_string()));
    assert_eq!(dut.get_attr_int("num_values"), Ok(1));
    assert_eq!(dut.get_attr_int("dp"), Ok(0));
}

#[test]
fn connect_no_match_leaves_unbound() {
    let root = root_with(vec![touch_sensor_dir("sensor0")]);
    let mut dut = Device::new();
    assert_eq!(dut.connect(&root, "sensor", &spec_one("port_name", "in2")), Err(Error::NoMatch));
    assert!(!dut.connected());
    assert_eq!(dut.device_index(), Err(Error::NotConnected));
    assert_eq!(dut.get_device_index(), Err(Error::NotConnected));
}

#[test]
fn connect_unlistable_root_is_no_match() {
    let root = DirListing { entries: None };
    let mut dut = Device::new();
    assert_eq!(dut.connect(&root, "sensor", &spec_one("port_name", "in1")), Err(Error::NoMatch));
    assert!(!dut.connected());
    assert_eq!(dut.device_index(), Err(Error::NotConnected));
}

#[test]
fn connect_empty_root_is_no_match() {
    let root = root_with(vec![]);
    let mut dut = Device::new();
    assert_eq!(dut.connect(&root, "sensor", &spec_one("port_name", "in1")), Err(Error::NoMatch));
    assert!(!dut.connected());
}

#[test]
fn rebind_with_unmatchable_spec_invalidates() {
    let root = root_with(vec![touch_sensor_dir("sensor0")]);
    let mut dut = Device::new();
    assert!(dut.connect(&root, "sensor", &spec_one("port_name", "in1")).is_ok());
    assert_eq!(dut.get_device_index(), Ok(0));
    assert_eq!(dut.connect(&root, "sensor", &spec_one("port_name", "in2")), Err(Error::NoMatch));
    assert_eq!(dut.device_index(), Err(Error::NotConnected));
    assert_eq!(dut.get_device_index(), Err(Error::NotConnected));
}

#[test]
fn rebind_reflects_second_outcome_only() {
    let mut sensor1 = touch_sensor_dir("sensor1");
    for f in sensor1.files.iter_mut() {
        if f.name == "port_name" {
            f.contents = "in2".to_string();
        }
    }
    let root = root_with(vec![touch_sensor_dir("sensor0"), sensor1]);
    let mut dut = Device::new();
    assert!(dut.connect(&root, "sensor", &spec_one("port_name", "in1")).is_ok());
    assert_eq!(dut.get_device_index(), Ok(0));
    assert!(dut.connect(&root, "sensor", &spec_one("port_name", "in2")).is_ok());
    assert_eq!(dut.get_device_index(), Ok(1));
}

#[test]
fn prefix_filter_skips_other_names() {
    // A directory whose attributes all match is still skipped when its name
    // lacks the prefix.
    let root = root_with(vec![touch_sensor_dir("motor0")]);
    let mut dut = Device::new();
    assert_eq!(dut.connect(&root, "sensor", &spec_one("port_name", "in1")), Err(Error::NoMatch));
    assert!(!dut.connected());
}

#[test]
fn prefix_filter_ignores_attribute_contents_of_others() {
    let mut decoy = touch_sensor_dir("motor7");
    for f in decoy.files.iter_mut() {
        if f.name == "port_name" {
            f.contents = "in4".to_string();
        }
    }
    let root = root_with(vec![decoy, touch_sensor_dir("sensor3")]);
    let mut dut = Device::new();
    assert!(dut.connect(&root, "sensor", &spec_one("port_name", "in1")).is_ok());
    assert_eq!(dut.get_device_index(), Ok(3));
    assert_eq!(dut.connect(&root, "sensor", &spec_one("port_name", "in4")), Err(Error::NoMatch));
    assert!(!dut.connected());
}

#[test]
fn mismatched_value_leaves_sole_candidate_unbound() {
    let root = root_with(vec![touch_sensor_dir("sensor0")]);
    let mut dut = Device::new();
    assert_eq!(
        dut.connect(&root, "sensor", &spec_one("name", "lego-ev3-color")),
        Err(Error::NoMatch)
    );
    assert!(!dut.connected());
}

#[test]
fn missing_spec_attribute_propagates_io_error() {
    let root = root_with(vec![touch_sensor_dir("sensor0")]);
    let mut dut = Device::new();
    assert_eq!(
        dut.connect(&root, "sensor", &spec_one("address", "in1")),
        Err(Error::IoError)
    );
    assert!(!dut.connected());
}

#[test]
fn multi_pair_spec_must_hold_entirely() {
    let root = root_with(vec![touch_sensor_dir("sensor0")]);
    let mut dut = Device::new();
    let mut spec = spec_one("port_name", "in1");
    spec.push(("name".to_string(), vec!["lego-ev3-touch".to_string()]));
    assert!(dut.connect(&root, "sensor", &spec).is_ok());

    let mut spec2 = spec_one("port_name", "in1");
    spec2.push(("name".to_string(), vec!["lego-ev3-color".to_string()]));
    assert_eq!(dut.connect(&root, "sensor", &spec2), Err(Error::NoMatch));
    assert!(!dut.connected());
}

#[test]
fn several_acceptable_values_match_any() {
    let root = root_with(vec![touch_sensor_dir("sensor0")]);
    let mut dut = Device::new();
    let spec: AttributeMatches = vec![(
        "name".to_string(),
        vec!["lego-ev3-color".to_string(), "lego-ev3-touch".to_string()],
    )];
    assert!(dut.connect(&root, "sensor", &spec).is_ok());
}

#[test]
fn empty_spec_matches_first_prefixed_entry() {
    let root = root_with(vec![touch_sensor_dir("sensor5")]);
    let mut dut = Device::new();
    let spec: AttributeMatches = vec![];
    assert!(dut.connect(&root, "sensor", &spec).is_ok());
    assert_eq!(dut.get_device_index(), Ok(5));
}

#[test]
fn first_full_match_wins_in_listing_order() {
    // Two candidates satisfying the same specification is a contract
    // violation by the caller; the binder then takes the first listed.
    let root = root_with(vec![touch_sensor_dir("sensor0"), touch_sensor_dir("sensor1")]);
    let mut dut = Device::new();
    assert!(dut.connect(&root, "sensor", &spec_one("port_name", "in1")).is_ok());
    assert_eq!(dut.get_device_index(), Ok(0));
}

#[test]
fn set_get_int_round_trip() {
    let root = root_with(vec![touch_sensor_dir("sensor0")]);
    let mut dut = Device::new();
    assert!(dut.connect(&root, "sensor", &spec_one("port_name", "in1")).is_ok());
    for v in [0isize, 42, -17, isize::MAX, isize::MIN] {
        assert!(dut.set_attr_int("value0", v).is_ok());
        assert_eq!(dut.get_attr_int("value0"), Ok(v));
    }
}

#[test]
fn set_attr_string_replaces_value() {
    let root = root_with(vec![touch_sensor_dir("sensor0")]);
    let mut dut = Device::new();
    assert!(dut.connect(&root, "sensor", &spec_one("port_name", "in1")).is_ok());
    assert!(dut.set_attr_string("mode", "COLOR").is_ok());
    assert_eq!(dut.get_attr_string("mode"), Ok("COLOR".to_string()));
    // The other files are untouched.
    assert_eq!(dut.get_attr_string("port_name"), Ok("in1".to_string()));
}

#[test]
fn accessors_fail_unbound() {
    let mut dut = Device::new();
    assert_eq!(dut.get_attr_string("mode"), Err(Error::IoError));
    assert_eq!(dut.get_attr_int("value0"), Err(Error::IoError));
    assert_eq!(dut.set_attr_string("mode", "COLOR"), Err(Error::IoError));
    assert_eq!(dut.set_attr_int("value0", 1), Err(Error::IoError));
    assert_eq!(dut.get_attr_set("modes"), Err(Error::IoError));
}

#[test]
fn accessors_fail_on_missing_file() {
    let root = root_with(vec![touch_sensor_dir("sensor0")]);
    let mut dut = Device::new();
    assert!(dut.connect(&root, "sensor", &spec_one("port_name", "in1")).is_ok());
    assert_eq!(dut.get_attr_string("address"), Err(Error::IoError));
    assert_eq!(dut.set_attr_string("address", "x"), Err(Error::IoError));
}

#[test]
fn get_attr_string_trims_whitespace() {
    let mut dir = touch_sensor_dir("sensor0");
    dir.files.push(file("units", "\tpct \n"));
    let root = root_with(vec![dir]);
    let mut dut = Device::new();
    assert!(dut.connect(&root, "sensor", &spec_one("port_name", "in1")).is_ok());
    assert_eq!(dut.get_attr_string("units"), Ok("pct".to_string()));
}

#[test]
fn get_attr_int_parses_trimmed_text() {
    let mut dir = touch_sensor_dir("sensor0");
    dir.files.push(file("raw", " -42\n"));
    dir.files.push(file("plus", "+7"));
    let root = root_with(vec![dir]);
    let mut dut = Device::new();
    assert!(dut.connect(&root, "sensor", &spec_one("port_name", "in1")).is_ok());
    assert_eq!(dut.get_attr_int("raw"), Ok(-42));
    assert_eq!(dut.get_attr_int("plus"), Ok(7));
}

#[test]
fn get_attr_int_rejects_malformed_text() {
    let mut dir = touch_sensor_dir("sensor0");
    dir.files.push(file("bad", "abc"));
    dir.files.push(file("mixed", "12a"));
    dir.files.push(file("empty", ""));
    dir.files.push(file("huge", "99999999999999999999999999"));
    let root = root_with(vec![dir]);
    let mut dut = Device::new();
    assert!(dut.connect(&root, "sensor", &spec_one("port_name", "in1")).is_ok());
    assert_eq!(dut.get_attr_int("bad"), Err(Error::ParseError));
    assert_eq!(dut.get_attr_int("mixed"), Err(Error::ParseError));
    assert_eq!(dut.get_attr_int("empty"), Err(Error::ParseError));
    assert_eq!(dut.get_attr_int("huge"), Err(Error::ParseError));
}

#[test]
fn get_attr_set_single_token() {
    let root = root_with(vec![touch_sensor_dir("sensor0")]);
    let mut dut = Device::new();
    assert!(dut.connect(&root, "sensor", &spec_one("port_name", "in1")).is_ok());
    let modes = dut.get_attr_set("modes").unwrap();
    assert_eq!(modes, vec!["TOUCH".to_string()]);
}

#[test]
fn get_attr_set_two_tokens() {
    let mut dir = touch_sensor_dir("sensor0");
    for f in dir.files.iter_mut() {
        if f.name == "modes" {
            f.contents = "TOUCH COLOR".to_string();
        }
    }
    let root = root_with(vec![dir]);
    let mut dut = Device::new();
    assert!(dut.connect(&root, "sensor", &spec_one("port_name", "in1")).is_ok());
    let modes = dut.get_attr_set("modes").unwrap();
    assert_eq!(modes.len(), 2);
    assert!(modes.contains(&"TOUCH".to_string()));
    assert!(modes.contains(&"COLOR".to_string()));
}

#[test]
fn get_attr_set_collapses_duplicates() {
    let mut dir = touch_sensor_dir("sensor0");
    dir.files.push(file("flags", "A B A"));
    let root = root_with(vec![dir]);
    let mut dut = Device::new();
    assert!(dut.connect(&root, "sensor", &spec_one("port_name", "in1")).is_ok());
    let flags = dut.get_attr_set("flags").unwrap();
    assert_eq!(flags.len(), 2);
    assert!(flags.contains(&"A".to_string()));
    assert!(flags.contains(&"B".to_string()));
}

#[test]
fn get_attr_set_keeps_empty_tokens_of_inner_space_runs() {
    // A run of spaces inside the trimmed text yields an empty token; this is
    // the splitting behaviour the accessor documents.
    let mut dir = touch_sensor_dir("sensor0");
    dir.files.push(file("flags", "A  B"));
    let root = root_with(vec![dir]);
    let mut dut = Device::new();
    assert!(dut.connect(&root, "sensor", &spec_one("port_name", "in1")).is_ok());
    let flags = dut.get_attr_set("flags").unwrap();
    assert_eq!(flags.len(), 3);
    assert!(flags.contains(&"A".to_string()));
    assert!(flags.contains(&"B".to_string()));
    assert!(flags.contains(&"".to_string()));
}

#[test]
fn device_index_needs_digits() {
    let mut dir = touch_sensor_dir("sensor");
    dir.name = "sensor".to_string();
    let root = root_with(vec![dir]);
    let mut dut = Device::new();
    assert!(dut.connect(&root, "sensor", &spec_one("port_name", "in1")).is_ok());
    assert_eq!(dut.device_index(), Err(Error::ParseError));
    assert_eq!(dut.get_device_index(), Err(Error::ParseError));
}

#[test]
fn device_index_rejects_trailing_garbage_and_overflow() {
    let root = root_with(vec![touch_sensor_dir("sensor12b")]);
    let mut dut = Device::new();
    assert!(dut.connect(&root, "sensor", &spec_one("port_name", "in1")).is_ok());
    assert_eq!(dut.device_index(), Err(Error::ParseError));

    let root2 = root_with(vec![touch_sensor_dir("sensor99999999999999999999999")]);
    assert!(dut.connect(&root2, "sensor", &spec_one("port_name", "in1")).is_ok());
    assert_eq!(dut.device_index(), Err(Error::ParseError));
}

#[test]
fn device_index_strips_leading_non_digits() {
    let root = root_with(vec![touch_sensor_dir("sensor0a1b23")]);
    let mut dut = Device::new();
    assert!(dut.connect(&root, "sensor0a1b2", &spec_one("port_name", "in1")).is_ok());
    // Digits must run to the end of the name; interleaved letters fail.
    assert_eq!(dut.device_index(), Err(Error::ParseError));

    let root2 = root_with(vec![touch_sensor_dir("in-sensor042")]);
    assert!(dut.connect(&root2, "in-sensor", &spec_one("port_name", "in1")).is_ok());
    assert_eq!(dut.device_index(), Ok(42));
}

#[test]
fn get_device_index_caches_until_rebind() {
    let root = root_with(vec![touch_sensor_dir("sensor7")]);
    let mut dut = Device::new();
    assert!(dut.connect(&root, "sensor", &spec_one("port_name", "in1")).is_ok());
    assert_eq!(dut.get_device_index(), Ok(7));
    assert_eq!(dut.get_device_index(), Ok(7));
    assert_eq!(dut.device_index(), Ok(7));
}
