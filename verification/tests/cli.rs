use lib::cli::{parse_args, str_eq, ArgError, Args};

fn run(args: &[&str]) -> (Vec<String>, Result<Args, ArgError>) {
    let raw: Vec<String> = args.iter().map(|s| s.to_string()).collect();
    parse_args(&raw)
}

fn ok(args: &[&str]) -> (Vec<String>, String, String, String) {
    let (w, r) = run(args);
    let a = r.unwrap();
    (w, a.source_dir, a.output, a.volume_label)
}

#[test]
fn mkisofs_emulation_reads_label_output_and_source() {
    let (w, src, out, label) = ok(&["-as", "mkisofs", "-V", "MY_LABEL", "-o", "output.iso", "./source_dir"]);
    assert!(w.is_empty());
    assert_eq!(src, "./source_dir");
    assert_eq!(out, "output.iso");
    assert_eq!(label, "MY_LABEL");
}

#[test]
fn default_label_is_rs_xorriso() {
    let (_, _, _, label) = ok(&["-o", "o.iso", "src"]);
    assert_eq!(label, "RS_XORRISO");
    let (_, _, _, label2) = ok(&["-o", "o.iso", "src", "-V"]);
    assert_eq!(label2, "RS_XORRISO");
}

#[test]
fn last_source_wins() {
    let (_, src, _, _) = ok(&["a", "b", "-o", "o"]);
    assert_eq!(src, "b");
}

#[test]
fn burning_and_device_listing_are_refused() {
    assert!(matches!(run(&["-as", "cdrecord", "dev=/dev/sr0"]).1, Err(ArgError::BurningUnsupported)));
    assert!(matches!(run(&["-devices"]).1, Err(ArgError::DeviceListingUnsupported)));
}

#[test]
fn long_name_flags_are_warned_and_ignored() {
    let (w, src, out, _) = ok(&["-J", "-R", "-v", "-q", "-joliet", "-rock", "-o", "o", "s"]);
    assert_eq!(w, vec!["-J".to_string(), "-R".to_string(), "-joliet".to_string(), "-rock".to_string()]);
    assert_eq!((src.as_str(), out.as_str()), ("s", "o"));
}

#[test]
fn iso_level_value_is_skipped() {
    let (_, src, _, _) = ok(&["-iso-level", "3", "-o", "o", "s"]);
    assert_eq!(src, "s");
}

#[test]
fn unknown_option_is_refused_after_earlier_warnings() {
    let (w, r) = run(&["-J", "-x", "-R"]);
    assert_eq!(w, vec!["-J".to_string()]);
    match r {
        Err(ArgError::UnsupportedOption(o)) => assert_eq!(o, "-x"),
        _ => panic!("expected an unsupported option"),
    }
}

#[test]
fn missing_source_or_output() {
    assert!(matches!(run(&["-o", "o"]).1, Err(ArgError::MissingSourceDir)));
    assert!(matches!(run(&[]).1, Err(ArgError::MissingSourceDir)));
    assert!(matches!(run(&["s"]).1, Err(ArgError::MissingOutput)));
    assert!(matches!(run(&["-o", "o", "s", "-o"]).1, Err(ArgError::MissingOutput)));
}

#[test]
fn string_equality() {
    assert!(str_eq("-as", "-as"));
    assert!(!str_eq("-as", "-a"));
    assert!(!str_eq("ab", "ac"));
    assert!(str_eq("", ""));
}

#[test]
fn unknown_option_after_plain_tokens() {
    let (w, r) = run(&["src", "-v", "-rock", "--bogus", "-o", "o"]);
    assert_eq!(w, vec!["-rock".to_string()]);
    match r {
        Err(ArgError::UnsupportedOption(o)) => assert_eq!(o, "--bogus"),
        _ => panic!("expected an unsupported option"),
    }
}

#[test]
fn source_is_asked_for_before_output() {
    assert!(matches!(run(&["-J", "-q"]).1, Err(ArgError::MissingSourceDir)));
    assert!(matches!(run(&["-J", "dir", "-q"]).1, Err(ArgError::MissingOutput)));
}

#[test]
fn unknown_option_refused_after_value_options() {
    let (w, r) = run(&["-o", "o", "-V", "L", "-iso-level", "3", "-J", "--x", "s"]);
    assert_eq!(w, vec!["-J".to_string()]);
    match r {
        Err(ArgError::UnsupportedOption(o)) => assert_eq!(o, "--x"),
        _ => panic!("expected an unsupported option"),
    }
}

#[test]
fn last_values_win() {
    let (_, src, out, label) = ok(&["s1", "-V", "A", "-o", "o1", "s2", "-V", "B", "-o", "o2"]);
    assert_eq!((src.as_str(), out.as_str(), label.as_str()), ("s2", "o2", "B"));
    assert!(matches!(run(&["s", "-o", "o1", "-o"]).1, Err(ArgError::MissingOutput)));
}

#[test]
fn ignored_flags_change_nothing() {
    let (_, a1, b1, c1) = ok(&["-J", "-o", "o", "-iso-level", "2", "s", "-q", "-rock"]);
    let (_, a2, b2, c2) = ok(&["-o", "o", "s"]);
    assert_eq!((a1, b1, c1), (a2, b2, c2));
}

#[test]
fn a_flag_taken_as_a_value_is_not_warned() {
    let (w, src, out, _) = ok(&["-o", "-J", "-R", "s"]);
    assert_eq!(w, vec!["-R".to_string()]);
    assert_eq!((src.as_str(), out.as_str()), ("s", "-J"));
}
