use ginit::init::{build_registry, init_args, select_steps, Error};
use ginit::opts::Clobbering;
use ginit::steps::{Registry, Steps};

fn names(list: &[&str]) -> Vec<String> {
    list.iter().map(|s| s.to_string()).collect()
}

#[test]
fn registry_assigns_distinct_positions() {
    let reg = build_registry(&names(&["android", "ios", "web"]));
    assert_eq!(reg.size(), 3);
    assert_eq!(reg.lookup(&"android".to_string()).unwrap(), 0);
    assert_eq!(reg.lookup(&"ios".to_string()).unwrap(), 1);
    assert_eq!(reg.lookup(&"web".to_string()).unwrap(), 2);
}

#[test]
fn register_duplicate_is_noop() {
    let mut reg = Registry::new();
    reg.register("android".to_string());
    reg.register("ios".to_string());
    reg.register("android".to_string());
    assert_eq!(reg.size(), 2);
    assert_eq!(reg.lookup(&"android".to_string()).unwrap(), 0);
    assert_eq!(reg.lookup(&"ios".to_string()).unwrap(), 1);
}

#[test]
fn lookup_unknown_name_fails() {
    let reg = build_registry(&names(&["android"]));
    let err = reg.lookup(&"desktop".to_string()).unwrap_err();
    assert_eq!(err.name, "desktop");
    assert_eq!(err.message(), "step \"desktop\" not registered");
}

#[test]
fn parse_empty_matches_all_unset() {
    let reg = build_registry(&names(&["android", "ios", "web"]));
    let parsed = Steps::parse(&reg, &names(&[])).unwrap();
    let unset = Steps::new_all_unset(&reg);
    assert_eq!(parsed.bits(), unset.bits());
    assert_eq!(parsed.bits(), 0);
}

#[test]
fn parse_all_names_matches_all_set() {
    let reg = build_registry(&names(&["android", "ios", "web"]));
    let parsed = Steps::parse(&reg, &names(&["android", "ios", "web"])).unwrap();
    let set = Steps::new_all_set(&reg);
    assert_eq!(parsed.bits(), set.bits());
    assert_eq!(parsed.bits(), 0b111);
}

#[test]
fn parse_sets_exactly_the_named_bits() {
    let reg = build_registry(&names(&["android", "ios", "web"]));
    let parsed = Steps::parse(&reg, &names(&["web", "android"])).unwrap();
    assert_eq!(parsed.bits(), 0b101);
    assert!(parsed.is_set(&"android".to_string()).unwrap());
    assert!(!parsed.is_set(&"ios".to_string()).unwrap());
    assert!(parsed.is_set(&"web".to_string()).unwrap());
}

#[test]
fn from_bits_round_trips() {
    let reg = build_registry(&names(&["android", "ios", "web"]));
    for b in 0u64..8u64 {
        let s = Steps::from_bits(&reg, b);
        assert_eq!(s.bits(), b);
    }
}

#[test]
fn parse_unknown_name_fails_naming_it() {
    let reg = build_registry(&names(&["android", "ios", "web"]));
    let err = Steps::parse(&reg, &names(&["android", "desktop", "brew"])).unwrap_err();
    assert_eq!(err.name, "desktop");
    assert_eq!(err.message(), "step \"desktop\" not registered");
}

#[test]
fn is_set_unknown_name_fails() {
    let reg = build_registry(&names(&["android"]));
    let set = Steps::new_all_set(&reg);
    let err = set.is_set(&"desktop".to_string()).unwrap_err();
    assert_eq!(err.name, "desktop");
}

#[test]
fn merge_only_and_skip_scenario() {
    let reg = build_registry(&names(&["android", "ios", "web"]));
    let only = names(&["android", "web"]);
    let skip = names(&["web"]);
    let merged = select_steps(&reg, Some(&only), Some(&skip)).unwrap();
    assert!(merged.is_set(&"android".to_string()).unwrap());
    assert!(!merged.is_set(&"ios".to_string()).unwrap());
    assert!(!merged.is_set(&"web".to_string()).unwrap());
    assert_eq!(merged.bits(), 0b001);
}

#[test]
fn merge_defaults_to_everything() {
    let reg = build_registry(&names(&["android", "ios", "web"]));
    let merged = select_steps(&reg, None, None).unwrap();
    assert!(merged.is_set(&"android".to_string()).unwrap());
    assert!(merged.is_set(&"ios".to_string()).unwrap());
    assert!(merged.is_set(&"web".to_string()).unwrap());
}

#[test]
fn skip_wins_over_only() {
    let reg = build_registry(&names(&["android", "ios"]));
    let both = names(&["android"]);
    let merged = select_steps(&reg, Some(&both), Some(&both)).unwrap();
    assert!(!merged.is_set(&"android".to_string()).unwrap());
    assert!(!merged.is_set(&"ios".to_string()).unwrap());
}

#[test]
fn skip_alone_excludes_only_the_named_steps() {
    let reg = build_registry(&names(&["android", "ios", "web"]));
    let skip = names(&["ios"]);
    let merged = select_steps(&reg, None, Some(&skip)).unwrap();
    assert!(merged.is_set(&"android".to_string()).unwrap());
    assert!(!merged.is_set(&"ios".to_string()).unwrap());
    assert!(merged.is_set(&"web".to_string()).unwrap());
}

#[test]
fn only_error_reported_before_skip_error() {
    let reg = build_registry(&names(&["android"]));
    let only = names(&["nope"]);
    let skip = names(&["also-nope"]);
    let err = select_steps(&reg, Some(&only), Some(&skip)).unwrap_err();
    match err {
        Error::OnlyParseFailed(f) => assert_eq!(f.name, "nope"),
        other => panic!("expected OnlyParseFailed, got {:?}", other),
    }
}

#[test]
fn skip_error_reported_when_only_is_clean() {
    let reg = build_registry(&names(&["android"]));
    let skip = names(&["desktop"]);
    let err = select_steps(&reg, None, Some(&skip)).unwrap_err();
    match err {
        Error::SkipParseFailed(f) => {
            assert_eq!(f.name, "desktop");
        },
        other => panic!("expected SkipParseFailed, got {:?}", other),
    }
    let err = select_steps(&reg, None, Some(&skip)).unwrap_err();
    assert_eq!(
        err.message(),
        "Failed to parse `skip` step list: step \"desktop\" not registered"
    );
}

#[test]
fn widest_registry_all_set_uses_every_bit() {
    let wide: Vec<String> = (0..64).map(|i| format!("step{}", i)).collect();
    let reg = build_registry(&wide);
    assert_eq!(reg.size(), 64);
    let all = Steps::new_all_set(&reg);
    assert_eq!(all.bits(), u64::MAX);
    assert_eq!(Steps::from_bits(&reg, u64::MAX).bits(), u64::MAX);
    assert!(all.is_set(&"step63".to_string()).unwrap());
}

#[test]
fn init_args_reflect_clobbering() {
    assert_eq!(init_args(Clobbering::Forbid), vec!["init".to_string()]);
    assert_eq!(
        init_args(Clobbering::Allow),
        vec!["init".to_string(), "--force".to_string()]
    );
}
