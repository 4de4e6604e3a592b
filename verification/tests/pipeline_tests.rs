use ginit::init::{build_registry, Action, Error, Event, Orchestrator};
use ginit::opts::OpenIn;

fn names(list: &[&str]) -> Vec<String> {
    list.iter().map(|s| s.to_string()).collect()
}

#[test]
fn full_run_invokes_every_plugin_in_order() {
    let plugins = names(&["android", "ios", "web"]);
    let reg = build_registry(&plugins);
    let mut orch = Orchestrator::new(&reg, OpenIn::Nothing, None, None).unwrap();
    let mut trace: Vec<Action> = Vec::new();
    loop {
        let action = orch.next_action();
        trace.push(action);
        match action {
            Action::LoadConfig => orch.advance(Event::ConfigLoaded { found: true }),
            Action::RunPlugin { .. } => orch.advance(Event::PluginFinished),
            Action::Stop => break,
            other => panic!("unexpected action {:?}", other),
        }
    }
    assert_eq!(
        trace,
        vec![
            Action::LoadConfig,
            Action::RunPlugin { index: 0 },
            Action::RunPlugin { index: 1 },
            Action::RunPlugin { index: 2 },
            Action::Stop,
        ]
    );
    assert!(matches!(orch.into_outcome(), Ok(())));
}

#[test]
fn config_bootstrap_runs_once_and_first() {
    let plugins = names(&["android", "ios"]);
    let reg = build_registry(&plugins);
    let mut orch = Orchestrator::new(&reg, OpenIn::Nothing, None, None).unwrap();
    let mut trace: Vec<Action> = Vec::new();
    loop {
        let action = orch.next_action();
        trace.push(action);
        match action {
            Action::LoadConfig => orch.advance(Event::ConfigLoaded { found: false }),
            Action::GenerateConfig => orch.advance(Event::ConfigGenerated),
            Action::RunPlugin { .. } => orch.advance(Event::PluginFinished),
            Action::Stop => break,
            other => panic!("unexpected action {:?}", other),
        }
    }
    assert_eq!(
        trace,
        vec![
            Action::LoadConfig,
            Action::GenerateConfig,
            Action::RunPlugin { index: 0 },
            Action::RunPlugin { index: 1 },
            Action::Stop,
        ]
    );
    let config_actions = trace
        .iter()
        .filter(|a| matches!(a, Action::LoadConfig | Action::GenerateConfig))
        .count();
    assert_eq!(config_actions, 2);
    let first_plugin = trace
        .iter()
        .position(|a| matches!(a, Action::RunPlugin { .. }))
        .unwrap();
    assert!(trace[..first_plugin]
        .iter()
        .all(|a| matches!(a, Action::LoadConfig | Action::GenerateConfig)));
}

#[test]
fn pipeline_fails_fast_on_plugin_failure() {
    let plugins = names(&["alpha", "beta", "gamma"]);
    let reg = build_registry(&plugins);
    let mut orch = Orchestrator::new(&reg, OpenIn::Nothing, None, None).unwrap();
    let mut invoked: Vec<usize> = Vec::new();
    loop {
        match orch.next_action() {
            Action::LoadConfig => orch.advance(Event::ConfigLoaded { found: true }),
            Action::RunPlugin { index } => {
                invoked.push(index);
                if index == 1 {
                    orch.advance(Event::PluginFailed {
                        cause: "exit status 1".to_string(),
                    });
                } else {
                    orch.advance(Event::PluginFinished);
                }
            },
            Action::Stop => break,
            other => panic!("unexpected action {:?}", other),
        }
    }
    assert_eq!(invoked, vec![0, 1]);
    let err = orch.into_outcome().unwrap_err();
    match &err {
        Error::PluginFailed { plugin_name, cause } => {
            assert_eq!(plugin_name.as_str(), "beta");
            assert_eq!(cause.as_str(), "exit status 1");
        },
        other => panic!("expected PluginFailed, got {:?}", other),
    }
    assert_eq!(
        err.message(),
        "Failed to init \"beta\" plugin: exit status 1"
    );
}

#[test]
fn excluded_steps_are_never_invoked() {
    let plugins = names(&["android", "ios", "web"]);
    let reg = build_registry(&plugins);
    let only = names(&["android", "web"]);
    let skip = names(&["web"]);
    let mut orch = Orchestrator::new(&reg, OpenIn::Nothing, Some(&only), Some(&skip)).unwrap();
    let mut invoked: Vec<usize> = Vec::new();
    loop {
        match orch.next_action() {
            Action::LoadConfig => orch.advance(Event::ConfigLoaded { found: true }),
            Action::RunPlugin { index } => {
                invoked.push(index);
                orch.advance(Event::PluginFinished);
            },
            Action::Stop => break,
            other => panic!("unexpected action {:?}", other),
        }
    }
    assert_eq!(invoked, vec![0]);
    assert!(matches!(orch.into_outcome(), Ok(())));
}

#[test]
fn unknown_only_name_fails_before_any_action() {
    let plugins = names(&["android"]);
    let reg = build_registry(&plugins);
    let only = names(&["desktop"]);
    let err = Orchestrator::new(&reg, OpenIn::Nothing, Some(&only), None).unwrap_err();
    match err {
        Error::OnlyParseFailed(f) => assert_eq!(f.name, "desktop"),
        other => panic!("expected OnlyParseFailed, got {:?}", other),
    }
}

#[test]
fn editor_opens_after_successful_run() {
    let plugins = names(&["android"]);
    let reg = build_registry(&plugins);
    let mut orch = Orchestrator::new(&reg, OpenIn::Editor, None, None).unwrap();
    let mut trace: Vec<Action> = Vec::new();
    loop {
        let action = orch.next_action();
        trace.push(action);
        match action {
            Action::LoadConfig => orch.advance(Event::ConfigLoaded { found: true }),
            Action::RunPlugin { .. } => orch.advance(Event::PluginFinished),
            Action::OpenEditor => orch.advance(Event::EditorOpened),
            Action::Stop => break,
            other => panic!("unexpected action {:?}", other),
        }
    }
    assert_eq!(
        trace,
        vec![
            Action::LoadConfig,
            Action::RunPlugin { index: 0 },
            Action::OpenEditor,
            Action::Stop,
        ]
    );
    assert!(matches!(orch.into_outcome(), Ok(())));
}

#[test]
fn editor_failure_is_reported_softly() {
    let plugins = names(&["android"]);
    let reg = build_registry(&plugins);
    let only = names(&[]);
    let mut orch = Orchestrator::new(&reg, OpenIn::Editor, Some(&only), None).unwrap();
    loop {
        match orch.next_action() {
            Action::LoadConfig => orch.advance(Event::ConfigLoaded { found: true }),
            Action::OpenEditor => orch.advance(Event::EditorFailed {
                cause: "no editor configured".to_string(),
            }),
            Action::Stop => break,
            other => panic!("unexpected action {:?}", other),
        }
    }
    let err = orch.into_outcome().unwrap_err();
    assert!(matches!(&err, Error::OpenInEditorFailed(_)));
    assert_eq!(
        err.message(),
        "Failed to open project in editor (your project generated successfully though, so no worries!): no editor configured"
    );
}

#[test]
fn config_load_failure_aborts_before_any_plugin() {
    let plugins = names(&["android", "ios"]);
    let reg = build_registry(&plugins);
    let mut orch = Orchestrator::new(&reg, OpenIn::Nothing, None, None).unwrap();
    assert_eq!(orch.next_action(), Action::LoadConfig);
    orch.advance(Event::ConfigLoadFailed {
        cause: "config file is garbage".to_string(),
    });
    assert_eq!(orch.next_action(), Action::Stop);
    let err = orch.into_outcome().unwrap_err();
    match &err {
        Error::ConfigLoadFailed(cause) => assert_eq!(cause.as_str(), "config file is garbage"),
        other => panic!("expected ConfigLoadFailed, got {:?}", other),
    }
    assert_eq!(err.message(), "config file is garbage");
}

#[test]
fn config_gen_failure_aborts_before_any_plugin() {
    let plugins = names(&["android"]);
    let reg = build_registry(&plugins);
    let mut orch = Orchestrator::new(&reg, OpenIn::Nothing, None, None).unwrap();
    assert_eq!(orch.next_action(), Action::LoadConfig);
    orch.advance(Event::ConfigLoaded { found: false });
    assert_eq!(orch.next_action(), Action::GenerateConfig);
    orch.advance(Event::ConfigGenFailed {
        cause: "disk full".to_string(),
    });
    assert_eq!(orch.next_action(), Action::Stop);
    let err = orch.into_outcome().unwrap_err();
    assert!(matches!(&err, Error::ConfigGenFailed(_)));
    assert_eq!(err.message(), "Failed to generate config: disk full");
}

#[test]
fn only_error_message_names_the_step() {
    let plugins = names(&["android"]);
    let reg = build_registry(&plugins);
    let only = names(&["desktop"]);
    let err = Orchestrator::new(&reg, OpenIn::Nothing, Some(&only), None).unwrap_err();
    assert_eq!(
        err.message(),
        "Failed to parse `only` step list: step \"desktop\" not registered"
    );
}
