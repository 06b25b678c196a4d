use std::time::Duration;

use ui_automata::executor::Vars;
use ui_automata::registry::Tier;
use ui_automata::selector::SelectorPath;
use ui_automata::step::RetryPolicy;
use ui_automata::yaml::{
    check_anchor_name, default_retry, env_token, launch_process_name, recovery_limit,
    resolve_params, substitute_text, AnchorKind, Defaults, DefaultsRecovery, LaunchConfig,
    ParamDef, YamlAnchor, YamlPhaseRecovery,
};
use ui_automata::registry::LaunchWait;

fn param(name: &str, default: Option<&str>) -> ParamDef {
    ParamDef {
        name: name.to_string(),
        description: None,
        default: default.map(|d| d.to_string()),
    }
}

fn vars(pairs: &[(&str, &str)]) -> Vars {
    let mut v = Vars::new();
    for (k, val) in pairs {
        v.insert(k.to_string(), val.to_string());
    }
    v
}

#[test]
fn params_given_value_wins_over_default() {
    let defs = vec![param("file_path", Some("a.txt")), param("mode", Some("fast"))];
    let r = resolve_params(&defs, &vars(&[("file_path", "b.txt")])).unwrap();
    assert_eq!(r.get("file_path").map(|s| s.as_str()), Some("b.txt"));
    assert_eq!(r.get("mode").map(|s| s.as_str()), Some("fast"));
    assert_eq!(r.len(), 2);
}

#[test]
fn params_required_missing_is_error() {
    let defs = vec![param("save_dir", None)];
    match resolve_params(&defs, &Vars::new()) {
        Err(e) => assert_eq!(e, "required parameter '--save-dir' not provided"),
        Ok(_) => panic!("expected an error"),
    }
}

#[test]
fn params_unknown_given_is_error() {
    let defs = vec![param("a", Some("1"))];
    match resolve_params(&defs, &vars(&[("not_declared", "x")])) {
        Err(e) => assert_eq!(e, "unknown parameter '--not-declared'"),
        Ok(_) => panic!("expected an error"),
    }
}

#[test]
fn params_none_declared_none_given() {
    let r = resolve_params(&vec![], &Vars::new()).unwrap();
    assert_eq!(r.len(), 0);
}

#[test]
fn substitute_params_and_dir() {
    let p = vars(&[("name", "World"), ("n", "3")]);
    assert_eq!(
        substitute_text("Hello {param.name} x{param.n}", &p, None),
        "Hello World x3"
    );
    assert_eq!(
        substitute_text("{workflow.dir}/sub.yml", &p, Some("/flows")),
        "/flows/sub.yml"
    );
    assert_eq!(
        substitute_text("{workflow.dir}/sub.yml", &p, None),
        "{workflow.dir}/sub.yml"
    );
    assert_eq!(substitute_text("{param.other}", &p, None), "{param.other}");
}

#[test]
fn env_token_splits_first_token() {
    assert_eq!(
        env_token("pre {env.HOME}/x {env.USER}"),
        Some((
            "pre ".to_string(),
            "HOME".to_string(),
            "/x {env.USER}".to_string()
        ))
    );
    assert_eq!(env_token("no tokens"), None);
    assert_eq!(env_token("{env.UNCLOSED"), None);
}

#[test]
fn launch_process_name_from_target() {
    assert_eq!(launch_process_name("notepad.exe"), "notepad");
    assert_eq!(launch_process_name(r"C:\Program Files\App\MyApp.exe"), "myapp");
    assert_eq!(launch_process_name("/usr/bin/tool"), "tool");
    assert_eq!(launch_process_name("a.exe.exe"), "a");
}

#[test]
fn anchor_names_starting_with_colon_refused() {
    assert!(check_anchor_name("app").is_ok());
    assert_eq!(
        check_anchor_name(":1:app"),
        Err("anchor name ':1:app' must not start with ':'".to_string())
    );
}

#[test]
fn recovery_limit_precedence() {
    let d = DefaultsRecovery::default();
    assert_eq!(recovery_limit(None, &d), 10);
    let d5 = DefaultsRecovery { limit: Some(5) };
    assert_eq!(recovery_limit(None, &d5), 5);
    let p = YamlPhaseRecovery { handlers: vec![], limit: Some(2) };
    assert_eq!(recovery_limit(Some(&p), &d5), 2);
    let p_none = YamlPhaseRecovery::default();
    assert_eq!(recovery_limit(Some(&p_none), &d5), 5);
}

#[test]
fn defaults_and_default_retry() {
    let d = Defaults::default();
    assert!(d.timeout.is_none());
    assert!(!d.action_snapshot);
    match d.retry {
        RetryPolicy::Fixed { count, delay } => {
            assert_eq!(count, 1);
            assert_eq!(delay, Duration::from_secs(1));
        }
        other => panic!("unexpected {other:?}"),
    }
    assert!(matches!(default_retry(), RetryPolicy::Fixed { count: 1, .. }));
}

#[test]
fn launch_target_prefers_app() {
    let mut c = LaunchConfig {
        exe: Some("notepad.exe".into()),
        app: Some("Microsoft.App".into()),
        timeout: None,
        wait: LaunchWait::default(),
        wait_for: None,
    };
    assert_eq!(c.target(), Ok("Microsoft.App".to_string()));
    c.app = None;
    assert_eq!(c.target(), Ok("notepad.exe".to_string()));
    c.exe = None;
    assert_eq!(
        c.target(),
        Err("launch: requires either `exe` or `app`".to_string())
    );
}

#[test]
fn yaml_anchor_into_def_kinds() {
    let root = YamlAnchor {
        kind: AnchorKind::Root,
        selector: Some(SelectorPath::parse("[name=App]").unwrap()),
        parent: Some("ignored".into()),
        process: Some("app".into()),
        pid: Some(3),
    };
    let d = root.into_def("app".into());
    assert_eq!(d.tier, Tier::Root);
    assert!(d.parent.is_none());
    assert_eq!(d.pid, Some(3));
    assert_eq!(d.process_name.as_deref(), Some("app"));
    assert_eq!(d.selector.to_string(), "[name=App]");

    let browser = YamlAnchor {
        kind: AnchorKind::Browser,
        selector: Some(SelectorPath::parse("[name~=Edge]").unwrap()),
        parent: None,
        process: None,
        pid: Some(9),
    };
    let b = browser.into_def("browser".into());
    assert_eq!(b.tier, Tier::Browser);
    assert!(b.selector.is_wildcard());
    assert_eq!(b.pid, None);
    assert_eq!(b.process_name.as_deref(), Some("msedge"));

    let tab = YamlAnchor {
        kind: AnchorKind::Tab,
        selector: None,
        parent: Some("browser".into()),
        process: Some("x".into()),
        pid: Some(1),
    };
    let t = tab.into_def("tab".into());
    assert_eq!(t.tier, Tier::Tab);
    assert_eq!(t.parent.as_deref(), Some("browser"));
    assert!(t.selector.is_wildcard());
    assert!(t.process_name.is_none());
    assert!(t.pid.is_none());
}

#[test]
fn missing_required_param_errors() {
    let result = resolve_params(&vec![param("required_thing", None)], &Vars::new());
    assert!(result.is_err());
    assert!(result.err().unwrap().contains("required-thing"));
}

#[test]
fn unknown_param_errors() {
    let result = resolve_params(&vec![param("text", Some("hi"))], &vars(&[("unknown_key", "val")]));
    assert!(result.is_err());
    assert!(result.err().unwrap().contains("unknown-key"));
}
