use ir::environ::build;
use ir::spec::{Env, EnvInherit};

fn pairs(v: &[(&str, &str)]) -> Vec<(String, String)> {
    v.iter().map(|(a, b)| (a.to_string(), b.to_string())).collect()
}

fn sorted(mut v: Vec<(String, String)>) -> Vec<(String, String)> {
    v.sort();
    v
}

#[test]
fn inherit_all_then_override() {
    let start = pairs(&[("HOME", "/root"), ("PATH", "/bin"), ("USER", "me")]);
    let spec = Env { inherit: EnvInherit::All, vars: pairs(&[("PATH", "/usr/bin"), ("FOO", "42")]) };
    assert_eq!(
        sorted(build(start, &spec)),
        sorted(pairs(&[("FOO", "42"), ("HOME", "/root"), ("PATH", "/usr/bin"), ("USER", "me")]))
    );
}

#[test]
fn inherit_nothing() {
    let start = pairs(&[("HOME", "/root")]);
    let spec = Env { inherit: EnvInherit::Nothing, vars: pairs(&[("BAR", "somewhere with drinks")]) };
    assert_eq!(build(start, &spec), pairs(&[("BAR", "somewhere with drinks")]));
}

#[test]
fn inherit_named_vars() {
    let start = pairs(&[("HOME", "/root"), ("SHELL", "sh"), ("USER", "me"), ("HOME", "/home")]);
    let spec = Env {
        inherit: EnvInherit::Vars(vec!["HOME".to_string(), "USER".to_string(), "PATH".to_string()]),
        vars: Vec::new(),
    };
    assert_eq!(sorted(build(start, &spec)), sorted(pairs(&[("HOME", "/home"), ("USER", "me")])));
}

#[test]
fn default_env_inherits_all() {
    let spec = Env::default();
    assert!(matches!(spec.inherit, EnvInherit::All));
    assert!(spec.vars.is_empty());
    assert_eq!(build(pairs(&[("A", "1")]), &spec), pairs(&[("A", "1")]));
}
