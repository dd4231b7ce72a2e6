use vault_transform::config::{Config, ServiceConfig};
use vault_transform::context::{ConfigEnvironment, Context};
use vault_transform::envmap::EnvMap;
use vault_transform::errors::PluginError;
use vault_transform::interpolate::interpolate;
use vault_transform::plugin::{display_name, Plugin};
use vault_transform::ps::ActOn;
use vault_transform::tree::{File, Service};
use vault_transform::vault::{MockVault, TokenSource, Vault};

fn rails_context() -> Context {
    Context {
        project: "rails_hello".to_owned(),
        ovr: "production".to_owned(),
        pod: "frontend".to_owned(),
    }
}

fn rails_config() -> Config {
    Config {
        default_policies: vec![
            "$PROJECT-$OVERRIDE".to_owned(),
            "$PROJECT-$OVERRIDE-$POD-$SERVICE".to_owned(),
            "$PROJECT-$OVERRIDE-ssl".to_owned(),
        ],
        pods: vec![],
        default_ttl: 2592000,
        extra_environment: vec![("VAULT_ENV".to_owned(), "$OVERRIDE".to_owned())],
    }
}

fn one_service_file(name: &str) -> File {
    File {
        services: vec![Service {
            name: name.to_owned(),
            environment: EnvMap::new(),
        }],
    }
}

#[test]
fn interpolates_policies() {
    let ctx = rails_context();
    let vault = MockVault::new();
    let mut plugin = Plugin::new_with_generator(rails_config(), TokenSource::Mock(vault));

    let mut file = one_service_file("web");
    plugin.transform(&ctx, &mut file).unwrap();
    let web = file.get_service("web").unwrap();
    assert_eq!(
        web.environment.get("VAULT_ADDR").expect("has VAULT_ADDR"),
        "http://example.com:8200/"
    );
    assert_eq!(
        web.environment.get("VAULT_TOKEN").expect("has VAULT_TOKEN"),
        "fake_token"
    );
    assert_eq!(
        web.environment.get("VAULT_ENV").expect("has VAULT_ENV"),
        "production"
    );

    let calls = match &plugin.generator {
        TokenSource::Mock(m) => m.calls(),
        TokenSource::Live(_) => panic!("expected the mock"),
    };
    assert_eq!(calls.len(), 1);
    assert_eq!(calls[0].display_name, "rails_hello-production-frontend-web");
    assert_eq!(
        calls[0].policies,
        &[
            "rails_hello-production".to_owned(),
            "rails_hello-production-frontend-web".to_owned(),
            "rails_hello-production-ssl".to_owned()
        ]
    );
    assert_eq!(calls[0].ttl, 2592000);
}

#[test]
fn errors_when_act_on_specifies_multiple_containers() {
    assert!(!ActOn::All.single_target());
    assert!(!ActOn::Named(vec!["a".to_owned(), "b".to_owned()]).single_target());
    assert!(ActOn::Named(vec!["frontend".to_owned()]).single_target());
}

#[test]
fn display_name_follows_identity() {
    let ctx = rails_context();
    assert_eq!(
        display_name(&ctx, "web"),
        "rails_hello-production-frontend-web"
    );
    let other = Context {
        project: "p".to_owned(),
        ovr: "o".to_owned(),
        pod: "q".to_owned(),
    };
    assert_eq!(display_name(&other, "s"), "p-o-q-s");
}

#[test]
fn interpolation_passes_plain_text_through() {
    let ctx = rails_context();
    let env = ConfigEnvironment {
        ctx: &ctx,
        service: "web",
    };
    assert_eq!(interpolate("no references here", &env).unwrap(), "no references here");
    assert_eq!(interpolate("", &env).unwrap(), "");
}

#[test]
fn interpolation_expands_both_reference_forms() {
    let ctx = rails_context();
    let env = ConfigEnvironment {
        ctx: &ctx,
        service: "web",
    };
    assert_eq!(interpolate("$PROJECT", &env).unwrap(), "rails_hello");
    assert_eq!(interpolate("${PROJECT}", &env).unwrap(), "rails_hello");
    assert_eq!(
        interpolate("$PROJECT-$OVERRIDE-$POD-$SERVICE", &env).unwrap(),
        "rails_hello-production-frontend-web"
    );
    assert_eq!(interpolate("a${POD}b", &env).unwrap(), "afrontendb");
}

#[test]
fn interpolation_escapes_and_literals() {
    let ctx = rails_context();
    let env = ConfigEnvironment {
        ctx: &ctx,
        service: "web",
    };
    assert_eq!(interpolate("a$$b", &env).unwrap(), "a$b");
    assert_eq!(interpolate("100$ 200$", &env).unwrap(), "100$ 200$");
    assert_eq!(interpolate("$-", &env).unwrap(), "$-");
}

#[test]
fn interpolation_rejects_unknown_names() {
    let ctx = rails_context();
    let env = ConfigEnvironment {
        ctx: &ctx,
        service: "web",
    };
    match interpolate("$NOPE", &env) {
        Err(PluginError::UndefinedVariable(name)) => assert_eq!(name, "NOPE"),
        other => panic!("expected an undefined variable, got {:?}", other.is_ok()),
    }
    match interpolate("${}", &env) {
        Err(PluginError::UndefinedVariable(name)) => assert_eq!(name, ""),
        _ => panic!("expected an undefined variable"),
    }
    match interpolate("${POD", &env) {
        Err(PluginError::UndefinedVariable(name)) => assert_eq!(name, "POD"),
        _ => panic!("expected an undefined variable"),
    }
}

#[test]
fn resolver_knows_the_four_names_only() {
    let ctx = rails_context();
    let env = ConfigEnvironment {
        ctx: &ctx,
        service: "web",
    };
    assert_eq!(env.var("PROJECT").unwrap(), "rails_hello");
    assert_eq!(env.var("OVERRIDE").unwrap(), "production");
    assert_eq!(env.var("POD").unwrap(), "frontend");
    assert_eq!(env.var("SERVICE").unwrap(), "web");
    match env.var("HOME") {
        Err(PluginError::UndefinedVariable(name)) => assert_eq!(name, "HOME"),
        _ => panic!("the resolver must not know HOME"),
    }
}

#[test]
fn composes_pod_specific_policies_in_order() {
    let mut config = rails_config();
    config.pods = vec![(
        "frontend".to_owned(),
        vec![(
            "web".to_owned(),
            ServiceConfig {
                policies: vec!["extra-$SERVICE".to_owned(), "$PROJECT-$OVERRIDE".to_owned()],
            },
        )],
    )];
    let ctx = rails_context();
    let plugin = Plugin::new_with_generator(config, TokenSource::Mock(MockVault::new()));
    let policies = plugin.resolved_policies(&ctx, "web").unwrap();
    assert_eq!(
        policies,
        vec![
            "rails_hello-production".to_owned(),
            "rails_hello-production-frontend-web".to_owned(),
            "rails_hello-production-ssl".to_owned(),
            "extra-web".to_owned(),
            "rails_hello-production".to_owned(),
        ]
    );
    let alone = plugin.resolved_policies(&ctx, "worker").unwrap();
    assert_eq!(alone.len(), 3);
}

#[test]
fn should_enable_follows_config_presence() {
    assert!(Plugin::should_enable_for(true));
    assert!(!Plugin::should_enable_for(false));
}

#[test]
fn aborts_on_unresolved_variable_and_keeps_earlier_mutations() {
    let mut config = rails_config();
    config.pods = vec![(
        "frontend".to_owned(),
        vec![(
            "bad".to_owned(),
            ServiceConfig {
                policies: vec!["$UNKNOWN_NAME".to_owned()],
            },
        )],
    )];
    let ctx = rails_context();
    let mut plugin = Plugin::new_with_generator(config, TokenSource::Mock(MockVault::new()));
    let mut file = File {
        services: vec![
            Service {
                name: "web".to_owned(),
                environment: EnvMap::new(),
            },
            Service {
                name: "bad".to_owned(),
                environment: EnvMap::new(),
            },
            Service {
                name: "later".to_owned(),
                environment: EnvMap::new(),
            },
        ],
    };
    match plugin.transform(&ctx, &mut file) {
        Err(PluginError::UndefinedVariable(name)) => assert_eq!(name, "UNKNOWN_NAME"),
        _ => panic!("expected an undefined variable to abort the transform"),
    }
    let web = file.get_service("web").unwrap();
    assert_eq!(
        web.environment.get("VAULT_TOKEN").expect("kept its token"),
        "fake_token"
    );
    assert_eq!(
        web.environment.get("VAULT_ENV").expect("kept its extras"),
        "production"
    );
    let bad = file.get_service("bad").unwrap();
    assert_eq!(
        bad.environment.get("VAULT_ADDR").expect("address goes in first"),
        "http://example.com:8200/"
    );
    assert!(bad.environment.get("VAULT_TOKEN").is_none());
    let later = file.get_service("later").unwrap();
    assert!(later.environment.get("VAULT_ADDR").is_none());
}

#[test]
fn extra_environment_failure_keeps_token_and_earlier_extras() {
    let mut config = rails_config();
    config.extra_environment = vec![
        ("FIRST".to_owned(), "$POD".to_owned()),
        ("SECOND".to_owned(), "$MISSING".to_owned()),
        ("THIRD".to_owned(), "$PROJECT".to_owned()),
    ];
    let ctx = rails_context();
    let mut plugin = Plugin::new_with_generator(config, TokenSource::Mock(MockVault::new()));
    let mut file = one_service_file("web");
    match plugin.transform(&ctx, &mut file) {
        Err(PluginError::UndefinedVariable(name)) => assert_eq!(name, "MISSING"),
        _ => panic!("expected an undefined variable to abort the transform"),
    }
    let web = file.get_service("web").unwrap();
    assert_eq!(web.environment.get("FIRST").expect("first extra applied"), "frontend");
    assert!(web.environment.get("SECOND").is_none());
    assert!(web.environment.get("THIRD").is_none());
    assert_eq!(
        web.environment.get("VAULT_TOKEN").expect("token applied before extras"),
        "fake_token"
    );
}

#[test]
fn extra_environment_overwrites_reserved_keys() {
    let mut config = rails_config();
    config.extra_environment = vec![
        ("VAULT_ADDR".to_owned(), "overwritten-$POD".to_owned()),
        ("VAULT_TOKEN".to_owned(), "not-a-token".to_owned()),
    ];
    let ctx = rails_context();
    let mut plugin = Plugin::new_with_generator(config, TokenSource::Mock(MockVault::new()));
    let mut file = one_service_file("web");
    plugin.transform(&ctx, &mut file).unwrap();
    let web = file.get_service("web").unwrap();
    assert_eq!(
        web.environment.get("VAULT_ADDR").expect("has VAULT_ADDR"),
        "overwritten-frontend"
    );
    assert_eq!(
        web.environment.get("VAULT_TOKEN").expect("has VAULT_TOKEN"),
        "not-a-token"
    );
}

#[test]
fn environment_insert_overwrites_and_get_finds() {
    let mut env = EnvMap::new();
    assert!(env.get("A").is_none());
    env.insert("A".to_owned(), "1".to_owned());
    env.insert("B".to_owned(), "2".to_owned());
    assert_eq!(env.get("A").unwrap(), "1");
    env.insert("A".to_owned(), "3".to_owned());
    assert_eq!(env.get("A").unwrap(), "3");
    assert_eq!(env.get("B").unwrap(), "2");
    assert!(env.contains("B"));
    assert!(!env.contains("C"));
}

#[test]
fn live_backend_requires_both_configuration_values() {
    match Vault::new(None, Some("token".to_owned())) {
        Err(PluginError::ConfigurationMissing) => {}
        _ => panic!("a missing address must refuse construction"),
    }
    match Vault::new(Some("http://127.0.0.1:8200".to_owned()), None) {
        Err(PluginError::ConfigurationMissing) => {}
        _ => panic!("a missing credential must refuse construction"),
    }
    let v = Vault::new(
        Some("http://127.0.0.1:8200".to_owned()),
        Some("token".to_owned()),
    )
    .unwrap();
    assert_eq!(v.addr(), "http://127.0.0.1:8200");
}

#[test]
fn plugin_reports_its_name() {
    let plugin = Plugin::new_with_generator(rails_config(), TokenSource::Mock(MockVault::new()));
    assert_eq!(plugin.name(), "vault");
}

#[test]
fn every_service_is_processed_in_order() {
    let ctx = rails_context();
    let mut plugin = Plugin::new_with_generator(rails_config(), TokenSource::Mock(MockVault::new()));
    let mut file = File {
        services: vec![
            Service {
                name: "api".to_owned(),
                environment: EnvMap::new(),
            },
            Service {
                name: "web".to_owned(),
                environment: EnvMap::new(),
            },
        ],
    };
    plugin.transform(&ctx, &mut file).unwrap();
    let calls = match &plugin.generator {
        TokenSource::Mock(m) => m.calls(),
        TokenSource::Live(_) => panic!("expected the mock"),
    };
    assert_eq!(calls.len(), 2);
    assert_eq!(calls[0].display_name, "rails_hello-production-frontend-api");
    assert_eq!(calls[1].display_name, "rails_hello-production-frontend-web");
}
