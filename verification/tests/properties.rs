use dotenv_config::help::collect_help;
use dotenv_config::resolve::{populate, MapParser, ResolveError};
use dotenv_config::schema::{FieldDecl, SchemaArena};
use dotenv_config::snapshot::EnvSnapshot;
use dotenv_config::value::ConfigValue;

fn decl(name: &str, type_text: &str, attrs: Option<&str>) -> FieldDecl {
    FieldDecl {
        name: name.to_string(),
        type_text: type_text.to_string(),
        attr_clause: attrs.map(|s| s.to_string()),
    }
}

fn no_custom() -> MapParser {
    MapParser { rules: vec![], fallback: "no parse capability".to_string() }
}

/// An example schema: `Config { server_addr, enable, redis }` with
/// `Redis { timeout }`.
fn example_arena() -> (SchemaArena, usize) {
    let mut arena = SchemaArena::new();
    let redis_decls = vec![decl(
        "timeout",
        "integer",
        Some("name = \"ZINC_REDIS_TIMEOUT\", default = 30"),
    )];
    arena.add_record("Redis", &redis_decls).unwrap();
    let config_decls = vec![
        decl("server_addr", "string", Some("default = \"192.168.2.1\"")),
        decl("enable", "bool", Some("name = \"ZINC_ENABLE\", default = true")),
        decl("redis", "Redis", None),
    ];
    let root = arena.add_record("Config", &config_decls).unwrap();
    (arena, root)
}

#[test]
fn example_snapshot_overrides_one_default() {
    let (arena, root) = example_arena();
    let mut env = EnvSnapshot::new();
    env.push("ZINC_ENABLE".to_string(), "false".to_string());
    let cfg = populate(&arena, root, &env, &no_custom()).unwrap();
    assert!(matches!(&cfg.fields[0].value, ConfigValue::Text(s) if s == "192.168.2.1"));
    assert!(cfg.fields[1].value == ConfigValue::Boolean(false));
    match &cfg.fields[2].value {
        ConfigValue::Record(redis) => {
            assert!(redis[0].value == ConfigValue::Integer(30));
        }
        other => panic!("expected a record, got {:?}", other),
    }
}

#[test]
fn example_empty_snapshot_takes_all_defaults() {
    let (arena, root) = example_arena();
    let env = EnvSnapshot::new();
    let cfg = populate(&arena, root, &env, &no_custom()).unwrap();
    assert!(matches!(&cfg.fields[0].value, ConfigValue::Text(s) if s == "192.168.2.1"));
    assert!(cfg.fields[1].value == ConfigValue::Boolean(true));
    match &cfg.fields[2].value {
        ConfigValue::Record(redis) => {
            assert!(redis[0].value == ConfigValue::Integer(30));
        }
        other => panic!("expected a record, got {:?}", other),
    }

    let help = collect_help(&arena, root);
    assert_eq!(help.entries.len(), 3);
    assert_eq!(help.entries[0].key, "CONFIG_SERVER_ADDR");
    assert_eq!(help.entries[0].default_lit, "192.168.2.1");
    assert_eq!(help.entries[0].help, None);
    let enable = help.get("ZINC_ENABLE").unwrap();
    assert_eq!(enable.0, "true");
    assert_eq!(enable.1, None);
    let timeout = help.get("ZINC_REDIS_TIMEOUT").unwrap();
    assert_eq!(timeout.0, "30");
    assert_eq!(timeout.1, None);
}

#[test]
fn bool_yes_fails_with_coercion_error() {
    let (arena, root) = example_arena();
    let mut env = EnvSnapshot::new();
    env.push("ZINC_ENABLE".to_string(), "yes".to_string());
    let err = populate(&arena, root, &env, &no_custom()).unwrap_err();
    assert_eq!(
        err,
        ResolveError::Coercion {
            field: "enable".to_string(),
            key: "ZINC_ENABLE".to_string(),
            raw: "yes".to_string(),
            message: None,
        }
    );
}

#[test]
fn env_value_wins_over_default() {
    let (arena, root) = example_arena();
    let mut env = EnvSnapshot::new();
    env.push("CONFIG_SERVER_ADDR".to_string(), "10.0.0.7".to_string());
    let cfg = populate(&arena, root, &env, &no_custom()).unwrap();
    assert!(matches!(&cfg.fields[0].value, ConfigValue::Text(s) if s == "10.0.0.7"));
}

#[test]
fn optional_without_default_is_absent() {
    let mut arena = SchemaArena::new();
    let decls = vec![decl("num", "Option<i64>", None)];
    let root = arena.add_record("Config", &decls).unwrap();
    let env = EnvSnapshot::new();
    let cfg = populate(&arena, root, &env, &no_custom()).unwrap();
    assert!(cfg.fields[0].value == ConfigValue::Absent);
}

#[test]
fn required_without_default_is_missing() {
    let mut arena = SchemaArena::new();
    let decls = vec![decl("num", "i64", None)];
    let root = arena.add_record("Config", &decls).unwrap();
    let env = EnvSnapshot::new();
    let err = populate(&arena, root, &env, &no_custom()).unwrap_err();
    assert_eq!(
        err,
        ResolveError::MissingRequiredValue {
            field: "num".to_string(),
            key: "CONFIG_NUM".to_string(),
        }
    );
}

#[test]
fn nested_keys_use_own_record_name() {
    // The same Inner record nested under two differently named parents
    // resolves from the same keys.
    let mut arena = SchemaArena::new();
    let inner_decls = vec![decl("port", "integer", None)];
    arena.add_record("Inner", &inner_decls).unwrap();
    let a_decls = vec![decl("inner", "Inner", None)];
    let root_a = arena.add_record("OuterA", &a_decls).unwrap();
    let b_decls = vec![decl("deeply_nested_inner", "Inner", None)];
    let root_b = arena.add_record("OuterB", &b_decls).unwrap();

    let mut env = EnvSnapshot::new();
    env.push("INNER_PORT".to_string(), "8080".to_string());
    let cfg_a = populate(&arena, root_a, &env, &no_custom()).unwrap();
    let cfg_b = populate(&arena, root_b, &env, &no_custom()).unwrap();
    match (&cfg_a.fields[0].value, &cfg_b.fields[0].value) {
        (ConfigValue::Record(fa), ConfigValue::Record(fb)) => {
            assert!(fa[0].value == ConfigValue::Integer(8080));
            assert!(fb[0].value == ConfigValue::Integer(8080));
        }
        other => panic!("expected two records, got {:?}", other),
    }
    let help_a = collect_help(&arena, root_a);
    let help_b = collect_help(&arena, root_b);
    assert_eq!(help_a.entries[0].key, "INNER_PORT");
    assert_eq!(help_b.entries[0].key, "INNER_PORT");
}

#[test]
fn help_last_entry_wins_on_duplicate_keys() {
    let mut arena = SchemaArena::new();
    let decls = vec![
        decl("first", "string", Some("name = \"SHARED\", default = \"one\"")),
        decl("second", "string", Some("name = \"SHARED\", default = \"two\"")),
    ];
    let root = arena.add_record("Config", &decls).unwrap();
    let help = collect_help(&arena, root);
    assert_eq!(help.entries.len(), 2);
    let got = help.get("SHARED").unwrap();
    assert_eq!(got.0, "two");
}

#[test]
fn optional_with_default_takes_default() {
    let mut arena = SchemaArena::new();
    let decls = vec![decl("num", "Option<i64>", Some("default = 5"))];
    let root = arena.add_record("Config", &decls).unwrap();
    let env = EnvSnapshot::new();
    let cfg = populate(&arena, root, &env, &no_custom()).unwrap();
    assert!(cfg.fields[0].value == ConfigValue::Integer(5));
}

#[test]
fn custom_parse_from_snapshot_value() {
    let mut arena = SchemaArena::new();
    let decls = vec![decl("color", "Color", Some("parse, default = \"green\""))];
    let root = arena.add_record("Config", &decls).unwrap();
    let parser = MapParser {
        rules: vec![dotenv_config::resolve::ParseRule {
            ty_name: "Color".to_string(),
            input: "red".to_string(),
            output: "red".to_string(),
        }],
        fallback: "no match color".to_string(),
    };
    let mut env = EnvSnapshot::new();
    env.push("CONFIG_COLOR".to_string(), "red".to_string());
    let cfg = populate(&arena, root, &env, &parser).unwrap();
    assert!(cfg.fields[0].value == ConfigValue::Custom("red".to_string()));
}

#[test]
fn populate_is_atomic_on_failure() {
    let (arena, root) = example_arena();
    let mut env = EnvSnapshot::new();
    env.push("ZINC_REDIS_TIMEOUT".to_string(), "soon".to_string());
    assert!(populate(&arena, root, &env, &no_custom()).is_err());
}
