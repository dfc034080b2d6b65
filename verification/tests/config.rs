use dotenv_config::help::collect_help;
use dotenv_config::resolve::{populate, MapParser, ParseRule};
use dotenv_config::schema::{FieldDecl, SchemaArena};
use dotenv_config::snapshot::EnvSnapshot;
use dotenv_config::value::ConfigValue;

fn decl(name: &str, type_text: &str, attrs: Option<&str>) -> FieldDecl {
    FieldDecl {
        name: name.to_string(),
        type_text: type_text.to_string(),
        attr_clause: attrs.map(|s| s.to_string()),
    }
}

fn rule(ty_name: &str, input: &str, output: &str) -> ParseRule {
    ParseRule {
        ty_name: ty_name.to_string(),
        input: input.to_string(),
        output: output.to_string(),
    }
}

fn color_parser() -> MapParser {
    MapParser {
        rules: vec![
            rule("Color", "red", "red"),
            rule("Color", "green", "green"),
            rule("Color", "blue", "blue"),
        ],
        fallback: "no match color".to_string(),
    }
}

#[test]
fn test_config() {
    let mut arena = SchemaArena::new();
    let redis_decls = vec![
        decl("addr", "String", None),
        decl("port", "String", None),
        decl("auth", "String", None),
        decl(
            "timeout",
            "i32",
            Some("name = \"ZINC_REDIS_TIMEOUT\", default = 30"),
        ),
    ];
    arena.add_record("Redis", &redis_decls).unwrap();
    let config_decls = vec![
        decl("server_addr", "String", Some("default = \"192.168.2.1\"")),
        decl("server_mode", "bool", None),
        decl(
            "enable",
            "bool",
            Some("name = \"ZINC_ENABLE\", default = true, help = \"this is important\""),
        ),
        decl("num", "Option<i64>", Some("name = \"ZINC_NUMBER\", default = 123456")),
        decl("rr", "Redis", None),
        decl("color", "Color", Some("parse, default = \"green\"")),
    ];
    let root = arena.add_record("Config", &config_decls).unwrap();

    let mut env = EnvSnapshot::new();
    env.push("ZINC_ENABLE".to_string(), "false".to_string());
    env.push("ZINC_NUMBER".to_string(), "88888".to_string());
    env.push("CONFIG_SERVER_MODE".to_string(), "false".to_string());
    env.push("REDIS_ADDR".to_string(), "".to_string());
    env.push("REDIS_PORT".to_string(), "".to_string());
    env.push("REDIS_AUTH".to_string(), "".to_string());

    let cfg = populate(&arena, root, &env, &color_parser()).unwrap();
    assert!(matches!(&cfg.fields[0].value, ConfigValue::Text(s) if s == "192.168.2.1"));
    assert!(cfg.fields[1].value == ConfigValue::Boolean(false));
    assert!(cfg.fields[2].value == ConfigValue::Boolean(false));
    assert!(cfg.fields[3].value == ConfigValue::Integer(88888));
    match &cfg.fields[4].value {
        ConfigValue::Record(rr) => {
            assert!(matches!(&rr[0].value, ConfigValue::Text(s) if s.is_empty()));
            assert!(matches!(&rr[1].value, ConfigValue::Text(s) if s.is_empty()));
            assert!(matches!(&rr[2].value, ConfigValue::Text(s) if s.is_empty()));
            assert!(rr[3].value == ConfigValue::Integer(30));
        }
        other => panic!("expected a record, got {:?}", other),
    }
    assert!(cfg.fields[5].value == ConfigValue::Custom("green".to_string()));

    let help_keys = collect_help(&arena, root);
    println!("help_keys: {:?}", help_keys);
    assert!(help_keys.contains_key("ZINC_ENABLE"));
    assert!(help_keys.contains_key("ZINC_NUMBER"));

    let keys = help_keys.get("ZINC_NUMBER").unwrap();
    assert_eq!(keys.0, "123456"); // default value
    assert_eq!(keys.1, None); // help value

    let keys = help_keys.get("ZINC_ENABLE").unwrap();
    assert_eq!(keys.0, "true"); // default value
    assert_eq!(keys.1, Some("this is important".to_string())); // help value
}

#[test]
fn custom_parse_failure_preserves_message() {
    let mut arena = SchemaArena::new();
    let decls = vec![decl("color", "Color", Some("parse"))];
    let root = arena.add_record("Config", &decls).unwrap();
    let mut env = EnvSnapshot::new();
    env.push("CONFIG_COLOR".to_string(), "purple".to_string());
    let err = populate(&arena, root, &env, &color_parser()).unwrap_err();
    match err {
        dotenv_config::resolve::ResolveError::Coercion { field, key, raw, message } => {
            assert_eq!(field, "color");
            assert_eq!(key, "CONFIG_COLOR");
            assert_eq!(raw, "purple");
            assert_eq!(message, Some("no match color".to_string()));
        }
        other => panic!("expected a coercion error, got {:?}", other),
    }
}
