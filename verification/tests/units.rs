use dotenv_config::attrs::resolve_attrs;
use dotenv_config::coerce::{parse_bool, parse_i64};
use dotenv_config::schema::{
    derive_key, BuilderContext, FieldDecl, FieldTy, SchemaArena, SchemaError,
};

fn decl(name: &str, type_text: &str, attrs: Option<&str>) -> FieldDecl {
    FieldDecl {
        name: name.to_string(),
        type_text: type_text.to_string(),
        attr_clause: attrs.map(|s| s.to_string()),
    }
}

#[test]
fn attrs_split_and_clean() {
    let got = resolve_attrs("name = \"ZINC_FOO\", default = true, help = \"foo is important\"")
        .unwrap();
    assert_eq!(
        got,
        vec![
            ("name".to_string(), "ZINC_FOO".to_string()),
            ("default".to_string(), "true".to_string()),
            ("help".to_string(), "foo is important".to_string()),
        ]
    );
}

#[test]
fn attrs_bare_flag_maps_to_empty_value() {
    let got = resolve_attrs("parse").unwrap();
    assert_eq!(got, vec![("parse".to_string(), "".to_string())]);
}

#[test]
fn attrs_comma_inside_quotes_does_not_split() {
    let got = resolve_attrs("help = \"one, two\", default = 3").unwrap();
    assert_eq!(
        got,
        vec![
            ("help".to_string(), "one, two".to_string()),
            ("default".to_string(), "3".to_string()),
        ]
    );
}

#[test]
fn attrs_quotes_and_padding_are_stripped() {
    let got = resolve_attrs("  'name'  =  'ZINC_X'  ").unwrap();
    assert_eq!(got, vec![("name".to_string(), "ZINC_X".to_string())]);
}

#[test]
fn attrs_unterminated_quote_is_malformed() {
    assert!(resolve_attrs("help = \"oops").is_none());
}

#[test]
fn attrs_empty_key_is_malformed() {
    assert!(resolve_attrs("= 3").is_none());
    assert!(resolve_attrs("a = 1,").is_none());
}

#[test]
fn attrs_value_keeps_text_after_first_equals() {
    let got = resolve_attrs("default = a=b").unwrap();
    assert_eq!(got, vec![("default".to_string(), "a=b".to_string())]);
}

#[test]
fn bool_coercion_is_case_insensitive() {
    assert_eq!(parse_bool("true"), Some(true));
    assert_eq!(parse_bool("TRUE"), Some(true));
    assert_eq!(parse_bool("False"), Some(false));
    assert_eq!(parse_bool("fAlSe"), Some(false));
    assert_eq!(parse_bool("yes"), None);
    assert_eq!(parse_bool(""), None);
    assert_eq!(parse_bool("truey"), None);
}

#[test]
fn int_coercion_parses_base_10() {
    assert_eq!(parse_i64("0"), Some(0));
    assert_eq!(parse_i64("30"), Some(30));
    assert_eq!(parse_i64("-17"), Some(-17));
    assert_eq!(parse_i64("+88888"), Some(88888));
    assert_eq!(parse_i64("9223372036854775807"), Some(i64::MAX));
    assert_eq!(parse_i64("-9223372036854775808"), Some(i64::MIN));
}

#[test]
fn int_coercion_rejects_overflow_and_junk() {
    assert_eq!(parse_i64("9223372036854775808"), None);
    assert_eq!(parse_i64("-9223372036854775809"), None);
    assert_eq!(parse_i64("99999999999999999999999999"), None);
    assert_eq!(parse_i64(""), None);
    assert_eq!(parse_i64("-"), None);
    assert_eq!(parse_i64("1 2"), None);
    assert_eq!(parse_i64("12.5"), None);
    assert_eq!(parse_i64("soon"), None);
}

#[test]
fn derive_key_is_upper_snake_of_record_and_field() {
    assert_eq!(derive_key("Config", "server_addr"), "CONFIG_SERVER_ADDR");
    assert_eq!(derive_key("Redis", "addr"), "REDIS_ADDR");
    assert_eq!(derive_key("Config", "serverAddr"), "CONFIG_SERVER_ADDR");
    // Determinism: the same inputs give the same key.
    assert_eq!(derive_key("Config", "num"), derive_key("Config", "num"));
}

#[test]
fn uppersnake_converts_case() {
    let ctx = BuilderContext { name: "Config".to_string(), fields: vec![] };
    assert_eq!(ctx.uppersnake("Config_server_addr"), "CONFIG_SERVER_ADDR");
    assert_eq!(ctx.uppersnake("camelCaseName"), "CAMEL_CASE_NAME");
}

#[test]
fn contains_finds_needle() {
    let ctx = BuilderContext { name: "Config".to_string(), fields: vec![] };
    assert!(ctx.contains(&["a", "b", "c"], "b"));
    assert!(!ctx.contains(&["a", "b", "c"], "d"));
    assert!(!ctx.contains(&[], "a"));
}

#[test]
fn extractor_strips_optional_wrapper() {
    let mut arena = SchemaArena::new();
    let decls = vec![decl("num", "Option<i64>", None), decl("plain", "i64", None)];
    let root = arena.add_record("Config", &decls).unwrap();
    let rec = &arena.records[root];
    assert!(rec.fields[0].optional);
    assert_eq!(rec.fields[0].ty, FieldTy::Integer);
    assert!(!rec.fields[1].optional);
    assert_eq!(rec.fields[1].ty, FieldTy::Integer);
}

#[test]
fn extractor_classifies_primitives_registry_and_custom() {
    let mut arena = SchemaArena::new();
    let inner = arena.add_record("Inner", &vec![decl("x", "string", None)]).unwrap();
    let decls = vec![
        decl("a", "String", None),
        decl("b", "bool", None),
        decl("c", "u32", None),
        decl("d", "Inner", None),
        decl("e", "Color", Some("parse")),
        decl("f", "Option<Color>", Some("parse = true")),
    ];
    let root = arena.add_record("Config", &decls).unwrap();
    let rec = &arena.records[root];
    assert_eq!(rec.fields[0].ty, FieldTy::Text);
    assert_eq!(rec.fields[1].ty, FieldTy::Boolean);
    assert_eq!(rec.fields[2].ty, FieldTy::Integer);
    assert_eq!(rec.fields[3].ty, FieldTy::Nested(inner));
    assert_eq!(rec.fields[4].ty, FieldTy::Custom("Color".to_string()));
    assert_eq!(rec.fields[5].ty, FieldTy::Custom("Color".to_string()));
    assert!(rec.fields[5].optional);
}

#[test]
fn extractor_rejects_unknown_type() {
    let mut arena = SchemaArena::new();
    let decls = vec![decl("w", "Whatever", None)];
    let err = arena.add_record("Config", &decls).unwrap_err();
    assert_eq!(
        err,
        SchemaError::UnresolvableType {
            field: "w".to_string(),
            type_text: "Whatever".to_string(),
        }
    );
}

#[test]
fn extractor_rejects_malformed_attributes() {
    let mut arena = SchemaArena::new();
    let decls = vec![decl("w", "bool", Some("default = \"unterminated"))];
    let err = arena.add_record("Config", &decls).unwrap_err();
    assert_eq!(
        err,
        SchemaError::MalformedAttributes {
            field: "w".to_string(),
            clause: "default = \"unterminated".to_string(),
        }
    );
}

#[test]
fn extractor_duplicate_attribute_last_wins() {
    let mut arena = SchemaArena::new();
    let decls = vec![decl("n", "string", Some("default = \"a\", default = \"b\""))];
    let root = arena.add_record("Config", &decls).unwrap();
    assert_eq!(arena.records[root].fields[0].default_lit, "b");
}

#[test]
fn extractor_ignores_unrecognized_attributes() {
    let mut arena = SchemaArena::new();
    let decls = vec![decl("n", "string", Some("frobnicate = 9, default = \"a\""))];
    let root = arena.add_record("Config", &decls).unwrap();
    assert_eq!(arena.records[root].fields[0].default_lit, "a");
}

#[test]
fn extractor_clears_default_on_nested_records() {
    let mut arena = SchemaArena::new();
    arena.add_record("Inner", &vec![decl("x", "string", Some("default = \"v\""))]).unwrap();
    let decls = vec![decl("inner", "Inner", Some("default = \"whole\""))];
    let root = arena.add_record("Config", &decls).unwrap();
    assert_eq!(arena.records[root].fields[0].default_lit, "");
}
