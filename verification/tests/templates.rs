use aws_login::error::Error;
use aws_login::json::{parse_templates, serialize_templates};
use aws_login::template::{
    convert_value, get_profiles, Profile, SettingValue, Template, Templates,
};

fn get_setting(profile: &Profile, key: &str) -> String {
    for (k, v) in profile.settings() {
        if k == key {
            return v.clone();
        }
    }
    panic!("the setting {} is missing", key);
}

fn number(n: i64) -> SettingValue {
    SettingValue::Number(n.to_string())
}

fn text(s: &str) -> SettingValue {
    SettingValue::Text(s.to_string())
}

fn message_of(e: &Error) -> String {
    e.message().clone().expect("the error carries no message")
}

#[test]
fn template_to_profile() {
    let mut templates = Templates::new();

    templates.insert(
        "a".to_owned(),
        Template::new(
            false,
            None,
            vec![
                ("alpha".to_owned(), number(1)),
                ("gamma".to_owned(), number(2)),
                ("epsilon".to_owned(), number(3)),
            ],
        ),
    );

    templates.insert(
        "b".to_owned(),
        Template::new(
            false,
            Some("a".to_owned()),
            vec![
                ("beta".to_owned(), number(4)),
                ("delta".to_owned(), number(5)),
                ("zeta".to_owned(), number(6)),
            ],
        ),
    );

    templates.insert(
        "c".to_owned(),
        Template::new(
            true,
            Some("b".to_owned()),
            vec![("alpha".to_owned(), number(7)), ("zeta".to_owned(), number(8))],
        ),
    );

    let profile = templates
        .get("c")
        .unwrap()
        .to_profile("c", &templates)
        .unwrap();

    assert_eq!(get_setting(&profile, "alpha"), "7");
    assert_eq!(get_setting(&profile, "beta"), "4");
    assert_eq!(get_setting(&profile, "gamma"), "2");
    assert_eq!(get_setting(&profile, "delta"), "5");
    assert_eq!(get_setting(&profile, "epsilon"), "3");
    assert_eq!(get_setting(&profile, "zeta"), "8");
}

#[test]
fn resolving_two_level_chain() {
    let mut templates = Templates::new();
    templates.insert(
        "a".to_owned(),
        Template::new(true, None, vec![("k1".to_owned(), text("1"))]),
    );
    templates.insert(
        "b".to_owned(),
        Template::new(true, Some("a".to_owned()), vec![("k2".to_owned(), text("2"))]),
    );

    let profile = templates
        .get("b")
        .unwrap()
        .to_profile("b", &templates)
        .unwrap();

    assert_eq!(profile.name(), "b");
    assert_eq!(profile.settings().len(), 2);
    assert_eq!(get_setting(&profile, "k1"), "1");
    assert_eq!(get_setting(&profile, "k2"), "2");
}

#[test]
fn resolving_missing_parent_fails() {
    let mut templates = Templates::new();
    templates.insert(
        "c".to_owned(),
        Template::new(true, Some("missing".to_owned()), vec![]),
    );

    let error = templates
        .get("c")
        .unwrap()
        .to_profile("c", &templates)
        .unwrap_err();

    assert_eq!(error.status(), 1);
    let message = message_of(&error);
    assert!(message.contains("c"));
    assert!(message.contains("missing"));
    assert_eq!(message, "c: The profile template, missing, does not exist.");
}

#[test]
fn resolving_cycle_fails() {
    let mut templates = Templates::new();
    templates.insert(
        "a".to_owned(),
        Template::new(true, Some("b".to_owned()), vec![]),
    );
    templates.insert(
        "b".to_owned(),
        Template::new(true, Some("a".to_owned()), vec![]),
    );

    let error = templates
        .get("a")
        .unwrap()
        .to_profile("a", &templates)
        .unwrap_err();

    assert_eq!(error.status(), 1);
    assert_eq!(
        message_of(&error),
        "The profile template, a, has a cycle in its extends chain."
    );
}

#[test]
fn resolving_self_cycle_fails() {
    let mut templates = Templates::new();
    templates.insert(
        "a".to_owned(),
        Template::new(true, Some("a".to_owned()), vec![]),
    );

    let error = templates
        .get("a")
        .unwrap()
        .to_profile("a", &templates)
        .unwrap_err();

    assert_eq!(error.status(), 1);
}

#[test]
fn array_value_is_a_conversion_error() {
    let mut templates = Templates::new();
    templates.insert(
        "a".to_owned(),
        Template::new(true, None, vec![("k".to_owned(), SettingValue::Array)]),
    );

    let error = templates
        .get("a")
        .unwrap()
        .to_profile("a", &templates)
        .unwrap_err();

    assert_eq!(error.status(), 1);
    assert_eq!(
        message_of(&error),
        "The array and object values are not supported."
    );
    assert_eq!(error.context().len(), 1);
    assert_eq!(error.context()[0], "Could not convert the value of, k.");
}

#[test]
fn ancestor_array_value_names_the_ancestor() {
    let mut templates = Templates::new();
    templates.insert(
        "base".to_owned(),
        Template::new(false, None, vec![("k".to_owned(), SettingValue::Object)]),
    );
    templates.insert(
        "child".to_owned(),
        Template::new(true, Some("base".to_owned()), vec![]),
    );

    let error = templates
        .get("child")
        .unwrap()
        .to_profile("child", &templates)
        .unwrap_err();

    assert_eq!(error.status(), 1);
    assert_eq!(
        error.context()[0],
        "Could not convert the value of, k, in the profile template, base."
    );
}

#[test]
fn shadowed_bad_value_is_skipped() {
    // The nearer template sets the key, so the ancestor's array under the
    // same key is never converted.
    let mut templates = Templates::new();
    templates.insert(
        "base".to_owned(),
        Template::new(false, None, vec![("k".to_owned(), SettingValue::Array)]),
    );
    templates.insert(
        "child".to_owned(),
        Template::new(true, Some("base".to_owned()), vec![("k".to_owned(), text("ok"))]),
    );

    let profile = templates
        .get("child")
        .unwrap()
        .to_profile("child", &templates)
        .unwrap();

    assert_eq!(get_setting(&profile, "k"), "ok");
}

#[test]
fn convert_value_forms() {
    assert_eq!(convert_value(&SettingValue::Null).unwrap(), "");
    assert_eq!(convert_value(&SettingValue::Flag(true)).unwrap(), "true");
    assert_eq!(convert_value(&SettingValue::Flag(false)).unwrap(), "false");
    assert_eq!(convert_value(&number(42)).unwrap(), "42");
    assert_eq!(convert_value(&text("hello")).unwrap(), "hello");
    assert!(convert_value(&SettingValue::Array).is_err());
    assert!(convert_value(&SettingValue::Object).is_err());
}

#[test]
fn profiles_skip_disabled_templates() {
    let mut templates = Templates::new();
    templates.insert(
        "visible".to_owned(),
        Template::new(true, None, vec![("k".to_owned(), text("v"))]),
    );
    templates.insert("hidden".to_owned(), Template::new(false, None, vec![]));

    let profiles = get_profiles(&templates).unwrap();

    assert_eq!(profiles.len(), 1);
    assert!(profiles.get("visible").is_some());
    assert!(profiles.get("hidden").is_none());
}

#[test]
fn profiles_surface_the_first_failure() {
    let mut templates = Templates::new();
    templates.insert(
        "bad".to_owned(),
        Template::new(true, Some("missing".to_owned()), vec![]),
    );

    let error = get_profiles(&templates).unwrap_err();
    assert_eq!(error.status(), 1);
    assert_eq!(
        message_of(&error),
        "bad: The profile template, missing, does not exist."
    );
}

#[test]
fn merge_prefers_remote_templates() {
    let mut local = Templates::new();
    local.insert("a".to_owned(), Template::new(true, None, vec![("k".to_owned(), text("old"))]));
    local.insert("b".to_owned(), Template::new(true, None, vec![]));

    let mut remote = Templates::new();
    remote.insert("a".to_owned(), Template::new(true, None, vec![("k".to_owned(), text("new"))]));
    remote.insert("c".to_owned(), Template::new(false, None, vec![]));

    local.merge(remote);

    assert_eq!(local.len(), 3);
    let profile = local.get("a").unwrap().to_profile("a", &local).unwrap();
    assert_eq!(get_setting(&profile, "k"), "new");
    assert!(local.get("c").is_some());
}

#[test]
fn round_trip_preserves_the_collection() {
    let mut templates = Templates::new();
    templates.insert(
        "base".to_owned(),
        Template::new(
            false,
            None,
            vec![
                ("flag".to_owned(), SettingValue::Flag(true)),
                ("none".to_owned(), SettingValue::Null),
                ("count".to_owned(), number(12)),
                ("word".to_owned(), text("value with \"quotes\" and \\ and\nnewlines")),
            ],
        ),
    );
    templates.insert(
        "child".to_owned(),
        Template::new(true, Some("base".to_owned()), vec![("region".to_owned(), text("eu-west-1"))]),
    );

    let written = serialize_templates(&templates);
    let read = parse_templates(written.as_bytes()).unwrap();

    assert!(templates.same_collection(&read));
    assert!(read.same_collection(&templates));
}

#[test]
fn serialized_document_shape() {
    let mut templates = Templates::new();
    templates.insert(
        "a".to_owned(),
        Template::new(
            true,
            Some("base".to_owned()),
            vec![("key".to_owned(), text("va\"lue"))],
        ),
    );

    let written = serialize_templates(&templates);

    assert_eq!(
        written,
        "{\n  \"a\": {\n    \"enabled\": true,\n    \"extends\": \"base\",\n    \"settings\": {\n      \"key\": \"va\\\"lue\"\n    }\n  }\n}"
    );
}

#[test]
fn round_trip_of_empty_collection() {
    let templates = Templates::new();
    let written = serialize_templates(&templates);
    assert_eq!(written, "{}");

    let read = parse_templates(written.as_bytes()).unwrap();
    assert_eq!(read.len(), 0);
    assert!(templates.same_collection(&read));
}

#[test]
fn parse_reads_the_documented_shape() {
    let document = r#"{
  "a": {
    "settings": { "k1": "1" }
  },
  "b": {
    "enabled": false,
    "extends": "a",
    "settings": { "k2": 2, "k3": true, "k4": null }
  }
}"#;

    let templates = parse_templates(document.as_bytes()).unwrap();
    assert_eq!(templates.len(), 2);

    let a = templates.get("a").unwrap();
    assert!(a.enabled());
    assert!(a.extends().is_none());

    let b = templates.get("b").unwrap();
    assert!(!b.enabled());
    assert_eq!(b.extends().as_deref(), Some("a"));

    let profile = b.to_profile("b", &templates).unwrap();
    assert_eq!(get_setting(&profile, "k1"), "1");
    assert_eq!(get_setting(&profile, "k2"), "2");
    assert_eq!(get_setting(&profile, "k3"), "true");
    assert_eq!(get_setting(&profile, "k4"), "");
}

#[test]
fn parse_rejects_malformed_json() {
    let error = parse_templates(b"{ not json").unwrap_err();
    assert_eq!(error.status(), 1);
    assert!(error.message().is_some());
}

#[test]
fn parse_rejects_a_scalar_document() {
    let error = parse_templates(b"42").unwrap_err();
    assert_eq!(error.status(), 1);
    assert_eq!(
        message_of(&error),
        "The templates document is not a JSON object."
    );
}

#[test]
fn parse_rejects_a_template_without_settings() {
    let error = parse_templates(br#"{ "a": { "enabled": true } }"#).unwrap_err();
    assert_eq!(error.status(), 1);
    assert_eq!(
        message_of(&error),
        "The profile template, a, does not name any settings."
    );
}

#[test]
fn parse_ignores_unknown_fields() {
    let templates =
        parse_templates(br#"{ "a": { "color": "blue", "settings": { "k": "v" } } }"#).unwrap();

    let a = templates.get("a").unwrap();
    assert!(a.enabled());
    assert_eq!(a.settings().len(), 1);
}

#[test]
fn parse_rejects_a_template_that_is_not_an_object() {
    let error = parse_templates(br#"{ "a": 3 }"#).unwrap_err();
    assert_eq!(error.status(), 1);
    assert_eq!(
        message_of(&error),
        "The profile template, a, is not a JSON object."
    );
}

#[test]
fn parse_rejects_a_bad_enabled_flag() {
    let error = parse_templates(br#"{ "a": { "enabled": "yes", "settings": {} } }"#).unwrap_err();
    assert_eq!(error.status(), 1);
    assert_eq!(
        message_of(&error),
        "The profile template, a, does not have a boolean enabled flag."
    );
}

#[test]
fn parse_rejects_a_bad_extends_reference() {
    let error = parse_templates(br#"{ "a": { "extends": 7, "settings": {} } }"#).unwrap_err();
    assert_eq!(error.status(), 1);
    assert_eq!(
        message_of(&error),
        "The profile template, a, does not extend another template by name or null."
    );
}

#[test]
fn parse_rejects_settings_that_are_not_an_object() {
    let error = parse_templates(br#"{ "a": { "settings": [1] } }"#).unwrap_err();
    assert_eq!(error.status(), 1);
    assert_eq!(
        message_of(&error),
        "The profile template, a, does not hold its settings in a JSON object."
    );
}

#[test]
fn parse_keeps_arrays_for_resolution_to_reject() {
    let templates = parse_templates(br#"{ "a": { "settings": { "k": [1, 2] } } }"#).unwrap();
    let error = templates
        .get("a")
        .unwrap()
        .to_profile("a", &templates)
        .unwrap_err();

    assert_eq!(error.status(), 1);
    assert_eq!(
        message_of(&error),
        "The array and object values are not supported."
    );
    assert_eq!(error.context()[0], "Could not convert the value of, k.");
}
