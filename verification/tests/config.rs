use psa_ret::config::Config;
use psa_ret::yaml::YamlValue;

#[test]
fn default_config_values() {
    let c = Config::generate_default_config();
    assert_eq!(c.database_dir, "../PSA-RE/buses/AEE2004.full/HS.IS/");
    assert_eq!(c.default_lang, "en");
}

#[test]
fn config_from_text() {
    let c = Config::from_yaml_str("database_dir: /data/db\ndefault_lang: fr\n").unwrap();
    assert_eq!(c.database_dir, "/data/db");
    assert_eq!(c.default_lang, "fr");
    let partial = Config::from_yaml_str("default_lang: de\ntheme: dark\ndatabase_dir: 5\n").unwrap();
    assert_eq!(partial.database_dir, "../PSA-RE/buses/AEE2004.full/HS.IS/");
    assert_eq!(partial.default_lang, "de");
    let not_a_map = Config::from_yaml_str("- a\n- b\n").unwrap();
    assert_eq!(not_a_map, Config::generate_default_config());
}

#[test]
fn config_text_without_document_or_yaml() {
    assert!(Config::from_yaml_str("").is_none());
    assert!(Config::from_yaml_str("key: [unclosed").is_none());
}

#[test]
fn config_from_yaml_node() {
    let node = YamlValue::Hash(vec![(
        YamlValue::String("database_dir".to_string()),
        YamlValue::String("here".to_string()),
    )]);
    let c = Config::from_yaml(&node);
    assert_eq!(c.database_dir, "here");
    assert_eq!(c.default_lang, "en");
}

#[test]
fn config_file_text_reads_back() {
    let c = Config { database_dir: "/tmp/x y".to_string(), default_lang: "de".to_string() };
    let text = c.to_yaml_str().unwrap();
    assert!(text.contains("database_dir"));
    assert!(text.contains("default_lang"));
    assert_eq!(Config::from_yaml_str(&text).unwrap(), c);
}

#[test]
fn two_entry_mapping_reads_back() {
    let c = Config::from_yaml_str("database_dir: \"a: b\"\ndefault_lang: xx\n").unwrap();
    assert_eq!(c, Config { database_dir: "a: b".to_string(), default_lang: "xx".to_string() });
}
