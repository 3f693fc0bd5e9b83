//! The application's configuration: where the message database lies and which language
//! comments are shown in, read from and written to a YAML file.
use vstd::prelude::*;

use crate::text::str_is;
use crate::yaml::{
    emit_string_map, load_yaml_documents, yaml_documents, yaml_emitted_string_map,
    YamlValue,
};

verus! {

/// The application's configuration.
#[derive(Debug, Clone, PartialEq)]
pub struct Config {
    pub database_dir: String,
    pub default_lang: String,
}

/// Model of a `Config`.
pub struct ConfigView {
    pub database_dir: Seq<char>,
    pub default_lang: Seq<char>,
}

impl View for Config {
    type V = ConfigView;

    open spec fn view(&self) -> ConfigView {
        ConfigView { database_dir: self.database_dir@, default_lang: self.default_lang@ }
    }
}

/// The configuration used when no configuration file exists.
pub open spec fn default_config() -> ConfigView {
    ConfigView {
        database_dir: "../PSA-RE/buses/AEE2004.full/HS.IS/"@,
        default_lang: "en"@,
    }
}

/// One mapping entry of a configuration file: `database_dir` and `default_lang` with a
/// string value set that setting; anything else is ignored.
pub open spec fn config_entry(c: ConfigView, key: YamlValue, value: YamlValue) -> ConfigView {
    match (key, value) {
        (YamlValue::String(k), YamlValue::String(v)) => {
            if k@ == "database_dir"@ {
                ConfigView { database_dir: v@, ..c }
            } else if k@ == "default_lang"@ {
                ConfigView { default_lang: v@, ..c }
            } else {
                c
            }
        },
        _ => c,
    }
}

/// The configuration that the mapping entries give, applied in order to the default.
pub open spec fn config_entries(entries: Seq<(YamlValue, YamlValue)>) -> ConfigView
    decreases entries.len(),
{
    if entries.len() == 0 {
        default_config()
    } else {
        config_entry(config_entries(entries.drop_last()), entries.last().0, entries.last().1)
    }
}

/// The configuration a YAML document describes; a document that is not a mapping gives the
/// default.
pub open spec fn config_of(root: YamlValue) -> ConfigView {
    match root {
        YamlValue::Hash(entries) => config_entries(entries@),
        _ => default_config(),
    }
}

/// Loaded documents can be read as a configuration: the text is YAML with a first document.
pub open spec fn config_documents_ok(docs: Option<Seq<YamlValue>>) -> bool {
    docs matches Some(d) && d.len() > 0
}

/// The text of a configuration file: a mapping of `database_dir` and then `default_lang` to
/// their values, as the YAML emitter writes it.
pub open spec fn config_file_text(c: ConfigView) -> Option<Seq<char>> {
    yaml_emitted_string_map(seq![("database_dir"@, c.database_dir), ("default_lang"@, c.default_lang)])
}

impl Config {
    /// The configuration used when no configuration file exists.
    pub fn generate_default_config() -> (c: Config)
        ensures
            c@ == default_config(),
    {
        Config {
            database_dir: "../PSA-RE/buses/AEE2004.full/HS.IS/".to_owned(),
            default_lang: "en".to_owned(),
        }
    }

    /// Applies one mapping entry of a configuration file.
    fn apply_entry(&mut self, key: &YamlValue, value: &YamlValue)
        ensures
            final(self)@ == config_entry(old(self)@, *key, *value),
    {
        if let (YamlValue::String(k), YamlValue::String(v)) = (key, value) {
            if str_is(k.as_str(), "database_dir") {
                self.database_dir = v.clone();
            } else if str_is(k.as_str(), "default_lang") {
                self.default_lang = v.clone();
            }
        }
    }

    /// The configuration a YAML document describes: its mapping entries are applied in
    /// order to the default configuration.
    pub fn from_yaml(root: &YamlValue) -> (c: Config)
        ensures
            c@ == config_of(*root),
    {
        let mut c = Config::generate_default_config();
        if let YamlValue::Hash(entries) = root {
            let mut i: usize = 0;
            while i < entries.len()
                invariant
                    i <= entries.len(),
                    c@ == config_entries(entries@.take(i as int)),
                decreases entries.len() - i,
            {
                assert(entries@.take(i + 1).drop_last() =~= entries@.take(i as int));
                c.apply_entry(&entries[i].0, &entries[i].1);
                i = i + 1;
            }
            assert(entries@.take(entries.len() as int) =~= entries@);
        }
        c
    }

    /// Reads the configuration from the text of a configuration file where that can be
    /// done: `None` exactly where the text is no YAML or has no document.
    pub fn from_yaml_str(text: &str) -> (r: Option<Config>)
        ensures
            r is None <==> !config_documents_ok(yaml_documents(text@)),
            r matches Some(c) ==> c@ == config_of(yaml_documents(text@).unwrap()[0]),
    {
        let docs = load_yaml_documents(text);
        match docs {
            Some(d) => {
                if d.len() == 0 {
                    None
                } else {
                    Some(Config::from_yaml(&d[0]))
                }
            },
            None => None,
        }
    }

    /// The text of the configuration file for this configuration; `None` where the YAML
    /// emitter reports an error.
    pub fn to_yaml_str(&self) -> (r: Option<String>)
        ensures
            r.deep_view() == config_file_text(self@),
    {
        let mut entries: Vec<(String, String)> = Vec::new();
        entries.push(("database_dir".to_owned(), self.database_dir.clone()));
        entries.push(("default_lang".to_owned(), self.default_lang.clone()));
        assert(entries.deep_view() =~= seq![
            ("database_dir"@, self.database_dir@),
            ("default_lang"@, self.default_lang@),
        ]);
        emit_string_map(&entries)
    }
}

/// A mapping entry whose key and value are strings with the given texts.
pub open spec fn is_string_entry(entry: (YamlValue, YamlValue), key: Seq<char>, value: Seq<char>) -> bool {
    entry matches (YamlValue::String(k), YamlValue::String(v)) && k@ == key && v@ == value
}

/// A document that maps `database_dir` and then `default_lang` to the texts of a
/// configuration (the mapping a configuration file is written as) reads back as that
/// configuration.
pub proof fn lemma_config_mapping_reads_back(root: YamlValue, c: ConfigView)
    requires
        root matches YamlValue::Hash(entries) && entries@.len() == 2
            && is_string_entry(entries@[0], "database_dir"@, c.database_dir)
            && is_string_entry(entries@[1], "default_lang"@, c.default_lang),
    ensures
        config_of(root) == c,
{
    reveal_strlit("database_dir");
    reveal_strlit("default_lang");
    if let YamlValue::Hash(entries) = root {
        let e = entries@;
        assert(e.drop_last().drop_last() =~= Seq::<(YamlValue, YamlValue)>::empty());
        assert(e.drop_last().last() == e[0]);
        assert("database_dir"@[1] != "default_lang"@[1]);
        let first = config_entries(e.drop_last());
        assert(first.database_dir == c.database_dir);
        assert(config_entries(e) == config_entry(first, e[1].0, e[1].1));
    }
}

/// The text an entry gives the setting `name`: its value, when the entry's key is the string
/// `name` and its value a string.
pub open spec fn string_setting(entry: (YamlValue, YamlValue), name: Seq<char>) -> Option<Seq<char>> {
    match entry {
        (YamlValue::String(k), YamlValue::String(v)) => if k@ == name {
            Some(v@)
        } else {
            None
        },
        _ => None,
    }
}

/// Reading a configuration file, each entry sets only its own setting: a string
/// `database_dir` entry sets the database directory and leaves the language as it was, a
/// string `default_lang` entry sets the language and leaves the directory as it was, and any
/// other entry changes nothing.
pub proof fn lemma_config_entry_effects(entries: Seq<(YamlValue, YamlValue)>)
    requires
        entries.len() > 0,
    ensures
        ({
            let before = config_entries(entries.drop_last());
            let after = config_entries(entries);
            let dir = string_setting(entries.last(), "database_dir"@);
            let lang = string_setting(entries.last(), "default_lang"@);
            &&& dir matches Some(v) ==> after.database_dir == v && after.default_lang == before.default_lang
            &&& lang matches Some(v) ==> after.default_lang == v && after.database_dir == before.database_dir
            &&& dir is None && lang is None ==> after == before
        }),
{
    reveal_strlit("database_dir");
    reveal_strlit("default_lang");
    assert("database_dir"@[1] != "default_lang"@[1]);
}

/// The two settings of a configuration file can be written in either order: both orders
/// read as the configuration with those texts.
pub proof fn lemma_config_key_order(first: YamlValue, second: YamlValue, c: ConfigView)
    requires
        first matches YamlValue::Hash(entries) && entries@.len() == 2
            && is_string_entry(entries@[0], "database_dir"@, c.database_dir)
            && is_string_entry(entries@[1], "default_lang"@, c.default_lang),
        second matches YamlValue::Hash(entries) && entries@.len() == 2
            && is_string_entry(entries@[0], "default_lang"@, c.default_lang)
            && is_string_entry(entries@[1], "database_dir"@, c.database_dir),
    ensures
        config_of(first) == c,
        config_of(second) == c,
{
    lemma_config_mapping_reads_back(first, c);
    reveal_strlit("database_dir");
    reveal_strlit("default_lang");
    assert("database_dir"@[1] != "default_lang"@[1]);
    if let YamlValue::Hash(entries) = second {
        let e = entries@;
        assert(e.drop_last().drop_last() =~= Seq::<(YamlValue, YamlValue)>::empty());
        assert(e.drop_last().last() == e[0]);
        assert(config_entries(e.drop_last().drop_last()) == default_config());
        let one = config_entries(e.drop_last());
        assert(one == config_entry(default_config(), e[0].0, e[0].1));
        assert(one.default_lang == c.default_lang);
        assert(one.database_dir == default_config().database_dir);
        assert(config_entries(e) == config_entry(one, e[1].0, e[1].1));
    }
}

} // verus!
