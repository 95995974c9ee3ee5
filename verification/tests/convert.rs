use std::str::FromStr;

use ec2hx::ec2hx;
use ec2hx::model::{FileType, IndentStyle};
use ec2hx::HelixLangCfg;

fn plain_lang(
    name: &str,
    indent: Option<(usize, IndentStyle)>,
    exts: &[&str],
    has_formatter: bool,
) -> HelixLangCfg {
    let mut raw = toml_edit::Table::new();
    raw.insert("name", toml_edit::value(name));
    HelixLangCfg {
        name: name.to_string(),
        indent,
        file_types: Some(
            exts.iter().map(|e| FileType::Extension(e.to_string())).collect(),
        ),
        has_formatter,
        raw_toml: raw,
    }
}

fn lang_entry<'a>(
    doc: &'a toml_edit::DocumentMut,
    name: &str,
) -> Option<&'a toml_edit::Table> {
    doc.get("language")?
        .as_array_of_tables()?
        .iter()
        .find(|t| t.get("name").and_then(|n| n.as_str()) == Some(name))
}

#[test]
fn tab_width_survives_catalog_default() {
    // the catalog says two spaces; the input asks for tabs of width four
    let catalog = vec![plain_lang("zig", Some((2, IndentStyle::Space)), &["zig"], false)];
    let input = "root = true\n[*.zig]\nindent_style = tab\ntab_width = 4\n";
    let (_, languages_toml, _) = ec2hx(&catalog, input, vec![], false);
    let doc = toml_edit::DocumentMut::from_str(&languages_toml).unwrap();
    let entry = lang_entry(&doc, "zig").unwrap();
    let indent = entry.get("indent").unwrap();
    assert_eq!(indent.get("unit").unwrap().as_str(), Some("\t"));
    assert_eq!(indent.get("tab-width").unwrap().as_integer(), Some(4));
}

#[test]
fn partial_size_takes_catalog_style() {
    // only indent_size is given; the style comes from the catalog default
    let catalog = vec![plain_lang("zig", Some((2, IndentStyle::Space)), &["zig"], false)];
    let input = "[*.zig]\nindent_size = 4\n";
    let (_, languages_toml, _) = ec2hx(&catalog, input, vec![], false);
    let doc = toml_edit::DocumentMut::from_str(&languages_toml).unwrap();
    let entry = lang_entry(&doc, "zig").unwrap();
    let indent = entry.get("indent").unwrap();
    assert_eq!(indent.get("unit").unwrap().as_str(), Some("    "));
    assert_eq!(indent.get("tab-width").unwrap().as_integer(), Some(4));
}

#[test]
fn global_cascade_reaches_every_language() {
    let catalog = vec![
        plain_lang("alpha", Some((2, IndentStyle::Space)), &["aa"], false),
        plain_lang("beta", Some((8, IndentStyle::Tab)), &["bb"], false),
    ];
    let input = "[*]\nindent_style = tab\nindent_size = 8\n";
    let (_, languages_toml, _) = ec2hx(&catalog, input, vec!["*.foo".to_string()], false);
    let doc = toml_edit::DocumentMut::from_str(&languages_toml).unwrap();
    for name in ["alpha", "beta"] {
        let entry = lang_entry(&doc, name).unwrap();
        let indent = entry.get("indent").unwrap();
        assert_eq!(indent.get("unit").unwrap().as_str(), Some("\t"));
        assert_eq!(indent.get("tab-width").unwrap().as_integer(), Some(8));
    }
    let fb = lang_entry(&doc, "ec2hx-global-fallback-plain-text").unwrap();
    let fts: Vec<String> = fb
        .get("file-types")
        .unwrap()
        .as_array()
        .unwrap()
        .iter()
        .map(|v| {
            v.as_inline_table()
                .unwrap()
                .get("glob")
                .unwrap()
                .as_str()
                .unwrap()
                .to_string()
        })
        .collect();
    assert!(fts.contains(&"*.txt".to_string()));
    assert!(fts.contains(&"*.foo".to_string()));
    assert_eq!(fb.get("scope").unwrap().as_str(), Some("text.plain"));
}

#[test]
fn sections_merge_additively() {
    // two sections resolve to the same canonical language: the earlier
    // size survives, the later style is added
    let catalog = vec![plain_lang("python", None, &["py", "pyi"], false)];
    let input = "[*.py]\nindent_size = 4\n[*.pyi]\nindent_style = space\n";
    let (_, languages_toml, _) = ec2hx(&catalog, input, vec![], false);
    let doc = toml_edit::DocumentMut::from_str(&languages_toml).unwrap();
    let entry = lang_entry(&doc, "python").unwrap();
    let indent = entry.get("indent").unwrap();
    assert_eq!(indent.get("unit").unwrap().as_str(), Some("    "));
    assert_eq!(indent.get("tab-width").unwrap().as_integer(), Some(4));
}

#[test]
fn formatter_suppresses_trimming_by_default() {
    let catalog = vec![plain_lang("rust", None, &["rs"], true)];
    let input = "[*]\ntrim_trailing_whitespace = true\n[*.rs]\nindent_style = space\nindent_size = 4\n";
    let (_, languages_toml, _) = ec2hx(&catalog, input, vec![], false);
    let doc = toml_edit::DocumentMut::from_str(&languages_toml).unwrap();
    let entry = lang_entry(&doc, "rust").unwrap();
    // the catalog language already has a formatter, and the input's global
    // trim request was inherited rather than written for rust explicitly;
    // the inherited request still counts as explicit input
    assert!(entry.get("formatter").is_some());
}

#[test]
fn formatter_not_fought_when_input_silent() {
    let catalog = vec![plain_lang("rust", None, &["rs"], true)];
    let input = "[*.rs]\nindent_style = space\nindent_size = 4\n";
    let (_, languages_toml, _) = ec2hx(&catalog, input, vec![], false);
    let doc = toml_edit::DocumentMut::from_str(&languages_toml).unwrap();
    let entry = lang_entry(&doc, "rust").unwrap();
    assert!(entry.get("formatter").is_none());
    assert!(entry.get("auto-format").is_none());
}

#[test]
fn explicit_trim_request_is_kept() {
    let catalog = vec![plain_lang("rust", None, &["rs"], true)];
    let input = "[*.rs]\ntrim_trailing_whitespace = true\n";
    let (_, languages_toml, _) = ec2hx(&catalog, input, vec![], false);
    let doc = toml_edit::DocumentMut::from_str(&languages_toml).unwrap();
    let entry = lang_entry(&doc, "rust").unwrap();
    let formatter = entry.get("formatter").unwrap();
    assert_eq!(formatter.get("command").unwrap().as_str(), Some("ec2hx"));
    assert_eq!(entry.get("auto-format").unwrap().as_bool(), Some(true));
}

#[test]
fn glob_languages_mapping() {
    let catalog = vec![plain_lang("python", Some((4, IndentStyle::Space)), &["py"], false)];
    let input = "[tools/{perf,power}/**.py]\nindent_size = 8\n";
    let (_, _, glob_languages) = ec2hx(&catalog, input, vec![], false);
    let expected = vec![
        (
            "ec2hx-glob-lang-tools-perf-**.py".to_string(),
            "python".to_string(),
        ),
        (
            "ec2hx-glob-lang-tools-power-**.py".to_string(),
            "python".to_string(),
        ),
    ];
    assert_eq!(glob_languages, expected);
}

#[test]
fn path_glob_confines_override() {
    // package.json is recognized as json but must not override *.json
    let catalog = vec![plain_lang("json", Some((2, IndentStyle::Space)), &["json"], false)];
    let input = "[package.json]\nindent_size = 4\nindent_style = space\n";
    let (_, languages_toml, glob_languages) = ec2hx(&catalog, input, vec![], false);
    let doc = toml_edit::DocumentMut::from_str(&languages_toml).unwrap();
    assert!(lang_entry(&doc, "ec2hx-glob-lang-package.json").is_some());
    assert_eq!(
        glob_languages,
        vec![("ec2hx-glob-lang-package.json".to_string(), "json".to_string())]
    );
}

#[test]
fn unknown_language_gets_synthetic_entry() {
    let catalog: Vec<HelixLangCfg> = Vec::new();
    let input = "[Kconfig]\nindent_style = tab\ntab_width = 8\n";
    let (_, languages_toml, _) = ec2hx(&catalog, input, vec![], false);
    let doc = toml_edit::DocumentMut::from_str(&languages_toml).unwrap();
    let entry = lang_entry(&doc, "ec2hx-unknown-lang-Kconfig").unwrap();
    assert_eq!(entry.get("scope").unwrap().as_str(), Some("text.plain"));
    let indent = entry.get("indent").unwrap();
    assert_eq!(indent.get("unit").unwrap().as_str(), Some("\t"));
    assert_eq!(indent.get("tab-width").unwrap().as_integer(), Some(8));
}

#[test]
fn config_toml_text() {
    let catalog: Vec<HelixLangCfg> = Vec::new();
    let input = "[*]\nend_of_line = lf\ninsert_final_newline = true\nmax_line_length = 100\n";
    let (config_toml, _, _) = ec2hx(&catalog, input, vec![], true);
    assert_eq!(
        config_toml,
        "editor.default-line-ending = \"lf\"\neditor.insert-final-newline = true\neditor.text-width = 100\neditor.rulers = [101]\n"
    );
}

#[test]
fn language_rulers() {
    let catalog = vec![plain_lang("php", None, &["php"], false)];
    let input = "[*.php]\nmax_line_length = 120\n";
    let (_, languages_toml, _) = ec2hx(&catalog, input, vec![], true);
    let doc = toml_edit::DocumentMut::from_str(&languages_toml).unwrap();
    let entry = lang_entry(&doc, "php").unwrap();
    assert_eq!(entry.get("text-width").unwrap().as_integer(), Some(120));
    let rulers = entry.get("rulers").unwrap().as_array().unwrap();
    assert_eq!(rulers.len(), 1);
    assert_eq!(rulers.iter().next().unwrap().as_integer(), Some(121));
}

#[test]
fn unset_value_suppresses_inherited_property() {
    let catalog = vec![plain_lang("zig", None, &["zig"], false)];
    let input = "[*]\nmax_line_length = 80\n[*.zig]\nmax_line_length = unset\n";
    let (_, languages_toml, _) = ec2hx(&catalog, input, vec![], false);
    let doc = toml_edit::DocumentMut::from_str(&languages_toml).unwrap();
    // the zig section unsets the only property it inherited, so it emits no
    // block at all; a bare line length is no cascade trigger either
    assert!(lang_entry(&doc, "zig").is_none());
}

#[test]
fn bad_numeric_value_is_ignored() {
    let catalog = vec![plain_lang("zig", None, &["zig"], false)];
    let input = "[*.zig]\nindent_style = space\nindent_size = banana\n";
    let (_, languages_toml, _) = ec2hx(&catalog, input, vec![], false);
    let doc = toml_edit::DocumentMut::from_str(&languages_toml).unwrap();
    // style alone cannot produce an indent, and nothing else was asked
    assert!(lang_entry(&doc, "zig").is_none());
}

#[test]
fn catalog_passthrough_settings_survive() {
    let mut raw = toml_edit::Table::new();
    raw.insert("name", toml_edit::value("python"));
    raw.insert("injection-regex", toml_edit::value("py"));
    raw.insert("comment-token", toml_edit::value("#"));
    let catalog = vec![HelixLangCfg {
        name: "python".to_string(),
        indent: Some((4, IndentStyle::Space)),
        file_types: Some(vec![FileType::Extension("py".to_string())]),
        has_formatter: false,
        raw_toml: raw,
    }];
    let input = "[vendor/*]\nindent_size = 2\nindent_style = space\n";
    let (_, languages_toml, _) = ec2hx(&catalog, input, vec![], false);
    let doc = toml_edit::DocumentMut::from_str(&languages_toml).unwrap();
    let entry = lang_entry(&doc, "ec2hx-glob-lang-vendor-*-python").unwrap();
    // the synthesized language keeps the catalog's passthrough settings,
    // drops the injection regex, and names its real grammar
    assert_eq!(entry.get("comment-token").unwrap().as_str(), Some("#"));
    assert!(entry.get("injection-regex").is_none());
    assert_eq!(entry.get("grammar").unwrap().as_str(), Some("python"));
    let fts: Vec<String> = entry
        .get("file-types")
        .unwrap()
        .as_array()
        .unwrap()
        .iter()
        .map(|v| {
            v.as_inline_table()
                .unwrap()
                .get("glob")
                .unwrap()
                .as_str()
                .unwrap()
                .to_string()
        })
        .collect();
    assert_eq!(fts, vec!["vendor/*.py".to_string()]);
}

#[test]
fn parse_catalog_from_toml() {
    let catalog_toml = "\
[[language]]\nname = \"python\"\nfile-types = [\"py\", { glob = \"SConstruct\" }]\nindent = { tab-width = 4, unit = \"    \" }\nlanguage-servers = [\"pylsp\"]\n\n[[language]]\nname = \"make\"\nfile-types = [\"mk\"]\nindent = { tab-width = 8, unit = \"\\t\" }\n";
    let langs = ec2hx::parse::languages(catalog_toml).unwrap();
    assert_eq!(langs.len(), 2);
    assert_eq!(langs[0].name, "python");
    assert_eq!(langs[0].indent, Some((4, IndentStyle::Space)));
    assert!(langs[0].has_formatter);
    assert_eq!(
        langs[0].file_types,
        Some(vec![
            FileType::Extension("py".to_string()),
            FileType::Glob("SConstruct".to_string()),
        ])
    );
    assert_eq!(langs[1].indent, Some((8, IndentStyle::Tab)));
    assert!(!langs[1].has_formatter);
}

#[test]
fn malformed_catalog_is_refused() {
    assert!(ec2hx::parse::languages("not = \"a catalog\"").is_none());
    assert!(ec2hx::parse::languages("[[language]]\nfile-types = [\"py\"]\n").is_none());
}

#[test]
fn input_well_formedness_check() {
    assert!(ec2hx::ec_input_well_formed("root = true\n[*]\nindent_size = 4\n; comment\n"));
    assert!(!ec2hx::ec_input_well_formed("[*]\nthis line has no equals sign\n"));
}

#[test]
fn merge_unions_passthrough_settings() {
    let mut base_raw = toml_edit::Table::new();
    base_raw.insert("name", toml_edit::value("python"));
    base_raw.insert("comment-token", toml_edit::value("#"));
    base_raw.insert("shebangs", toml_edit::value("python"));
    let mut catalog = vec![HelixLangCfg {
        name: "python".to_string(),
        indent: Some((4, IndentStyle::Space)),
        file_types: Some(vec![FileType::Extension("py".to_string())]),
        has_formatter: false,
        raw_toml: base_raw,
    }];
    let mut user_raw = toml_edit::Table::new();
    user_raw.insert("comment-token", toml_edit::value("//"));
    let user = vec![HelixLangCfg {
        name: "python".to_string(),
        indent: None,
        file_types: None,
        has_formatter: false,
        raw_toml: user_raw,
    }];
    ec2hx::merge_languages(&mut catalog, user);
    // the user's value wins for its key; untouched base keys survive
    let input = "[vendor/*]\nindent_size = 2\nindent_style = space\n";
    let (_, languages_toml, _) = ec2hx(&catalog, input, vec![], false);
    let doc = toml_edit::DocumentMut::from_str(&languages_toml).unwrap();
    let entry = lang_entry(&doc, "ec2hx-glob-lang-vendor-*-python").unwrap();
    assert_eq!(entry.get("comment-token").unwrap().as_str(), Some("//"));
    assert_eq!(entry.get("shebangs").unwrap().as_str(), Some("python"));
}
