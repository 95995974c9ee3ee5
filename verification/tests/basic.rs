use ec2hx::expand::extract_langs_from_header;
use ec2hx::fmt;
use ec2hx::model::{FileType, IndentStyle};
use ec2hx::{merge_languages, HelixLangCfg};

#[test]
fn trim_trailing_whitespace() {
    let input = "\nnormal line\nthe next line has four spaces\n    \nthe next line has a tab character\n\t\nthis line has trailing spaces    \n        ";
    let expected = "\nnormal line\nthe next line has four spaces\n\nthe next line has a tab character\n\nthis line has trailing spaces\n";
    let actual = fmt::trim_trailing_whitespace(input);
    assert_eq!(actual, expected);
}

#[test]
fn trim_trailing_whitespace_no_newline() {
    let input = "no line break here   ";
    assert_eq!(fmt::trim_trailing_whitespace(input), input);
}

#[test]
fn trim_trailing_whitespace_crlf() {
    let input = "a  \r\nb\t\r\n";
    assert_eq!(fmt::trim_trailing_whitespace(input), "a\r\nb\r\n");
    let input = "a  \r\nb";
    assert_eq!(fmt::trim_trailing_whitespace(input), "a\r\nb");
}

#[test]
fn extract_langs() {
    let actual = extract_langs_from_header("Makefile");
    let expected = vec!["Makefile"];
    assert_eq!(actual, expected);

    let actual = extract_langs_from_header("*.{json,js}");
    let expected = vec!["*.json", "*.js"];
    assert_eq!(actual, expected);

    let actual =
        extract_langs_from_header("{*.{awk,c,dts,dtsi,dtso,h,mk,s,S},Kconfig,Makefile,Makefile.*}");
    let expected = vec![
        "*.awk",
        "*.c",
        "*.dts",
        "*.dtsi",
        "*.dtso",
        "*.h",
        "*.mk",
        "*.s",
        "*.S",
        "Kconfig",
        "Makefile",
        "Makefile.*",
    ];
    assert_eq!(actual, expected);

    let actual = extract_langs_from_header("tools/{perf,power,rcu,testing/kunit}/**.py");
    let expected = vec![
        "tools/perf/**.py",
        "tools/power/**.py",
        "tools/rcu/**.py",
        "tools/testing/kunit/**.py",
    ];
    assert_eq!(actual, expected);
}

#[test]
fn extract_langs_charset() {
    let actual = extract_langs_from_header("*.[ch]");
    let expected = vec!["*.c", "*.h"];
    assert_eq!(actual, expected);
}

#[test]
fn extract_langs_deranged() {
    assert!(extract_langs_from_header("!*.c").is_empty());
    assert!(extract_langs_from_header("a\\b").is_empty());
    assert!(extract_langs_from_header("..").is_empty());
    assert!(extract_langs_from_header("a{b").is_empty());
    assert!(extract_langs_from_header("a}b").is_empty());
    assert!(extract_langs_from_header("a[bc").is_empty());
}

#[test]
fn extract_langs_trailing_comma() {
    let actual = extract_langs_from_header("{*.c,*.h,}");
    let expected = vec!["*.c", "*.h"];
    assert_eq!(actual, expected);
}

#[test]
fn merge_langs() {
    let mut languages = vec![
        HelixLangCfg {
            name: "unchanged".into(),
            indent: Some((2, IndentStyle::Space)),
            file_types: Some(vec![FileType::Glob("*.unchanged".into())]),
            has_formatter: false,
            raw_toml: toml_edit::Table::new(),
        },
        HelixLangCfg {
            name: "partial".into(),
            indent: None,
            file_types: Some(vec![FileType::Glob("*.partial".into())]),
            has_formatter: true,
            raw_toml: toml_edit::Table::new(),
        },
    ];
    let user_languages = vec![
        HelixLangCfg {
            name: "partial".into(),
            indent: Some((4, IndentStyle::Space)),
            file_types: Some(vec![
                FileType::Glob("*.partial".into()),
                FileType::Glob("*.partial.local".into()),
            ]),
            has_formatter: false,
            raw_toml: toml_edit::Table::new(),
        },
        HelixLangCfg {
            name: "new".into(),
            indent: Some((3, IndentStyle::Tab)),
            file_types: Some(vec![FileType::Glob("*.new".into())]),
            has_formatter: false,
            raw_toml: toml_edit::Table::new(),
        },
    ];
    let expected = vec![
        HelixLangCfg {
            name: "unchanged".into(),
            indent: Some((2, IndentStyle::Space)),
            file_types: Some(vec![FileType::Glob("*.unchanged".into())]),
            has_formatter: false,
            raw_toml: toml_edit::Table::new(),
        },
        HelixLangCfg {
            name: "partial".into(),
            indent: Some((4, IndentStyle::Space)),
            file_types: Some(vec![
                FileType::Glob("*.partial".into()),
                FileType::Glob("*.partial.local".into()),
            ]),
            has_formatter: true,
            raw_toml: toml_edit::Table::new(),
        },
        HelixLangCfg {
            name: "new".into(),
            indent: Some((3, IndentStyle::Tab)),
            file_types: Some(vec![FileType::Glob("*.new".into())]),
            has_formatter: false,
            raw_toml: toml_edit::Table::new(),
        },
    ];
    merge_languages(&mut languages, user_languages);

    assert_eq!(languages, expected);
}
