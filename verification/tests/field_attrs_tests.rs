use blockfmt::field_attrs::{
    AttrMeta, ConfigOptionAttribute, MetaEntry, StrPair, TryFromConfigOptionAttributeError,
};
use semver::Version;
use std::str::FromStr;

fn pair(name: &str, value: &str) -> StrPair {
    StrPair {
        name: name.to_string(),
        value: value.to_string(),
    }
}

#[test]
fn extract_stable_config_option() {
    let attrs = vec![AttrMeta::List(
        "config_option".to_string(),
        vec![
            MetaEntry::StrValue("stable".to_string(), "1.0.0".to_string()),
            MetaEntry::StrValue("default".to_string(), "100".to_string()),
        ],
    )];
    let attr = ConfigOptionAttribute::try_from(&attrs).unwrap();
    assert_eq!(attr.default_value(), "100");
    assert_eq!(
        attr.stable().map(|s| Version::from_str(s).unwrap()),
        Version::from_str("1.0.0").ok()
    );
    assert!(attr.deprecated().is_none());
}

#[test]
fn extract_deprecated_config_option() {
    let attrs = vec![
        AttrMeta::Other,
        AttrMeta::List(
            "config_option".to_string(),
            vec![
                MetaEntry::StrValue("default".to_string(), "true".to_string()),
                MetaEntry::List(
                    "deprecated".to_string(),
                    vec![
                        pair("version", "1.2.0"),
                        pair("alternative", "Use the other config option."),
                    ],
                ),
            ],
        ),
    ];
    let attr = ConfigOptionAttribute::try_from(&attrs).unwrap();
    let (version, alternative) = attr.deprecated().unwrap();
    assert_eq!(
        Version::from_str(version).unwrap(),
        Version::from_str("1.2.0").unwrap()
    );
    assert_eq!(alternative, "Use the other config option.");
    assert!(attr.stable().is_none());
}

#[test]
fn config_option_not_found() {
    let attrs = vec![AttrMeta::Other, AttrMeta::List("doc".to_string(), vec![])];
    let r = ConfigOptionAttribute::try_from(&attrs);
    assert!(matches!(r, Err(TryFromConfigOptionAttributeError::NotFound)));
}

#[test]
fn config_option_without_default_is_invalid() {
    let attrs = vec![AttrMeta::List(
        "config_option".to_string(),
        vec![MetaEntry::StrValue("stable".to_string(), "1.0.0".to_string())],
    )];
    let r = ConfigOptionAttribute::try_from(&attrs);
    assert!(matches!(r, Err(TryFromConfigOptionAttributeError::Invalid)));
}

#[test]
fn config_option_both_stable_and_deprecated_is_invalid() {
    let attrs = vec![AttrMeta::List(
        "config_option".to_string(),
        vec![
            MetaEntry::StrValue("stable".to_string(), "1.0.0".to_string()),
            MetaEntry::StrValue("default".to_string(), "100".to_string()),
            MetaEntry::List(
                "deprecated".to_string(),
                vec![
                    pair("version", "1.2.0"),
                    pair("alternative", "Use the other config option."),
                ],
            ),
        ],
    )];
    let r = ConfigOptionAttribute::try_from(&attrs);
    assert!(matches!(r, Err(TryFromConfigOptionAttributeError::Invalid)));
}

#[test]
fn unparseable_versions_are_passed_over() {
    let attrs = vec![AttrMeta::List(
        "config_option".to_string(),
        vec![
            MetaEntry::StrValue("stable".to_string(), "not a version".to_string()),
            MetaEntry::StrValue("stable".to_string(), "2.1.0".to_string()),
            MetaEntry::StrValue("default".to_string(), "0".to_string()),
        ],
    )];
    let attr = ConfigOptionAttribute::try_from(&attrs).unwrap();
    assert_eq!(attr.stable().map(|s| s.as_str()), Some("2.1.0"));
}
