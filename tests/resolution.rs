use hoard::hoard::{
    Error, Hoard, MultipleEntries, Pile, ResolvedHoard, ResolvedMultiple, ResolvedPile,
};
use hoard::pile_config::{Encryption, PileConfig};
use hoard::resolver::{resolve, ResolveError};

fn entries(items: &[(&str, &str)]) -> Vec<(String, String)> {
    items
        .iter()
        .map(|(k, v)| (k.to_string(), v.to_string()))
        .collect()
}

fn envs(items: &[(&str, bool)]) -> Vec<(String, bool)> {
    items.iter().map(|(k, v)| (k.to_string(), *v)).collect()
}

fn groups(items: &[&[&str]]) -> Vec<Vec<String>> {
    items
        .iter()
        .map(|g| g.iter().map(|n| n.to_string()).collect())
        .collect()
}

#[test]
fn most_specific_condition_wins() {
    let items = entries(&[("work", "/work/conf"), ("work|laptop", "/work/conf/laptop")]);
    let truth = envs(&[("work", true), ("laptop", true)]);
    assert_eq!(
        resolve(&items, &Vec::new(), &truth),
        Ok(Some("/work/conf/laptop".to_string()))
    );
}

#[test]
fn less_specific_condition_applies_when_more_does_not() {
    let items = entries(&[("work", "/work/conf"), ("work|laptop", "/work/conf/laptop")]);
    let truth = envs(&[("work", true), ("laptop", false)]);
    assert_eq!(
        resolve(&items, &Vec::new(), &truth),
        Ok(Some("/work/conf".to_string()))
    );
}

#[test]
fn same_names_spelled_differently_are_ambiguous() {
    let items = entries(&[("a|b", "X"), ("b|a", "Y")]);
    let truth = envs(&[("a", true), ("b", true)]);
    let r = resolve(&items, &Vec::new(), &truth);
    assert_eq!(
        r,
        Err(ResolveError::AmbiguousMatch("a|b".to_string(), "b|a".to_string()))
    );
}

#[test]
fn same_names_are_rejected_even_when_inactive() {
    let items = entries(&[("c", "Z"), ("a|b", "X"), ("b|a", "Y")]);
    let truth = envs(&[("a", false), ("c", true)]);
    assert_eq!(
        resolve(&items, &Vec::new(), &truth),
        Err(ResolveError::AmbiguousMatch("a|b".to_string(), "b|a".to_string()))
    );
}

#[test]
fn same_key_twice_is_rejected() {
    let items = entries(&[("a", "X"), ("a", "Y")]);
    let truth = envs(&[("a", false)]);
    assert_eq!(
        resolve(&items, &Vec::new(), &truth),
        Err(ResolveError::AmbiguousMatch("a".to_string(), "a".to_string()))
    );
}

#[test]
fn tie_names_first_and_last_best() {
    let items = entries(&[("a", "X"), ("b|c", "Q"), ("b", "Y"), ("c", "Z")]);
    let truth = envs(&[("a", true), ("b", true), ("c", false)]);
    assert_eq!(
        resolve(&items, &Vec::new(), &truth),
        Err(ResolveError::AmbiguousMatch("a".to_string(), "b".to_string()))
    );
    let truth = envs(&[("a", true), ("b", true), ("c", true)]);
    assert_eq!(
        resolve(&items, &Vec::new(), &truth),
        Ok(Some("Q".to_string()))
    );
    let items = entries(&[("a", "X"), ("b", "Y"), ("c", "Z")]);
    assert_eq!(
        resolve(&items, &Vec::new(), &truth),
        Err(ResolveError::AmbiguousMatch("a".to_string(), "c".to_string()))
    );
}

#[test]
fn equally_specific_matches_are_ambiguous() {
    let items = entries(&[("a", "X"), ("b", "Y")]);
    let truth = envs(&[("a", true), ("b", true)]);
    let r = resolve(&items, &Vec::new(), &truth);
    assert_eq!(
        r,
        Err(ResolveError::AmbiguousMatch("a".to_string(), "b".to_string()))
    );
}

#[test]
fn no_match_is_none() {
    let items = entries(&[("a|b", "X"), ("c", "Y")]);
    let truth = envs(&[("a", true), ("b", false)]);
    assert_eq!(resolve(&items, &Vec::new(), &truth), Ok(None));
}

#[test]
fn unknown_environment_is_inactive() {
    let items = entries(&[("a|undeclared", "X")]);
    let truth = envs(&[("a", true)]);
    assert_eq!(resolve(&items, &Vec::new(), &truth), Ok(None));
}

#[test]
fn repeated_name_counts_once() {
    let items = entries(&[("a|a", "X"), ("a|b", "Y")]);
    let truth = envs(&[("a", true), ("b", true)]);
    assert_eq!(
        resolve(&items, &Vec::new(), &truth),
        Ok(Some("Y".to_string()))
    );
}

#[test]
fn exclusive_names_in_one_condition_are_rejected() {
    let items = entries(&[("a", "X"), ("linux|windows", "Y")]);
    let excl = groups(&[&["macos", "windows", "linux"]]);
    let truth = envs(&[("a", true)]);
    assert_eq!(
        resolve(&items, &excl, &truth),
        Err(ResolveError::UnreachableCondition("linux|windows".to_string()))
    );
}

#[test]
fn exclusivity_does_not_affect_other_conditions() {
    let items = entries(&[("linux|work", "X"), ("windows", "Y")]);
    let excl = groups(&[&["windows", "linux"]]);
    let truth = envs(&[("linux", true), ("work", true)]);
    assert_eq!(resolve(&items, &excl, &truth), Ok(Some("X".to_string())));
}

#[test]
fn empty_name_is_rejected() {
    let truth = envs(&[("a", true)]);
    assert_eq!(
        resolve(&entries(&[("a|", "X")]), &Vec::new(), &truth),
        Err(ResolveError::EmptyCondition("a|".to_string()))
    );
    assert_eq!(
        resolve(&entries(&[("", "X")]), &Vec::new(), &truth),
        Err(ResolveError::EmptyCondition(String::new()))
    );
}

#[test]
fn single_pile_keeps_its_config() {
    let pile = Pile {
        config: Some(PileConfig {
            encryption: None,
            ignore: vec!["*.tmp".to_string()],
        }),
        items: entries(&[("bar_env|foo_env", "/some/path")]),
    };
    let truth = envs(&[("foo_env", true), ("bar_env", true)]);
    let r = Hoard::Single(pile).process_with(&truth, &Vec::new());
    assert_eq!(
        r,
        Ok(ResolvedHoard::Anonymous(ResolvedPile {
            config: Some(PileConfig {
                encryption: None,
                ignore: vec!["*.tmp".to_string()],
            }),
            path: Some("/some/path".to_string()),
        }))
    );
}

fn key_copy(e: &Option<Encryption>) -> Option<Encryption> {
    e.as_ref().map(|k| k.duplicate())
}

#[test]
fn named_piles_inherit_group_config() {
    let group = MultipleEntries {
        config: Some(PileConfig {
            encryption: Some(Encryption::Symmetric("correcthorsebatterystaple".into())),
            ignore: vec!["b".to_string()],
        }),
        items: vec![
            (
                "item1".to_string(),
                Pile {
                    config: None,
                    items: entries(&[("bar_env|foo_env", "/some/path")]),
                },
            ),
            (
                "item2".to_string(),
                Pile {
                    config: Some(PileConfig {
                        encryption: None,
                        ignore: vec!["a".to_string()],
                    }),
                    items: entries(&[("other", "/other/path")]),
                },
            ),
        ],
    };
    let truth = envs(&[("foo_env", true), ("bar_env", true)]);
    let r = Hoard::Multiple(group).process_with(&truth, &Vec::new());
    let key = Some(Encryption::Symmetric("correcthorsebatterystaple".into()));
    assert_eq!(
        r,
        Ok(ResolvedHoard::Named(ResolvedMultiple {
            piles: vec![
                (
                    "item1".to_string(),
                    ResolvedPile {
                        config: Some(PileConfig {
                            encryption: key_copy(&key),
                            ignore: vec!["b".to_string()],
                        }),
                        path: Some("/some/path".to_string()),
                    },
                ),
                (
                    "item2".to_string(),
                    ResolvedPile {
                        config: Some(PileConfig {
                            encryption: key,
                            ignore: vec!["a".to_string(), "b".to_string()],
                        }),
                        path: None,
                    },
                ),
            ],
        }))
    );
}

#[test]
fn group_fails_on_first_failing_member() {
    let group = MultipleEntries {
        config: None,
        items: vec![
            (
                "good".to_string(),
                Pile {
                    config: None,
                    items: entries(&[("a", "/a")]),
                },
            ),
            (
                "bad".to_string(),
                Pile {
                    config: None,
                    items: entries(&[("x|", "/x")]),
                },
            ),
        ],
    };
    let truth = envs(&[("a", true)]);
    assert_eq!(
        group.process_with(&truth, &Vec::new()),
        Err(Error::Member(
            "bad".to_string(),
            ResolveError::EmptyCondition("x|".to_string())
        ))
    );
}

#[test]
fn duplicate_member_name_is_rejected() {
    let member = |path: &str| Pile {
        config: None,
        items: entries(&[("a", path)]),
    };
    let group = MultipleEntries {
        config: None,
        items: vec![
            ("one".to_string(), member("/1")),
            ("two".to_string(), member("/2")),
            ("one".to_string(), member("/3")),
        ],
    };
    let truth = envs(&[("a", true)]);
    assert_eq!(
        Hoard::Multiple(group).process_with(&truth, &Vec::new()),
        Err(Error::DuplicateMember("one".to_string()))
    );
}

#[test]
fn hoard_layering_reaches_the_group_config() {
    let mut hoard = Hoard::Single(Pile {
        config: None,
        items: entries(&[("a", "/a")]),
    });
    let inherited = PileConfig {
        encryption: Some(Encryption::Asymmetric("public key".into())),
        ignore: Vec::new(),
    };
    hoard.layer_config(Some(&inherited));
    match hoard {
        Hoard::Single(pile) => assert_eq!(pile.config, Some(inherited)),
        Hoard::Multiple(_) => panic!("shape changed"),
    }
}
