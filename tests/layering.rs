use hoard::pile_config::{Encryption, PileConfig};

fn patterns(ps: &[&str]) -> Vec<String> {
    ps.iter().map(|p| p.to_string()).collect()
}

#[test]
fn test_layer_configs_both_none() {
    let mut specific = None;
    let general = None;
    PileConfig::layer_options(&mut specific, general);
    assert!(specific.is_none());
}

#[test]
fn test_layer_specific_some_general_none() {
    let mut specific = Some(PileConfig {
        encryption: Some(Encryption::Symmetric("password".into())),
        ignore: patterns(&["ignore me"]),
    });
    let old_specific = Some(specific.as_ref().unwrap().duplicate());
    let general = None;
    PileConfig::layer_options(&mut specific, general);
    assert_eq!(specific, old_specific);
}

#[test]
fn test_layer_specific_none_general_some() {
    let mut specific = None;
    let general = Some(PileConfig {
        encryption: Some(Encryption::Symmetric("password".into())),
        ignore: patterns(&["ignore me"]),
    });
    PileConfig::layer_options(&mut specific, general.as_ref());
    assert_eq!(specific, general);
}

#[test]
fn test_layer_configs_both_some() {
    let mut specific = Some(PileConfig {
        encryption: Some(Encryption::Symmetric("password".into())),
        ignore: patterns(&["ignore me", "duplicate"]),
    });
    let old_specific = Some(specific.as_ref().unwrap().duplicate());
    let general = Some(PileConfig {
        encryption: Some(Encryption::Asymmetric("somekey".into())),
        ignore: patterns(&["me too", "duplicate"]),
    });
    PileConfig::layer_options(&mut specific, general.as_ref());
    assert!(specific.is_some());
    assert_eq!(
        specific.as_ref().unwrap().encryption,
        old_specific.unwrap().encryption
    );
    assert_eq!(
        specific.unwrap().ignore,
        patterns(&["duplicate", "ignore me", "me too"])
    );
}

#[test]
fn layer_merges_ignore_sorted_and_deduplicated() {
    let mut specific = Some(PileConfig {
        encryption: None,
        ignore: patterns(&["dup", "only-s"]),
    });
    let general = PileConfig {
        encryption: Some(Encryption::Asymmetric("key".into())),
        ignore: patterns(&["dup", "only-g"]),
    };
    PileConfig::layer_options(&mut specific, Some(&general));
    let merged = specific.unwrap();
    assert_eq!(merged.ignore, patterns(&["dup", "only-g", "only-s"]));
    assert_eq!(merged.encryption, Some(Encryption::Asymmetric("key".into())));
}

#[test]
fn layer_ignore_is_same_either_way_round() {
    let a = PileConfig {
        encryption: Some(Encryption::Symmetric("a".into())),
        ignore: patterns(&["z", "b", "a"]),
    };
    let b = PileConfig {
        encryption: Some(Encryption::Symmetric("b".into())),
        ignore: patterns(&["c", "a", "y"]),
    };
    let mut ab = Some(a.duplicate());
    PileConfig::layer_options(&mut ab, Some(&b));
    let mut ba = Some(b.duplicate());
    PileConfig::layer_options(&mut ba, Some(&a));
    let (ab, ba) = (ab.unwrap(), ba.unwrap());
    assert_eq!(ab.ignore, ba.ignore);
    assert_eq!(ab.ignore, patterns(&["a", "b", "c", "y", "z"]));
    assert_eq!(ab.encryption, Some(Encryption::Symmetric("a".into())));
    assert_eq!(ba.encryption, Some(Encryption::Symmetric("b".into())));
}

#[test]
fn layer_sorts_by_bytes() {
    let mut specific = Some(PileConfig {
        encryption: None,
        ignore: patterns(&["b", "B", "é", "a*"]),
    });
    let general = PileConfig {
        encryption: None,
        ignore: patterns(&["*", "a"]),
    };
    PileConfig::layer_options(&mut specific, Some(&general));
    assert_eq!(
        specific.unwrap().ignore,
        patterns(&["*", "B", "a", "a*", "b", "é"])
    );
}
