use waf_rules::seed::{seed_defaults, seed_rule, FieldValue, RuleDoc};

fn field<'a>(d: &'a RuleDoc, k: &str) -> Option<&'a FieldValue> {
    match d {
        RuleDoc::Object(fs) => fs.iter().find(|(n, _)| n == k).map(|(_, v)| v),
        RuleDoc::Other(_) => None,
    }
}

fn doc(id: &str, extra: Vec<(&str, FieldValue)>) -> RuleDoc {
    let mut fs = vec![("id".to_string(), FieldValue::Str(id.to_string()))];
    for (k, v) in extra {
        fs.push((k.to_string(), v));
    }
    RuleDoc::Object(fs)
}

fn is_str(v: Option<&FieldValue>, s: &str) -> bool {
    matches!(v, Some(FieldValue::Str(x)) if x == s)
}

#[test]
fn new_default_rule_is_added_with_metadata() {
    let mut existing: Vec<RuleDoc> = Vec::new();
    let d = doc("r1", vec![("priority", FieldValue::Int(5))]);
    assert!(seed_rule(&mut existing, &d, &"CRITICAL".to_string(), 1000));
    assert_eq!(existing.len(), 1);
    let r = &existing[0];
    assert!(matches!(field(r, "enabled"), Some(FieldValue::Bool(true))));
    assert!(matches!(field(r, "is_default"), Some(FieldValue::Bool(true))));
    assert!(is_str(field(r, "tier"), "CRITICAL"));
    assert!(is_str(field(r, "source"), "system"));
    assert!(is_str(field(r, "created_by"), "system"));
    assert!(matches!(field(r, "created_ms"), Some(FieldValue::Int(1000))));
    assert!(matches!(field(r, "updated_ms"), Some(FieldValue::Int(1000))));
}

#[test]
fn custom_rule_with_same_id_is_kept() {
    let mut existing = vec![doc("r1", vec![("priority", FieldValue::Int(1))])];
    let d = doc("r1", vec![("priority", FieldValue::Int(5))]);
    assert!(!seed_rule(&mut existing, &d, &"HIGH".to_string(), 7));
    assert!(matches!(field(&existing[0], "priority"), Some(FieldValue::Int(1))));
}

#[test]
fn stored_default_is_refreshed_once() {
    let mut existing: Vec<RuleDoc> = Vec::new();
    let d = doc("r1", vec![("priority", FieldValue::Int(5)), ("enabled", FieldValue::Bool(false))]);
    assert!(seed_rule(&mut existing, &d, &"HIGH".to_string(), 7));
    assert!(!seed_rule(&mut existing, &d, &"HIGH".to_string(), 7));
    let d2 = doc("r1", vec![("priority", FieldValue::Int(9))]);
    assert!(seed_rule(&mut existing, &d2, &"HIGH".to_string(), 8));
    assert_eq!(existing.len(), 1);
    assert!(matches!(field(&existing[0], "priority"), Some(FieldValue::Int(9))));
    assert!(matches!(field(&existing[0], "enabled"), Some(FieldValue::Bool(true))));
}

#[test]
fn documents_without_id_are_ignored() {
    let mut existing: Vec<RuleDoc> = Vec::new();
    assert!(!seed_rule(&mut existing, &RuleDoc::Other("[1,2]".to_string()), &"HIGH".to_string(), 1));
    let no_id = RuleDoc::Object(vec![("priority".to_string(), FieldValue::Int(1))]);
    assert!(!seed_rule(&mut existing, &no_id, &"HIGH".to_string(), 1));
    assert!(existing.is_empty());
}

#[test]
fn defaults_files_name_the_tier() {
    let mut existing: Vec<RuleDoc> = Vec::new();
    let files = vec![
        ("catch-all.json".to_string(), vec![doc("a", vec![])]),
        ("critical.json".to_string(), vec![doc("b", vec![])]),
    ];
    assert!(seed_defaults(&mut existing, &files, 3));
    assert_eq!(existing.len(), 2);
    assert!(is_str(field(&existing[0], "tier"), "CATCH_ALL"));
    assert!(is_str(field(&existing[1], "tier"), "CRITICAL"));
    assert!(!seed_defaults(&mut existing, &files, 3));
}
