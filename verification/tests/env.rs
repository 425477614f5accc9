use smelt::env::{precedence, Precedence};
use smelt::EnvMap;

#[test]
fn a_new_environment_is_empty() {
    let env = EnvMap::new();
    assert_eq!(env.len(), 0);
    assert_eq!(env.get("HOME"), None);
}

#[test]
fn insert_sets_and_replaces() {
    let mut env = EnvMap::new();
    assert_eq!(env.insert("B".to_string(), "2".to_string()), None);
    assert_eq!(env.insert("A".to_string(), "1".to_string()), None);
    assert_eq!(env.insert("B".to_string(), "3".to_string()), Some("2".to_string()));
    assert_eq!(env.len(), 2);
    assert_eq!(env.get("A"), Some(&"1".to_string()));
    assert_eq!(env.get("B"), Some(&"3".to_string()));
    assert_eq!(env.get("C"), None);
}

#[test]
fn entries_stand_in_order_of_name() {
    let mut env = EnvMap::new();
    for name in ["zeta", "alpha", "Beta", "alp", "alpha2", ""] {
        env.insert(name.to_string(), format!("v-{}", name));
    }
    let mut names = Vec::new();
    for i in 0..env.len() {
        names.push(env.name_at(i).clone());
        assert_eq!(env.value_at(i), &format!("v-{}", env.name_at(i)));
    }
    assert_eq!(names, vec!["", "Beta", "alp", "alpha", "alpha2", "zeta"]);
}

#[test]
fn environments_with_the_same_entries_are_equal() {
    let mut a = EnvMap::new();
    a.insert("X".to_string(), "1".to_string());
    a.insert("Y".to_string(), "2".to_string());
    let mut b = EnvMap::new();
    b.insert("Y".to_string(), "2".to_string());
    b.insert("X".to_string(), "1".to_string());
    assert_eq!(a, b);
    assert_eq!(a.clone(), b);
}

#[test]
fn precedence_is_lexicographic() {
    assert_eq!(precedence(b"", b""), Precedence::Same);
    assert_eq!(precedence(b"", b"a"), Precedence::Before);
    assert_eq!(precedence(b"a", b""), Precedence::After);
    assert_eq!(precedence(b"ab", b"ab"), Precedence::Same);
    assert_eq!(precedence(b"ab", b"abc"), Precedence::Before);
    assert_eq!(precedence(b"abd", b"abc"), Precedence::After);
    assert_eq!(precedence(b"Z", b"a"), Precedence::Before);
}
