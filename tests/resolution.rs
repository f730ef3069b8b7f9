use codeowners::{from_reader, glob_accepts, owns, owns_given, pattern, Owner, OwnerKind, Rule};

fn user(s: &str) -> Owner {
    Owner::Username(s.into())
}

#[test]
fn last_declared_rule_wins_over_specificity() {
    let owners = from_reader("-", "* @a\n*.js @b\ndocs/* @c\n");
    assert_eq!(owners.of("docs/app.js"), Some(&vec![user("@c")]));
    assert_eq!(owners.of("lib/app.js"), Some(&vec![user("@b")]));
    assert_eq!(owners.of("README"), Some(&vec![user("@a")]));
}

#[test]
fn later_general_rule_overrides_earlier_specific_one() {
    let owners = from_reader("-", "docs/* @c\n* @a\n");
    assert_eq!(owners.of("docs/app.js"), Some(&vec![user("@a")]));
}

#[test]
fn star_pattern_matches_at_any_depth() {
    let owners = from_reader("-", "*.js @js");
    assert_eq!(owners.of("foo.js"), Some(&vec![user("@js")]));
    assert_eq!(owners.of("dir/foo.js"), Some(&vec![user("@js")]));
    assert_eq!(owners.of("dir/foo.rs"), None);
}

#[test]
fn matching_ignores_case() {
    let owners = from_reader("-", "*.JS @js");
    assert_eq!(owners.of("Foo.js"), Some(&vec![user("@js")]));
}

#[test]
fn directory_rule_owns_deep_descendants() {
    let owners = from_reader("-", "foo/bar @doug");
    assert_eq!(owners.of("foo/bar/baz/qux.rs"), Some(&vec![user("@doug")]));
    assert_eq!(owners.of("x/foo/bar/baz.rs"), Some(&vec![user("@doug")]));
    assert_eq!(owners.of("foo/baz.rs"), None);
}

#[test]
fn direct_children_rule_owns_no_grandchildren() {
    let owners = from_reader("-", "docs/* @d");
    assert_eq!(owners.of("docs/file.js"), Some(&vec![user("@d")]));
    assert_eq!(owners.of("docs/sub/file.js"), None);
}

#[test]
fn anchored_pattern_matches_from_root_only() {
    let anchored = from_reader("-", "/build/logs/ @root");
    assert_eq!(anchored.of("build/logs/foo.go"), Some(&vec![user("@root")]));
    assert_eq!(anchored.of("other/build/logs/foo.go"), None);
    let unanchored = from_reader("-", "build/logs/ @any");
    assert_eq!(unanchored.of("build/logs/foo.go"), Some(&vec![user("@any")]));
    assert_eq!(
        unanchored.of("other/build/logs/foo.go"),
        Some(&vec![user("@any")])
    );
}

#[test]
fn rule_without_owners_is_a_match() {
    let owners = from_reader("-", "* @a\n*.md\n");
    assert_eq!(owners.of("README.md"), Some(&vec![]));
    assert_eq!(owners.of("main.rs"), Some(&vec![user("@a")]));
    let none = from_reader("-", "*.md @docs");
    assert_eq!(none.of("main.rs"), None);
}

#[test]
fn empty_text_owns_nothing() {
    let owners = from_reader("somewhere", "");
    assert!(owners.rules.is_empty());
    assert_eq!(owners.location(), "somewhere");
    assert_eq!(owners.of("a.rs"), None);
}

#[test]
fn line_with_refused_glob_is_skipped() {
    let owners = from_reader("-", "a[ @x\n*.rs @y");
    assert_eq!(
        owners.rules,
        vec![Rule {
            line: 2,
            pattern: "*.rs".into(),
            owners: vec![user("@y")],
        }]
    );
    let fallback = from_reader("-", "* @a\n[ @b\n");
    assert_eq!(fallback.rules.len(), 1);
    assert_eq!(fallback.of("["), Some(&vec![user("@a")]));
}

#[test]
fn glob_syntax_is_judged_by_glob() {
    assert!(glob_accepts("**/docs/*"));
    assert!(!glob_accepts("**/a["));
    assert!(!glob_accepts("a**b"));
    assert!(!owns("**/a[", "a["));
}

#[test]
fn ownership_from_glob_answers() {
    assert!(owns_given(true, true, &vec![]));
    assert!(owns_given(false, false, &vec![false, true, false]));
    assert!(!owns_given(false, true, &vec![false, true]));
    assert!(!owns_given(false, false, &vec![false, false]));
    assert!(!owns_given(false, false, &vec![]));
}

#[test]
fn owns_walks_ancestors() {
    assert!(owns("**/foo/bar", "x/foo/bar/baz.rs"));
    assert!(owns("docs/**", "docs/a/b.md"));
    assert!(!owns("**/docs/*", "docs/a/b.md"));
    assert!(owns("**/docs/*", "docs/b.md"));
    assert!(!owns("build/logs/**", "x/build/logs/a.go"));
}

#[test]
fn tokens_that_name_no_owner_are_dropped() {
    let owners = from_reader("-", "*.rs  @a\tbogus b@c.d @org/t");
    assert_eq!(
        owners.rules[0].owners,
        vec![
            user("@a"),
            Owner::Email("b@c.d".into()),
            Owner::Team("@org/t".into())
        ]
    );
}

#[test]
fn line_numbers_count_comments_blanks_and_crlf() {
    let owners = from_reader("-", "# c\r\n\r\n   \r\n*.rs @a\r\n  #x @b\n");
    assert_eq!(owners.rules.len(), 2);
    assert_eq!(owners.rules[0].line, 5);
    assert_eq!(owners.rules[0].pattern, "**/#x");
    assert_eq!(owners.rules[1].line, 4);
    assert_eq!(owners.rules[1].pattern, "*.rs");
    assert_eq!(owners.rules[1].owners, vec![user("@a")]);
}

#[test]
fn patterns_are_normalised() {
    assert_eq!(pattern("/docs/"), "docs/**");
    assert_eq!(pattern("apps/"), "**/apps/**");
    assert_eq!(pattern("docs/*"), "**/docs/*");
    assert_eq!(pattern("*.js"), "*.js");
    assert_eq!(pattern("/a.txt"), "a.txt");
    assert_eq!(pattern("//a"), "/a");
    assert_eq!(pattern("*/"), "*/**");
}

#[test]
fn owner_classification_edges() {
    assert_eq!("@org/".parse(), Ok(user("@org/")));
    assert_eq!("@/team".parse(), Ok(user("@/team")));
    assert_eq!("x@y".parse(), Ok(Owner::Email("x@y".into())));
    assert_eq!("@".parse(), Ok(user("@")));
    assert_eq!("@Org/Team".parse(), Ok(Owner::Team("@Org/Team".into())));
    assert_eq!("user@".parse::<Owner>(), Err("not an owner".to_string()));
    assert_eq!("a@".parse::<Owner>(), Err("not an owner".to_string()));
    assert_eq!("@a b".parse(), Ok(user("@a b")));
    assert_eq!(Owner::classify("@org/team").map(|o| o.kind()), Ok(OwnerKind::Team));
}

#[test]
fn owner_round_trips_through_its_text() {
    for token in ["@user", "@org/team", "user@domain.com", "@Mixed.Case-1"] {
        let owner = Owner::classify(token).unwrap();
        assert_eq!(owner.to_string(), token);
        assert_eq!(owner.as_str(), token);
        assert_eq!(Owner::classify(&owner.to_string()), Ok(owner));
    }
}
