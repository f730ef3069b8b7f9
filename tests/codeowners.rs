use codeowners::{from_reader, Owner, Owners, Rule};

const EXAMPLE: &str = "# This is a comment.
# Each line is a file pattern followed by one or more owners.

# These owners will be the default owners for everything in
# the repo. Unless a later match takes precedence,
# @global-owner1 and @global-owner2 will be requested for
# approval when someone opens a pull request.
*       @global-owner1 @global-owner2

# Order is important; the last matching pattern takes the most
# precedence. When someone opens a pull request that only
# modifies JS files, only @js-owner and not the global
# owner(s) will be requested for approval.
*.js    @js-owner

# You can also use email addresses if you prefer. They'll be
# used to look up users just like we do for commit author
# emails.
*.go docs@example.com

# In this example, @doctocat owns any files in the build/logs
# directory at the root of the repository and any of its
# subdirectories.
/build/logs/ @doctocat

# The `docs/*` pattern will match files like
# `docs/getting-started.md` but not further nested files like
# `docs/build-app/troubleshooting.md`.
docs/*  docs@example.com

# In this example, @octocat owns any file in an apps directory
# anywhere in your repository.
apps/ @octocat

# In this example, @doctocat owns any file in the `/docs`
# directory in the root of your repository.
/docs/ @doctocat
";

fn rule(line: usize, pattern: &str, owners: Vec<Owner>) -> Rule {
    Rule {
        line,
        pattern: pattern.into(),
        owners,
    }
}

#[test]
fn owner_parses() {
    assert!("@user".parse() == Ok(Owner::Username("@user".into())));
    assert!("@org/team".parse() == Ok(Owner::Team("@org/team".into())));
    assert!("user@domain.com".parse() == Ok(Owner::Email("user@domain.com".into())));
    assert!("bogus".parse::<Owner>() == Err("not an owner".into()));
}

#[test]
fn owner_displays() {
    assert!(Owner::Username("@user".into()).to_string() == "@user");
    assert!(Owner::Team("@org/team".into()).to_string() == "@org/team");
    assert!(Owner::Email("user@domain.com".into()).to_string() == "user@domain.com");
}

#[test]
fn from_reader_parses() {
    let owners = from_reader("-", EXAMPLE);
    assert_eq!(
        owners,
        Owners {
            location: "-".into(),
            rules: vec![
                rule(37, "docs/**", vec![Owner::Username("@doctocat".into())]),
                rule(33, "**/apps/**", vec![Owner::Username("@octocat".into())]),
                rule(29, "**/docs/*", vec![Owner::Email("docs@example.com".into())]),
                rule(24, "build/logs/**", vec![Owner::Username("@doctocat".into())]),
                rule(19, "*.go", vec![Owner::Email("docs@example.com".into())]),
                rule(14, "*.js", vec![Owner::Username("@js-owner".into())]),
                rule(
                    8,
                    "*",
                    vec![
                        Owner::Username("@global-owner1".into()),
                        Owner::Username("@global-owner2".into()),
                    ]
                ),
            ],
        }
    )
}

#[test]
fn owners_owns_wildcard() {
    let owners = from_reader("-", EXAMPLE);
    assert_eq!(
        owners.of("foo.txt"),
        Some(&vec![
            Owner::Username("@global-owner1".into()),
            Owner::Username("@global-owner2".into()),
        ])
    );
    assert_eq!(
        owners.of("foo/bar.txt"),
        Some(&vec![
            Owner::Username("@global-owner1".into()),
            Owner::Username("@global-owner2".into()),
        ])
    )
}

#[test]
fn owners_owns_js_extention() {
    let owners = from_reader("-", EXAMPLE);
    assert_eq!(
        owners.of("foo.js"),
        Some(&vec![Owner::Username("@js-owner".into())])
    );
    assert_eq!(
        owners.of("foo/bar.js"),
        Some(&vec![Owner::Username("@js-owner".into())])
    )
}

#[test]
fn owners_owns_go_extention() {
    let owners = from_reader("-", EXAMPLE);
    assert_eq!(
        owners.of("foo.go"),
        Some(&vec![Owner::Email("docs@example.com".into())])
    );
    assert_eq!(
        owners.of("foo/bar.go"),
        Some(&vec![Owner::Email("docs@example.com".into())])
    )
}

#[test]
fn owners_owns_anchored_build_logs() {
    let owners = from_reader("-", EXAMPLE);
    // relative to root
    assert_eq!(
        owners.of("build/logs/foo.go"),
        Some(&vec![Owner::Username("@doctocat".into())])
    );
    assert_eq!(
        owners.of("build/logs/foo/bar.go"),
        Some(&vec![Owner::Username("@doctocat".into())])
    );
    // not relative to root
    assert_eq!(
        owners.of("foo/build/logs/foo.go"),
        Some(&vec![Owner::Email("docs@example.com".into())])
    )
}

#[test]
fn owners_owns_unanchored_docs() {
    let owners = from_reader("-", EXAMPLE);
    // docs anywhere
    assert_eq!(
        owners.of("foo/docs/foo.js"),
        Some(&vec![Owner::Email("docs@example.com".into())])
    );
    assert_eq!(
        owners.of("foo/bar/docs/foo.js"),
        Some(&vec![Owner::Email("docs@example.com".into())])
    );
    // but not nested
    assert_eq!(
        owners.of("foo/bar/docs/foo/foo.js"),
        Some(&vec![Owner::Username("@js-owner".into())])
    )
}

#[test]
fn owners_owns_unanchored_apps() {
    let owners = from_reader("-", EXAMPLE);
    assert_eq!(
        owners.of("foo/apps/foo.js"),
        Some(&vec![Owner::Username("@octocat".into())])
    )
}

#[test]
fn owners_owns_anchored_docs() {
    let owners = from_reader("-", EXAMPLE);
    // relative to root
    assert_eq!(
        owners.of("docs/foo.js"),
        Some(&vec![Owner::Username("@doctocat".into())])
    )
}

#[test]
fn implied_children_owners() {
    let owners = from_reader("-", "foo/bar @doug");
    assert_eq!(
        owners.of("foo/bar/baz.rs"),
        Some(&vec![Owner::Username("@doug".into())])
    )
}
