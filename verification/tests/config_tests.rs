use mrx::config::extract_clone_url;

#[test]
fn test_extract_clone_url_https() {
    let cmd = "git clone 'https://github.com/mr-yum/bill-api' 'bill-api'";
    assert_eq!(
        extract_clone_url(cmd),
        Some("https://github.com/mr-yum/bill-api".to_string())
    );
}

#[test]
fn test_extract_clone_url_ssh() {
    let cmd = "git clone 'git@github.com:mr-yum/cli.git' 'cli'";
    assert_eq!(
        extract_clone_url(cmd),
        Some("git@github.com:mr-yum/cli.git".to_string())
    );
}

use mrx::config::{
    is_registered, parse_config, registration_entry, targets_from, Repo, Section,
};
use std::path::PathBuf;

#[test]
fn clone_url_needs_a_word_after_clone() {
    assert_eq!(extract_clone_url("git clone"), None);
    assert_eq!(extract_clone_url("git pull origin"), None);
    assert_eq!(extract_clone_url(""), None);
    assert_eq!(extract_clone_url("   "), None);
}

#[test]
fn clone_url_is_the_word_after_the_first_clone() {
    assert_eq!(extract_clone_url("clone a clone b"), Some("a".to_string()));
    assert_eq!(extract_clone_url("git  clone\turl dir"), Some("url".to_string()));
    assert_eq!(extract_clone_url("git clone clone"), Some("clone".to_string()));
}

#[test]
fn clone_url_loses_single_then_double_quotes() {
    assert_eq!(extract_clone_url("git clone \"u\""), Some("u".to_string()));
    assert_eq!(extract_clone_url("git clone '\"u\"'"), Some("u".to_string()));
    assert_eq!(extract_clone_url("git clone \"'u'\""), Some("'u'".to_string()));
    assert_eq!(extract_clone_url("git clone ''"), Some("".to_string()));
}

fn section(header: &str, checkout: Option<&str>) -> Section {
    Section {
        header: header.to_string(),
        path: PathBuf::from("/base").join(header),
        checkout: checkout.map(|c| c.to_string()),
    }
}

#[test]
fn targets_are_named_by_the_last_component_and_ordered_by_name() {
    let repos = targets_from(vec![
        section("work/zeta", Some("git clone 'z-url' 'zeta'")),
        section("alpha", None),
        section("deep/er/mid", Some("echo nothing")),
    ]);
    assert_eq!(
        repos,
        vec![
            Repo { name: "alpha".to_string(), path: PathBuf::from("/base/alpha"), clone_url: None },
            Repo {
                name: "mid".to_string(),
                path: PathBuf::from("/base/deep/er/mid"),
                clone_url: None
            },
            Repo {
                name: "zeta".to_string(),
                path: PathBuf::from("/base/work/zeta"),
                clone_url: Some("z-url".to_string())
            },
        ]
    );
}

#[test]
fn targets_of_one_name_keep_the_order_of_their_sections() {
    let repos = targets_from(vec![section("b/x", None), section("a/x", None), section("c/w", None)]);
    let paths: Vec<PathBuf> = repos.iter().map(|r| r.path.clone()).collect();
    assert_eq!(
        paths,
        vec![PathBuf::from("/base/c/w"), PathBuf::from("/base/b/x"), PathBuf::from("/base/a/x")]
    );
    assert!(targets_from(Vec::new()).is_empty());
}

#[test]
fn configuration_text_gives_targets_ordered_by_name() {
    let text = "[work/beta]\ncheckout = git clone 'https://example.org/beta.git' 'beta'\n\n\
                [alpha]\ncheckout = git clone 'git@example.org:alpha.git' 'alpha'\n\n\
                [plain]\n";
    let repos = parse_config(text, &PathBuf::from("/srv")).unwrap();
    assert_eq!(
        repos,
        vec![
            Repo {
                name: "alpha".to_string(),
                path: PathBuf::from("/srv/alpha"),
                clone_url: Some("git@example.org:alpha.git".to_string())
            },
            Repo {
                name: "beta".to_string(),
                path: PathBuf::from("/srv/work/beta"),
                clone_url: Some("https://example.org/beta.git".to_string())
            },
            Repo { name: "plain".to_string(), path: PathBuf::from("/srv/plain"), clone_url: None },
        ]
    );
}

#[test]
fn empty_configuration_has_no_targets() {
    assert_eq!(parse_config("", &PathBuf::from("/srv")), Ok(Vec::new()));
    assert_eq!(parse_config("# only a comment\n", &PathBuf::from("/srv")), Ok(Vec::new()));
}

#[test]
fn malformed_configuration_is_refused_with_the_parsers_message() {
    let refused = parse_config("[broken\nkey = value\n", &PathBuf::from("/srv"));
    assert!(refused.is_err());
    assert!(refused.unwrap_err().contains("line 1"));
}

#[test]
fn registration_text() {
    assert_eq!(
        registration_entry("work/x", "git@host:x.git", "x"),
        "\n[work/x]\ncheckout = git clone 'git@host:x.git' 'x'\n"
    );
    assert!(is_registered("[a]\n[work/x]\n", "work/x"));
    assert!(!is_registered("[a]\n[work/xy]\n", "work/x"));
    assert!(!is_registered("", "work/x"));
}

#[test]
fn headers_and_keys_are_read_without_regard_to_case() {
    let text = "[Work/Beta]\nCheckout = git clone 'Url' 'beta'\n";
    assert_eq!(
        parse_config(text, &PathBuf::from("/srv")),
        Ok(vec![Repo {
            name: "beta".to_string(),
            path: PathBuf::from("/srv/work/beta"),
            clone_url: Some("Url".to_string())
        }])
    );
}

#[test]
fn a_section_named_twice_is_one_target() {
    let text = "[x]\ncheckout = git clone 'first' 'x'\n[y]\n[x]\ncheckout = git clone 'second' 'x'\n";
    let repos = parse_config(text, &PathBuf::from("/srv")).unwrap();
    let seen: Vec<(String, Option<String>)> =
        repos.into_iter().map(|r| (r.name, r.clone_url)).collect();
    assert_eq!(
        seen,
        vec![("x".to_string(), Some("second".to_string())), ("y".to_string(), None)]
    );
}

#[test]
fn a_key_without_a_section_belongs_to_the_default_section() {
    let repos = parse_config("checkout = git clone 'u' 'd'\n", &PathBuf::from("/srv")).unwrap();
    assert_eq!(
        repos,
        vec![Repo {
            name: "default".to_string(),
            path: PathBuf::from("/srv/default"),
            clone_url: Some("u".to_string())
        }]
    );
}

#[test]
fn a_line_without_a_key_is_refused() {
    let refused = parse_config("[x]\n= value\n", &PathBuf::from("/srv"));
    assert!(refused.is_err());
    assert!(refused.unwrap_err().contains("Key cannot be empty"));
}
