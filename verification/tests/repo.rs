use github_db::Repo;

#[test]
fn a_repo_is_split_at_the_first_slash() {
    assert_eq!(
        Repo::from_str("rust-lang/rust"),
        Ok(Repo { organization: "rust-lang".to_string(), name: "rust".to_string() })
    );
    assert_eq!(
        Repo::from_str("a/b/c"),
        Ok(Repo { organization: "a".to_string(), name: "b/c".to_string() })
    );
    assert_eq!(
        Repo::from_str("/"),
        Ok(Repo { organization: String::new(), name: String::new() })
    );
    assert_eq!(
        Repo::from_str("héllo/wörld"),
        Ok(Repo { organization: "héllo".to_string(), name: "wörld".to_string() })
    );
}

#[test]
fn a_text_without_slash_names_no_repo() {
    assert_eq!(Repo::from_str("rust"), Err(()));
    assert_eq!(Repo::from_str(""), Err(()));
}

#[test]
fn a_repo_is_written_with_a_slash() {
    let repo = Repo { organization: "acme".to_string(), name: "widget".to_string() };
    assert_eq!(repo.to_string(), "acme/widget");
    assert_eq!(Repo::from_str(&repo.to_string()), Ok(repo));
}

#[test]
fn repos_are_compared_by_both_parts() {
    let a = Repo { organization: "acme".to_string(), name: "widget".to_string() };
    let b = Repo { organization: "acme".to_string(), name: "gadget".to_string() };
    assert!(a.same_as(&a.clone()));
    assert!(!a.same_as(&b));
}
