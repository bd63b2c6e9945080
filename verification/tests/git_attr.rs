use mergiraf::git::{
    read_check_attr_output, read_checkout_index_output, AttrMap, AttrValue, GitAttrsForMerge,
    GitAttrsForSolve, GIT_CONFLICT_MARKER_SIZE, LINGUIST_LANGUAGE, MERGIRAF_ALLOW_PARSE_ERRORS,
    MERGIRAF_LANGUAGE,
};

fn value(s: &str) -> AttrValue {
    AttrValue::from_info(s.to_string())
}

fn map(entries: Vec<(&'static str, AttrValue)>) -> AttrMap {
    AttrMap::from_entries(entries)
}

#[test]
fn read_lang_attribute() {
    let lang = |mut attrs: AttrMap| mergiraf::git::read_lang_attribute(&mut attrs);

    let attrs_empty = map(vec![
        (MERGIRAF_LANGUAGE, AttrValue::Unspecified),
        (LINGUIST_LANGUAGE, AttrValue::Unspecified),
    ]);
    assert_eq!(lang(attrs_empty), None);

    let attrs_mergiraf = map(vec![
        (MERGIRAF_LANGUAGE, value("rs")),
        (LINGUIST_LANGUAGE, AttrValue::Unspecified),
    ]);
    assert_eq!(lang(attrs_mergiraf).as_deref(), Some("rs"));

    let attrs_linguist = map(vec![
        (MERGIRAF_LANGUAGE, AttrValue::Unspecified),
        (LINGUIST_LANGUAGE, value("c++")),
    ]);
    assert_eq!(lang(attrs_linguist).as_deref(), Some("c++"));

    // prefer the one specified by MERGIRAF_LANGUAGE
    let attrs_both = map(vec![
        (LINGUIST_LANGUAGE, value("c++")),
        (MERGIRAF_LANGUAGE, value("rust")),
    ]);
    assert_eq!(lang(attrs_both).as_deref(), Some("rust"));
}

#[test]
fn read_conflict_marker_size_attribute() {
    let size = |mut attrs: AttrMap| mergiraf::git::read_conflict_marker_size_attribute(&mut attrs);

    let attrs_empty = map(vec![(GIT_CONFLICT_MARKER_SIZE, AttrValue::Unspecified)]);
    assert_eq!(size(attrs_empty), None);

    let attrs_nonempty = map(vec![(GIT_CONFLICT_MARKER_SIZE, value("10"))]);
    assert_eq!(size(attrs_nonempty), Some(10));

    let attrs_invalid = map(vec![(GIT_CONFLICT_MARKER_SIZE, value("ten"))]);
    assert_eq!(size(attrs_invalid), None);
}

#[test]
fn read_allow_parse_errors_attribute() {
    let allow = |mut attrs: AttrMap| mergiraf::git::read_allow_parse_errors_attribute(&mut attrs);

    let attrs_empty = map(vec![(MERGIRAF_ALLOW_PARSE_ERRORS, AttrValue::Unspecified)]);
    assert_eq!(allow(attrs_empty), None);

    let attrs_allow = map(vec![(MERGIRAF_ALLOW_PARSE_ERRORS, AttrValue::SetTrue)]);
    assert_eq!(allow(attrs_allow), Some(true));

    let attrs_deny = map(vec![(MERGIRAF_ALLOW_PARSE_ERRORS, AttrValue::Unset)]);
    assert_eq!(allow(attrs_deny), Some(false));

    let attrs_other = map(vec![(MERGIRAF_ALLOW_PARSE_ERRORS, value("yes"))]);
    assert_eq!(allow(attrs_other), None);
}

#[test]
fn attr_values_from_git_output() {
    assert_eq!(value("set"), AttrValue::SetTrue);
    assert_eq!(value("unset"), AttrValue::Unset);
    assert_eq!(value("unspecified"), AttrValue::Unspecified);
    assert_eq!(value("java"), AttrValue::Specified("java".to_string()));
    assert_eq!(value("java").into_specified(), Some("java".to_string()));
    assert_eq!(AttrValue::SetTrue.into_specified(), None);
}

#[test]
fn check_attr_output_is_read() {
    let output = b"foo.txt\0foo-value-attr\010\0foo.txt\0foo-set-attr\0set\0foo.txt\0other\0x\0foo.txt\0foo-unset-attr\0unset\0";
    let mut attrs = read_check_attr_output(output, &["foo-value-attr", "foo-set-attr", "foo-unset-attr"]);
    assert_eq!(attrs.remove("foo-value-attr"), Some(value("10")));
    assert_eq!(attrs.remove("foo-set-attr"), Some(AttrValue::SetTrue));
    assert_eq!(attrs.remove("foo-unset-attr"), Some(AttrValue::Unset));
    assert_eq!(attrs.remove("other"), None);
    assert_eq!(attrs.remove("foo-set-attr"), None);
}

#[test]
fn check_attr_output_later_wins_and_invalid_is_skipped() {
    let output = b"a\0attr\0one\0a\0attr\0two\0a\0attr\0\xff\0a\0attr";
    let mut attrs = read_check_attr_output(output, &["attr"]);
    assert_eq!(attrs.remove("attr"), Some(value("two")));
}

#[test]
fn git_attrs_for_solve_and_merge() {
    let output = b"f.rs\0conflict-marker-size\012\0f.rs\0mergiraf.language\0unspecified\0f.rs\0linguist-language\0rust\0f.rs\0mergiraf.allow-parse-errors\0unset\0";
    let solve = GitAttrsForSolve::new(Some(output)).unwrap();
    assert_eq!(solve.conflict_marker_size, Some(12));
    assert_eq!(solve.language.as_deref(), Some("rust"));
    assert_eq!(solve.allow_parse_errors, Some(false));
    let merge = GitAttrsForMerge::new(Some(output)).unwrap();
    assert_eq!(merge.language.as_deref(), Some("rust"));
    assert_eq!(merge.allow_parse_errors, Some(false));
    assert!(GitAttrsForSolve::new(None).is_none());
    assert!(GitAttrsForMerge::new(None).is_none());
}

#[test]
fn checkout_index_output() {
    let files = read_checkout_index_output(".merge_file_a1 .merge_file_b2 .\tsrc/x.rs\n", "src/x.rs").unwrap();
    assert_eq!(files.base.unwrap().path(), ".merge_file_a1");
    assert_eq!(files.left.unwrap().path(), ".merge_file_b2");
    assert!(files.right.is_none());
    assert_eq!(
        read_checkout_index_output("", "src/x.rs").unwrap_err(),
        "'src/x.rs' is not in a conflicted state."
    );
    assert_eq!(
        read_checkout_index_output("a b", "x").unwrap_err(),
        "invalid checkout-index output: a b"
    );
}

#[test]
fn attr_map_insert_and_remove() {
    let mut attrs = AttrMap::new();
    attrs.insert(MERGIRAF_LANGUAGE, value("java"));
    attrs.insert(MERGIRAF_LANGUAGE, value("rust"));
    attrs.insert(LINGUIST_LANGUAGE, value("c"));
    assert_eq!(mergiraf::git::read_lang_attribute(&mut attrs).as_deref(), Some("rust"));
    assert_eq!(attrs.remove(LINGUIST_LANGUAGE), Some(value("c")));
    assert_eq!(mergiraf::git::read_conflict_marker_size_attribute(&mut attrs), None);
    assert_eq!(mergiraf::git::read_allow_parse_errors_attribute(&mut attrs), None);
}
