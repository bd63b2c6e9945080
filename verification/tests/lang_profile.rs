use mergiraf::lang_profile::{ChildrenGroup, CommutativeParent, LangProfile, ChildNode};
use mergiraf::signature::{PathStep, SignatureDefinition};
use mergiraf::supported_langs::supported_languages;
use mergiraf::languages;

#[test]
fn extensions_do_not_start_with_a_dot() {
    for lang_profile in &supported_languages() {
        for ext in &lang_profile.extensions {
            assert!(!ext.starts_with('.'), "{ext}");
        }
    }
}

#[test]
fn language_names_are_all_distinct() {
    let names: Vec<&str> = supported_languages().iter().map(|profile| profile.name).collect();
    for (i, a) in names.iter().enumerate() {
        for b in &names[i + 1..] {
            assert_ne!(a, b);
        }
    }
}

#[test]
fn injections_are_non_empty() {
    for lang_profile in &supported_languages() {
        if let Some(injection) = lang_profile.injections {
            assert!(
                !injection.trim().is_empty(),
                "Injection query for language {} set as an empty string, use None instead",
                lang_profile.name
            );
        }
    }
}

#[test]
fn find_by_name() {
    fn find(filename: &str) -> Option<LangProfile> {
        LangProfile::find_by_name(filename)
    }
    assert_eq!(find("JSON").unwrap().name, "JSON");
    assert_eq!(find("Json").unwrap().name, "JSON");
    assert_eq!(find("python").unwrap().name, "Python");
    assert_eq!(find("py").unwrap().name, "Python");
    assert_eq!(find("Java properties").unwrap().name, "Java properties");
    assert!(
        find("unknown language").is_none(),
        "Language shouldn't be found"
    );
}

#[test]
fn find_by_filename_or_name() {
    fn find(filename: &str, name: Option<&str>) -> Result<LangProfile, String> {
        LangProfile::find(filename, name, None)
    }
    assert_eq!(find("file.json", None).unwrap().name, "JSON");
    assert_eq!(find("file.java", Some("JSON")).unwrap().name, "JSON");
    assert!(find("java", None).is_err());
    assert_eq!(find("go.mod", None).unwrap().name, "go.mod");
    assert_eq!(find("file", Some("go.mod")).unwrap().name, "go.mod");
    assert!(find("test.go.mod", None).is_err());
    assert!(
        find("file.json", Some("non-existent language")).is_err(),
        "If a language name is provided, the file name should be ignored"
    );
    assert!(
        find("file.unknown_extension", None).is_err(),
        "Looking up language by unknown extension should fail"
    );
}

#[test]
fn find_error_messages() {
    assert_eq!(
        LangProfile::find("file.bogus.mgf", None, Some("bogus")).unwrap_err(),
        "Attribute-specified language 'bogus' could not be found",
    );
    assert_eq!(
        LangProfile::find("file.js.mgf", None, Some("javascript")).unwrap().name,
        "Javascript"
    );
    assert_eq!(
        LangProfile::find("file.noattr", None, None).unwrap_err(),
        "Could not find a supported language for file.noattr",
    );
    assert_eq!(
        LangProfile::find("file.json", Some("nope"), None).unwrap_err(),
        "Specified language 'nope' could not be found",
    );
    assert_eq!(
        LangProfile::find("file.bogus.mgf", Some("python"), Some("bogus")).unwrap().name,
        "Python"
    );
}

#[test]
fn detect_from_filename_cases() {
    assert_eq!(LangProfile::detect_from_filename("src/main.RS").unwrap().name, "Rust");
    assert_eq!(LangProfile::detect_from_filename("dir/CMakeLists.txt").unwrap().name, "CMake");
    assert!(LangProfile::detect_from_filename("Makefile").is_none());
    assert!(LangProfile::detect_from_filename(".json").is_none());
    assert!(LangProfile::detect_from_filename("dir/").is_none());
}

fn name_is_valid(name: &'static str) -> bool {
    name != "foo_bar"
}

fn field_is_valid(name: &'static str) -> bool {
    name != "foo_bar"
}

#[test]
fn check_kinds() {
    let java = LangProfile::find_by_name("Java").expect("missing Java language profile");
    assert_eq!(java.check_kinds(&name_is_valid, &field_is_valid), Ok(()));

    let wrong_atomic_nodes = LangProfile {
        atomic_nodes: vec!["foo_bar"],
        ..java.clone()
    };
    assert_eq!(
        wrong_atomic_nodes.check_kinds(&name_is_valid, &field_is_valid),
        Err("invalid atomic node type: \"foo_bar\"".to_string())
    );

    let wrong_commutative_parent = LangProfile {
        commutative_parents: vec![CommutativeParent::without_delimiters("foo_bar", ", ")],
        ..java.clone()
    };
    assert_eq!(
        wrong_commutative_parent.check_kinds(&name_is_valid, &field_is_valid),
        Err("invalid commutative node type: \"foo_bar\"".to_string())
    );

    let wrong_children_group = LangProfile {
        commutative_parents: vec![
            CommutativeParent::without_delimiters("program", "\n\n")
                .restricted_to_groups(&[&["foo_bar", "class_declaration"]]),
        ],
        ..java.clone()
    };
    assert_eq!(
        wrong_children_group.check_kinds(&name_is_valid, &field_is_valid),
        Err("invalid commutative child type: \"foo_bar\"".to_string())
    );

    let wrong_signature = LangProfile {
        signatures: vec![SignatureDefinition::new("foo_bar", vec![])],
        ..java.clone()
    };
    assert_eq!(
        wrong_signature.check_kinds(&name_is_valid, &field_is_valid),
        Err("invalid node type for signature: \"foo_bar\"".to_string())
    );

    let wrong_field_in_path = LangProfile {
        signatures: vec![SignatureDefinition::new(
            "program",
            vec![vec![PathStep::Field("foo_bar")]],
        )],
        ..java.clone()
    };
    assert_eq!(
        wrong_field_in_path.check_kinds(&name_is_valid, &field_is_valid),
        Err("invalid field name: \"foo_bar\"".to_string())
    );

    let wrong_type_in_path = LangProfile {
        signatures: vec![SignatureDefinition::new(
            "program",
            vec![vec![PathStep::ChildKind("foo_bar")]],
        )],
        ..java.clone()
    };
    assert_eq!(
        wrong_type_in_path.check_kinds(&name_is_valid, &field_is_valid),
        Err("invalid child type: \"foo_bar\"".to_string())
    );

    let wrong_flattened_nodes = LangProfile {
        flattened_nodes: &["foo_bar"],
        ..java.clone()
    };
    assert_eq!(
        wrong_flattened_nodes.check_kinds(&name_is_valid, &field_is_valid),
        Err("invalid flattened node type: \"foo_bar\"".to_string())
    );
}

#[test]
fn commutative_parent_lookup() {
    let java = LangProfile::find_by_name("Java").unwrap();
    let parent = java.get_commutative_parent_by_kind("class_body").unwrap();
    assert_eq!(parent.default_separator(), "\n\n");
    assert!(java.get_commutative_parent_by_kind("foo_bar").is_none());
    assert!(java.is_atomic_node_type("import_declaration"));
    assert!(!java.is_atomic_node_type("class_body"));
    let sig = java.find_signature_definition_by_kind("import_declaration").unwrap();
    assert_eq!(sig.node_type, "import_declaration");
    assert!(java.find_signature_definition_by_kind("foo_bar").is_none());
}

fn node(kind: &'static str, source: &str) -> ChildNode {
    ChildNode { kind, source: source.to_string(), is_extra: false }
}

#[test]
fn child_separator_by_group() {
    let parent = CommutativeParent::new("class_body", " {\n", "\n\n", "\n}\n").restricted_to(vec![
        ChildrenGroup::with_separator(&["field_declaration"], "\n"),
        ChildrenGroup::new(&["method_declaration"]),
    ]);
    let fields = vec![node("field_declaration", "int x;"), node("field_declaration", "int y;")];
    let methods = vec![node("method_declaration", "void f() {}")];
    assert_eq!(parent.child_separator(&fields, &vec![], &vec![]), Some("\n".to_string()));
    assert_eq!(parent.child_separator(&methods, &methods, &vec![]), Some("\n\n".to_string()));
    assert_eq!(parent.child_separator(&fields, &methods, &vec![]), None);
    let delim = vec![node("}", "}")];
    assert_eq!(parent.child_separator(&methods, &delim, &vec![]), Some("\n\n".to_string()));
    let extra = vec![ChildNode { kind: "comment", source: "// hi".to_string(), is_extra: true }];
    assert_eq!(parent.child_separator(&methods, &extra, &vec![]), None);
    let free = CommutativeParent::without_delimiters("type_list", ", ");
    assert_eq!(free.child_separator(&fields, &methods, &vec![]), Some(", ".to_string()));
    assert_eq!(free.trimmed_separator(), ",");
}

#[test]
fn children_group_dedups() {
    let group = ChildrenGroup::new(&["a", "b", "a"]);
    assert_eq!(group.node_types, vec!["a", "b"]);
}

#[test]
fn languages_listing_formats() {
    let listing = languages(false);
    assert!(listing.starts_with("Java (*.java)\n"));
    assert!(listing.contains("\nCMake (*.cmake)\n"));
    let attrs = languages(true);
    assert!(attrs.starts_with("*.java merge=mergiraf\n"));
    assert!(attrs.ends_with("*.cmake merge=mergiraf\n"));
}
