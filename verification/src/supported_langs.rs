use vstd::prelude::*;

use crate::lang_profile::{dedup, group_view, languages_listing, languages_text, names_view, naming, parent_view, ChildrenGroup, CommutativeParent, GroupView, LangProfile, Naming, ParentType, ParentView};
use crate::signature::{definition_view, signature, PathStep, SignatureDefinition};
use crate::signature::PathStep::{ChildKind, Field};

verus! {

/// The commutative parents of Typescript, as plain values
pub open spec fn typescript_parents_view() -> Seq<ParentView> {
    seq![
        (ParentType::ByKind("program"), "\n", None, None, seq![(dedup(names_view(seq!["import_statement"])), None)]),
        (ParentType::ByKind("named_imports"), ", ", Some("{"), Some("}"), Seq::<GroupView>::empty()),
        (ParentType::ByKind("object"), ", ", Some("{"), Some("}"), Seq::<GroupView>::empty()),
        (ParentType::ByKind("class_body"), "\n\n", Some(" {\n"), Some("\n}\n"), seq![(dedup(names_view(seq!["public_field_definition", "index_signature"])), Some(";\n")), (dedup(names_view(seq!["class_static_block"])), None), (dedup(names_view(seq!["abstract_method_signature", "method_definition", "method_signature"])), None)]),
        (ParentType::ByKind("interface_body"), ";\n", Some(" {\n"), Some("\n}\n"), Seq::<GroupView>::empty()),
        (ParentType::ByKind("object_type"), ";\n", Some(" {\n"), Some("\n}\n"), Seq::<GroupView>::empty()),
        (ParentType::ByKind("enum_body"), ",\n", Some(" {\n"), Some("\n}\n"), Seq::<GroupView>::empty()),
        (ParentType::ByKind("object_pattern"), ", ", Some("{"), Some("}"), Seq::<GroupView>::empty()),
        (ParentType::ByKind("union_type"), " | ", None, None, Seq::<GroupView>::empty()),
        (ParentType::ByKind("intersection_type"), " & ", None, None, Seq::<GroupView>::empty()),
    ]
}

/// The signature definitions of Typescript, as plain values
pub open spec fn typescript_signatures_view() -> Seq<(&'static str, Seq<Seq<PathStep>>)> {
    seq![
        ("import_specifier", seq![seq![PathStep::Field("name")]]),
        ("pair", seq![seq![PathStep::Field("key")]]),
        ("identifier", seq![Seq::<PathStep>::empty()]),
        ("method_definition", seq![seq![PathStep::Field("name")]]),
        ("public_field_definition", seq![seq![PathStep::Field("name")]]),
        ("property_signature", seq![seq![PathStep::Field("name")]]),
        ("property_identifier", seq![Seq::<PathStep>::empty()]),
        ("shorthand_property_identifier", seq![Seq::<PathStep>::empty()]),
        ("pair_pattern", seq![seq![PathStep::Field("key")]]),
        ("literal_type", seq![Seq::<PathStep>::empty()]),
    ]
}

/// The commutative parents of OCaml, as plain values
pub open spec fn ocaml_parents_view() -> Seq<ParentView> {
    seq![
        (ParentType::ByKind("record_expression"), "; ", Some("{"), Some("}"), seq![(dedup(names_view(seq!["field_expression"])), None)]),
    ]
}

/// The signature definitions of OCaml, as plain values
pub open spec fn ocaml_signatures_view() -> Seq<(&'static str, Seq<Seq<PathStep>>)> {
    seq![("field_expression", seq![seq![PathStep::ChildKind("field_path"), PathStep::ChildKind("field_name")]])]
}

/// The commutative parents of Typescript
fn typescript_commutative_parents() -> (res: Vec<CommutativeParent>)
    ensures
        res@.map_values(|p: CommutativeParent| parent_view(p)) == typescript_parents_view(),
{
    let ghost view = typescript_parents_view();
    let imports: &[&[&'static str]] = &[&["import_statement"]];
    assert(imports@.len() == 1 && imports@[0]@ == seq!["import_statement"]);
    let program = CommutativeParent::without_delimiters("program", "\n").restricted_to_groups(imports);
    let named_imports = CommutativeParent::new("named_imports", "{", ", ", "}");
    let object = CommutativeParent::new("object", "{", ", ", "}");
    let field_kinds: &[&'static str] = &["public_field_definition", "index_signature"];
    assert(field_kinds@ == seq!["public_field_definition", "index_signature"]);
    let fields = ChildrenGroup::with_separator(field_kinds, ";\n");
    let static_kinds: &[&'static str] = &["class_static_block"];
    assert(static_kinds@ == seq!["class_static_block"]);
    let static_blocks = ChildrenGroup::new(static_kinds);
    let method_kinds: &[&'static str] = &[
        "abstract_method_signature",
        "method_definition",
        "method_signature",
    ];
    assert(method_kinds@ == seq!["abstract_method_signature", "method_definition", "method_signature"]);
    let methods = ChildrenGroup::new(method_kinds);
    let ghost group_views = seq![group_view(fields), group_view(static_blocks), group_view(methods)];
    assert(group_views =~= view[3].4);
    let class_groups = vec![fields, static_blocks, methods];
    assert(class_groups@.map_values(|g: ChildrenGroup| group_view(g)) =~= group_views);
    let class_body = CommutativeParent::new("class_body", " {\n", "\n\n", "\n}\n").restricted_to(class_groups);
    let interface_body = CommutativeParent::new("interface_body", " {\n", ";\n", "\n}\n");
    let object_type = CommutativeParent::new("object_type", " {\n", ";\n", "\n}\n");
    let enum_body = CommutativeParent::new("enum_body", " {\n", ",\n", "\n}\n");
    let object_pattern = CommutativeParent::new("object_pattern", "{", ", ", "}");
    let union_type = CommutativeParent::without_delimiters("union_type", " | ");
    let intersection_type = CommutativeParent::without_delimiters("intersection_type", " & ");
    assert(parent_view(program) == view[0]);
    assert(parent_view(named_imports) == view[1]);
    assert(parent_view(object) == view[2]);
    assert(parent_view(class_body) == view[3]);
    assert(parent_view(interface_body) == view[4]);
    assert(parent_view(object_type) == view[5]);
    assert(parent_view(enum_body) == view[6]);
    assert(parent_view(object_pattern) == view[7]);
    assert(parent_view(union_type) == view[8]);
    assert(parent_view(intersection_type) == view[9]);
    let res = vec![
        program,
        named_imports,
        object,
        class_body,
        interface_body,
        object_type,
        enum_body,
        object_pattern,
        union_type,
        intersection_type,
    ];
    assert(res@.map_values(|p: CommutativeParent| parent_view(p)) =~= view);
    res
}

/// The signatures of Typescript
fn typescript_signatures() -> (res: Vec<SignatureDefinition>)
    ensures
        res@.map_values(|d: SignatureDefinition| definition_view(d)) == typescript_signatures_view(),
{
    let steps = vec![Field("name")];
    assert(steps@ == seq![PathStep::Field("name")]);
    let paths = vec![steps];
    assert(paths@.map_values(|v: Vec<PathStep>| v@) =~= seq![seq![PathStep::Field("name")]]);
    let d0 = signature("import_specifier", paths);
    let steps = vec![Field("key")];
    assert(steps@ == seq![PathStep::Field("key")]);
    let paths = vec![steps];
    assert(paths@.map_values(|v: Vec<PathStep>| v@) =~= seq![seq![PathStep::Field("key")]]);
    let d1 = signature("pair", paths);
    let paths: Vec<Vec<PathStep>> = vec![vec![]];
    assert(paths@.map_values(|v: Vec<PathStep>| v@) =~= seq![Seq::<PathStep>::empty()]);
    let d2 = signature("identifier", paths);
    let steps = vec![Field("name")];
    assert(steps@ == seq![PathStep::Field("name")]);
    let paths = vec![steps];
    assert(paths@.map_values(|v: Vec<PathStep>| v@) =~= seq![seq![PathStep::Field("name")]]);
    let d3 = signature("method_definition", paths);
    let steps = vec![Field("name")];
    assert(steps@ == seq![PathStep::Field("name")]);
    let paths = vec![steps];
    assert(paths@.map_values(|v: Vec<PathStep>| v@) =~= seq![seq![PathStep::Field("name")]]);
    let d4 = signature("public_field_definition", paths);
    let steps = vec![Field("name")];
    assert(steps@ == seq![PathStep::Field("name")]);
    let paths = vec![steps];
    assert(paths@.map_values(|v: Vec<PathStep>| v@) =~= seq![seq![PathStep::Field("name")]]);
    let d5 = signature("property_signature", paths);
    let paths: Vec<Vec<PathStep>> = vec![vec![]];
    assert(paths@.map_values(|v: Vec<PathStep>| v@) =~= seq![Seq::<PathStep>::empty()]);
    let d6 = signature("property_identifier", paths);
    let paths: Vec<Vec<PathStep>> = vec![vec![]];
    assert(paths@.map_values(|v: Vec<PathStep>| v@) =~= seq![Seq::<PathStep>::empty()]);
    let d7 = signature("shorthand_property_identifier", paths);
    let steps = vec![Field("key")];
    assert(steps@ == seq![PathStep::Field("key")]);
    let paths = vec![steps];
    assert(paths@.map_values(|v: Vec<PathStep>| v@) =~= seq![seq![PathStep::Field("key")]]);
    let d8 = signature("pair_pattern", paths);
    let paths: Vec<Vec<PathStep>> = vec![vec![]];
    assert(paths@.map_values(|v: Vec<PathStep>| v@) =~= seq![Seq::<PathStep>::empty()]);
    let d9 = signature("literal_type", paths); // for union and intersection types
    let res = vec![d0, d1, d2, d3, d4, d5, d6, d7, d8, d9];
    assert(res@.map_values(|d: SignatureDefinition| definition_view(d)) =~= typescript_signatures_view());
    res
}

/// The commutative parents of Typescript with JSX: those of Typescript, and JSX attributes
fn tsx_commutative_parents() -> (res: Vec<CommutativeParent>)
    ensures
        res@.map_values(|p: CommutativeParent| parent_view(p)) == typescript_parents_view().push(
            (ParentType::ByKind("jsx_opening_element"), " ", Some("<"), Some(">"), Seq::<GroupView>::empty()),
        ),
{
    let mut parents = typescript_commutative_parents();
    let ghost before = parents@;
    let attributes = CommutativeParent::new("jsx_opening_element", "<", " ", ">");
    assert(attributes.children_groups@.map_values(|g: ChildrenGroup| group_view(g)) =~= Seq::<GroupView>::empty());
    parents.push(attributes);
    assert(parents@.map_values(|p: CommutativeParent| parent_view(p)) =~= before.map_values(
        |p: CommutativeParent| parent_view(p),
    ).push((ParentType::ByKind("jsx_opening_element"), " ", Some("<"), Some(">"), Seq::<GroupView>::empty())));
    parents
}

/// The signatures of Typescript with JSX: those of Typescript, and JSX attributes
fn tsx_signatures() -> (res: Vec<SignatureDefinition>)
    ensures
        res@.map_values(|d: SignatureDefinition| definition_view(d)) == typescript_signatures_view().push(
            ("jsx_attribute", seq![seq![PathStep::ChildKind("property_identifier")]]),
        ),
{
    let mut signatures = typescript_signatures();
    let steps = vec![ChildKind("property_identifier")];
    assert(steps@ == seq![PathStep::ChildKind("property_identifier")]);
    let paths = vec![steps];
    assert(paths@.map_values(|v: Vec<PathStep>| v@) =~= seq![seq![PathStep::ChildKind("property_identifier")]]);
    let ghost before = signatures@;
    signatures.push(signature("jsx_attribute", paths));
    assert(signatures@.map_values(|d: SignatureDefinition| definition_view(d)) =~= before.map_values(
        |d: SignatureDefinition| definition_view(d),
    ).push(("jsx_attribute", seq![seq![PathStep::ChildKind("property_identifier")]])));
    signatures
}

/// The commutative parents of OCaml
fn ocaml_commutative_parents() -> (res: Vec<CommutativeParent>)
    ensures
        res@.map_values(|p: CommutativeParent| parent_view(p)) == ocaml_parents_view(),
{
    let groups: &[&[&'static str]] = &[&["field_expression"]];
    assert(groups@.len() == 1 && groups@[0]@ == seq!["field_expression"]);
    // record fields
    let record = CommutativeParent::new("record_expression", "{", "; ", "}").restricted_to_groups(groups);
    assert(parent_view(record) == ocaml_parents_view()[0]);
    let res = vec![record];
    assert(res@.map_values(|p: CommutativeParent| parent_view(p)) =~= ocaml_parents_view());
    res
}

/// The signatures of OCaml
fn ocaml_signatures() -> (res: Vec<SignatureDefinition>)
    ensures
        res@.map_values(|d: SignatureDefinition| definition_view(d)) == ocaml_signatures_view(),
{
    let steps = vec![ChildKind("field_path"), ChildKind("field_name")];
    assert(steps@ == seq![PathStep::ChildKind("field_path"), PathStep::ChildKind("field_name")]);
    let paths = vec![steps];
    assert(paths@.map_values(|v: Vec<PathStep>| v@) =~= seq![seq![PathStep::ChildKind("field_path"), PathStep::ChildKind("field_name")]]);
    let res = vec![signature("field_expression", paths)];
    assert(res@.map_values(|d: SignatureDefinition| definition_view(d)) =~= ocaml_signatures_view());
    res
}

/// The profile of Java
fn java() -> (res: LangProfile)
    ensures
        res.name@ == "Java"@,
        naming(res) == ("Java", Seq::<&'static str>::empty(), seq!["java"], Seq::<&'static str>::empty()),
{
    LangProfile {
    name: "Java",
    alternate_names: &[],
    extensions: vec!["java"],
    file_names: vec![],
    atomic_nodes: vec!["import_declaration"],
    commutative_parents: vec![
        // top-level node, for imports and class declarations
        CommutativeParent::without_delimiters("program", "\n\n").restricted_to(vec![
            ChildrenGroup::new(&["module_declaration"]),
            ChildrenGroup::new(&["package_declaration"]),
            ChildrenGroup::with_separator(&["import_declaration"], "\n"),
            ChildrenGroup::new(&[
                "class_declaration",
                "record_declaration",
                "interface_declaration",
                "annotation_type_declaration",
                "enum_declaration",
            ]),
        ]),
        // strictly speaking, this isn't true (order can be accessed via reflection)
        CommutativeParent::new("class_body", " {\n", "\n\n", "\n}\n").restricted_to(vec![
            ChildrenGroup::with_separator(&["field_declaration"], "\n"),
            ChildrenGroup::new(&[
                "record_declaration",
                "class_declaration",
                "interface_declaration",
                "annotation_type_declaration",
                "enum_declaration",
            ]),
            ChildrenGroup::new(&[
                "constructor_declaration",
                "method_declaration",
                "compact_constructor_declaration",
            ]),
        ]),
        CommutativeParent::new("interface_body", " {\n", "\n\n", "\n}\n").restricted_to(
            vec![
                ChildrenGroup::with_separator(&["field_declaration"], "\n"),
                ChildrenGroup::new(&[
                    "record_declaration",
                    "class_declaration",
                    "interface_declaration",
                    "annotation_type_declaration",
                    "enum_declaration",
                ]),
                ChildrenGroup::new(&["method_declaration"]),
            ],
        ),
        CommutativeParent::without_delimiters("modifiers", " ").restricted_to(vec![
            ChildrenGroup::with_separator(&["visibility", "modifier"], " "),
            ChildrenGroup::with_separator(&["marker_annotation", "annotation"], "\n"),
        ]),
        CommutativeParent::without_delimiters("throws", ", ")
            .restricted_to_groups(&[&["type_identifier"]]),
        CommutativeParent::without_delimiters("catch_type", " | "),
        CommutativeParent::without_delimiters("type_list", ", "), // for "implements" or "sealed"
        CommutativeParent::new("annotation_argument_list", "{", ", ", "}"),
    ],
    signatures: vec![
        // program
        signature("import_declaration", vec![vec![]]),
        signature("module_declaration", vec![vec![Field("name")]]),
        signature("package_declaration", vec![vec![ChildKind("identifier")]]),
        signature("annotation_type_declaration", vec![vec![Field("name")]]),
        signature("enum_declaration", vec![vec![Field("name")]]),
        signature("class_declaration", vec![vec![Field("name")]]),
        signature("interface_declaration", vec![vec![Field("name")]]),
        signature("record_declaration", vec![vec![Field("name")]]),
        signature("scoped_identifier", vec![vec![Field("name")]]),
        // class_body
        signature(
            "field_declaration",
            vec![vec![Field("declarator"), Field("name")]],
        ),
        signature(
            "constructor_declaration",
            vec![
                vec![Field("name")],
                vec![
                    Field("parameters"),
                    ChildKind("formal_parameter"),
                    Field("type"),
                ],
                vec![
                    Field("parameters"),
                    ChildKind("spread_parameter"),
                    ChildKind("identifier"),
                ],
            ],
        ),
        signature(
            "method_declaration",
            vec![
                vec![Field("name")],
                vec![
                    Field("parameters"),
                    ChildKind("formal_parameter"),
                    Field("type"),
                ],
                vec![
                    Field("parameters"),
                    ChildKind("spread_parameter"),
                    ChildKind("identifier"),
                ],
            ],
        ),
        signature("compact_constructor_declaration", vec![vec![Field("name")]]),
        // modifiers
        signature("visibility", vec![vec![]]),
        signature("modifier", vec![vec![]]),
        signature("annotation", vec![vec![]]), // annotations can be repeatable, so we can't use the name as key
        signature("marker_annotation", vec![vec![]]),
        // catch_type, type_list, throws
        signature("identifier", vec![vec![]]),
        // annotation_argument_list
        signature("element_value_pair", vec![vec![Field("key")]]),
    ],
    injections: None,
    flattened_nodes: &[],
    comment_nodes: &[],
}
}

/// The profile of Java properties
fn java_properties() -> (res: LangProfile)
    ensures
        res.name@ == "Java properties"@,
        naming(res) == ("Java properties", Seq::<&'static str>::empty(), seq!["properties"], Seq::<&'static str>::empty()),
{
    LangProfile {
    name: "Java properties",
    alternate_names: &[],
    extensions: vec!["properties"],
    file_names: vec![],
    atomic_nodes: vec![],
    commutative_parents: vec![CommutativeParent::without_delimiters("file", "\n")],
    signatures: vec![signature("property", vec![vec![ChildKind("key")]])],
    injections: None,
    flattened_nodes: &[],
    comment_nodes: &[],
}
}

/// The profile of Kotlin
fn kotlin() -> (res: LangProfile)
    ensures
        res.name@ == "Kotlin"@,
        naming(res) == ("Kotlin", Seq::<&'static str>::empty(), seq!["kt"], Seq::<&'static str>::empty()),
{
    LangProfile {
    name: "Kotlin",
    alternate_names: &[],
    extensions: vec!["kt"],
    file_names: vec![],
    atomic_nodes: vec![],
    commutative_parents: vec![
        // top-level node, for imports and class declarations
        CommutativeParent::without_delimiters("source_file", "\n\n")
            .restricted_to_groups(&[&["import"], &["function_declaration"]]),
        CommutativeParent::new("class_body", " {\n", "\n\n", "\n}\n")
            .restricted_to_groups(&[&["property_declaration"], &["function_declaration"]]),
        CommutativeParent::without_delimiters("modifiers", "\n").restricted_to(vec![
            ChildrenGroup::new(&["annotation"]),
            ChildrenGroup::with_separator(
                &[
                    "visibility_modifier",
                    "inheritance_modifier",
                    "member_modifier",
                ],
                " ",
            ),
        ]),
        CommutativeParent::without_delimiters("class_declaration", ", ")
            .restricted_to_groups(&[&["delegation_specifier"]]),
    ],
    signatures: vec![
        signature("import", vec![vec![]]),
        // class_body
        signature(
            "function_declaration",
            vec![
                vec![Field("name")],
                vec![
                    ChildKind("function_value_parameters"),
                    ChildKind("parameter"),
                    ChildKind("user_type"),
                ],
            ],
        ),
        signature(
            "property_declaration",
            vec![vec![
                ChildKind("variable_declaration"),
                ChildKind("identifier"),
            ]],
        ),
        // class_declaration
        signature("delegation_specifier", vec![vec![]]),
        // modifiers
        signature("annotation", vec![vec![]]), // annotations can be repeatable, so we can't use the name as key
        signature("public", vec![vec![]]),
        signature("protected", vec![vec![]]),
        signature("private", vec![vec![]]),
        signature("internal", vec![vec![]]),
        signature("final", vec![vec![]]),
        signature("open", vec![vec![]]),
        signature("abstract", vec![vec![]]),
        signature("override", vec![vec![]]),
    ],
    injections: None,
    flattened_nodes: &[],
    comment_nodes: &[],
}
}

/// The profile of Rust
fn rust() -> (res: LangProfile)
    ensures
        res.name@ == "Rust"@,
        naming(res) == ("Rust", Seq::<&'static str>::empty(), seq!["rs"], Seq::<&'static str>::empty()),
{
    LangProfile {
    name: "Rust",
    alternate_names: &[],
    extensions: vec!["rs"],
    file_names: vec![],
    atomic_nodes: vec!["block_comment", "line_comment"],
    commutative_parents: vec![
        CommutativeParent::without_delimiters("source_file", "\n").restricted_to_groups(&[
            &["use_declaration"], // to keep use declarations together (even if it's not actually required)
            &[
                "const_item",
                "macro_definition",
                "mod_item",
                "foreign_mod_item",
                "struct_item",
                "union_item",
                "enum_item",
                "type_item",
                "function_item",
                "function_signature_item",
                "impl_item",
                "trait_item",
                "extern_crate_declaration",
                "static_item",
            ],
        ]),
        // module members, impls…
        CommutativeParent::new("declaration_list", " {\n", "\n", "\n}\n")
            .restricted_to_groups(&[
                &["use_declaration"], // to keep use declarations together (even if it's not actually required)
                &[
                    "const_item",
                    "macro_definition",
                    "macro_definition_v2",
                    "mod_item",
                    "foreign_mod_item",
                    "struct_item",
                    "union_item",
                    "enum_item",
                    "type_item",
                    "function_item",
                    "function_signature_item",
                    "impl_item",
                    "trait_item",
                    "extern_crate_declaration",
                    "static_item",
                ],
            ]),
        // scoped "use" declaration
        CommutativeParent::new("use_list", "{", ", ", "}"),
        CommutativeParent::with_left_delimiter("trait_bounds", ": ", " + "),
        // strictly speaking, the derived order on values depends on their declaration
        CommutativeParent::new("enum_variant_list", " {\n", ", ", "\n}\n")
            .restricted_to_groups(&[&["enum_variant"]]),
        // strictly speaking, the order can matter if using the C ABI
        CommutativeParent::new("field_declaration_list", " {\n", ", ", "\n}\n")
            .restricted_to_groups(&[&["field_declaration"]]),
        CommutativeParent::new("field_initializer_list", "{ ", ", ", " }")
            .restricted_to_groups(&[&[
                "shorthand_field_initializer",
                "field_initializer",
                "base_field_initializer",
            ]]),
        CommutativeParent::without_delimiters("function_modifiers", " "),
        CommutativeParent::with_left_delimiter("where_clause", "where", ",\n")
            .restricted_to_groups(&[&["where_predicate"]]),
    ],
    signatures: vec![
        // as module member, impls…
        signature("const_item", vec![vec![Field("name")]]),
        signature("macro_definition", vec![vec![Field("name")]]),
        signature("macro_definition_v2", vec![vec![Field("name")]]),
        signature("mod_item", vec![vec![Field("name")]]),
        signature("struct_item", vec![vec![Field("name")]]),
        signature("union_item", vec![vec![Field("name")]]),
        signature("enum_item", vec![vec![Field("name")]]),
        signature("type_item", vec![vec![Field("name")]]),
        signature("function_item", vec![vec![Field("name")]]),
        signature("function_signature_item", vec![vec![Field("name")]]),
        // one can have multiple `impl Foo { ... }` items in the source code, and the
        // only real way to find out if they are identical is to go through the entire body
        // -- so we do just that by using the entire body as the signature
        signature("impl_item", vec![vec![]]),
        signature("trait_item", vec![vec![Field("name")]]),
        signature("static_item", vec![vec![Field("name")]]),
        // function_modifiers
        signature("async", vec![vec![]]),
        signature("default", vec![vec![]]),
        signature("const", vec![vec![]]),
        signature("unsafe", vec![vec![]]),
        // source_file
        signature("use_declaration", vec![vec![Field("argument")]]),
        signature("extern_crate_declaration", vec![vec![Field("name")]]),
        // one can have multiple `extern "X" { ... }` items in the source code, and the
        // only real way to find out if they are identical is to go through the entire body
        // -- so we do just that by using the entire body as the signature
        signature("foreign_mod_item", vec![vec![]]),
        // trait_bound
        signature("lifetime", vec![vec![]]),
        // use list
        signature("self", vec![vec![]]),
        signature("identifier", vec![vec![]]),
        signature("scoped_identifier", vec![vec![]]),
        // enum_variant_list
        signature("enum_variant", vec![vec![Field("name")]]),
        // field_declaration_list
        signature("field_declaration", vec![vec![Field("name")]]),
        // field_initializer_list
        signature("field_initializer", vec![vec![Field("field")]]),
        signature("shorthand_field_initializer", vec![vec![]]),
        signature("base_field_initializer", vec![]), // maximum one per field_initializer_list
        // where_clause
        signature(
            "where_predicate",
            vec![vec![Field("left")], vec![Field("bounds")]],
        ),
    ],
    injections: None,
    flattened_nodes: &[],
    comment_nodes: &[],
}
}

/// The profile of Go
fn go() -> (res: LangProfile)
    ensures
        res.name@ == "Go"@,
        naming(res) == ("Go", Seq::<&'static str>::empty(), seq!["go"], Seq::<&'static str>::empty()),
{
    LangProfile {
    name: "Go",
    alternate_names: &[],
    extensions: vec!["go"],
    file_names: vec![],
    atomic_nodes: vec!["interpreted_string_literal"], // for https://github.com/tree-sitter/tree-sitter-go/issues/150
    commutative_parents: vec![
        CommutativeParent::without_delimiters("source_file", "\n").restricted_to(vec![
            ChildrenGroup::new(&["import_declaration"]),
            ChildrenGroup::with_separator(
                &["function_declaration", "method_declaration"],
                "\n\n",
            ),
        ]),
        CommutativeParent::new("import_spec_list", "(\n", "\n", "\n)\n")
            .restricted_to_groups(&[&["import_spec"]]),
        CommutativeParent::new("field_declaration_list", " {\n", "\n", "\n}\n") // not strictly speaking, because it impacts memory layout
            .restricted_to_groups(&[&["field_declaration"]]),
        CommutativeParent::new("literal_value", "{", ", ", "}")
            .restricted_to_groups(&[&["literal_element", "keyed_element"]]),
    ],
    signatures: vec![
        signature(
            "type_declaration",
            vec![vec![ChildKind("type_spec"), Field("name")]],
        ),
        signature("field_declaration", vec![vec![Field("name")]]),
        signature("function_declaration", vec![vec![Field("name")]]),
        signature(
            "method_declaration",
            vec![vec![Field("receiver")], vec![Field("name")]],
        ),
        signature("import_declaration", vec![vec![]]), // can't use a field, since it can be either `import_spec` or `import_spec_list`
        signature("import_spec", vec![vec![Field("path")]]), // ideally we'd also take the 'name' into account, as it must probably be unique
        signature("keyed_element", vec![vec![Field("key")]]),
    ],
    injections: None,
    flattened_nodes: &[],
    comment_nodes: &[],
}
}

/// The profile of go.mod
fn go_mod() -> (res: LangProfile)
    ensures
        res.name@ == "go.mod"@,
        naming(res) == ("go.mod", Seq::<&'static str>::empty(), Seq::<&'static str>::empty(), seq!["go.mod"]),
{
    LangProfile {
    name: "go.mod",
    alternate_names: &[],
    extensions: vec![],
    file_names: vec!["go.mod"],
    atomic_nodes: vec![],
    commutative_parents: vec![
        CommutativeParent::without_delimiters("source_file", "\n\n").restricted_to_groups(
            &[
                &["require_directive_single"],
                &["replace_directive_single"],
                &["exclude_directive_single"],
                &["retract_directive_single"],
                &["ignore_directive_single"],
                &["godebug_directive_single"],
            ],
        ),
        CommutativeParent::new("require_directive_multi", "(", "\n", ")")
            .restricted_to_groups(&[&["require_spec"]]),
        CommutativeParent::new("replace_directive_multi", "(", "\n", ")")
            .restricted_to_groups(&[&["replace_spec"]]),
        CommutativeParent::new("exclude_directive_multi", "(", "\n", ")")
            .restricted_to_groups(&[&["exclude_spec"]]),
        CommutativeParent::new("retract_directive_multi", "(", "\n", ")")
            .restricted_to_groups(&[&["retract_spec"]]),
        CommutativeParent::new("ignore_directive_multi", "(", "\n", ")")
            .restricted_to_groups(&[&["ignore_spec"]]),
        CommutativeParent::new("godebug_directive_multi", "(", "\n", ")")
            .restricted_to_groups(&[&["godebug_spec"]]),
    ],
    signatures: vec![
        signature(
            "require_directive_single",
            vec![vec![ChildKind("require_spec"), Field("path")]],
        ),
        signature(
            "replace_directive_single",
            vec![
                vec![ChildKind("replace_spec"), Field("from_path")],
                vec![ChildKind("replace_spec"), Field("from_version")],
            ],
        ),
        signature(
            "exclude_directive_single",
            vec![vec![ChildKind("exclude_spec")]],
        ),
        signature(
            "retract_directive_single",
            vec![vec![ChildKind("retract_spec")]],
        ),
        signature(
            "ignore_directive_single",
            vec![vec![ChildKind("ignore_spec")]],
        ),
        signature(
            "godebug_directive_single",
            vec![vec![ChildKind("godebug_spec"), Field("key")]],
        ),
        signature("require_spec", vec![vec![Field("path")]]),
        signature(
            "replace_spec",
            vec![vec![Field("from_path")], vec![Field("from_version")]],
        ),
        signature("exclude_spec", vec![vec![]]),
        signature("retract_spec", vec![vec![]]),
        signature("ignore_spec", vec![vec![]]),
        signature("godebug_spec", vec![vec![Field("key")]]),
    ],
    injections: None,
    flattened_nodes: &[],
    comment_nodes: &[],
}
}

/// The profile of go.sum
fn go_sum() -> (res: LangProfile)
    ensures
        res.name@ == "go.sum"@,
        naming(res) == ("go.sum", Seq::<&'static str>::empty(), Seq::<&'static str>::empty(), seq!["go.sum"]),
{
    LangProfile {
    name: "go.sum",
    alternate_names: &[],
    extensions: vec![],
    file_names: vec!["go.sum"],
    atomic_nodes: vec![],
    commutative_parents: vec![
        CommutativeParent::without_delimiters("checksum_database", "\n")
            .restricted_to_groups(&[&["checksum"]]),
    ],
    signatures: vec![
        // the same module can appear multiple times in go.sum with the same version,
        // so the version needs to be part of the signature.
        signature(
            "checksum",
            vec![
                vec![Field("path")],
                vec![Field("version")],
                vec![Field("go_mod")],
            ],
        ),
    ],
    injections: None,
    flattened_nodes: &[],
    comment_nodes: &[],
}
}

/// The profile of INI
fn ini() -> (res: LangProfile)
    ensures
        res.name@ == "INI"@,
        naming(res) == ("INI", Seq::<&'static str>::empty(), seq!["ini"], Seq::<&'static str>::empty()),
{
    LangProfile {
    name: "INI",
    alternate_names: &[],
    extensions: vec!["ini"],
    file_names: vec![],
    atomic_nodes: vec![],
    commutative_parents: vec![
        CommutativeParent::without_delimiters("section", "\n")
            .restricted_to_groups(&[&["setting"]]),
    ],
    signatures: vec![signature("setting", vec![vec![ChildKind("setting_name")]])],
    injections: None,
    flattened_nodes: &[],
    comment_nodes: &[],
}
}

/// The profile of Javascript
fn javascript() -> (res: LangProfile)
    ensures
        res.name@ == "Javascript"@,
        naming(res) == ("Javascript", Seq::<&'static str>::empty(), seq!["js", "jsx", "mjs"], Seq::<&'static str>::empty()),
{
    LangProfile {
    name: "Javascript",
    alternate_names: &[],
    extensions: vec!["js", "jsx", "mjs"],
    file_names: vec![],
    atomic_nodes: vec![],
    commutative_parents: vec![
        CommutativeParent::new("object", "{", ", ", "}"),
        CommutativeParent::new("class_body", " {\n", "\n\n", "\n}\n"),
        CommutativeParent::new("jsx_opening_element", "<", " ", ">"),
    ],
    signatures: vec![
        signature("pair", vec![vec![Field("key")]]),
        signature("identifier", vec![vec![]]),
        signature("shorthand_property_identifier", vec![vec![]]),
        signature("method_definition", vec![vec![Field("name")]]),
        signature(
            "jsx_attribute",
            vec![vec![ChildKind("property_identifier")]],
        ),
    ],
    injections: None,
    flattened_nodes: &[],
    comment_nodes: &[],
}
}

/// The profile of JSON
fn json() -> (res: LangProfile)
    ensures
        res.name@ == "JSON"@,
        naming(res) == ("JSON", Seq::<&'static str>::empty(), seq!["json"], Seq::<&'static str>::empty()),
{
    LangProfile {
    name: "JSON",
    alternate_names: &[],
    extensions: vec!["json"],
    file_names: vec![],
    atomic_nodes: vec![],
    commutative_parents: vec![
        // the order of keys is deemed irrelevant
        CommutativeParent::new("object", "{", ", ", "}"),
    ],
    signatures: vec![signature("pair", vec![vec![Field("key")]])],
    injections: None,
    flattened_nodes: &[],
    comment_nodes: &[],
}
}

/// The profile of YAML
fn yaml() -> (res: LangProfile)
    ensures
        res.name@ == "YAML"@,
        naming(res) == ("YAML", Seq::<&'static str>::empty(), seq!["yml", "yaml"], Seq::<&'static str>::empty()),
{
    LangProfile {
    name: "YAML",
    alternate_names: &[],
    extensions: vec!["yml", "yaml"],
    file_names: vec![],
    atomic_nodes: vec!["single_quote_scalar", "double_quote_scalar"],
    commutative_parents: vec![CommutativeParent::without_delimiters("block_mapping", "\n")],
    signatures: vec![signature("block_mapping_pair", vec![vec![Field("key")]])],
    injections: None,
    flattened_nodes: &[],
    comment_nodes: &[],
}
}

/// The profile of pyproject.toml
fn pyproject_toml() -> (res: LangProfile)
    ensures
        res.name@ == "pyproject.toml"@,
        naming(res) == ("pyproject.toml", Seq::<&'static str>::empty(), Seq::<&'static str>::empty(), seq!["pyproject.toml"]),
{
    LangProfile {
    name: "pyproject.toml",
    alternate_names: &[],
    extensions: vec![],
    file_names: vec!["pyproject.toml"],
    atomic_nodes: vec!["string"],
    commutative_parents: vec![
        CommutativeParent::without_delimiters("document", "\n"),
        CommutativeParent::without_delimiters("table", "\n"),
        CommutativeParent::new("inline_table", "{", ", ", "}"),
        // Make certain pyproject-specific attributes commutative.
        // In the interest of having a simpler query, we don't make a difference between the
        // tables in which the fields listed below belong, but strictly speaking only
        // "requires" belongs to the "build-system" one, and all others to the "project"
        // one. What's important is that other attributes from tool tables aren't made
        // commutative, as their meaning is defined by each tool.
        // See https://packaging.python.org/en/latest/specifications/pyproject-toml/
        CommutativeParent::from_query(
            r#"(table
(bare_key) @table_key (#any-of? @table_key "build-system" "project")
   (pair
   		(bare_key) @pair_key (#any-of? @pair_key "requires" "license-files" "authors" "maintainers" "keywords" "classifiers" "dependencies" "dynamic")
(array) @commutative
   )
)

; Optional dependencies expressed as regular key-value pairs
(table
  (dotted_key
    (bare_key) @project (#eq? @project "project")
    (bare_key) @deps (#eq? @deps "optional-dependencies")
  )
  (pair
    (bare_key)
    (array) @commutative
  )
)

; Optional dependencies expressed as inline tables
(table
  (bare_key) @table_key (#eq? @table_key "project")
  (pair
    (bare_key) @pair_key (#eq? @pair_key "optional-dependencies")
    (inline_table
      (pair
(array) @commutative
      )
    )
  )
)"#,
            "[",
            ", ",
            "]",
        ),
    ],
    signatures: vec![
        signature("pair", vec![vec![ChildKind("bare_key")]]),
        signature("string", vec![vec![]]),
    ],
    injections: None,
    flattened_nodes: &[],
    comment_nodes: &[],
}
}

/// The profile of TOML
fn toml() -> (res: LangProfile)
    ensures
        res.name@ == "TOML"@,
        naming(res) == ("TOML", Seq::<&'static str>::empty(), seq!["toml"], Seq::<&'static str>::empty()),
{
    LangProfile {
    name: "TOML",
    alternate_names: &[],
    extensions: vec!["toml"],
    file_names: vec![],
    atomic_nodes: vec!["string"],
    commutative_parents: vec![
        CommutativeParent::without_delimiters("document", "\n"),
        CommutativeParent::without_delimiters("table", "\n"),
        CommutativeParent::new("inline_table", "{", ", ", "}"),
    ],
    signatures: vec![signature("pair", vec![vec![ChildKind("bare_key")]])],
    injections: None,
    flattened_nodes: &[],
    comment_nodes: &[],
}
}

/// The profile of HTML
fn html() -> (res: LangProfile)
    ensures
        res.name@ == "HTML"@,
        naming(res) == ("HTML", Seq::<&'static str>::empty(), seq!["html", "htm"], Seq::<&'static str>::empty()),
{
    LangProfile {
    name: "HTML",
    alternate_names: &[],
    extensions: vec!["html", "htm"],
    file_names: vec![],
    atomic_nodes: vec![],
    commutative_parents: vec![
        CommutativeParent::new("self_closing_tag", "<", " ", "/>"),
        CommutativeParent::new("start_tag", "<", " ", ">"),
    ],
    signatures: vec![signature(
        "attribute",
        vec![vec![ChildKind("attribute_name")]],
    )],
    injections: None,
    flattened_nodes: &[],
    comment_nodes: &[],
}
}

/// The profile of XML
fn xml() -> (res: LangProfile)
    ensures
        res.name@ == "XML"@,
        naming(res) == ("XML", Seq::<&'static str>::empty(), seq!["xhtml", "xml"], Seq::<&'static str>::empty()),
{
    LangProfile {
    name: "XML",
    alternate_names: &[],
    extensions: vec!["xhtml", "xml"],
    file_names: vec![],
    atomic_nodes: vec!["AttValue"],
    commutative_parents: vec![
        CommutativeParent::new("EmptyElemTag", "<", " ", "/>"),
        CommutativeParent::new("STag", "<", " ", ">"),
    ],
    signatures: vec![signature("Attribute", vec![vec![ChildKind("Name")]])],
    injections: None,
    flattened_nodes: &[],
    comment_nodes: &[],
}
}

/// The profile of C/C++
fn c_cpp() -> (res: LangProfile)
    ensures
        res.name@ == "C/C++"@,
        naming(res) == ("C/C++", seq!["C", "C++"], seq!["c", "h", "cc", "hh", "cpp", "hpp", "cxx", "hxx", "c++", "h++", "mpp", "cppm", "ixx", "tcc"], Seq::<&'static str>::empty()),
{
    LangProfile {
    name: "C/C++",
    alternate_names: &["C", "C++"],
    extensions: vec![
        "c", "h", "cc", "hh", "cpp", "hpp", "cxx", "hxx", "c++", "h++", "mpp", "cppm",
        "ixx", "tcc",
    ],
    file_names: vec![],
    atomic_nodes: vec![],
    commutative_parents: vec![
        CommutativeParent::new("initializer_list", "{", ",", "}")
            .restricted_to_groups(&[&["initializer_pair"]]),
        CommutativeParent::new("field_declaration_list", "{\n", "\n", "\n}\n")
            .restricted_to(vec![
                ChildrenGroup::new(&["field_declaration"]),
                ChildrenGroup::with_separator(&["function_definition"], "\n\n"),
            ]),
    ],
    signatures: vec![
        signature("initializer_pair", vec![vec![Field("designator")]]),
        signature(
            "function_definition",
            vec![
                vec![Field("declarator"), Field("declarator")],
                vec![
                    Field("declarator"),
                    Field("parameters"),
                    ChildKind("parameter_declaration"),
                    Field("type"),
                ],
            ],
        ),
        signature("field_declaration", vec![vec![Field("declarator")]]), // TODO this isn't quite right, as the "*" of a pointer type will end up in the signature
    ],
    injections: None,
    flattened_nodes: &[],
    comment_nodes: &[],
}
}

/// The profile of C#
fn c_sharp() -> (res: LangProfile)
    ensures
        res.name@ == "C#"@,
        naming(res) == ("C#", seq!["CSharp"], seq!["cs"], Seq::<&'static str>::empty()),
{
    LangProfile {
    name: "C#",
    alternate_names: &["CSharp"],
    extensions: vec!["cs"],
    file_names: vec![],
    atomic_nodes: vec![],
    commutative_parents: vec![
        CommutativeParent::without_delimiters("compilation_unit", "\n"),
        CommutativeParent::new("declaration_list", "{", "\n", "}").restricted_to_groups(&[
            &["using_directive"],
            &[
                "field_declaration",
                "property_declaration",
                "event_declaration",
                "event_field_declaration",
            ],
            &[
                "class_declaration",
                "struct_declaration",
                "enum_declaration",
                "delegate_declaration",
                "method_declaration",
                "record_declaration",
                "constructor_declaration",
                "destructor_declaration",
                "indexer_declaration",
                "interface_declaration",
                "namespace_declaration",
                "operator_declaration",
                "conversion_operator_declaration",
            ],
        ]),
        CommutativeParent::new("enum_member_declaration_list", "{", ",\n", "}"),
    ],
    signatures: vec![
        signature("using_directive", vec![vec![]]),
        // declaration_list
        signature("class_declaration", vec![vec![Field("name")]]),
        signature("struct_declaration", vec![vec![Field("name")]]),
        signature("enum_declaration", vec![vec![Field("name")]]),
        signature("interface_declaration", vec![vec![Field("name")]]),
        signature("delegate_declaration", vec![vec![Field("name")]]),
        signature("record_declaration", vec![vec![Field("name")]]),
        signature("field_declaration", vec![vec![Field("name")]]),
        signature(
            "method_declaration",
            vec![
                vec![Field("name")],
                vec![Field("parameters"), ChildKind("parameter"), Field("type")],
            ],
        ),
        signature(
            "constructor_declaration",
            vec![
                vec![Field("name")],
                vec![Field("parameters"), ChildKind("parameter"), Field("type")],
            ],
        ),
        signature("destructor_declaration", vec![]), // only one destructor per class
        signature(
            "operator_declaration",
            vec![
                vec![Field("operator")],
                vec![Field("parameters"), ChildKind("parameter"), Field("type")],
            ],
        ),
        signature("event_declaration", vec![vec![Field("name")]]),
        // enum_declaration_list
        signature("enum_member_declaration", vec![vec![Field("name")]]),
    ],
    injections: None,
    flattened_nodes: &[],
    comment_nodes: &[],
}
}

/// The profile of Dart
fn dart() -> (res: LangProfile)
    ensures
        res.name@ == "Dart"@,
        naming(res) == ("Dart", Seq::<&'static str>::empty(), seq!["dart"], Seq::<&'static str>::empty()),
{
    LangProfile {
    name: "Dart",
    alternate_names: &[],
    extensions: vec!["dart"],
    file_names: vec![],
    atomic_nodes: vec!["import_or_export"],
    commutative_parents: vec![
        CommutativeParent::without_delimiters("program", "\n"),
        CommutativeParent::new("enum_body", "{", ",\n", "}"),
        CommutativeParent::new("class_body", "{", "\n", "}"),
    ],
    signatures: vec![
        signature("import_or_export", vec![vec![]]),
        signature("enum_constant", vec![vec![]]),
        signature("class_definition", vec![vec![Field("name")]]),
    ],
    injections: None,
    flattened_nodes: &[],
    comment_nodes: &[],
}
}

/// The profile of Devicetree Source
fn devicetree_source() -> (res: LangProfile)
    ensures
        res.name@ == "Devicetree Source"@,
        naming(res) == ("Devicetree Source", Seq::<&'static str>::empty(), seq!["dts"], Seq::<&'static str>::empty()),
{
    LangProfile {
    name: "Devicetree Source",
    alternate_names: &[],
    extensions: vec!["dts"],
    file_names: vec![],
    atomic_nodes: vec!["string_literal"],
    commutative_parents: vec![CommutativeParent::new("node", "{", "\n", "}")],
    signatures: vec![
        signature("property", vec![vec![Field("name")]]),
        signature("node", vec![vec![Field("name")]]),
    ],
    injections: None,
    flattened_nodes: &[],
    comment_nodes: &[],
}
}

/// The profile of Scala
fn scala() -> (res: LangProfile)
    ensures
        res.name@ == "Scala"@,
        naming(res) == ("Scala", Seq::<&'static str>::empty(), seq!["scala", "sbt"], Seq::<&'static str>::empty()),
{
    LangProfile {
    name: "Scala",
    alternate_names: &[],
    extensions: vec!["scala", "sbt"],
    file_names: vec![],
    atomic_nodes: vec![],
    commutative_parents: vec![],
    signatures: vec![],
    injections: None,
    flattened_nodes: &[],
    comment_nodes: &[],
}
}

/// The profile of Typescript
fn typescript() -> (res: LangProfile)
    ensures
        res.name@ == "Typescript"@,
        naming(res) == ("Typescript", Seq::<&'static str>::empty(), seq!["ts"], Seq::<&'static str>::empty()),
{
    LangProfile {
    name: "Typescript",
    alternate_names: &[],
    extensions: vec!["ts"],
    file_names: vec![],
    atomic_nodes: vec![],
    commutative_parents: typescript_commutative_parents(),
    signatures: typescript_signatures(),
    injections: None,
    flattened_nodes: &["union_type", "intersection_type"],
    comment_nodes: &[],
}
}

/// The profile of Typescript (TSX)
fn typescript_tsx() -> (res: LangProfile)
    ensures
        res.name@ == "Typescript (TSX)"@,
        naming(res) == ("Typescript (TSX)", Seq::<&'static str>::empty(), seq!["tsx"], Seq::<&'static str>::empty()),
{
    LangProfile {
    name: "Typescript (TSX)",
    alternate_names: &[],
    extensions: vec!["tsx"],
    file_names: vec![],
    atomic_nodes: vec![],
    commutative_parents: tsx_commutative_parents(),
    signatures: tsx_signatures(),
    injections: None,
    flattened_nodes: &["union_type", "intersection_type"],
    comment_nodes: &[],
}
}

/// The profile of Python
fn python() -> (res: LangProfile)
    ensures
        res.name@ == "Python"@,
        naming(res) == ("Python", Seq::<&'static str>::empty(), seq!["py"], Seq::<&'static str>::empty()),
{
    LangProfile {
    name: "Python",
    alternate_names: &[],
    extensions: vec!["py"],
    file_names: vec![],
    atomic_nodes: vec!["string", "dotted_name"],
    commutative_parents: vec![
        CommutativeParent::without_delimiters("module", "\n").restricted_to_groups(&[
            &["import_statement", "import_from_statement"],
            &["class_definition"],
        ]),
        CommutativeParent::without_delimiters("block", "\n\n").restricted_to_groups(&[&[
            "function_definition",
            "decorated_definition",
            "class_definition",
        ]]),
        CommutativeParent::without_delimiters("import_from_statement", ", ")
            .restricted_to_groups(&[&["dotted_name"]]),
        CommutativeParent::new("argument_list", "(", ", ", ")")
            .restricted_to_groups(&[&["keyword_argument"]]),
        CommutativeParent::new("set", "{", ", ", "}"),
        CommutativeParent::from_query(
            r#"(expression_statement (assignment
   left: (identifier) @variable (#eq? @variable "__all__")
   right: (list) @commutative)
 )"#,
            "[",
            ", ",
            "]",
        ),
    ],
    signatures: vec![
        signature("import_from_statement", vec![vec![]]),
        signature("class_definition", vec![vec![Field("name")]]),
        signature("function_definition", vec![vec![Field("name")]]),
        signature(
            "decorated_definition",
            vec![vec![Field("definition"), Field("name")]],
        ),
        signature("dotted_name", vec![vec![]]),
        signature("keyword_argument", vec![vec![Field("name")]]),
        signature("string", vec![vec![]]), // for elements of __all__ lists
    ],
    injections: None,
    flattened_nodes: &[],
    comment_nodes: &[],
}
}

/// The profile of PHP
fn php() -> (res: LangProfile)
    ensures
        res.name@ == "PHP"@,
        naming(res) == ("PHP", Seq::<&'static str>::empty(), seq!["php", "phtml"], Seq::<&'static str>::empty()),
{
    LangProfile {
    name: "PHP",
    alternate_names: &[],
    extensions: vec!["php", "phtml"],
    file_names: vec![],
    // optional settings, explained below
    atomic_nodes: vec![],
    commutative_parents: vec![
        // TODO: allow commutation between "use" and "require" statements, which is
        // currently not possible as "require" statements appear as "expression_statement",
        // which encompasses non-declarative statements too.
        CommutativeParent::without_delimiters("program", "\n")
            .restricted_to_groups(&[&["namespace_use_declaration"]]),
        CommutativeParent::new("declaration_list", "{", "\n\n", "}").restricted_to_groups(
            &[
                &["use_declaration"],
                &[
                    "const_declaration",
                    "property_declaration",
                    "method_declaration",
                ],
            ],
        ),
        CommutativeParent::new("enum_declaration_list", "{", "\n\n", "}"),
    ],
    signatures: vec![
        signature("namespace_use_declaration", vec![vec![]]),
        signature(
            "const_declaration",
            vec![vec![ChildKind("const_element"), ChildKind("name")]],
        ),
        signature("function_definition", vec![vec![Field("name")]]),
        signature("interface_declaration", vec![vec![Field("name")]]),
        signature("class_declaration", vec![vec![Field("name")]]),
        signature(
            "property_declaration",
            vec![vec![ChildKind("property_element"), Field("name")]],
        ),
        signature("property_promotion_parameter", vec![vec![Field("name")]]),
        signature("method_declaration", vec![vec![Field("name")]]),
        signature("enum_declaration", vec![vec![Field("name")]]),
        signature("enum_case", vec![vec![Field("name")]]),
        signature("attribute_list", vec![vec![]]),
    ],
    injections: None,
    flattened_nodes: &[],
    comment_nodes: &[],
}
}

/// The profile of Solidity
fn solidity() -> (res: LangProfile)
    ensures
        res.name@ == "Solidity"@,
        naming(res) == ("Solidity", Seq::<&'static str>::empty(), seq!["sol"], Seq::<&'static str>::empty()),
{
    LangProfile {
    name: "Solidity",
    alternate_names: &[],
    extensions: vec!["sol"],
    file_names: vec![],
    atomic_nodes: vec![],
    commutative_parents: vec![
        CommutativeParent::without_delimiters("source_file", "\n"),
        CommutativeParent::without_delimiters("contract_body", "\n"),
    ],
    signatures: vec![],
    injections: None,
    flattened_nodes: &[],
    comment_nodes: &[],
}
}

/// The profile of Lua
fn lua() -> (res: LangProfile)
    ensures
        res.name@ == "Lua"@,
        naming(res) == ("Lua", Seq::<&'static str>::empty(), seq!["lua"], Seq::<&'static str>::empty()),
{
    LangProfile {
    name: "Lua",
    alternate_names: &[],
    extensions: vec!["lua"],
    file_names: vec![],
    atomic_nodes: vec![],
    commutative_parents: vec![],
    signatures: vec![],
    injections: None,
    flattened_nodes: &[],
    comment_nodes: &[],
}
}

/// The profile of Ruby
fn ruby() -> (res: LangProfile)
    ensures
        res.name@ == "Ruby"@,
        naming(res) == ("Ruby", Seq::<&'static str>::empty(), seq!["rb"], Seq::<&'static str>::empty()),
{
    LangProfile {
    name: "Ruby",
    alternate_names: &[],
    extensions: vec!["rb"],
    file_names: vec![],
    atomic_nodes: vec![],
    commutative_parents: vec![],
    signatures: vec![],
    injections: None,
    flattened_nodes: &[],
    comment_nodes: &[],
}
}

/// The profile of Elixir
fn elixir() -> (res: LangProfile)
    ensures
        res.name@ == "Elixir"@,
        naming(res) == ("Elixir", Seq::<&'static str>::empty(), seq!["ex", "exs"], Seq::<&'static str>::empty()),
{
    LangProfile {
    name: "Elixir",
    alternate_names: &[],
    extensions: vec!["ex", "exs"],
    file_names: vec![],
    atomic_nodes: vec![],
    commutative_parents: vec![],
    signatures: vec![],
    injections: None,
    flattened_nodes: &[],
    comment_nodes: &[],
}
}

/// The profile of Nix
fn nix() -> (res: LangProfile)
    ensures
        res.name@ == "Nix"@,
        naming(res) == ("Nix", Seq::<&'static str>::empty(), seq!["nix"], Seq::<&'static str>::empty()),
{
    LangProfile {
    name: "Nix",
    alternate_names: &[],
    extensions: vec!["nix"],
    file_names: vec![],
    atomic_nodes: vec![],
    commutative_parents: vec![
        CommutativeParent::new("binding_set", "{", "\n", "}"),
        CommutativeParent::new("formals", "{", ",\n", "}"),
    ],
    signatures: vec![
        signature("binding", vec![vec![Field("attrpath")]]),
        signature("formal", vec![vec![Field("name")]]),
    ],
    injections: None,
    flattened_nodes: &[],
    comment_nodes: &[],
}
}

/// The profile of SystemVerilog
fn systemverilog() -> (res: LangProfile)
    ensures
        res.name@ == "SystemVerilog"@,
        naming(res) == ("SystemVerilog", Seq::<&'static str>::empty(), seq!["sv", "svh"], Seq::<&'static str>::empty()),
{
    LangProfile {
    name: "SystemVerilog",
    alternate_names: &[],
    extensions: vec!["sv", "svh"],
    file_names: vec![],
    atomic_nodes: vec![],
    commutative_parents: vec![],
    signatures: vec![],
    injections: None,
    flattened_nodes: &[],
    comment_nodes: &[],
}
}

/// The profile of Markdown
fn markdown() -> (res: LangProfile)
    ensures
        res.name@ == "Markdown"@,
        naming(res) == ("Markdown", Seq::<&'static str>::empty(), seq!["md"], Seq::<&'static str>::empty()),
{
    LangProfile {
    name: "Markdown",
    alternate_names: &[],
    extensions: vec!["md"],
    file_names: vec![],
    atomic_nodes: vec![
        "inline",
        "link_label",
        "link_destination",
        "link_title",
        "code_fence_content",
        "indented_code_block",
        "pipe_table_delimiter_cell",
        "pipe_table_cell",
    ],
    commutative_parents: vec![
        CommutativeParent::without_delimiters("section", "\n\n").restricted_to(vec![
            ChildrenGroup::with_separator(&["link_reference_definition"], "\n"),
        ]),
    ],
    signatures: vec![],
    injections: None,
    flattened_nodes: &[],
    comment_nodes: &[],
}
}

/// The profile of HCL
fn hcl() -> (res: LangProfile)
    ensures
        res.name@ == "HCL"@,
        naming(res) == ("HCL", Seq::<&'static str>::empty(), seq!["hcl", "tf", "tfvars"], Seq::<&'static str>::empty()),
{
    LangProfile {
    name: "HCL",
    alternate_names: &[],
    extensions: vec!["hcl", "tf", "tfvars"],
    file_names: vec![],
    atomic_nodes: vec![],
    commutative_parents: vec![],
    signatures: vec![],
    injections: None,
    flattened_nodes: &[],
    comment_nodes: &[],
}
}

/// The profile of OCaml
fn ocaml() -> (res: LangProfile)
    ensures
        res.name@ == "OCaml"@,
        naming(res) == ("OCaml", Seq::<&'static str>::empty(), seq!["ml"], Seq::<&'static str>::empty()),
{
    LangProfile {
    name: "OCaml",
    alternate_names: &[],
    extensions: vec!["ml"],
    file_names: vec![],
    atomic_nodes: vec![],
    commutative_parents: ocaml_commutative_parents(),
    signatures: ocaml_signatures(),
    injections: None,
    flattened_nodes: &[],
    comment_nodes: &[],
}
}

/// The profile of OCaml interfaces
fn ocaml_interfaces() -> (res: LangProfile)
    ensures
        res.name@ == "OCaml interfaces"@,
        naming(res) == ("OCaml interfaces", Seq::<&'static str>::empty(), seq!["mli"], Seq::<&'static str>::empty()),
{
    LangProfile {
    name: "OCaml interfaces",
    alternate_names: &[],
    extensions: vec!["mli"],
    file_names: vec![],
    atomic_nodes: vec![],
    commutative_parents: ocaml_commutative_parents(),
    signatures: ocaml_signatures(),
    injections: None,
    flattened_nodes: &[],
    comment_nodes: &[],
}
}

/// The profile of Haskell
fn haskell() -> (res: LangProfile)
    ensures
        res.name@ == "Haskell"@,
        naming(res) == ("Haskell", Seq::<&'static str>::empty(), seq!["hs"], Seq::<&'static str>::empty()),
{
    LangProfile {
    name: "Haskell",
    alternate_names: &[],
    extensions: vec!["hs"],
    file_names: vec![],
    atomic_nodes: vec![],
    commutative_parents: vec![
        CommutativeParent::without_delimiters("imports", "\n"),
        CommutativeParent::new("import_list", "(", ", ", ")"),
        CommutativeParent::new("exports", "(", ", ", ")")
            .restricted_to_groups(&[&["import_name"]]),
        CommutativeParent::new("children", "(", ", ", ")"), // children of types and typeclasses in imports and exports.
        CommutativeParent::new("record", "{", ",\n", "}")
            .restricted_to_groups(&[&["field_update"]]),
        CommutativeParent::from_query("(deriving (tuple) @commutative)", "(", ", ", ")"),
        CommutativeParent::without_delimiters("declarations", "\n").restricted_to_groups(
            // notably leaving out: functions and TemplateHaskell splices
            &[&[
                "bind",
                "signature",
                "data_type",
                "type_synomym", // typo to be fixed by https://github.com/tree-sitter/tree-sitter-haskell/pull/145
                "deriving_instance",
                "kind_signature",
                "newtype",
            ]],
        ),
        CommutativeParent::without_delimiters("local_binds", "\n")
            .restricted_to_groups(&[&["bind", "signature"]]),
    ],
    signatures: vec![
        signature("field_update", vec![vec![Field("field")]]), // in recordupdates
        signature("field", vec![vec![Field("name")]]),         // in records
        signature("import_name", vec![vec![]]), // in import and export statements
        signature("signature", vec![vec![Field("name")]]),
        signature("name", vec![vec![]]), // in deriving lists
        signature("kind_signature", vec![vec![Field("name")]]),
        signature("type_synomym", vec![vec![Field("name")]]), // typo to be fixed by https://github.com/tree-sitter/tree-sitter-haskell/pull/145
        signature("variable", vec![vec![]]),                  // in import/export children
        signature("bind", vec![vec![Field("name")]]),
        signature("deriving_instance", vec![vec![]]),
        signature("data_type", vec![vec![Field("name")]]),
        signature("newtype", vec![vec![Field("name")]]),
    ],
    injections: None,
    flattened_nodes: &[],
    comment_nodes: &[],
}
}

/// The profile of GNU Make
fn gnu_make() -> (res: LangProfile)
    ensures
        res.name@ == "GNU Make"@,
        naming(res) == ("GNU Make", Seq::<&'static str>::empty(), seq!["mk"], seq!["Makefile", "GNUmakefile"]),
{
    LangProfile {
    name: "GNU Make",
    alternate_names: &[],
    extensions: vec!["mk"],
    file_names: vec!["Makefile", "GNUmakefile"],
    atomic_nodes: vec!["recipe_line", "shell_command", "raw_text"],
    commutative_parents: vec![
        CommutativeParent::without_delimiters("prerequisites", " "),
        CommutativeParent::without_delimiters("list", " "),
        CommutativeParent::without_delimiters("pattern_list", " "),
    ],
    signatures: vec![
        signature("variable_assignment", vec![vec![Field("name")]]),
        signature("rule", vec![vec![Field("target")]]),
    ],
    injections: None,
    flattened_nodes: &[],
    comment_nodes: &[],
}
}

/// The profile of Starlark
fn starlark() -> (res: LangProfile)
    ensures
        res.name@ == "Starlark"@,
        naming(res) == ("Starlark", seq!["bazel", "bzl"], seq!["bzl", "bazel"], seq!["BUILD", "WORKSPACE"]),
{
    LangProfile {
    name: "Starlark",
    alternate_names: &["bazel", "bzl"],
    extensions: vec!["bzl", "bazel"],
    file_names: vec!["BUILD", "WORKSPACE"],
    atomic_nodes: vec![],
    commutative_parents: vec![
        // The order of statements at module level doesn't matter.
        CommutativeParent::without_delimiters("module", "\n")
            .restricted_to_groups(&[&["expression_statement"]]),
        // The order of key-value pairs in a dictionary doesn't matter.
        CommutativeParent::new("dictionary", "{", ", ", "}"),
        // The order of keyword arguments in a function call doesn't matter.
        // We restrict this to only keyword_argument nodes.
        CommutativeParent::new("argument_list", "(", ", ", ")")
            .restricted_to_groups(&[&["keyword_argument"]]),
        // Lists in deps, srcs, and data keyword arguments are commutative
        CommutativeParent::from_query(
            r#"(keyword_argument
                 name: (identifier) @arg_name (#any-of? @arg_name "deps" "srcs" "data")
                 value: (list) @commutative)"#,
            "[",
            ",",
            "]",
        ),
        // Lists in exports_files and glob calls are commutative
        CommutativeParent::from_query(
            r#"(call
                 function: (identifier) @func_name (#any-of? @func_name "exports_files" "glob")
                 arguments: (argument_list (list) @commutative))"#,
            "[",
            ",",
            "]",
        ),
    ],
    signatures: vec![
        // Dictionary entries are identified by their key.
        signature("pair", vec![vec![Field("key")]]),
        // Keyword arguments are identified by their name.
        signature("keyword_argument", vec![vec![Field("name")]]),
        // String literals in lists are identified by their content.
        signature("string", vec![vec![]]),
    ],
    injections: None,
    flattened_nodes: &[],
    comment_nodes: &[],
}
}

/// The profile of CMake
fn cmake() -> (res: LangProfile)
    ensures
        res.name@ == "CMake"@,
        naming(res) == ("CMake", seq!["cmake"], seq!["cmake"], seq!["CMakeLists.txt"]),
{
    LangProfile {
    name: "CMake",
    alternate_names: &["cmake"],
    extensions: vec!["cmake"],
    file_names: vec!["CMakeLists.txt"],
    atomic_nodes: vec![],
    commutative_parents: vec![],
    signatures: vec![],
    injections: None,
    flattened_nodes: &[],
    comment_nodes: &[],
}
}

/// The list of supported language profiles,
/// which contain all the language-specific information required to merge files in that language.
/// The names, alternate names, extensions and file names of the supported languages, in the
/// order in which they are looked up
pub open spec fn supported_naming() -> Seq<Naming> {
    seq![
        ("Java", Seq::<&'static str>::empty(), seq!["java"], Seq::<&'static str>::empty()),
        ("Java properties", Seq::<&'static str>::empty(), seq!["properties"], Seq::<&'static str>::empty()),
        ("Kotlin", Seq::<&'static str>::empty(), seq!["kt"], Seq::<&'static str>::empty()),
        ("Rust", Seq::<&'static str>::empty(), seq!["rs"], Seq::<&'static str>::empty()),
        ("Go", Seq::<&'static str>::empty(), seq!["go"], Seq::<&'static str>::empty()),
        ("go.mod", Seq::<&'static str>::empty(), Seq::<&'static str>::empty(), seq!["go.mod"]),
        ("go.sum", Seq::<&'static str>::empty(), Seq::<&'static str>::empty(), seq!["go.sum"]),
        ("INI", Seq::<&'static str>::empty(), seq!["ini"], Seq::<&'static str>::empty()),
        ("Javascript", Seq::<&'static str>::empty(), seq!["js", "jsx", "mjs"], Seq::<&'static str>::empty()),
        ("JSON", Seq::<&'static str>::empty(), seq!["json"], Seq::<&'static str>::empty()),
        ("YAML", Seq::<&'static str>::empty(), seq!["yml", "yaml"], Seq::<&'static str>::empty()),
        ("pyproject.toml", Seq::<&'static str>::empty(), Seq::<&'static str>::empty(), seq!["pyproject.toml"]),
        ("TOML", Seq::<&'static str>::empty(), seq!["toml"], Seq::<&'static str>::empty()),
        ("HTML", Seq::<&'static str>::empty(), seq!["html", "htm"], Seq::<&'static str>::empty()),
        ("XML", Seq::<&'static str>::empty(), seq!["xhtml", "xml"], Seq::<&'static str>::empty()),
        ("C/C++", seq!["C", "C++"], seq!["c", "h", "cc", "hh", "cpp", "hpp", "cxx", "hxx", "c++", "h++", "mpp", "cppm", "ixx", "tcc"], Seq::<&'static str>::empty()),
        ("C#", seq!["CSharp"], seq!["cs"], Seq::<&'static str>::empty()),
        ("Dart", Seq::<&'static str>::empty(), seq!["dart"], Seq::<&'static str>::empty()),
        ("Devicetree Source", Seq::<&'static str>::empty(), seq!["dts"], Seq::<&'static str>::empty()),
        ("Scala", Seq::<&'static str>::empty(), seq!["scala", "sbt"], Seq::<&'static str>::empty()),
        ("Typescript", Seq::<&'static str>::empty(), seq!["ts"], Seq::<&'static str>::empty()),
        ("Typescript (TSX)", Seq::<&'static str>::empty(), seq!["tsx"], Seq::<&'static str>::empty()),
        ("Python", Seq::<&'static str>::empty(), seq!["py"], Seq::<&'static str>::empty()),
        ("PHP", Seq::<&'static str>::empty(), seq!["php", "phtml"], Seq::<&'static str>::empty()),
        ("Solidity", Seq::<&'static str>::empty(), seq!["sol"], Seq::<&'static str>::empty()),
        ("Lua", Seq::<&'static str>::empty(), seq!["lua"], Seq::<&'static str>::empty()),
        ("Ruby", Seq::<&'static str>::empty(), seq!["rb"], Seq::<&'static str>::empty()),
        ("Elixir", Seq::<&'static str>::empty(), seq!["ex", "exs"], Seq::<&'static str>::empty()),
        ("Nix", Seq::<&'static str>::empty(), seq!["nix"], Seq::<&'static str>::empty()),
        ("SystemVerilog", Seq::<&'static str>::empty(), seq!["sv", "svh"], Seq::<&'static str>::empty()),
        ("Markdown", Seq::<&'static str>::empty(), seq!["md"], Seq::<&'static str>::empty()),
        ("HCL", Seq::<&'static str>::empty(), seq!["hcl", "tf", "tfvars"], Seq::<&'static str>::empty()),
        ("OCaml", Seq::<&'static str>::empty(), seq!["ml"], Seq::<&'static str>::empty()),
        ("OCaml interfaces", Seq::<&'static str>::empty(), seq!["mli"], Seq::<&'static str>::empty()),
        ("Haskell", Seq::<&'static str>::empty(), seq!["hs"], Seq::<&'static str>::empty()),
        ("GNU Make", Seq::<&'static str>::empty(), seq!["mk"], seq!["Makefile", "GNUmakefile"]),
        ("Starlark", seq!["bazel", "bzl"], seq!["bzl", "bazel"], seq!["BUILD", "WORKSPACE"]),
        ("CMake", seq!["cmake"], seq!["cmake"], seq!["CMakeLists.txt"]),
    ]
}

pub fn supported_languages() -> (res: Vec<LangProfile>)
    ensures
        res@.len() == 38,
        res@.map_values(|p: LangProfile| naming(p)) == supported_naming(),
{
    vec![
        java(),
        java_properties(),
        kotlin(),
        rust(),
        go(),
        go_mod(),
        go_sum(),
        ini(),
        javascript(),
        json(),
        yaml(),
        pyproject_toml(),
        toml(),
        html(),
        xml(),
        c_cpp(),
        c_sharp(),
        dart(),
        devicetree_source(),
        scala(),
        typescript(),
        typescript_tsx(),
        python(),
        php(),
        solidity(),
        lua(),
        ruby(),
        elixir(),
        nix(),
        systemverilog(),
        markdown(),
        hcl(),
        ocaml(),
        ocaml_interfaces(),
        haskell(),
        gnu_make(),
        starlark(),
        cmake(),
    ]
}

/// The implementation of `mergiraf languages`.
///
/// Lists the supported languages,
/// either in the format understood by `.gitattributes`,
/// or in a more human-readable format.
pub fn languages(gitattributes: bool) -> (res: String)
    ensures
        res@ == languages_text(supported_naming(), gitattributes),
{
    let langs = supported_languages();
    languages_listing(&langs, gitattributes)
}

} // verus!
