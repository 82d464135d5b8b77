use umlink::assemble::{link_diagram, should_group_by_package, should_include_classfile};
use umlink::classfile::{
    class_name_of_file_stem, classfile_to_mermaid_class, extract_parameter_names, get_annotation_params,
    get_full_class_name, get_interface_names, get_superclass_name, get_utf8, has_annotation,
    is_abstract, is_annotation, is_enum, is_interface, is_record, Annotation, AttributeInfo,
    ClassRecord, ElementValue, ElementValuePair, MemberInfo, PoolEntry, ACC_ABSTRACT,
    ACC_ANNOTATION, ACC_ENUM, ACC_INTERFACE, ACC_PRIVATE, ACC_PROTECTED, ACC_PUBLIC, ACC_STATIC,
};
use umlink::config::{Args, Config, MergedConfig};
use umlink::diagram::{
    ClassKind, Diagram, FrontMatter, Member, Relation, RelationKind, SelectFilter,
    Selection, Visibility,
};

const SKIP: &str = "com.example.Skip";
const AGGREGATE: &str = "com.example.Aggregate";
const COMPOSE: &str = "com.example.Compose";

struct Pool {
    entries: Vec<PoolEntry>,
}

impl Pool {
    fn new() -> Pool {
        Pool { entries: vec![PoolEntry::Empty] }
    }

    fn utf8(&mut self, s: &str) -> u16 {
        self.entries.push(PoolEntry::Utf8(s.to_string()));
        (self.entries.len() - 1) as u16
    }

    fn class(&mut self, name: &str) -> u16 {
        let name_index = self.utf8(name);
        self.entries.push(PoolEntry::Class { name_index });
        (self.entries.len() - 1) as u16
    }

    fn number(&mut self, text: &str) -> u16 {
        self.entries.push(PoolEntry::Number(text.to_string()));
        (self.entries.len() - 1) as u16
    }

    fn annotation(&mut self, descriptor_text: &str, params: &[(&str, &str)]) -> Annotation {
        let type_index = self.utf8(descriptor_text);
        let mut pairs = Vec::new();
        for (name, value) in params {
            let element_name_index = self.utf8(name);
            let const_value_index = self.utf8(value);
            pairs.push(ElementValuePair {
                element_name_index,
                value: ElementValue::Const { const_value_index },
            });
        }
        Annotation { type_index, element_value_pairs: pairs }
    }

    fn member(&mut self, flags: u16, name: &str, descriptor: &str, attributes: Vec<AttributeInfo>) -> MemberInfo {
        MemberInfo {
            access_flags: flags,
            name_index: self.utf8(name),
            descriptor_index: self.utf8(descriptor),
            attributes,
        }
    }
}

/// `com/example/Foo`: extends `com/example/Base`, implements `java/lang/Runnable`.
fn foo_record() -> ClassRecord {
    let mut p = Pool::new();
    let this_class = p.class("com/example/Foo");
    let super_class = p.class("com/example/Base");
    let runnable = p.class("java/lang/Runnable");
    let skip = p.annotation("Lcom/example/Skip;", &[]);
    let aggregate = p.annotation(
        "Lcom/example/Aggregate;",
        &[("selfCard", "1"), ("otherCard", "*"), ("label", "uses")],
    );
    let compose = p.annotation("Lcom/example/Compose;", &[]);
    let method_skip = p.annotation("Lcom/example/Skip;", &[]);
    let fields = vec![
        p.member(ACC_PUBLIC | ACC_STATIC, "count", "I", vec![]),
        p.member(
            ACC_PRIVATE,
            "helper",
            "Lcom/example/Bar;",
            vec![AttributeInfo::VisibleAnnotations(vec![aggregate])],
        ),
        p.member(
            ACC_PROTECTED,
            "hidden",
            "Ljava/lang/String;",
            vec![AttributeInfo::InvisibleAnnotations(vec![skip])],
        ),
        p.member(
            0,
            "parts",
            "[Lcom/example/Part;",
            vec![AttributeInfo::VisibleAnnotations(vec![compose])],
        ),
        p.member(0, "$cache", "Ljava/util/List;", vec![]),
    ];
    let times = p.utf8("times");
    let methods = vec![
        p.member(ACC_PUBLIC, "<init>", "()V", vec![]),
        p.member(ACC_STATIC, "<clinit>", "()V", vec![]),
        p.member(
            ACC_PUBLIC,
            "run",
            "(ILjava/lang/String;)V",
            vec![AttributeInfo::MethodParameters(vec![times, 0])],
        ),
        p.member(ACC_PRIVATE, "lambda$run$0", "()V", vec![]),
        p.member(ACC_PROTECTED | ACC_ABSTRACT, "name", "()Ljava/lang/String;", vec![]),
        p.member(
            ACC_PUBLIC,
            "secret",
            "()V",
            vec![AttributeInfo::VisibleAnnotations(vec![method_skip])],
        ),
    ];
    ClassRecord {
        access_flags: ACC_PUBLIC | ACC_ABSTRACT,
        this_class,
        super_class,
        interfaces: vec![runnable],
        constant_pool: p.entries,
        fields,
        methods,
        attributes: vec![],
    }
}

/// A plain class `<package>/<name>` that extends `java/lang/Object`.
fn plain_record(full_name: &str, class_annotation: Option<&str>) -> ClassRecord {
    let mut p = Pool::new();
    let this_class = p.class(full_name);
    let super_class = p.class("java/lang/Object");
    let attributes = match class_annotation {
        Some(name) => vec![AttributeInfo::VisibleAnnotations(vec![p.annotation(name, &[])])],
        None => vec![],
    };
    ClassRecord {
        access_flags: ACC_PUBLIC,
        this_class,
        super_class,
        interfaces: vec![],
        constant_pool: p.entries,
        fields: vec![],
        methods: vec![],
        attributes,
    }
}

fn config() -> MergedConfig {
    MergedConfig {
        skip: Some(SKIP.to_string()),
        aggregate: Some(AGGREGATE.to_string()),
        compose: Some(COMPOSE.to_string()),
        link: None,
        navigate: None,
    }
}

fn front_matter(group_package: Option<bool>, select: Selection) -> FrontMatter {
    FrontMatter { text: "title: Test\n".to_string(), group_package, select }
}

fn class_names(diagram: &Diagram) -> Vec<(String, String)> {
    let mut names = Vec::new();
    for namespace in &diagram.namespaces {
        for class in &namespace.classes {
            names.push((namespace.name.clone(), class.name.clone()));
        }
    }
    names
}

#[test]
fn class_model_members() {
    let record = foo_record();
    let rels = [Some(AGGREGATE), Some(COMPOSE), None, None];
    let class = classfile_to_mermaid_class(&record, "Foo", Some(SKIP), &rels);
    assert_eq!(class.name, "Foo");
    assert_eq!(class.kind, ClassKind::Abstract);
    assert_eq!(class.members.len(), 4);
    match &class.members[0] {
        Member::Attribute(a) => {
            assert_eq!(a.name, "count");
            assert_eq!(a.visibility, Visibility::Public);
            assert_eq!(a.data_type, Some("int".to_string()));
            assert!(a.is_static);
        }
        other => panic!("unexpected member {:?}", other),
    }
    match &class.members[1] {
        Member::Attribute(a) => {
            assert_eq!(a.name, "cache");
            assert_eq!(a.visibility, Visibility::Package);
            assert_eq!(a.data_type, Some("List".to_string()));
            assert!(!a.is_static);
        }
        other => panic!("unexpected member {:?}", other),
    }
    match &class.members[2] {
        Member::Method(m) => {
            assert_eq!(m.name, "run");
            assert_eq!(m.visibility, Visibility::Public);
            assert_eq!(m.parameters.len(), 2);
            assert_eq!(m.parameters[0].name, "times");
            assert_eq!(m.parameters[0].data_type, Some("int".to_string()));
            assert_eq!(m.parameters[1].name, "arg1");
            assert_eq!(m.parameters[1].data_type, Some("String".to_string()));
            assert_eq!(m.return_type, None);
            assert!(!m.is_static);
            assert!(!m.is_abstract);
        }
        other => panic!("unexpected member {:?}", other),
    }
    match &class.members[3] {
        Member::Method(m) => {
            assert_eq!(m.name, "name");
            assert_eq!(m.visibility, Visibility::Protected);
            assert!(m.parameters.is_empty());
            assert_eq!(m.return_type, Some("String".to_string()));
            assert!(m.is_abstract);
        }
        other => panic!("unexpected member {:?}", other),
    }
}

#[test]
fn suppressed_and_relationship_fields_are_not_attributes() {
    let record = foo_record();
    let rels = [Some(AGGREGATE), Some(COMPOSE), None, None];
    let class = classfile_to_mermaid_class(&record, "Foo", Some(SKIP), &rels);
    for member in &class.members {
        if let Member::Attribute(a) = member {
            assert_ne!(a.name, "hidden");
            assert_ne!(a.name, "helper");
            assert_ne!(a.name, "parts");
        }
        if let Member::Method(m) = member {
            assert_ne!(m.name, "secret");
            assert_ne!(m.name, "<init>");
            assert_ne!(m.name, "<clinit>");
        }
    }
    let unfiltered = classfile_to_mermaid_class(&record, "Foo", None, &[None, None, None, None]);
    assert_eq!(unfiltered.members.len(), 8);
}

#[test]
fn enum_constants_show_bare() {
    let mut p = Pool::new();
    let this_class = p.class("com/example/Color");
    let super_class = p.class("java/lang/Enum");
    let fields = vec![
        p.member(ACC_PUBLIC | ACC_STATIC | ACC_ENUM, "RED", "Lcom/example/Color;", vec![]),
        p.member(ACC_PRIVATE | ACC_STATIC, "$VALUES", "[Lcom/example/Color;", vec![]),
    ];
    let record = ClassRecord {
        access_flags: ACC_PUBLIC | ACC_ENUM,
        this_class,
        super_class,
        interfaces: vec![],
        constant_pool: p.entries,
        fields,
        methods: vec![],
        attributes: vec![],
    };
    assert_eq!(get_superclass_name(&record), None);
    let class = classfile_to_mermaid_class(&record, "Color", None, &[]);
    assert_eq!(class.kind, ClassKind::Enumeration);
    match &class.members[0] {
        Member::Attribute(a) => {
            assert_eq!(a.name, "RED");
            assert_eq!(a.visibility, Visibility::Unspecified);
            assert_eq!(a.data_type, None);
            assert!(!a.is_static);
        }
        other => panic!("unexpected member {:?}", other),
    }
    match &class.members[1] {
        Member::Attribute(a) => {
            assert_eq!(a.name, "VALUES");
            assert_eq!(a.visibility, Visibility::Private);
            assert_eq!(a.data_type, Some("Color[]".to_string()));
            assert!(a.is_static);
        }
        other => panic!("unexpected member {:?}", other),
    }
}

#[test]
fn class_kinds_from_flags() {
    let mut record = plain_record("a/B", None);
    assert!(!is_interface(&record) && !is_enum(&record) && !is_abstract(&record));
    record.access_flags = ACC_INTERFACE | ACC_ABSTRACT;
    assert!(is_interface(&record));
    assert!(!is_abstract(&record));
    assert_eq!(classfile_to_mermaid_class(&record, "B", None, &[]).kind, ClassKind::Interface);
    record.access_flags = ACC_INTERFACE | ACC_ANNOTATION;
    assert!(is_annotation(&record));
    record.access_flags = ACC_ENUM | ACC_ABSTRACT;
    assert_eq!(classfile_to_mermaid_class(&record, "B", None, &[]).kind, ClassKind::Enumeration);
    record.access_flags = ACC_ABSTRACT;
    assert_eq!(classfile_to_mermaid_class(&record, "B", None, &[]).kind, ClassKind::Abstract);
    assert!(!is_record(&record));
    record.attributes.push(AttributeInfo::Record);
    assert!(is_record(&record));
}

#[test]
fn names_from_the_constant_pool() {
    let record = foo_record();
    assert_eq!(get_full_class_name(&record), Some("com/example/Foo".to_string()));
    assert_eq!(get_superclass_name(&record), Some("Base".to_string()));
    assert_eq!(get_interface_names(&record), vec!["Runnable".to_string()]);
    assert_eq!(get_utf8(&record.constant_pool, 0), None);
    assert_eq!(get_utf8(&record.constant_pool, 1), Some("com/example/Foo"));
    assert_eq!(get_utf8(&record.constant_pool, 2), None);
    assert_eq!(get_utf8(&record.constant_pool, 60000), None);

    let mut p = Pool::new();
    let this_class = p.class("com/example/Outer$Inner");
    let record = ClassRecord {
        access_flags: 0,
        this_class,
        super_class: this_class,
        interfaces: vec![],
        constant_pool: p.entries,
        fields: vec![],
        methods: vec![],
        attributes: vec![],
    };
    assert_eq!(get_superclass_name(&record), Some("Outer.Inner".to_string()));
}

#[test]
fn annotation_lookup_and_parameters() {
    let mut p = Pool::new();
    let card = p.number("42");
    let other_name = p.utf8("otherCard");
    let mut with_number = p.annotation("Lcom/example/Aggregate;", &[("label", "owns")]);
    with_number.element_value_pairs.push(ElementValuePair {
        element_name_index: other_name,
        value: ElementValue::Const { const_value_index: card },
    });
    with_number.element_value_pairs.push(ElementValuePair {
        element_name_index: other_name,
        value: ElementValue::Other,
    });
    let second = p.annotation("Lcom/example/Aggregate;", &[("label", "second")]);
    let attrs = vec![
        AttributeInfo::Other,
        AttributeInfo::InvisibleAnnotations(vec![p.annotation("Lcom/example/Other;", &[])]),
        AttributeInfo::VisibleAnnotations(vec![with_number, second]),
    ];
    assert!(has_annotation(&p.entries, &attrs, Some(AGGREGATE)));
    assert!(has_annotation(&p.entries, &attrs, Some("com.example.Other")));
    assert!(!has_annotation(&p.entries, &attrs, Some("com/example/Other")));
    assert!(!has_annotation(&p.entries, &attrs, None));
    assert_eq!(
        get_annotation_params(&p.entries, &attrs, Some(AGGREGATE)),
        Some(("1".to_string(), "owns".to_string(), "42".to_string()))
    );
    assert_eq!(
        get_annotation_params(&p.entries, &attrs, Some("com.example.Other")),
        Some(("1".to_string(), String::new(), "1".to_string()))
    );
    assert_eq!(get_annotation_params(&p.entries, &attrs, Some(COMPOSE)), None);
    assert_eq!(get_annotation_params(&p.entries, &attrs, None), None);
}

#[test]
fn parameter_names_fall_back_to_positions() {
    let mut p = Pool::new();
    let a = p.utf8("alpha");
    let attrs = vec![
        AttributeInfo::MethodParameters(vec![a]),
        AttributeInfo::MethodParameters(vec![a, 0, 999]),
    ];
    assert_eq!(extract_parameter_names(&p.entries, &attrs, 1), vec!["alpha"]);
    assert_eq!(extract_parameter_names(&p.entries, &attrs, 3), vec!["alpha", "arg1", "arg2"]);
    let names = extract_parameter_names(&p.entries, &attrs, 12);
    assert_eq!(names.len(), 12);
    assert_eq!(names[0], "arg0");
    assert_eq!(names[11], "arg11");
    assert!(extract_parameter_names(&p.entries, &attrs, 0).is_empty());
}

fn records() -> Vec<(String, ClassRecord)> {
    vec![
        ("Bar".to_string(), plain_record("com/example/Bar", Some("Lcom/example/Skip;"))),
        ("Foo".to_string(), foo_record()),
        ("Helper".to_string(), plain_record("com/example/util/Helper", None)),
        ("Marker".to_string(), {
            let mut r = plain_record("com/example/Marker", None);
            r.access_flags = ACC_INTERFACE | ACC_ANNOTATION | ACC_ABSTRACT;
            r
        }),
    ]
}

#[test]
fn link_relations_and_classes() {
    let mut diagram = Diagram::new();
    diagram.relations.push(Relation {
        tail: "A".to_string(),
        head: "B".to_string(),
        kind: RelationKind::Dependency,
        cardinality_tail: None,
        cardinality_head: None,
        label: None,
    });
    link_diagram(&mut diagram, &records(), &config());
    assert_eq!(
        class_names(&diagram),
        vec![(String::new(), "Foo".to_string()), (String::new(), "Helper".to_string())]
    );
    assert_eq!(diagram.relations.len(), 4);
    assert_eq!(diagram.relations[0].tail, "A");
    let aggregation = &diagram.relations[1];
    assert_eq!(aggregation.tail, "Foo");
    assert_eq!(aggregation.head, "Bar");
    assert_eq!(aggregation.kind, RelationKind::Aggregation);
    assert_eq!(aggregation.cardinality_tail, Some("1".to_string()));
    assert_eq!(aggregation.cardinality_head, Some("*".to_string()));
    assert_eq!(aggregation.label, Some("uses".to_string()));
    let inheritance = &diagram.relations[2];
    assert_eq!((inheritance.tail.as_str(), inheritance.head.as_str()), ("Foo", "Base"));
    assert_eq!(inheritance.kind, RelationKind::Inheritance);
    let realization = &diagram.relations[3];
    assert_eq!((realization.tail.as_str(), realization.head.as_str()), ("Foo", "Runnable"));
    assert_eq!(realization.kind, RelationKind::Realization);
}

#[test]
fn suppressed_class_keeps_incoming_relations() {
    let mut diagram = Diagram::new();
    link_diagram(&mut diagram, &records(), &config());
    assert!(class_names(&diagram).iter().all(|(_, name)| name != "Bar"));
    assert!(diagram.relations.iter().any(|r| r.head == "Bar" && r.tail == "Foo"));
    assert!(diagram.relations.iter().all(|r| r.tail != "Bar"));
}

#[test]
fn relationship_priority_first_match() {
    let mut p = Pool::new();
    let this_class = p.class("com/example/Owner");
    let both = vec![AttributeInfo::VisibleAnnotations(vec![
        p.annotation("Lcom/example/Compose;", &[]),
        p.annotation("Lcom/example/Aggregate;", &[("label", "")]),
    ])];
    let fields = vec![p.member(0, "item", "Lcom/example/Item;", both)];
    let record = ClassRecord {
        access_flags: 0,
        this_class,
        super_class: 0,
        interfaces: vec![],
        constant_pool: p.entries,
        fields,
        methods: vec![],
        attributes: vec![],
    };
    let mut diagram = Diagram::new();
    link_diagram(&mut diagram, &[("Owner".to_string(), record)], &config());
    assert_eq!(diagram.relations.len(), 1);
    assert_eq!(diagram.relations[0].kind, RelationKind::Aggregation);
    assert_eq!(diagram.relations[0].head, "Item");
    assert_eq!(diagram.relations[0].label, None);
    assert_eq!(diagram.relations[0].cardinality_tail, Some("1".to_string()));
}

#[test]
fn grouping_disabled_uses_default_namespace() {
    let mut diagram = Diagram::new();
    diagram.front_matter = Some(front_matter(Some(false), Selection::Absent));
    assert!(!should_group_by_package(&diagram));
    link_diagram(&mut diagram, &records(), &config());
    assert_eq!(diagram.namespaces.len(), 1);
    assert_eq!(diagram.namespaces[0].name, "");
    assert_eq!(diagram.namespaces[0].classes.len(), 2);
}

#[test]
fn grouping_enabled_uses_relative_packages() {
    let mut diagram = Diagram::new();
    diagram.front_matter = Some(front_matter(Some(true), Selection::Absent));
    assert!(should_group_by_package(&diagram));
    link_diagram(&mut diagram, &records(), &config());
    assert_eq!(
        class_names(&diagram),
        vec![(String::new(), "Foo".to_string()), ("util".to_string(), "Helper".to_string())]
    );
}

#[test]
fn empty_select_extracts_nothing() {
    let mut diagram = Diagram::new();
    diagram.front_matter = Some(front_matter(None, Selection::Filters(vec![])));
    link_diagram(&mut diagram, &records(), &config());
    assert!(diagram.namespaces.is_empty());
    assert!(diagram.relations.is_empty());
}

#[test]
fn invalid_select_extracts_nothing() {
    let mut diagram = Diagram::new();
    diagram.front_matter = Some(front_matter(None, Selection::Invalid));
    assert!(!should_include_classfile(&diagram, &foo_record()));
    link_diagram(&mut diagram, &records(), &config());
    assert!(diagram.namespaces.is_empty());
}

#[test]
fn select_filters_match_dotted_packages() {
    let filters = vec![
        SelectFilter { field: Some("name".to_string()), pattern: Some("com.example".to_string()) },
        SelectFilter { field: None, pattern: None },
        SelectFilter {
            field: Some("package".to_string()),
            pattern: Some("com.example.util".to_string()),
        },
    ];
    let mut diagram = Diagram::new();
    diagram.front_matter = Some(front_matter(None, Selection::Filters(filters)));
    assert!(should_include_classfile(&diagram, &plain_record("com/example/util/Helper", None)));
    assert!(!should_include_classfile(&diagram, &foo_record()));
    link_diagram(&mut diagram, &records(), &config());
    assert_eq!(class_names(&diagram), vec![(String::new(), "Helper".to_string())]);
    assert_eq!(diagram.front_matter.as_ref().map(|f| f.text.as_str()), Some("title: Test\n"));
}

#[test]
fn existing_classes_are_replaced() {
    let mut diagram = Diagram::new();
    link_diagram(&mut diagram, &records(), &config());
    let first_relations = diagram.relations.len();
    link_diagram(&mut diagram, &records(), &config());
    assert_eq!(class_names(&diagram).len(), 2);
    assert_eq!(diagram.relations.len(), 2 * first_relations);
}

#[test]
fn command_line_overrides_config_file() {
    let file = Config {
        skip: Some("a.Skip".to_string()),
        aggregate: Some("a.Aggregate".to_string()),
        compose: None,
        link: Some("a.Link".to_string()),
        navigate: None,
    };
    let args = Args {
        diagram: None,
        classfiles: vec![],
        output: "out.mmd".to_string(),
        config: None,
        skip: Some("b.Skip".to_string()),
        aggregate: None,
        compose: Some("b.Compose".to_string()),
        link: None,
        navigate: None,
    };
    let merged = file.merge_with_args(&args);
    assert_eq!(merged.skip.as_deref(), Some("b.Skip"));
    assert_eq!(merged.aggregate.as_deref(), Some("a.Aggregate"));
    assert_eq!(merged.compose.as_deref(), Some("b.Compose"));
    assert_eq!(merged.link.as_deref(), Some("a.Link"));
    assert_eq!(merged.navigate, None);
    let empty = Config::default().merge_with_args(&args);
    assert_eq!(empty.aggregate, None);
}

#[test]
fn annotation_names_lose_one_marker_each_side() {
    let mut p = Pool::new();
    let attrs = vec![AttributeInfo::VisibleAnnotations(vec![
        p.annotation("LLib/Skip;", &[]),
        p.annotation("LLink;", &[]),
        p.annotation("Lcom/example/Tag;;", &[]),
    ])];
    assert!(has_annotation(&p.entries, &attrs, Some("Lib.Skip")));
    assert!(!has_annotation(&p.entries, &attrs, Some("ib.Skip")));
    assert!(has_annotation(&p.entries, &attrs, Some("Link")));
    assert!(!has_annotation(&p.entries, &attrs, Some("ink")));
    assert!(has_annotation(&p.entries, &attrs, Some("com.example.Tag;")));
    assert_eq!(
        get_annotation_params(&p.entries, &attrs, Some("Lib.Skip")),
        Some(("1".to_string(), String::new(), "1".to_string()))
    );
}

#[test]
fn user_classes_named_object_or_enum_are_superclasses() {
    let mut record = plain_record("com/acme/Thing", None);
    let mut p = Pool { entries: record.constant_pool.clone() };
    record.super_class = p.class("com/acme/Object");
    record.constant_pool = p.entries;
    assert_eq!(get_superclass_name(&record), Some("Object".to_string()));

    let mut p = Pool { entries: record.constant_pool.clone() };
    record.super_class = p.class("com/acme/Enum");
    record.constant_pool = p.entries;
    assert_eq!(get_superclass_name(&record), Some("Enum".to_string()));

    let mut p = Pool { entries: record.constant_pool.clone() };
    record.super_class = p.class("java/lang/Enum");
    record.constant_pool = p.entries;
    assert_eq!(get_superclass_name(&record), None);

    assert_eq!(get_superclass_name(&plain_record("a/B", None)), None);
    let mut root = plain_record("java/lang/Object", None);
    root.super_class = 0;
    assert_eq!(get_superclass_name(&root), None);
}

#[test]
fn anonymous_class_files_have_no_name() {
    assert_eq!(class_name_of_file_stem("Foo"), Some("Foo".to_string()));
    assert_eq!(class_name_of_file_stem("Outer$Inner"), Some("Outer.Inner".to_string()));
    assert_eq!(class_name_of_file_stem("A$1$Inner"), Some("A.1.Inner".to_string()));
    assert_eq!(class_name_of_file_stem("Foo$1"), None);
    assert_eq!(class_name_of_file_stem("A$B$12"), None);
    assert_eq!(class_name_of_file_stem("Foo$"), None);
    assert_eq!(class_name_of_file_stem(""), Some(String::new()));
}

#[test]
fn later_class_of_a_name_replaces_earlier() {
    let mut first = plain_record("com/example/Foo", None);
    first.access_flags = ACC_INTERFACE;
    let second = plain_record("com/example/Foo", None);
    let mut diagram = Diagram::new();
    link_diagram(
        &mut diagram,
        &[("Foo".to_string(), first), ("Foo".to_string(), second)],
        &config(),
    );
    assert_eq!(diagram.namespaces.len(), 1);
    assert_eq!(diagram.namespaces[0].classes.len(), 1);
    assert_eq!(diagram.namespaces[0].classes[0].kind, ClassKind::Plain);
}
