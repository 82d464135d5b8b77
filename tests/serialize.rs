use umlink::diagram::{
    split_front_matter,
    Attribute, Class, ClassKind, Diagram, FrontMatter, Member, Method, Namespace,
    Parameter, Relation, RelationKind, Selection, Visibility,
};
use umlink::serialize::{escape_generics, serialize_class, serialize_diagram, serialize_relation};

fn relation(tail: &str, head: &str, kind: RelationKind) -> Relation {
    Relation {
        tail: tail.to_string(),
        head: head.to_string(),
        kind,
        cardinality_tail: None,
        cardinality_head: None,
        label: None,
    }
}

fn foo() -> Class {
    Class {
        name: "Foo".to_string(),
        kind: ClassKind::Abstract,
        members: vec![
            Member::Attribute(Attribute {
                visibility: Visibility::Public,
                name: "count".to_string(),
                data_type: Some("int".to_string()),
                is_static: true,
            }),
            Member::Attribute(Attribute {
                visibility: Visibility::Unspecified,
                name: "RED".to_string(),
                data_type: None,
                is_static: false,
            }),
            Member::Method(Method {
                visibility: Visibility::Public,
                name: "run".to_string(),
                parameters: vec![
                    Parameter { name: "times".to_string(), data_type: Some("int".to_string()) },
                    Parameter { name: "arg1".to_string(), data_type: Some("List<String>".to_string()) },
                ],
                return_type: None,
                is_static: false,
                is_abstract: false,
            }),
            Member::Method(Method {
                visibility: Visibility::Protected,
                name: "name".to_string(),
                parameters: vec![],
                return_type: Some("String".to_string()),
                is_static: true,
                is_abstract: true,
            }),
        ],
    }
}

#[test]
fn class_block_text() {
    assert_eq!(
        serialize_class(&foo()),
        "class Foo {\n<<abstract>>\n+count: int$\nRED\n+run(times: int, List~String~)\n#name() String*$\n}\n"
    );
    let empty = Class { name: "I".to_string(), kind: ClassKind::Interface, members: vec![] };
    assert_eq!(serialize_class(&empty), "class I {\n<<interface>>\n}\n");
}

#[test]
fn relation_lines() {
    let mut r = relation("Foo", "Bar", RelationKind::Aggregation);
    r.cardinality_tail = Some("1".to_string());
    r.cardinality_head = Some("*".to_string());
    r.label = Some("uses".to_string());
    assert_eq!(serialize_relation(&r), "Foo \"1\" --o \"*\" Bar : uses\n");
    let cases = [
        (RelationKind::Inheritance, "A --|> B\n"),
        (RelationKind::Realization, "A ..|> B\n"),
        (RelationKind::Aggregation, "A --o B\n"),
        (RelationKind::Composition, "A --* B\n"),
        (RelationKind::Association, "A --> B\n"),
        (RelationKind::Dependency, "A ..> B\n"),
        (RelationKind::Link, "A -- B\n"),
        (RelationKind::DashedLink, "A .. B\n"),
    ];
    for (kind, text) in cases {
        assert_eq!(serialize_relation(&relation("A", "B", kind)), text);
    }
    for (a, _) in cases {
        for (b, _) in cases {
            if a != b {
                assert_ne!(
                    serialize_relation(&relation("A", "B", a)),
                    serialize_relation(&relation("A", "B", b))
                );
            }
        }
    }
}

#[test]
fn generic_brackets_are_escaped() {
    assert_eq!(escape_generics("Map<K, List<V>>"), "Map~K, List~V~~");
    assert_eq!(escape_generics("int"), "int");
    assert_eq!(escape_generics(""), "");
}

#[test]
fn whole_document_text() {
    let diagram = Diagram {
        front_matter: Some(FrontMatter {
            text: "title: Test\n".to_string(),
            group_package: Some(true),
            select: Selection::Absent,
        }),
        namespaces: vec![
            Namespace {
                name: "util".to_string(),
                classes: vec![Class { name: "Helper".to_string(), kind: ClassKind::Plain, members: vec![] }],
            },
            Namespace { name: String::new(), classes: vec![foo()] },
        ],
        relations: vec![
            relation("Foo", "Base", RelationKind::Inheritance),
            relation("Foo", "Runnable", RelationKind::Realization),
        ],
    };
    assert_eq!(
        serialize_diagram(&diagram),
        "---\ntitle: Test\n---\n\nclassDiagram\n\n\
         class Foo {\n<<abstract>>\n+count: int$\nRED\n+run(times: int, List~String~)\n#name() String*$\n}\n\
         \nnamespace util {\nclass Helper {\n}\n}\n\
         Foo --|> Base\nFoo ..|> Runnable\n"
    );
    assert_eq!(serialize_diagram(&Diagram::new()), "classDiagram\n");
}

#[test]
fn front_matter_is_split_off() {
    assert_eq!(
        split_front_matter("---\ntitle: T\numlink:\n  groupPackage: true\n---\nclassDiagram\nA --> B\n"),
        Some((
            "title: T\numlink:\n  groupPackage: true\n".to_string(),
            "classDiagram\nA --> B\n".to_string()
        ))
    );
    assert_eq!(split_front_matter("---\n---\nrest"), Some((String::new(), "rest".to_string())));
    assert_eq!(split_front_matter("---\nx: 1\n---"), Some(("x: 1\n".to_string(), String::new())));
    assert_eq!(split_front_matter("classDiagram\n"), None);
    assert_eq!(split_front_matter("---\nno end\n"), None);
    assert_eq!(split_front_matter(""), None);
}

#[test]
fn front_matter_round_trips_through_text() {
    let diagram = Diagram {
        front_matter: Some(FrontMatter {
            text: "title: Test\numlink:\n  groupPackage: true\n".to_string(),
            group_package: Some(true),
            select: Selection::Absent,
        }),
        namespaces: vec![Namespace { name: String::new(), classes: vec![foo()] }],
        relations: vec![relation("Foo", "Bar", RelationKind::Association)],
    };
    let text = serialize_diagram(&diagram);
    let (front, rest) = split_front_matter(&text).expect("front matter");
    assert_eq!(front, "title: Test\numlink:\n  groupPackage: true\n");
    assert!(rest.starts_with("\nclassDiagram\n"));
    assert!(rest.ends_with("Foo --> Bar\n"));
}
