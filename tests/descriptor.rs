use umlink::descriptor::{
    extract_class_name_from_descriptor, parse_field_descriptor, parse_method_descriptor,
    parse_type_internal,
};

#[test]
fn test_primitives() {
    assert_eq!(parse_field_descriptor("I"), "int");
    assert_eq!(parse_field_descriptor("J"), "long");
    assert_eq!(parse_field_descriptor("Z"), "boolean");
}

#[test]
fn test_objects() {
    assert_eq!(parse_field_descriptor("Ljava/lang/String;"), "String");
    assert_eq!(parse_field_descriptor("Ljava/util/List;"), "List");
}

#[test]
fn test_arrays() {
    assert_eq!(parse_field_descriptor("[I"), "int[]");
    assert_eq!(parse_field_descriptor("[[Ljava/lang/String;"), "String[][]");
}

#[test]
fn test_method_descriptor() {
    let (params, ret) = parse_method_descriptor("()V");
    assert_eq!(params, Vec::<String>::new());
    assert_eq!(ret, "void");

    let (params, ret) = parse_method_descriptor("(I)V");
    assert_eq!(params, vec!["int"]);
    assert_eq!(ret, "void");

    let (params, ret) = parse_method_descriptor("(ILjava/lang/String;)Ljava/lang/Object;");
    assert_eq!(params, vec!["int", "String"]);
    assert_eq!(ret, "Object");
}

#[test]
fn field_descriptor_examples_from_the_decoder_contract() {
    assert_eq!(parse_field_descriptor("I"), "int");
    assert_eq!(parse_field_descriptor("[I"), "int[]");
    assert_eq!(parse_field_descriptor("Ljava/lang/String;"), "String");
    assert_eq!(parse_field_descriptor("[[Ljava/lang/String;"), "String[][]");
}

#[test]
fn all_primitive_codes_decode() {
    let cases = [
        ("B", "byte"),
        ("C", "char"),
        ("D", "double"),
        ("F", "float"),
        ("I", "int"),
        ("J", "long"),
        ("S", "short"),
        ("Z", "boolean"),
        ("V", "void"),
    ];
    for (code, name) in cases {
        assert_eq!(parse_field_descriptor(code), name);
    }
}

#[test]
fn malformed_descriptors_fall_back() {
    assert_eq!(parse_field_descriptor(""), "void");
    assert_eq!(parse_field_descriptor("Q"), "Object");
    assert_eq!(parse_field_descriptor("[["), "void");
    assert_eq!(parse_field_descriptor("Ljava/lang/Str"), "Str");
    assert_eq!(parse_field_descriptor("[Q"), "Object[]");
}

#[test]
fn unit_spans_are_exact() {
    assert_eq!(parse_type_internal("ILjava/lang/String;[J", 0), ("int".to_string(), 1));
    assert_eq!(parse_type_internal("ILjava/lang/String;[J", 1), ("String".to_string(), 18));
    assert_eq!(parse_type_internal("ILjava/lang/String;[J", 19), ("long[]".to_string(), 2));
    assert_eq!(parse_type_internal("I", 5), ("void".to_string(), 0));
    assert_eq!(parse_type_internal("[[", 0), ("void".to_string(), 2));
    assert_eq!(parse_type_internal("Labc", 0), ("abc".to_string(), 4));
}

#[test]
fn method_descriptor_reads_every_parameter() {
    let (params, ret) = parse_method_descriptor("([[ILjava/util/Map;JZ[Ljava/lang/Object;)[B");
    assert_eq!(params, vec!["int[][]", "Map", "long", "boolean", "Object[]"]);
    assert_eq!(ret, "byte[]");
}

#[test]
fn method_descriptor_edge_cases() {
    let (params, ret) = parse_method_descriptor("I");
    assert!(params.is_empty());
    assert_eq!(ret, "void");

    let (params, ret) = parse_method_descriptor("(I");
    assert_eq!(params, vec!["int"]);
    assert_eq!(ret, "void");

    let (params, ret) = parse_method_descriptor("");
    assert!(params.is_empty());
    assert_eq!(ret, "void");
}

#[test]
fn object_type_names() {
    assert_eq!(
        extract_class_name_from_descriptor("Lcom/example/Bar;"),
        Some("Bar".to_string())
    );
    assert_eq!(extract_class_name_from_descriptor("[Lcom/example/Bar;"), None);
    assert_eq!(extract_class_name_from_descriptor("I"), None);
    assert_eq!(extract_class_name_from_descriptor(""), None);
}
