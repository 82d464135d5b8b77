use umlink::namespace::{find_common_base_package, get_package_name, get_relative_namespace};

#[test]
fn test_find_common_base_package() {
    let prefix = find_common_base_package(&[
        "com/MainActivity",
        "com/example/example/Helper",
        "com/example/Second",
    ]);

    assert_eq!("com", prefix);

    let prefix = find_common_base_package(&[
        "com/example/example/Helper",
        "com/example/Second",
        "com/example/Third",
    ]);

    assert_eq!("com/example", prefix);

    let prefix = find_common_base_package(&[
        "other/example/example/Helper",
        "com/example/Second",
        "com/example/Third",
    ]);

    assert_eq!("", prefix);
}

#[test]
fn common_prefix_edge_cases() {
    assert_eq!(find_common_base_package(&[]), "");
    assert_eq!(find_common_base_package(&["com/example/app"]), "com/example/app");
    assert_eq!(find_common_base_package(&["com/exam", "com/example"]), "com");
    assert_eq!(find_common_base_package(&["com", "com/example"]), "com");
    assert_eq!(find_common_base_package(&["com/example", "com/example"]), "com/example");
    assert_eq!(find_common_base_package(&["", "com"]), "");
}

#[test]
fn package_names() {
    assert_eq!(get_package_name("com/example/MyClass"), "com/example");
    assert_eq!(get_package_name("MyClass"), "");
    assert_eq!(get_package_name("a/B"), "a");
}

#[test]
fn relative_namespaces() {
    assert_eq!(get_relative_namespace("", "com/example/app"), "com.example.app");
    assert_eq!(get_relative_namespace("com/example", "com/example"), "");
    assert_eq!(get_relative_namespace("com/example", "com/example/ui/list"), "ui.list");
    assert_eq!(get_relative_namespace("com/ex", "com/example/ui"), "com.example.ui");
    assert_eq!(get_relative_namespace("org/other", "com/example"), "com.example");
}

#[test]
fn common_prefix_of_three_packages() {
    assert_eq!(
        find_common_base_package(&["com/MainActivity", "com/example/example/Helper", "com/example/Second"]),
        "com"
    );
    assert_eq!(
        find_common_base_package(&["com/example/example/Helper", "com/example/Second", "com/example/Third"]),
        "com/example"
    );
    assert_eq!(
        find_common_base_package(&["other/example/Helper", "com/example/Second", "com/example/Third"]),
        ""
    );
}
