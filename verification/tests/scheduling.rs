use ambient_ember::manifest::Dependency;
use ambient_ember::scheduling::{
    latest_modification, rewrite_dependency_paths, should_skip_build, BuildQueue,
};

#[test]
fn embers_build_in_listed_order_and_output_is_the_root() {
    let mut queue = BuildQueue::new(vec![10, 20, 30], 20, "build");
    assert_eq!(queue.output_path(), "build");
    let mut built = vec![];
    while let Some(ember) = queue.next_ember() {
        let path = queue.ember_build_path(&format!("ember{ember}"));
        built.push(ember);
        queue.record_built(ember, path);
    }
    assert_eq!(built, vec![10, 20, 30]);
    assert_eq!(queue.output_path(), "build/ember20");
    assert_eq!(queue.next_ember(), None);
}

#[test]
fn output_stays_the_build_directory_without_the_root() {
    let mut queue = BuildQueue::new(vec![1], 7, "out");
    let e = queue.next_ember().unwrap();
    let p = queue.ember_build_path("one");
    queue.record_built(e, p);
    assert_eq!(queue.output_path(), "out");
}

#[test]
fn unchanged_embers_are_skipped() {
    assert!(should_skip_build(Some(10), Some(5)));
    assert!(!should_skip_build(Some(10), Some(10)));
    assert!(!should_skip_build(Some(10), Some(11)));
    assert!(!should_skip_build(None, Some(1)));
    assert!(!should_skip_build(Some(1), None));
}

#[test]
fn latest_modification_is_the_maximum() {
    assert_eq!(latest_modification(&vec![]), None);
    assert_eq!(latest_modification(&vec![3, -7, 12, 5]), Some(12));
    assert_eq!(latest_modification(&vec![-2]), Some(-2));
}

#[test]
fn local_dependencies_point_at_sibling_builds() {
    let mut deps = vec![
        (
            "deps_assets".to_string(),
            Dependency::Path {
                path: "deps/assets".to_string(),
            },
        ),
        (
            "remote".to_string(),
            Dependency::Path {
                path: "far/away".to_string(),
            },
        ),
    ];
    let local = vec![
        ("deps_assets".to_string(), "old-id".to_string()),
        ("deps_assets".to_string(), "deps-assets".to_string()),
    ];
    rewrite_dependency_paths(&mut deps, &local);
    assert_eq!(
        deps,
        vec![
            (
                "deps_assets".to_string(),
                Dependency::Path {
                    path: "../deps-assets".to_string()
                }
            ),
            (
                "remote".to_string(),
                Dependency::Path {
                    path: "far/away".to_string()
                }
            ),
        ]
    );
}
