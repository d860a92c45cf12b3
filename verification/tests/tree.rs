use nwb_view::hdf::build_tree;
use nwb_view::hdf::make_file_tree;
use nwb_view::hdf::RawGroup;

fn sample_root() -> RawGroup {
    RawGroup {
        name: "".to_string(),
        subgroups: vec![
            RawGroup {
                name: "acquisition".to_string(),
                subgroups: vec![RawGroup {
                    name: "series".to_string(),
                    subgroups: vec![],
                    datasets: vec!["data".to_string(), "timestamps".to_string()],
                }],
                datasets: vec![],
            },
            RawGroup {
                name: "analysis".to_string(),
                subgroups: vec![],
                datasets: vec!["summary".to_string()],
            },
        ],
        datasets: vec!["session".to_string()],
    }
}

#[test]
fn build_tree_qualifies_every_name() {
    let tree = build_tree("", &sample_root());
    assert_eq!(tree.path, "/");
    assert_eq!(tree.datasets, vec!["/session".to_string()]);
    assert_eq!(tree.groups.len(), 2);

    let acq = &tree.groups[0];
    assert_eq!(acq.path, "/acquisition");
    assert!(acq.datasets.is_empty());
    assert_eq!(acq.groups.len(), 1);

    let series = &acq.groups[0];
    assert_eq!(series.path, "/acquisition/series");
    assert_eq!(
        series.datasets,
        vec![
            "/acquisition/series/data".to_string(),
            "/acquisition/series/timestamps".to_string()
        ]
    );

    let analysis = &tree.groups[1];
    assert_eq!(analysis.path, "/analysis");
    assert_eq!(analysis.datasets, vec!["/analysis/summary".to_string()]);
}

#[test]
fn build_tree_collects_all_dataset_paths_once() {
    // the union of dataset paths over the whole tree is exactly what the
    // listing reports: nothing dropped, nothing duplicated
    let tree = build_tree("", &sample_root());
    let mut collected: Vec<String> = Vec::new();
    let mut stack = vec![&tree];
    while let Some(node) = stack.pop() {
        collected.extend(node.datasets.iter().cloned());
        for g in &node.groups {
            stack.push(g);
        }
    }
    collected.sort();
    let mut expected = vec![
        "/session".to_string(),
        "/acquisition/series/data".to_string(),
        "/acquisition/series/timestamps".to_string(),
        "/analysis/summary".to_string(),
    ];
    expected.sort();
    assert_eq!(collected, expected);
}

#[test]
fn make_file_tree_wraps_a_listing() {
    let ft = make_file_tree("/home/user/session.nwb".to_string(), Some(sample_root()))
        .expect("listing present");
    assert_eq!(ft.path, "/home/user/session.nwb");
    assert!(ft.is_opened);
    assert_eq!(ft.tree.path, "/");
}

#[test]
fn make_file_tree_keeps_no_partial_snapshot() {
    assert!(make_file_tree("/missing.nwb".to_string(), None).is_none());
}
