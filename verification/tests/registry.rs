use nwb_view::gui::LoadError;
use nwb_view::gui::NWBView;
use nwb_view::hdf::RawGroup;

fn leaf(name: &str, datasets: &[&str]) -> RawGroup {
    RawGroup {
        name: name.to_string(),
        subgroups: vec![],
        datasets: datasets.iter().map(|d| d.to_string()).collect(),
    }
}

#[test]
fn add_file_appends_a_fresh_file() {
    let mut view = NWBView::default();
    let r = view.add_file(Some("/data/a.nwb".to_string()), Ok(leaf("", &["x"])));
    assert!(r.is_ok());
    assert_eq!(view.loaded_files.len(), 1);
    assert_eq!(view.loaded_files[0].path, "/data/a.nwb");
    assert!(view.loaded_files[0].is_opened);
}

#[test]
fn add_file_twice_keeps_one_entry() {
    // adding paths that canonicalize identically is idempotent
    let mut view = NWBView::default();
    assert!(view
        .add_file(Some("/data/a.nwb".to_string()), Ok(leaf("", &["x"])))
        .is_ok());
    let second = view.add_file(Some("/data/a.nwb".to_string()), Ok(leaf("", &["y"])));
    assert!(matches!(second, Err(LoadError::AlreadyLoaded)));
    assert_eq!(view.loaded_files.len(), 1);
    assert_eq!(
        view.loaded_files
            .iter()
            .filter(|f| f.path == "/data/a.nwb")
            .count(),
        1
    );
}

#[test]
fn add_file_rejects_invalid_path() {
    let mut view = NWBView::default();
    let r = view.add_file(None, Ok(leaf("", &[])));
    assert!(matches!(r, Err(LoadError::PathInvalid)));
    assert!(view.loaded_files.is_empty());
}

#[test]
fn add_file_reports_failed_open() {
    let mut view = NWBView::default();
    let r = view.add_file(Some("/data/bad.nwb".to_string()), Err(LoadError::CannotOpen));
    assert!(matches!(r, Err(LoadError::CannotOpen)));
    assert!(view.loaded_files.is_empty());
}

#[test]
fn add_file_reports_failed_enumeration() {
    let mut view = NWBView::default();
    let r = view.add_file(
        Some("/data/bad.nwb".to_string()),
        Err(LoadError::EnumerationFailed),
    );
    assert!(matches!(r, Err(LoadError::EnumerationFailed)));
    assert!(view.loaded_files.is_empty());
}

#[test]
fn is_loaded_sees_only_loaded_paths() {
    let mut view = NWBView::default();
    view.add_file(Some("/data/a.nwb".to_string()), Ok(leaf("", &[])))
        .unwrap();
    assert!(view.is_loaded(&"/data/a.nwb".to_string()));
    assert!(!view.is_loaded(&"/data/b.nwb".to_string()));
}

#[test]
fn sweep_closed_removes_exactly_the_closed_files() {
    let mut view = NWBView::default();
    for name in ["/a", "/b", "/c", "/d"] {
        view.add_file(Some(name.to_string()), Ok(leaf("", &[])))
            .unwrap();
    }
    view.loaded_files[1].is_opened = false;
    view.loaded_files[3].is_opened = false;
    view.sweep_closed();
    let remaining: Vec<&str> = view
        .loaded_files
        .iter()
        .map(|f| f.path.as_str())
        .collect();
    // exactly the closed entries left, and the rest kept their order
    assert_eq!(remaining, vec!["/a", "/c"]);
    assert!(view.loaded_files.iter().all(|f| f.is_opened));
}

#[test]
fn sweep_closed_keeps_everything_open() {
    let mut view = NWBView::default();
    view.add_file(Some("/a".to_string()), Ok(leaf("", &[])))
        .unwrap();
    view.sweep_closed();
    assert_eq!(view.loaded_files.len(), 1);
}
