use nwb_view::gui::drop_preview_text;
use nwb_view::gui::has_plot_action;
use nwb_view::gui::DroppedFile;
use nwb_view::hdf::GroupTree;
use nwb_view::paths::ends_with_exec;
use nwb_view::paths::join_path_exec;
use nwb_view::paths::last_segment_exec;
use nwb_view::plot::group_has_timestamps;
use nwb_view::plot::PlotWindow;
use nwb_view::popup::PopupWindow;
use nwb_view::table::TableContent;
use nwb_view::table::TableWindow;

fn group(path: &str, datasets: &[&str]) -> GroupTree {
    GroupTree {
        path: path.to_string(),
        groups: vec![],
        datasets: datasets.iter().map(|d| d.to_string()).collect(),
    }
}

#[test]
fn join_path_handles_the_root() {
    assert_eq!(join_path_exec("", ""), "/");
    assert_eq!(join_path_exec("/", "acquisition"), "/acquisition");
    assert_eq!(join_path_exec("/acquisition", "data"), "/acquisition/data");
}

#[test]
fn last_segment_takes_what_follows_the_last_slash() {
    assert_eq!(last_segment_exec("/a/b/c"), "c");
    assert_eq!(last_segment_exec("plain"), "plain");
    assert_eq!(last_segment_exec("/a/"), "");
    assert_eq!(last_segment_exec(""), "");
}

#[test]
fn ends_with_compares_the_suffix() {
    assert!(ends_with_exec("/g/timestamps", "timestamps"));
    assert!(!ends_with_exec("/g/data", "timestamps"));
    assert!(ends_with_exec("timestamps", "timestamps"));
    assert!(!ends_with_exec("stamps", "timestamps"));
}

#[test]
fn plot_action_needs_both_series() {
    // data alone is not plottable: timestamps must be present too
    assert!(!has_plot_action(&group("/g", &["/g/data", "/g/other"])));
    assert!(has_plot_action(&group("/g", &["/g/data", "/g/timestamps"])));
    assert!(!has_plot_action(&group("/g", &["/g/timestamps"])));
    assert!(!has_plot_action(&group("/g", &[])));
}

#[test]
fn group_timestamps_detection() {
    assert!(group_has_timestamps(&group("/g", &["/g/data", "/g/timestamps"])));
    assert!(!group_has_timestamps(&group("/g", &["/g/data"])));
}

#[test]
fn plot_window_takes_its_shape_from_the_group() {
    let mut w = PlotWindow::default();
    assert_eq!(w.step_size, 0);
    w.get_data_from_group(&group("/g/series", &["/g/series/data", "/g/series/timestamps"]), 5);
    assert_eq!(w.title, "/g/series");
    assert!(w.has_timestamps);
    assert_eq!(w.n_steps, 4);
    assert_eq!(w.step_size, 1);
}

#[test]
fn plot_window_decimates_long_series() {
    let mut w = PlotWindow::default();
    w.get_data_from_group(&group("/g/long", &["/g/long/data"]), 100_002);
    assert!(!w.has_timestamps);
    assert_eq!(w.n_steps, 100_001);
    assert_eq!(w.step_size, 216);
}

#[test]
fn popup_lifecycle() {
    let mut p = PopupWindow::default();
    assert_eq!(p.title, "Message");
    assert_eq!(p.message, "");
    assert!(p.open);
    p.set_title("Dataset error".to_string());
    p.set_message("oh no".to_string());
    assert_eq!(p.title, "Dataset error");
    assert_eq!(p.message, "oh no");
    p.acknowledge();
    assert!(!p.open);
    let mut host_open = true;
    p.sync_open(&mut host_open);
    assert!(!host_open);
}

#[test]
fn popup_sync_keeps_an_open_window() {
    let p = PopupWindow::default();
    let mut host_open = true;
    p.sync_open(&mut host_open);
    assert!(host_open);
}

#[test]
fn table_window_setters_and_content() {
    let mut t: TableWindow<i64> = TableWindow::default();
    assert_eq!(t.name, "Table");
    assert!(matches!(t.content_kind(), TableContent::Nothing));
    assert_eq!(t.row_count(), 0);
    t.set_name("/g/series".to_string());
    t.set_scalar("7".to_string());
    assert!(matches!(t.content_kind(), TableContent::Scalar));
    t.set_data(vec![1, 2, 3]);
    assert!(matches!(t.content_kind(), TableContent::Rows));
    assert_eq!(t.row_count(), 3);
    assert_eq!(t.name, "/g/series");
}

#[test]
fn preview_text_lists_paths_mime_and_unknown() {
    let files = vec![
        DroppedFile { path: Some("/data/a.nwb".to_string()), mime: "".to_string() },
        DroppedFile { path: None, mime: "application/x-hdf".to_string() },
        DroppedFile { path: None, mime: "".to_string() },
    ];
    assert_eq!(
        drop_preview_text(&files),
        "Dropping files:\n\n/data/a.nwb\napplication/x-hdf\n???"
    );
}

#[test]
fn preview_text_with_no_files_is_the_heading() {
    assert_eq!(drop_preview_text(&vec![]), "Dropping files:\n");
}
