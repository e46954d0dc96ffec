use power_rename_gui::filter::filter_bar;
use power_rename_gui::form::RuleForm;
use power_rename_gui::mapping::NameMapping;
use power_rename_gui::panel::{mapping_note, rule_heading, ApplyOutcome, CaptureStep, RenameApp};
use power_rename_gui::preview::{PreviewItem, PreviewStatus};
use power_rename_gui::rows::{PreviewAction, Tint, TreeRow};
use power_rename_gui::tree::{count_nodes, FlatNode, TreeNode};

// The paths of the sample tree: /, /r, /r/a, /r/a/x.txt, /r/b, /r/y.txt, /r/a/deep, /r/a/deep/z
const R: usize = 1;
const A: usize = 2;
const X: usize = 3;
const B: usize = 4;
const Y: usize = 5;
const DEEP: usize = 6;
const Z: usize = 7;

fn node(path: usize, name: &str, is_dir: bool, renameable: bool, children: Vec<TreeNode>) -> TreeNode {
    TreeNode { path, name: name.to_string(), is_dir, renameable, children }
}

fn tree() -> TreeNode {
    let deep = node(DEEP, "deep", true, false, vec![node(Z, "z", false, true, vec![])]);
    let a = node(A, "a", true, false, vec![deep, node(X, "x.txt", false, true, vec![])]);
    let b = node(B, "b", true, false, vec![]);
    node(R, "r", true, false, vec![a, b, node(Y, "y.txt", false, true, vec![])])
}

fn flat(path: usize, name: &str, is_dir: bool, renameable: bool) -> FlatNode {
    FlatNode { path, name: name.to_string(), is_dir, renameable }
}

fn nodes() -> Vec<FlatNode> {
    vec![
        flat(R, "r", true, false),
        flat(A, "a", true, false),
        flat(DEEP, "deep", true, false),
        flat(Z, "z", false, true),
        flat(X, "x.txt", false, true),
        flat(B, "b", true, false),
        flat(Y, "y.txt", false, true),
    ]
}

fn item(path: usize, old: &str, new: &str, status: PreviewStatus, note: &str) -> PreviewItem {
    PreviewItem {
        path,
        old_name: old.to_string(),
        new_name: new.to_string(),
        status,
        note: note.to_string(),
    }
}

fn items() -> Vec<PreviewItem> {
    vec![
        item(Z, "z", "z", PreviewStatus::Unchanged, ""),
        item(X, "x.txt", "first", PreviewStatus::Error, "old"),
        item(X, "x.txt", "x.md", PreviewStatus::Ready, ""),
        item(Y, "y.txt", "x.md", PreviewStatus::Conflict, "重名"),
        item(99, "gone", "q", PreviewStatus::Ready, ""),
    ]
}

fn app() -> RenameApp {
    let mut app = RenameApp::new(false, false);
    for parent in [None, Some(0), Some(R), Some(A), Some(R), Some(R), Some(A), Some(DEEP)] {
        app.paths.register(parent);
    }
    app.dir_input = " /r ".to_string();
    assert!(app.start_reload(true).is_some());
    app.finish_reload(tree(), nodes(), &items());
    app
}

fn names(rows: &[TreeRow]) -> Vec<String> {
    rows.iter().map(|r| format!("{}{}", "-".repeat(r.depth), r.name)).collect()
}

fn table(app: &RenameApp) -> Vec<TreeRow> {
    app.table(&app.find_hits())
}

#[test]
fn a_new_window_is_empty() {
    let app = RenameApp::new(false, false);
    assert!(app.recursive && app.include_files && !app.include_dirs && !app.use_regex);
    assert!(app.rules.forms.is_empty() && app.loaded.is_none());
    assert_eq!(app.status_msg, "");
    assert!(table(&app).is_empty());
    let demo = RenameApp::new(true, true);
    assert_eq!(demo.rules.forms[0], RuleForm::Prefix { text: "2026-".to_string() });
    assert_eq!(
        demo.rules.forms[1],
        RuleForm::Regex { pattern: r"\.txt$".to_string(), replace: ".md".to_string(), scope: 0 }
    );
    assert!(demo.capture.wanted);
}

#[test]
fn options_are_trimmed() {
    let mut app = RenameApp::new(false, false);
    app.inc_text = " a b ".to_string();
    app.exc_text = "\tc".to_string();
    app.use_regex = true;
    let o = app.load_options();
    assert_eq!((o.inc_text.as_str(), o.exc_text.as_str()), ("a b", "c"));
    assert!(o.recursive && o.include_files && !o.include_dirs && o.use_regex);
}

#[test]
fn a_missing_directory_is_reported() {
    let mut app = app();
    app.dir_input = "  /nowhere ".to_string();
    assert_eq!(app.directory(), "/nowhere");
    assert!(app.start_reload(false).is_none());
    assert_eq!(app.status_msg, "目录不存在：/nowhere");
    assert!(app.loaded.is_none());
    assert_eq!(app.preview_by_path.len(), 3);
}

#[test]
fn loading_builds_rows_and_figures() {
    let app = app();
    assert_eq!(app.preview_by_path.len(), 3);
    assert_eq!(app.preview_by_path[&X].new_name, "x.md");
    assert_eq!(app.preview_by_path[&X].status, PreviewStatus::Ready);
    assert!(!app.preview_by_path.contains_key(&99));
    assert_eq!(
        app.preview_stats,
        "共 7 个节点 | 可改名 3 | 将重命名 1 | 冲突 1 | 错误 0 | 无变化 1 | 跳过 4"
    );
    assert_eq!(app.status_msg, "");
    let c = app.counts();
    assert_eq!((c.total, c.ready, c.unchanged, c.conflict, c.error), (3, 1, 1, 1, 0));
}

#[test]
fn entries_are_the_renameable_nodes() {
    let entries = app().loaded_entries();
    let got: Vec<(usize, &str)> = entries.iter().map(|e| (e.path, e.name.as_str())).collect();
    assert_eq!(got, vec![(Z, "z"), (X, "x.txt"), (Y, "y.txt")]);
}

#[test]
fn closed_directories_hide_what_they_hold() {
    let mut app = app();
    assert_eq!(names(&table(&app)), vec!["r", "-a", "-b", "-y.txt"]);
    app.toggle(A, false);
    assert_eq!(names(&table(&app)), vec!["r", "-a", "--deep", "--x.txt", "-b", "-y.txt"]);
    app.toggle(A, true);
    assert_eq!(names(&table(&app)), vec!["r", "-a", "-b", "-y.txt"]);
    app.open_all(&vec![R, A, DEEP, B]);
    let all = table(&app);
    assert_eq!(names(&all), vec!["r", "-a", "--deep", "---z", "--x.txt", "-b", "-y.txt"]);
    assert!(all[1].is_open && all[1].is_dir && !all[3].is_open);
}

#[test]
fn the_root_is_closed_and_opened_like_other_directories() {
    let mut app = app();
    assert!(table(&app)[0].is_open);
    app.toggle(R, true);
    let rows = table(&app);
    assert_eq!(names(&rows), vec!["r"]);
    assert!(!rows[0].is_open);
    app.toggle(R, false);
    assert_eq!(names(&table(&app)), vec!["r", "-a", "-b", "-y.txt"]);
    app.toggle(R, true);
    app.click_filter(Some(PreviewStatus::Conflict));
    app.open_all(&vec![0, R]);
    assert_eq!(names(&table(&app)), vec!["r", "-y.txt"]);
    app.toggle(R, true);
    app.click_filter(None);
    app.finish_reload(node(B, "b", true, false, vec![node(Y, "y", false, true, vec![])]), vec![], &vec![]);
    assert_eq!(names(&table(&app)), vec!["b", "-y"]);
}

#[test]
fn a_directory_closed_below_another_root_starts_open() {
    let mut app = app();
    app.toggle(A, false);
    app.toggle(A, true);
    assert!(!table(&app)[1].is_open);
    let a = || node(A, "a", true, false, vec![node(X, "x.txt", false, true, vec![])]);
    app.start_reload(true);
    app.finish_reload(a(), vec![], &vec![]);
    assert_eq!(names(&table(&app)), vec!["a", "-x.txt"]);
    app.toggle(A, true);
    assert_eq!(names(&table(&app)), vec!["a"]);
    app.start_reload(true);
    app.finish_reload(a(), vec![], &vec![]);
    assert_eq!(names(&table(&app)), vec!["a"]);
    app.start_reload(true);
    app.finish_reload(tree(), nodes(), &items());
    assert_eq!(names(&table(&app)), vec!["r", "-a", "-b", "-y.txt"]);
    app.start_reload(true);
    app.finish_reload(a(), vec![], &vec![]);
    assert_eq!(names(&table(&app)), vec!["a", "-x.txt"]);
}

#[test]
fn loading_again_keeps_everything() {
    let mut app = app();
    app.toggle(A, false);
    app.click_filter(Some(PreviewStatus::Ready));
    app.push_form(RuleForm::Trim { underscore: true });
    app.export_failed("full");
    let before = (names(&table(&app)), app.preview_stats.clone(), app.status_msg.clone());
    let rows = app.preview_by_path.len();
    assert!(app.start_reload(true).is_some());
    assert!(app.loaded.is_none());
    app.finish_reload(tree(), nodes(), &items());
    assert_eq!((names(&table(&app)), app.preview_stats.clone(), app.status_msg.clone()), before);
    assert_eq!(app.preview_by_path.len(), rows);
    assert_eq!(app.preview_by_path[&X].new_name, "x.md");
    assert_eq!(app.rules.selected, Some(0));
    app.dir_input = "/gone".to_string();
    assert!(app.start_reload(false).is_none() && app.start_reload(false).is_none());
    assert_eq!(app.status_msg, "目录不存在：/gone");
    assert!(app.loaded.is_none());
}

#[test]
fn rows_show_the_verdicts() {
    let mut app = app();
    app.open_all(&vec![A]);
    let rows = table(&app);
    let dir = &rows[1];
    assert_eq!((dir.status, dir.new_name.is_none(), dir.status_cell()), (None, true, None));
    assert_eq!(dir.double_click(), PreviewAction::Open(A));
    let x = &rows[3];
    assert_eq!(x.new_name.as_deref(), Some("x.md"));
    assert_eq!((x.status_cell(), x.note.is_none()), (Some("就绪"), true));
    assert_eq!(x.tint(), Tint::Rgb(0x2e, 0x8b, 0x57));
    assert_eq!(x.double_click(), PreviewAction::Reveal(X));
    let y = &rows[5];
    assert_eq!((y.status_cell(), y.note.as_deref()), (Some("冲突"), Some("重名")));
    assert_eq!(y.tint(), Tint::Rgb(0xc0, 0x39, 0x2b));
    app.preview_by_path.remove(&Y);
    let rows = table(&app);
    assert_eq!(rows[5].status_cell(), Some("跳过"));
    assert_eq!(rows[5].tint(), Tint::Rgb(0xA0, 0xA0, 0xA0));
}

#[test]
fn a_filter_shows_matches_and_the_way_to_them() {
    let mut app = app();
    app.click_filter(Some(PreviewStatus::Unchanged));
    let hits = app.find_hits();
    let mut list: Vec<usize> = hits.iter().copied().collect();
    list.sort();
    assert_eq!(list, vec![0, R, A, DEEP, Z]);
    assert_eq!(names(&app.table(&hits)), vec!["r", "-a"]);
    app.open_all(&vec![0, R, A, DEEP]);
    let rows = app.table(&hits);
    assert_eq!(names(&rows), vec!["r", "-a", "--deep", "---z"]);
    assert_eq!(rows[3].tint(), Tint::Gray);
    app.click_filter(Some(PreviewStatus::Error));
    assert!(table(&app).is_empty());
    app.click_filter(Some(PreviewStatus::Error));
    assert_eq!(app.preview_filter, None);
    assert!(app.find_hits().is_empty());
}

#[test]
fn the_filter_bar_offers_what_there_is() {
    let app = app();
    let bar = filter_bar(&app.counts(), Some(PreviewStatus::Conflict));
    let got: Vec<(&str, bool)> = bar.iter().map(|b| (b.caption.as_str(), b.selected)).collect();
    assert_eq!(got, vec![("全部 3", false), ("就绪 1", false), ("无变化 1", false), ("冲突 1", true)]);
    assert_eq!(bar[3].status, Some(PreviewStatus::Conflict));
    let empty = filter_bar(&RenameApp::new(false, false).counts(), None);
    assert_eq!(empty.len(), 1);
    assert!(empty[0].selected);
    assert_eq!(empty[0].caption, "全部 0");
}

#[test]
fn renaming_needs_a_directory_and_changes() {
    let mut fresh = RenameApp::new(false, false);
    assert!(fresh.start_apply().is_none());
    assert_eq!(fresh.status_msg, "请先加载目录");
    let mut app = app();
    assert_eq!(app.start_apply().unwrap().len(), 3);
    let jobs = app.plan_apply(&items()).unwrap();
    assert_eq!(jobs.len(), 2);
    assert_eq!((jobs[0].source, jobs[0].folder, jobs[0].new_name.as_str()), (X, Some(A), "x.md"));
    assert_eq!((jobs[1].source, jobs[1].folder), (99, None));
    let same = vec![item(X, "x", "x", PreviewStatus::Ready, ""), item(Y, "y", "z", PreviewStatus::Conflict, "")];
    assert!(app.plan_apply(&same).is_none());
    assert_eq!(app.status_msg, "没有可执行的改名");
}

#[test]
fn outcomes_are_reported() {
    let mut app = app();
    let bad = ApplyOutcome { rolled_back: true, errors: vec!["a".to_string(), "b".to_string()], renamed: 0 };
    assert!(!app.finish_apply(&bad));
    assert_eq!(app.status_msg, "改名失败，已回滚：a；b");
    let good = ApplyOutcome { rolled_back: false, errors: vec![], renamed: 12 };
    assert!(app.finish_apply(&good));
    assert_eq!(app.status_msg, "成功改名 12 项，可撤销");
    app.finish_undo(3, &vec!["x".to_string()]);
    assert_eq!(app.status_msg, "已撤销 3 项");
    app.finish_undo(0, &vec!["x".to_string(), "y".to_string()]);
    assert_eq!(app.status_msg, "撤销失败：x；y");
    app.finish_undo(0, &vec![]);
    assert_eq!(app.status_msg, "没有可撤销的操作");
}

#[test]
fn exports_and_imports_are_reported() {
    let mut fresh = RenameApp::new(false, false);
    assert!(fresh.start_export().is_none());
    assert_eq!(fresh.status_msg, "没有可导出的条目（先加载目录）");
    let mut app = app();
    assert_eq!(app.start_export().unwrap().len(), 3);
    app.export_done(3, "/tmp/list.csv");
    assert_eq!(app.status_msg, "已导出 3 条到 /tmp/list.csv");
    app.export_failed("full");
    assert_eq!(app.status_msg, "导出失败：full");
    app.import_failed("gone");
    assert_eq!(app.status_msg, "读取失败：gone");
    assert!(!app.import_mapping(NameMapping::new()));
    assert_eq!(app.status_msg, "清单为空或格式无法识别");
    assert!(app.rules.forms.is_empty());
    let mut m = NameMapping::new();
    m.insert("b".to_string(), "2".to_string());
    m.insert("a".to_string(), "1".to_string());
    assert_eq!(mapping_note(&m), "按清单重命名：2 条映射（导入自 CSV/文本）");
    app.push_form(RuleForm::Trim { underscore: true });
    assert!(app.import_mapping(m));
    assert_eq!(app.status_msg, "已导入 2 条映射");
    assert_eq!(app.rules.selected, Some(1));
    assert_eq!(app.rules.forms.len(), 2);
}

fn mapping(pairs: &[(&str, &str)]) -> NameMapping {
    let mut m = NameMapping::new();
    for (from, to) in pairs {
        m.insert(from.to_string(), to.to_string());
    }
    m
}

#[test]
fn a_second_import_replaces_the_newest_list() {
    let mut app = RenameApp::new(false, false);
    let trim = RuleForm::Trim { underscore: true };
    let older = RuleForm::List { mapping: mapping(&[("o", "p")]) };
    app.push_form(older.clone());
    app.push_form(trim.clone());
    app.push_form(RuleForm::List { mapping: NameMapping::new() });
    app.push_form(trim.clone());
    assert!(app.import_mapping(mapping(&[("a", "1")])));
    let first = RuleForm::List { mapping: mapping(&[("a", "1")]) };
    assert_eq!(app.rules.forms, vec![older.clone(), trim.clone(), first, trim.clone()]);
    assert_eq!(app.rules.selected, Some(2));
    assert!(app.import_mapping(mapping(&[("b", "2"), ("c", "3")])));
    let second = RuleForm::List { mapping: mapping(&[("b", "2"), ("c", "3")]) };
    assert_eq!(app.rules.forms, vec![older, trim.clone(), second, trim]);
    assert_eq!(app.rules.selected, Some(2));
    assert_eq!(app.status_msg, "已导入 2 条映射");
}

#[test]
fn the_first_import_comes_last() {
    let mut app = RenameApp::new(true, false);
    assert!(app.import_mapping(mapping(&[("a", "1")])));
    assert_eq!(app.rules.forms.len(), 3);
    assert_eq!(app.rules.forms[2], RuleForm::List { mapping: mapping(&[("a", "1")]) });
    assert_eq!(app.rules.selected, Some(2));
}

#[test]
fn rows_and_the_mapping_window_are_chosen() {
    let mut app = app();
    app.choose_row(X);
    assert_eq!(app.selected_preview, Some(X));
    app.import_mapping(mapping(&[("a", "1")]));
    app.show_mapping(0);
    assert_eq!(app.mapping_window().unwrap().lines, vec!["a  →  1"]);
    app.close_mapping();
    assert!(app.mapping_window().is_none());
    assert_eq!(app.selected_preview, Some(X));
}

#[test]
fn the_mapping_window_closes_when_its_rule_is_gone() {
    let mut app = RenameApp::new(false, false);
    assert!(app.mapping_window().is_none());
    let mut m = NameMapping::new();
    m.insert("b".to_string(), "2".to_string());
    m.insert("a".to_string(), "1".to_string());
    app.import_mapping(m);
    app.mapping_view = Some(0);
    let w = app.mapping_window().unwrap();
    assert_eq!(w.title, "清单映射（规则 #1）");
    assert_eq!(w.count, "共 2 条映射：");
    assert_eq!(w.lines, vec!["a  →  1", "b  →  2"]);
    assert_eq!(app.mapping_view, Some(0));
    app.rules.forms[0] = RuleForm::Trim { underscore: false };
    assert!(app.mapping_window().is_none());
    assert_eq!(app.mapping_view, None);
    app.mapping_view = Some(5);
    assert!(app.mapping_window().is_none());
    assert_eq!(app.mapping_view, None);
    assert_eq!(rule_heading(0), "规则 #1");
}

#[test]
fn changed_options_reload_a_loaded_directory() {
    let app = app();
    assert!(app.options_changed(true) && !app.options_changed(false));
    assert!(!RenameApp::new(false, false).options_changed(true));
    assert!(!app.shows_empty_notice());
    let mut app = app;
    app.finish_reload(node(R, "r", true, false, vec![]), vec![], &vec![]);
    assert!(app.shows_empty_notice());
}

#[test]
fn a_screenshot_is_requested_once() {
    let mut app = RenameApp::new(false, true);
    let steps: Vec<CaptureStep> = (0..100).map(|_| app.capture_step()).collect();
    assert!(steps[..59].iter().all(|s| *s == CaptureStep::Settle));
    assert_eq!(steps[59], CaptureStep::Request);
    assert!(steps[60..].iter().all(|s| *s == CaptureStep::Await));
    let mut app = RenameApp::new(false, false);
    assert_eq!(app.capture_step(), CaptureStep::Idle);
    assert_eq!(app.capture.frames, 0);
}

#[test]
fn paths_know_their_parents() {
    let app = app();
    assert_eq!(app.paths.len(), 8);
    assert_eq!(app.paths.parent(Z), Some(DEEP));
    assert_eq!(app.paths.parent(0), None);
    assert_eq!(app.paths.parent(100), None);
}

#[test]
fn nodes_are_counted_with_the_root() {
    assert_eq!(count_nodes(&tree()), Some(7));
    assert_eq!(count_nodes(&node(R, "r", true, false, vec![])), Some(1));
}

#[test]
fn two_clicks_on_a_filter_button() {
    let mut app = app();
    let ready = Some(PreviewStatus::Ready);
    app.click_filter(ready);
    assert_eq!(app.preview_filter, ready);
    app.click_filter(Some(PreviewStatus::Conflict));
    assert_eq!(app.preview_filter, Some(PreviewStatus::Conflict));
    app.click_filter(ready);
    app.click_filter(ready);
    assert_eq!(app.preview_filter, None);
    app.click_filter(ready);
    app.click_filter(None);
    assert_eq!(app.preview_filter, None);
}
