//! The state of the window and what its commands do to it.
use crate::filter::{click_filter, find_hits};
use crate::form::RuleForm;
use crate::mapping::NameMapping;
use crate::paths::PathTable;
use crate::preview::{
    build_rows, collect_jobs, count_rows, write_stats, PreviewItem, PreviewRow, PreviewStatus,
    RenameJob, StatusCounts,
};
use crate::rows::{lay_out, TreeRow};
use crate::rule_list::RuleList;
use crate::text::{join, push_decimal, trim};
use crate::tree::{collect_entries, count_nodes, FileEntry, FlatNode, TreeNode};
use std::collections::{HashMap, HashSet};
use vstd::prelude::*;

verus! {

broadcast use vstd::std_specs::hash::group_hash_axioms;

/// What the engine is told about which entries to load.
#[derive(Debug)]
pub struct LoadOptions {
    pub recursive: bool,
    pub include_files: bool,
    pub include_dirs: bool,
    pub inc_text: String,
    pub exc_text: String,
    pub use_regex: bool,
}

/// A loaded directory: its tree and the same nodes in the engine's order.
#[derive(Debug)]
pub struct Loaded {
    pub tree: TreeNode,
    pub nodes: Vec<FlatNode>,
}

/// How an attempt to rename went.
#[derive(Debug)]
pub struct ApplyOutcome {
    pub rolled_back: bool,
    pub errors: Vec<String>,
    pub renamed: usize,
}

/// The progress of a requested screenshot.
#[derive(Debug, Clone, Copy, PartialEq, Eq, Structural)]
pub struct Capture {
    pub wanted: bool,
    pub sent: bool,
    pub frames: u32,
}

/// What the screenshot needs of the current frame.
#[derive(Debug, Clone, Copy, PartialEq, Eq, Structural)]
pub enum CaptureStep {
    /// No screenshot is wanted.
    Idle,
    /// The layout is still settling: draw another frame.
    Settle,
    /// Ask for the screenshot.
    Request,
    /// The screenshot was asked for and has yet to arrive.
    Await,
}

/// The frame at which the layout is taken to have settled.
pub const SETTLED_FRAME: u32 = 60;

/// What the window with the mapping of a rename list shows.
#[derive(Debug)]
pub struct MappingWindow {
    pub title: String,
    pub count: String,
    pub lines: Vec<String>,
}

/// The state of the window.
#[derive(Debug)]
pub struct RenameApp {
    pub dir_input: String,
    pub recursive: bool,
    pub include_files: bool,
    pub include_dirs: bool,
    pub inc_text: String,
    pub exc_text: String,
    pub use_regex: bool,
    pub rules: RuleList,
    pub loaded: Option<Loaded>,
    /// The rows of the preview by path.
    pub preview_by_path: HashMap<usize, PreviewRow>,
    /// The directories that were opened.
    pub expanded: HashSet<usize>,
    /// The root that was closed, where one was.
    pub folded_root: Option<usize>,
    pub selected_preview: Option<usize>,
    /// The status to show, or everything.
    pub preview_filter: Option<PreviewStatus>,
    /// The rule whose mapping is on display.
    pub mapping_view: Option<usize>,
    pub preview_stats: String,
    pub status_msg: String,
    pub capture: Capture,
    pub paths: PathTable,
}

/// The figures of the rows.
pub open spec fn counts_of(rows: Map<usize, PreviewRow>) -> StatusCounts {
    StatusCounts {
        total: rows.len() as usize,
        ready: crate::preview::status_total(rows, PreviewStatus::Ready) as usize,
        unchanged: crate::preview::status_total(rows, PreviewStatus::Unchanged) as usize,
        conflict: crate::preview::status_total(rows, PreviewStatus::Conflict) as usize,
        error: crate::preview::status_total(rows, PreviewStatus::Error) as usize,
    }
}

/// Whether `forms` are the rules of the demonstration.
pub open spec fn is_demo(forms: Seq<RuleForm>) -> bool {
    &&& forms.len() == 2
    &&& forms[0] matches RuleForm::Prefix { text } && text@ == "2026-"@
    &&& forms[1] matches RuleForm::Regex { pattern, replace, scope } && pattern@ == "\\.txt$"@
        && replace@ == ".md"@ && scope == 0
}

impl RenameApp {
    /// The entries that take part in a renaming.
    pub open spec fn entries(self) -> Seq<FileEntry> {
        match self.loaded {
            Some(loaded) => crate::tree::entries_of(loaded.nodes@),
            None => Seq::empty(),
        }
    }

    /// The paths that pass the filter and the directories above them.
    pub open spec fn hits(self) -> Set<usize> {
        match self.preview_filter {
            Some(st) => crate::filter::hits_of(self.preview_by_path@, self.paths@, st),
            None => Set::empty(),
        }
    }

    /// What the rows of the preview table depend on.
    pub open spec fn scene(self, hits: Set<usize>) -> crate::rows::Scene {
        crate::rows::Scene {
            rows: self.preview_by_path@,
            expanded: self.expanded@,
            folded_root: self.folded_root,
            filter: self.preview_filter,
            hits,
        }
    }

    /// The rows of the preview table, where `hits` are the paths that pass the filter and the
    /// directories above them.
    pub open spec fn table_rows(self, hits: Set<usize>) -> Seq<TreeRow> {
        match self.loaded {
            Some(loaded) => crate::rows::shown(loaded.tree, true, 0, self.scene(hits)),
            None => Seq::empty(),
        }
    }

    /// The state with another message in the status bar.
    pub open spec fn saying(self, message: String) -> RenameApp {
        RenameApp { status_msg: message, ..self }
    }

    /// Whether `path` is that of the root of the loaded tree.
    pub open spec fn is_root(self, path: usize) -> bool {
        self.loaded matches Some(loaded) && loaded.tree.path == path
    }

    /// Whether the root that was closed, where one was, is that of the loaded tree.
    pub open spec fn fold_is_root(self) -> bool {
        self.folded_root matches Some(path) ==> self.loaded is Some ==> self.is_root(path)
    }

    /// The state without a tree.
    pub open spec fn unloaded(self) -> RenameApp {
        RenameApp { loaded: None, ..self }
    }

    /// Whether `opts` are the options for loading a directory.
    pub open spec fn loads_with(self, opts: LoadOptions) -> bool {
        &&& opts.recursive == self.recursive
        &&& opts.include_files == self.include_files
        &&& opts.include_dirs == self.include_dirs
        &&& opts.inc_text@ == crate::text::trimmed(self.inc_text@)
        &&& opts.exc_text@ == crate::text::trimmed(self.exc_text@)
        &&& opts.use_regex == self.use_regex
    }

    /// Whether `after` is the state once a load was turned down, because the input names no
    /// directory.
    pub open spec fn turned_down(self, after: RenameApp) -> bool {
        &&& after == self.unloaded().saying(after.status_msg)
        &&& after.status_msg@ == "目录不存在："@ + crate::text::trimmed(self.dir_input@)
    }

    /// Whether `after` is the state once it has taken in a tree, its nodes in the engine's order
    /// and the engine's verdicts. A root that was closed stays closed where it is loaded again;
    /// another root is open.
    pub open spec fn taken_in(
        self,
        after: RenameApp,
        tree: TreeNode,
        nodes: Vec<FlatNode>,
        items: Seq<PreviewItem>,
    ) -> bool {
        &&& after == (RenameApp {
            loaded: Some(Loaded { tree, nodes }),
            folded_root: if self.folded_root == Some(tree.path) {
                self.folded_root
            } else {
                None
            },
            preview_by_path: after.preview_by_path,
            preview_stats: after.preview_stats,
            ..self
        })
        &&& after.preview_by_path@ == crate::preview::rows_by_path(
            crate::tree::nodes_of(tree),
            items,
        )
        &&& after.preview_stats@ == crate::preview::stats_text(
            crate::tree::nodes_of(tree).len(),
            counts_of(after.preview_by_path@),
        )
    }

    /// Whether two states hold the same: rows and texts by what they contain.
    pub open spec fn same_as(self, other: RenameApp) -> bool {
        &&& self == (RenameApp {
            preview_by_path: self.preview_by_path,
            preview_stats: self.preview_stats,
            status_msg: self.status_msg,
            ..other
        })
        &&& self.preview_by_path@ == other.preview_by_path@
        &&& self.preview_stats@ == other.preview_stats@
        &&& self.status_msg@ == other.status_msg@
    }

    /// The rules of the demonstration.
    pub fn demo_rules() -> (r: Vec<RuleForm>)
        ensures
            is_demo(r@),
    {
        let mut rules: Vec<RuleForm> = Vec::new();
        rules.push(RuleForm::Prefix { text: "2026-".to_owned() });
        rules.push(
            RuleForm::Regex {
                pattern: "\\.txt$".to_owned(),
                replace: ".md".to_owned(),
                scope: 0,
            },
        );
        rules
    }

    /// The state at the start: with the rules of the demonstration where `demo` is set, and with
    /// a screenshot to take where `capture` is.
    pub fn new(demo: bool, capture: bool) -> (r: Self)
        ensures
            r.dir_input@.len() == 0,
            r.recursive && r.include_files && !r.include_dirs && !r.use_regex,
            r.inc_text@.len() == 0,
            r.exc_text@.len() == 0,
            if demo {
                is_demo(r.rules@.forms)
            } else {
                r.rules@.forms.len() == 0
            },
            r.rules@.selected is None,
            r.loaded is None,
            r.preview_by_path@ == Map::<usize, PreviewRow>::empty(),
            r.expanded@ == Set::<usize>::empty(),
            r.folded_root is None,
            r.selected_preview is None,
            r.preview_filter is None,
            r.mapping_view is None,
            r.preview_stats@.len() == 0,
            r.status_msg@.len() == 0,
            r.capture == (Capture { wanted: capture, sent: false, frames: 0 }),
            r.paths@.len() == 0,
    {
        let mut rules = RuleList::new();
        if demo {
            rules.forms = Self::demo_rules();
        }
        RenameApp {
            dir_input: String::new(),
            recursive: true,
            include_files: true,
            include_dirs: false,
            inc_text: String::new(),
            exc_text: String::new(),
            use_regex: false,
            rules,
            loaded: None,
            preview_by_path: HashMap::new(),
            expanded: HashSet::new(),
            folded_root: None,
            selected_preview: None,
            preview_filter: None,
            mapping_view: None,
            preview_stats: String::new(),
            status_msg: String::new(),
            capture: Capture { wanted: capture, sent: false, frames: 0 },
            paths: PathTable::new(),
        }
    }

    /// The options for loading a directory.
    pub fn load_options(&self) -> (r: LoadOptions)
        ensures
            self.loads_with(r),
            r.recursive == self.recursive,
            r.include_files == self.include_files,
            r.include_dirs == self.include_dirs,
            r.use_regex == self.use_regex,
    {
        LoadOptions {
            recursive: self.recursive,
            include_files: self.include_files,
            include_dirs: self.include_dirs,
            inc_text: trim(self.inc_text.as_str()),
            exc_text: trim(self.exc_text.as_str()),
            use_regex: self.use_regex,
        }
    }

    /// The directory to load.
    pub fn directory(&self) -> (r: String)
        ensures
            r@ == crate::text::trimmed(self.dir_input@),
    {
        trim(self.dir_input.as_str())
    }

    /// Starts to load: forgets the tree, and gives the options where the input names a directory.
    /// Where it does not, says so.
    pub fn start_reload(&mut self, is_dir: bool) -> (r: Option<LoadOptions>)
        ensures
            match r {
                Some(opts) => {
                    &&& is_dir
                    &&& *final(self) == old(self).unloaded()
                    &&& old(self).loads_with(opts)
                    &&& opts.recursive == old(self).recursive
                    &&& opts.include_files == old(self).include_files
                    &&& opts.include_dirs == old(self).include_dirs
                    &&& opts.use_regex == old(self).use_regex
                },
                None => {
                    &&& !is_dir
                    &&& old(self).turned_down(*final(self))
                },
            },
    {
        self.loaded = None;
        if !is_dir {
            let mut message = "目录不存在：".to_owned();
            message.append(trim(self.dir_input.as_str()).as_str());
            self.status_msg = message;
            return None;
        }
        Some(self.load_options())
    }

    /// Takes in what was loaded: the tree, its nodes in the engine's order, and the engine's
    /// verdicts. The message in the status bar stays. The root is open unless it was closed and is
    /// loaded again.
    pub fn finish_reload(
        &mut self,
        tree: TreeNode,
        nodes: Vec<FlatNode>,
        items: &Vec<PreviewItem>,
    )
        requires
            crate::tree::nodes_of(tree).len() <= usize::MAX,
        ensures
            old(self).taken_in(*final(self), tree, nodes, items@),
            final(self).fold_is_root(),
    {
        let rows = build_rows(&tree, items);
        let counts = count_rows(&rows);
        let node_count: usize = match count_nodes(&tree) {
            Some(n) => n,
            None => vstd::pervasive::unreached(),
        };
        let stats = write_stats(node_count, &counts);
        assert(counts == counts_of(rows@));
        if let Some(path) = self.folded_root {
            if path != tree.path {
                self.folded_root = None;
            }
        }
        self.preview_by_path = rows;
        self.loaded = Some(Loaded { tree, nodes });
        self.preview_stats = stats;
    }

    /// The entries that take part in a renaming.
    pub fn loaded_entries(&self) -> (r: Vec<FileEntry>)
        ensures
            r@ == self.entries(),
    {
        match &self.loaded {
            Some(loaded) => collect_entries(&loaded.nodes),
            None => Vec::new(),
        }
    }

    /// Starts to rename: gives the entries to judge, or asks for a directory first.
    pub fn start_apply(&mut self) -> (r: Option<Vec<FileEntry>>)
        ensures
            match r {
                Some(entries) => {
                    &&& old(self).loaded is Some
                    &&& *final(self) == *old(self)
                    &&& entries@ == old(self).entries()
                },
                None => {
                    &&& old(self).loaded is None
                    &&& *final(self) == old(self).saying(final(self).status_msg)
                    &&& final(self).status_msg@ == "请先加载目录"@
                },
            },
    {
        if self.loaded.is_none() {
            self.status_msg = "请先加载目录".to_owned();
            return None;
        }
        Some(self.loaded_entries())
    }

    /// Gives the renames to carry out, or says that there are none.
    pub fn plan_apply(&mut self, items: &Vec<PreviewItem>) -> (r: Option<Vec<RenameJob>>)
        ensures
            match r {
                Some(jobs) => {
                    &&& jobs@ == crate::preview::jobs_of(items@, old(self).paths@)
                    &&& jobs@.len() > 0
                    &&& *final(self) == *old(self)
                },
                None => {
                    &&& crate::preview::jobs_of(items@, old(self).paths@).len() == 0
                    &&& *final(self) == old(self).saying(final(self).status_msg)
                    &&& final(self).status_msg@ == "没有可执行的改名"@
                },
            },
    {
        let jobs = collect_jobs(items, &self.paths);
        if jobs.len() == 0 {
            self.status_msg = "没有可执行的改名".to_owned();
            return None;
        }
        Some(jobs)
    }

    /// Reports how the renames went. Tells whether they are to be remembered for undoing.
    pub fn finish_apply(&mut self, outcome: &ApplyOutcome) -> (remember: bool)
        ensures
            remember == !outcome.rolled_back,
            *final(self) == old(self).saying(final(self).status_msg),
            final(self).status_msg@ == (if outcome.rolled_back {
                "改名失败，已回滚："@ + crate::text::joined(
                    crate::text::texts(outcome.errors@),
                    "；"@,
                )
            } else {
                "成功改名 "@ + crate::text::decimal(outcome.renamed as nat) + " 项，可撤销"@
            }),
    {
        if outcome.rolled_back {
            let mut message = "改名失败，已回滚：".to_owned();
            message.append(join(&outcome.errors, "；").as_str());
            self.status_msg = message;
            false
        } else {
            let mut message = "成功改名 ".to_owned();
            push_decimal(&mut message, outcome.renamed);
            message.append(" 项，可撤销");
            self.status_msg = message;
            true
        }
    }

    /// Reports how undoing went: how many renames were undone and what went wrong.
    pub fn finish_undo(&mut self, done: usize, errors: &Vec<String>)
        ensures
            *final(self) == old(self).saying(final(self).status_msg),
            final(self).status_msg@ == (if done > 0 {
                "已撤销 "@ + crate::text::decimal(done as nat) + " 项"@
            } else if errors@.len() > 0 {
                "撤销失败："@ + crate::text::joined(crate::text::texts(errors@), "；"@)
            } else {
                "没有可撤销的操作"@
            }),
    {
        if done > 0 {
            let mut message = "已撤销 ".to_owned();
            push_decimal(&mut message, done);
            message.append(" 项");
            self.status_msg = message;
        } else if errors.len() > 0 {
            let mut message = "撤销失败：".to_owned();
            message.append(join(errors, "；").as_str());
            self.status_msg = message;
        } else {
            self.status_msg = "没有可撤销的操作".to_owned();
        }
    }

    /// Adds a rule behind the others and chooses it.
    pub fn push_form(&mut self, form: RuleForm)
        ensures
            *final(self) == (RenameApp { rules: final(self).rules, ..*old(self) }),
            final(self).rules@ == old(self).rules@.with(form),
            final(self).rules@.in_range(),
    {
        self.rules.push(form);
    }

    /// Starts an export: gives the entries to list, or says that there are none.
    pub fn start_export(&mut self) -> (r: Option<Vec<FileEntry>>)
        ensures
            match r {
                Some(entries) => {
                    &&& entries@ == old(self).entries()
                    &&& entries@.len() > 0
                    &&& *final(self) == *old(self)
                },
                None => {
                    &&& old(self).entries().len() == 0
                    &&& *final(self) == old(self).saying(final(self).status_msg)
                    &&& final(self).status_msg@ == "没有可导出的条目（先加载目录）"@
                },
            },
    {
        let entries = self.loaded_entries();
        if entries.len() == 0 {
            self.status_msg = "没有可导出的条目（先加载目录）".to_owned();
            return None;
        }
        Some(entries)
    }

    /// Reports an export of `count` entries to the file `target`.
    pub fn export_done(&mut self, count: usize, target: &str)
        ensures
            *final(self) == old(self).saying(final(self).status_msg),
            final(self).status_msg@ == "已导出 "@ + crate::text::decimal(count as nat) + " 条到 "@
                + target@,
    {
        let mut message = "已导出 ".to_owned();
        push_decimal(&mut message, count);
        message.append(" 条到 ");
        message.append(target);
        self.status_msg = message;
    }

    /// Reports that an export failed.
    pub fn export_failed(&mut self, reason: &str)
        ensures
            *final(self) == old(self).saying(final(self).status_msg),
            final(self).status_msg@ == "导出失败："@ + reason@,
    {
        let mut message = "导出失败：".to_owned();
        message.append(reason);
        self.status_msg = message;
    }

    /// Reports that a rename list could not be read.
    pub fn import_failed(&mut self, reason: &str)
        ensures
            *final(self) == old(self).saying(final(self).status_msg),
            final(self).status_msg@ == "读取失败："@ + reason@,
    {
        let mut message = "读取失败：".to_owned();
        message.append(reason);
        self.status_msg = message;
    }

    /// Takes in a rename list and chooses it; turns down an empty one. It replaces the newest rename
    /// list among the rules, or comes behind them where there is none. Tells whether the preview is
    /// to be loaded again.
    pub fn import_mapping(&mut self, mapping: NameMapping) -> (imported: bool)
        ensures
            imported == (mapping@ != Map::<Seq<char>, Seq<char>>::empty()),
            imported ==> {
                &&& *final(self) == (RenameApp { rules: final(self).rules, ..*old(self) }).saying(
                    final(self).status_msg,
                )
                &&& final(self).rules@ == old(self).rules@.with_list(mapping)
                &&& final(self).rules@.in_range()
                &&& final(self).status_msg@ == "已导入 "@ + crate::text::decimal(mapping@.len())
                    + " 条映射"@
            },
            !imported ==> {
                &&& *final(self) == old(self).saying(final(self).status_msg)
                &&& final(self).status_msg@ == "清单为空或格式无法识别"@
            },
    {
        if mapping.is_empty() {
            self.status_msg = "清单为空或格式无法识别".to_owned();
            return false;
        }
        let mut message = "已导入 ".to_owned();
        push_decimal(&mut message, mapping.len());
        message.append(" 条映射");
        self.rules.put_list(mapping);
        self.status_msg = message;
        true
    }

    /// Whether a change of the options calls for loading again.
    pub fn options_changed(&self, changed: bool) -> (reload: bool)
        ensures
            reload == (changed && self.loaded is Some),
    {
        changed && self.loaded.is_some()
    }

    /// Reacts to a click on the filter button for `clicked`.
    pub fn click_filter(&mut self, clicked: Option<PreviewStatus>)
        ensures
            *final(self) == (RenameApp {
                preview_filter: crate::filter::filter_after(old(self).preview_filter, clicked),
                ..*old(self)
            }),
    {
        self.preview_filter = click_filter(self.preview_filter, clicked);
    }

    /// The figures of the preview.
    pub fn counts(&self) -> (r: StatusCounts)
        ensures
            crate::preview::counts_rows(r, self.preview_by_path@),
    {
        count_rows(&self.preview_by_path)
    }

    /// The paths that pass the filter and the directories above them; none without a filter.
    pub fn find_hits(&self) -> (r: HashSet<usize>)
        ensures
            r@ == self.hits(),
    {
        match self.preview_filter {
            Some(st) => find_hits(&self.preview_by_path, &self.paths, st),
            None => HashSet::new(),
        }
    }

    /// Opens directories.
    pub fn open_all(&mut self, dirs: &Vec<usize>)
        ensures
            *final(self) == (RenameApp { expanded: final(self).expanded, ..*old(self) }),
            final(self).expanded@ == old(self).expanded@.union(dirs@.to_set()),
    {
        let mut i: usize = 0;
        assert(self.expanded@ =~= old(self).expanded@.union(dirs@.take(0).to_set()));
        while i < dirs.len()
            invariant
                0 <= i <= dirs@.len(),
                *self == (RenameApp { expanded: self.expanded, ..*old(self) }),
                self.expanded@ == old(self).expanded@.union(dirs@.take(i as int).to_set()),
            decreases dirs@.len() - i,
        {
            self.expanded.insert(dirs[i]);
            proof {
                assert(dirs@.take(i + 1) =~= dirs@.take(i as int).push(dirs@[i as int]));
                dirs@.take(i as int).lemma_push_to_set_commute(dirs@[i as int]);
                assert(self.expanded@ =~= old(self).expanded@.union(
                    dirs@.take(i + 1).to_set(),
                ));
            }
            i = i + 1;
        }
        assert(dirs@.take(i as int) =~= dirs@);
    }

    /// The rows of the preview table; none without a loaded directory. `hits` are the paths that
    /// pass the filter and the directories above them.
    pub fn table(&self, hits: &HashSet<usize>) -> (r: Vec<TreeRow>)
        requires
            self.loaded matches Some(loaded) ==> crate::tree::nodes_of(loaded.tree).len()
                <= usize::MAX,
        ensures
            r@ == self.table_rows(hits@),
            r@ == (match self.loaded {
                Some(loaded) => crate::rows::shown(loaded.tree, true, 0, self.scene(hits@)),
                None => Seq::empty(),
            }),
    {
        match &self.loaded {
            Some(loaded) => lay_out(
                &loaded.tree,
                &self.preview_by_path,
                &self.expanded,
                self.folded_root,
                self.preview_filter,
                hits,
            ),
            None => Vec::new(),
        }
    }

    /// Whether the table ends in a row that says the directory is empty.
    pub fn shows_empty_notice(&self) -> (r: bool)
        ensures
            r == (self.loaded matches Some(loaded) && loaded.tree.children@.len() == 0),
    {
        match &self.loaded {
            Some(loaded) => loaded.tree.children.len() == 0,
            None => false,
        }
    }

    /// Reacts to a click on the triangle of a directory that is open or not.
    pub fn toggle(&mut self, path: usize, is_open: bool)
        ensures
            *final(self) == (RenameApp {
                expanded: final(self).expanded,
                folded_root: final(self).folded_root,
                ..*old(self)
            }),
            final(self).scene(final(self).hits()) == crate::rows::toggled(
                old(self).scene(old(self).hits()),
                path,
                old(self).is_root(path),
                is_open,
            ),
            old(self).fold_is_root() ==> final(self).fold_is_root(),
    {
        let is_root: bool = match &self.loaded {
            Some(loaded) => loaded.tree.path == path,
            None => false,
        };
        if is_open {
            self.expanded.remove(&path);
        } else {
            self.expanded.insert(path);
        }
        if is_root {
            self.folded_root = if is_open {
                Some(path)
            } else {
                None
            };
        }
    }

    /// Chooses a row of the preview table.
    pub fn choose_row(&mut self, path: usize)
        ensures
            *final(self) == (RenameApp { selected_preview: Some(path), ..*old(self) }),
    {
        self.selected_preview = Some(path);
    }

    /// Opens the mapping window on the rule at `i`.
    pub fn show_mapping(&mut self, i: usize)
        ensures
            *final(self) == (RenameApp { mapping_view: Some(i), ..*old(self) }),
    {
        self.mapping_view = Some(i);
    }

    /// Closes the mapping window.
    pub fn close_mapping(&mut self)
        ensures
            *final(self) == (RenameApp { mapping_view: None, ..*old(self) }),
    {
        self.mapping_view = None;
    }

    /// What the mapping window shows. It closes where its rule is gone or holds no mapping.
    pub fn mapping_window(&mut self) -> (r: Option<MappingWindow>)
        ensures
            match r {
                Some(w) => {
                    &&& *final(self) == *old(self)
                    &&& old(self).mapping_view matches Some(i)
                    &&& i < old(self).rules@.forms.len()
                    &&& old(self).rules@.forms[i as int] matches RuleForm::List { mapping }
                    &&& w.title@ == "清单映射（规则 #"@ + crate::text::decimal((i + 1) as nat)
                        + "）"@
                    &&& w.count@ == "共 "@ + crate::text::decimal(mapping@.len()) + " 条映射："@
                    &&& is_listing(w.lines@, mapping)
                },
                None => {
                    &&& !(old(self).mapping_view matches Some(i) && i
                        < old(self).rules@.forms.len()
                        && old(self).rules@.forms[i as int] is List)
                    &&& *final(self) == (RenameApp { mapping_view: None, ..*old(self) })
                },
            },
    {
        if let Some(i) = self.mapping_view {
            if i < self.rules.forms.len() {
                if let RuleForm::List { mapping } = &self.rules.forms[i] {
                    let mut title = "清单映射（规则 #".to_owned();
                    push_decimal(&mut title, i + 1);
                    title.append("）");
                    let mut count = "共 ".to_owned();
                    push_decimal(&mut count, mapping.len());
                    count.append(" 条映射：");
                    return Some(MappingWindow { title, count, lines: mapping.lines() });
                }
            }
        }
        self.mapping_view = None;
        None
    }

    /// Counts a frame and tells what a wanted screenshot needs of it.
    pub fn capture_step(&mut self) -> (r: CaptureStep)
        requires
            old(self).capture.wanted ==> old(self).capture.frames < u32::MAX,
        ensures
            *final(self) == (RenameApp {
                capture: capture_after(old(self).capture).0,
                ..*old(self)
            }),
            r == capture_after(old(self).capture).1,
    {
        if !self.capture.wanted {
            return CaptureStep::Idle;
        }
        self.capture.frames = self.capture.frames + 1;
        if self.capture.frames < SETTLED_FRAME {
            CaptureStep::Settle
        } else if !self.capture.sent {
            self.capture.sent = true;
            CaptureStep::Request
        } else {
            CaptureStep::Await
        }
    }
}

/// The heading over the form of the rule at `i`.
pub fn rule_heading(i: usize) -> (r: String)
    requires
        i < usize::MAX,
    ensures
        r@ == "规则 #"@ + crate::text::decimal((i + 1) as nat),
{
    let mut r = "规则 #".to_owned();
    push_decimal(&mut r, i + 1);
    r
}

/// The line over the form of a rename list.
pub fn mapping_note(mapping: &NameMapping) -> (r: String)
    ensures
        r@ == "按清单重命名："@ + crate::text::decimal(mapping@.len())
            + " 条映射（导入自 CSV/文本）"@,
{
    let mut r = "按清单重命名：".to_owned();
    push_decimal(&mut r, mapping.len());
    r.append(" 条映射（导入自 CSV/文本）");
    r
}

/// Whether `lines` list the mapping in the order of the original names.
pub open spec fn is_listing(lines: Seq<String>, mapping: NameMapping) -> bool {
    &&& crate::mapping::ascending(mapping.keys())
    &&& forall|k: Seq<char>| mapping.keys().contains(k) <==> mapping@.contains_key(k)
    &&& lines.len() == mapping.keys().len() == mapping@.len()
    &&& forall|i: int|
        0 <= i < lines.len() ==> #[trigger] lines[i]@ == mapping.keys()[i] + "  →  "@
            + mapping@[mapping.keys()[i]]
}

/// The progress of a screenshot after another frame, and what it needs of that frame.
pub open spec fn capture_after(c: Capture) -> (Capture, CaptureStep) {
    let frames = (c.frames + 1) as u32;
    if !c.wanted {
        (c, CaptureStep::Idle)
    } else if frames < SETTLED_FRAME {
        (Capture { frames, ..c }, CaptureStep::Settle)
    } else if !c.sent {
        (Capture { frames, sent: true, ..c }, CaptureStep::Request)
    } else {
        (Capture { frames, ..c }, CaptureStep::Await)
    }
}

/// Setting a filter and opening the directories it leads to brings every matching node of the tree
/// into view. `before` is the state with the filter set, `after` the state once the directories on
/// the way, all among `dirs`, were opened.
pub proof fn filtered_preview_is_complete(
    before: RenameApp,
    after: RenameApp,
    tree: TreeNode,
    dirs: Seq<usize>,
    st: PreviewStatus,
    i: int,
)
    requires
        crate::paths::parents_first(before.paths@),
        crate::rows::placed(tree, before.paths@),
        before.preview_filter == Some(st),
        forall|k: int|
            0 <= k < crate::tree::nodes_of(tree).len() && (#[trigger] crate::tree::nodes_of(
                tree,
            )[k]).is_dir && before.hits().contains(crate::tree::nodes_of(tree)[k].path)
                ==> dirs.contains(crate::tree::nodes_of(tree)[k].path),
        after == (RenameApp { expanded: after.expanded, ..before }),
        after.expanded@ == before.expanded@.union(dirs.to_set()),
        0 <= i < crate::tree::nodes_of(tree).len(),
        crate::filter::matches_status(
            before.preview_by_path@,
            crate::tree::nodes_of(tree)[i].path,
            st,
        ),
    ensures
        crate::rows::row_shows(
            crate::rows::shown(tree, true, 0, after.scene(before.hits())),
            crate::tree::nodes_of(tree)[i],
        ),
{
    let scene = after.scene(before.hits());
    assert(crate::rows::hits_open(crate::tree::nodes_of(tree), scene));
    crate::rows::filter_shows_every_match(tree, true, 0, scene, before.paths@, st, i);
}

/// Loading again right after a load changes nothing: it asks for the same entries and, where these
/// are what they were and the verdicts too, leaves the state as the first load left it. `before` is
/// the state that the first load took the tree into.
pub proof fn loading_again_changes_nothing(
    before: RenameApp,
    once: RenameApp,
    again: RenameApp,
    tree: TreeNode,
    nodes: Vec<FlatNode>,
    items: Seq<PreviewItem>,
)
    requires
        before.taken_in(once, tree, nodes, items),
        once.unloaded().taken_in(again, tree, nodes, items),
    ensures
        again.same_as(once),
        again.rules == before.rules,
        again.dir_input == before.dir_input,
        forall|opts: LoadOptions| #[trigger] once.loads_with(opts) == before.loads_with(opts),
{
}

/// Where another directory is loaded, its root is open, whatever was closed before. `before` is the
/// state with the former tree, `ready` the state that takes in the new one: the paths of the new
/// tree may have been registered in between.
pub proof fn another_root_starts_open(
    before: RenameApp,
    ready: RenameApp,
    after: RenameApp,
    former: Loaded,
    tree: TreeNode,
    nodes: Vec<FlatNode>,
    items: Seq<PreviewItem>,
    hits: Set<usize>,
)
    requires
        before.fold_is_root(),
        before.loaded == Some(former),
        former.tree.path != tree.path,
        ready == (RenameApp { paths: ready.paths, ..before.unloaded() }),
        ready.taken_in(after, tree, nodes, items),
        tree.is_dir,
    ensures
        crate::rows::opened(tree, true, after.scene(hits)),
{
}

/// A load that is turned down right after another was changes nothing.
pub proof fn turned_down_again_changes_nothing(
    before: RenameApp,
    once: RenameApp,
    again: RenameApp,
)
    requires
        before.turned_down(once),
        once.turned_down(again),
    ensures
        again.same_as(once),
{
}

/// The figures of a loaded tree agree: every row has one of the four statuses, and the nodes with
/// a row and those without are all the nodes.
pub proof fn figures_add_up(nodes: Seq<TreeNode>, items: Seq<PreviewItem>)
    requires
        nodes.len() <= usize::MAX,
    ensures
        ({
            let c = counts_of(crate::preview::rows_by_path(nodes, items));
            &&& c.ready + c.unchanged + c.conflict + c.error == c.total
            &&& c.total <= nodes.len()
        }),
{
    let rows = crate::preview::rows_by_path(nodes, items);
    crate::preview::no_more_rows_than_nodes(nodes, items);
    crate::preview::statuses_partition_rows(rows);
}

/// The progress of a screenshot after `n` frames.
pub open spec fn capture_run(c: Capture, n: nat) -> Capture
    decreases n,
{
    if n == 0 {
        c
    } else {
        capture_after(capture_run(c, (n - 1) as nat)).0
    }
}

/// A wanted screenshot is asked for at the frame at which the layout has settled, and at no other.
pub proof fn screenshot_is_requested_once(n: nat)
    requires
        n < u32::MAX,
    ensures
        ({
            let c = capture_run(Capture { wanted: true, sent: false, frames: 0 }, n);
            &&& c == (Capture { wanted: true, sent: n >= SETTLED_FRAME, frames: n as u32 })
            &&& capture_after(c).1 == CaptureStep::Request <==> n + 1 == SETTLED_FRAME
        }),
    decreases n,
{
    if n > 0 {
        screenshot_is_requested_once((n - 1) as nat);
    }
}

/// The options handed to the engine carry every switch as it is set, so that windows that differ in
/// a switch share no options, and the texts without the white space around them.
pub proof fn options_carry_every_switch(
    a: RenameApp,
    b: RenameApp,
    opts: LoadOptions,
    before: Seq<char>,
    core: Seq<char>,
    after: Seq<char>,
)
    requires
        a.loads_with(opts),
        forall|i: int| 0 <= i < before.len() ==> crate::text::white(#[trigger] before[i]),
        forall|i: int| 0 <= i < after.len() ==> crate::text::white(#[trigger] after[i]),
        core.len() > 0 ==> !crate::text::white(core[0]) && !crate::text::white(core.last()),
    ensures
        a.recursive == opts.recursive,
        a.include_files == opts.include_files,
        a.include_dirs == opts.include_dirs,
        a.use_regex == opts.use_regex,
        b.loads_with(opts) ==> a.recursive == b.recursive && a.include_files == b.include_files
            && a.include_dirs == b.include_dirs && a.use_regex == b.use_regex,
        a.inc_text@ == before + core + after ==> opts.inc_text@ == core,
        a.exc_text@ == before + core + after ==> opts.exc_text@ == core,
{
    crate::text::white_around_is_trimmed(before, core, after);
}

/// Every renameable node of the loaded directory takes part in a renaming or an export, directories
/// and files alike, and nothing else does; without a loaded directory nothing does.
pub proof fn loaded_nodes_take_part(app: RenameApp)
    ensures
        app.loaded is None ==> app.entries().len() == 0,
        app.loaded matches Some(loaded) ==> {
            &&& app.entries().len() == crate::tree::renameable_among(
                loaded.nodes@,
                loaded.nodes@.len() as int,
            )
            &&& forall|i: int, j: int| #[trigger]
                crate::tree::ranks(loaded.nodes@, i, j) ==> {
                    &&& 0 <= j < app.entries().len()
                    &&& app.entries()[j].path == loaded.nodes@[i].path
                    &&& app.entries()[j].name == loaded.nodes@[i].name
                    &&& app.entries()[j].is_dir == loaded.nodes@[i].is_dir
                }
        },
{
    if let Some(loaded) = app.loaded {
        crate::tree::renameable_nodes_take_part(loaded.nodes@);
    }
}

/// A row of the table shows the last verdict on its path among those that were taken in: its new
/// name and its status, be it ready, unchanged, a conflict or an error, and its remark where there
/// is one. A path without a verdict shows none.
pub proof fn table_shows_the_final_verdicts(
    before: RenameApp,
    after: RenameApp,
    tree: TreeNode,
    nodes: Vec<FlatNode>,
    items: Seq<PreviewItem>,
    hits: Set<usize>,
    j: int,
)
    requires
        before.taken_in(after, tree, nodes, items),
        0 <= j < after.table_rows(hits).len(),
    ensures
        ({
            let row = after.table_rows(hits)[j];
            &&& forall|i: int| #[trigger]
                crate::preview::is_final(items, i) && items[i].path == row.path ==> {
                    &&& row.new_name == Some(items[i].new_name)
                    &&& row.status == Some(items[i].status)
                    &&& items[i].note@.len() > 0 ==> row.note == Some(items[i].note)
                    &&& items[i].note@.len() == 0 ==> row.note is None
                }
            &&& (forall|i: int|
                0 <= i < items.len() ==> (#[trigger] items[i]).path != row.path) ==> {
                &&& row.new_name is None
                &&& row.status is None
                &&& row.note is None
            }
        }),
{
    let scene = after.scene(hits);
    let row = after.table_rows(hits)[j];
    let all = crate::tree::nodes_of(tree);
    crate::rows::rows_show_their_verdicts(tree, true, 0, scene);
    crate::rows::rows_come_from_nodes(tree, true, 0, scene, j);
    let n = choose|n: int|
        0 <= n < all.len() && row.path == (#[trigger] all[n]).path && row.name == all[n].name
            && row.is_dir == all[n].is_dir;
    assert(all[n].path == row.path);
    crate::preview::rows_hold_the_final_verdicts(all, items, row.path);
    let rows = after.preview_by_path@;
    assert forall|i: int| #[trigger]
        crate::preview::is_final(items, i) && items[i].path == row.path implies rows.contains_key(
        row.path,
    ) by {
        assert(items[i].path == row.path);
    }
}

/// What the table shows follows the state of the window: a directory is open exactly where it was
/// opened, or is the root and was not closed; a filter leaves the rows of its status and the
/// directories among the hits; and each row shows what the preview holds on its path.
pub proof fn table_follows_the_state(app: RenameApp, loaded: Loaded, hits: Set<usize>, j: int)
    requires
        app.loaded == Some(loaded),
        0 <= j < app.table_rows(hits).len(),
    ensures
        ({
            let row = app.table_rows(hits)[j];
            &&& row.is_open <==> row.is_dir && (app.expanded@.contains(row.path) || (j == 0
                && app.folded_root != Some(row.path)))
            &&& app.preview_filter is Some ==> row.status == app.preview_filter || (row.is_dir
                && hits.contains(row.path))
            &&& crate::rows::shows_verdict(row, app.preview_by_path@)
            &&& crate::rows::shows_one_of(row, crate::tree::nodes_of(loaded.tree))
        }),
{
    let scene = app.scene(hits);
    crate::rows::rows_are_open_as_chosen(loaded.tree, true, 0, scene);
    crate::rows::rows_show_their_verdicts(loaded.tree, true, 0, scene);
    crate::rows::rows_come_from_nodes(loaded.tree, true, 0, scene, j);
    if let Some(st) = app.preview_filter {
        crate::rows::filter_shows_nothing_else(loaded.tree, true, 0, scene, st);
        assert(crate::rows::wanted(app.table_rows(hits)[j], scene, st));
    }
}

/// A node of the loaded tree is in the table exactly where the directory that holds it is in the
/// table and open and the filter lets the node through; the root is unless it is filtered out.
pub proof fn table_shows_open_directories(
    app: RenameApp,
    loaded: Loaded,
    hits: Set<usize>,
    h: int,
    c: int,
)
    requires
        app.loaded == Some(loaded),
        crate::rows::paths_differ(crate::tree::nodes_of(loaded.tree)),
        0 <= h < crate::tree::nodes_of(loaded.tree).len(),
        0 <= c < crate::tree::nodes_of(loaded.tree)[h].children@.len(),
    ensures
        ({
            let rows = app.table_rows(hits);
            let holder = crate::tree::nodes_of(loaded.tree)[h];
            let child = holder.children@[c];
            crate::rows::row_shows(rows, child) <==> {
                &&& crate::rows::row_shows(rows, holder)
                &&& holder.is_dir
                &&& app.expanded@.contains(holder.path) || (h == 0 && app.folded_root != Some(
                    holder.path,
                ))
                &&& app.preview_filter is None || (app.preview_by_path@.dom().contains(child.path)
                    && Some(app.preview_by_path@[child.path].status) == app.preview_filter) || (
                child.is_dir && hits.contains(child.path))
            }
        }),
        app.preview_filter is None ==> crate::rows::row_shows(app.table_rows(hits), loaded.tree),
{
    let scene = app.scene(hits);
    crate::rows::shown_where_its_directory_is_open(loaded.tree, true, 0, scene, h, c);
    crate::rows::root_is_shown_unless_filtered(loaded.tree, true, 0, scene);
}

/// Without a filter there are no hits; with one, a path is a hit exactly where it is reached by going
/// up from some path whose row has the wanted status.
pub proof fn hits_follow_the_filter(app: RenameApp, a: usize)
    requires
        crate::paths::parents_first(app.paths@),
    ensures
        app.preview_filter is None ==> !app.hits().contains(a),
        app.preview_filter is Some ==> (app.hits().contains(a) <==> exists|
            p: usize,
            chain: Seq<usize>,
        |
            app.preview_by_path@.dom().contains(p) && Some(app.preview_by_path@[p].status)
                == app.preview_filter && #[trigger] crate::paths::leads_from_to(
                app.paths@,
                chain,
                p,
                a,
            )),
{
    if let Some(st) = app.preview_filter {
        crate::filter::hits_lie_above_matching_rows(app.preview_by_path@, app.paths@, st, a);
    }
}

/// A message changes nothing but the message, and forgetting the tree nothing but the tree.
pub proof fn messages_change_nothing_else(app: RenameApp, message: String)
    ensures
        ({
            let said = app.saying(message);
            &&& said.status_msg == message
            &&& said.loaded == app.loaded
            &&& same_settings(said, app)
            &&& same_preview(said, app)
        }),
        ({
            let bare = app.unloaded();
            &&& bare.loaded is None
            &&& bare.status_msg == app.status_msg
            &&& same_settings(bare, app)
            &&& same_preview(bare, app)
        }),
{
}

/// Whether two states agree in what the user has set: the directory, the options, the rules, what is
/// open, chosen and filtered.
pub open spec fn same_settings(a: RenameApp, b: RenameApp) -> bool {
    &&& a.dir_input == b.dir_input
    &&& a.recursive == b.recursive
    &&& a.include_files == b.include_files
    &&& a.include_dirs == b.include_dirs
    &&& a.inc_text == b.inc_text
    &&& a.exc_text == b.exc_text
    &&& a.use_regex == b.use_regex
    &&& a.rules == b.rules
    &&& a.expanded == b.expanded
    &&& a.selected_preview == b.selected_preview
    &&& a.preview_filter == b.preview_filter
    &&& a.mapping_view == b.mapping_view
    &&& a.capture == b.capture
    &&& a.paths == b.paths
}

/// Whether two states agree in the preview.
pub open spec fn same_preview(a: RenameApp, b: RenameApp) -> bool {
    &&& a.folded_root == b.folded_root
    &&& a.preview_by_path == b.preview_by_path
    &&& a.preview_stats == b.preview_stats
}

/// A load keeps all that the user has set and the message, and a root that was closed stays closed
/// where it is loaded again. A load that is turned down forgets the tree and says which directory is
/// missing; the preview stays.
pub proof fn loading_keeps_settings(
    before: RenameApp,
    after: RenameApp,
    tree: TreeNode,
    nodes: Vec<FlatNode>,
    items: Seq<PreviewItem>,
    down: RenameApp,
)
    requires
        before.taken_in(after, tree, nodes, items),
        before.turned_down(down),
    ensures
        same_settings(after, before),
        after.status_msg == before.status_msg,
        after.loaded == Some(Loaded { tree, nodes }),
        before.folded_root == Some(tree.path) ==> after.folded_root == Some(tree.path),
        before.folded_root != Some(tree.path) ==> after.folded_root is None,
        same_settings(down, before),
        same_preview(down, before),
        down.loaded is None,
        crate::form::holds(down.status_msg@, crate::text::trimmed(before.dir_input@)),
{
    let dir = crate::text::trimmed(before.dir_input@);
    assert(down.status_msg@ =~= "目录不存在："@ + dir + Seq::<char>::empty());
}

/// The number of paths whose row has the status `st`.
pub open spec fn number_with(rows: Map<usize, PreviewRow>, st: PreviewStatus) -> nat {
    rows.dom().filter(|p: usize| rows[p].status == st).len()
}

/// The line of figures after a load states how many nodes the tree has, how many of them have a
/// verdict, how many have each status, and how many are left over.
pub proof fn figures_describe_the_load(
    before: RenameApp,
    after: RenameApp,
    tree: TreeNode,
    nodes: Vec<FlatNode>,
    items: Seq<PreviewItem>,
)
    requires
        before.taken_in(after, tree, nodes, items),
        crate::tree::nodes_of(tree).len() <= usize::MAX,
    ensures
        ({
            let line = after.preview_stats@;
            let rows = after.preview_by_path@;
            let all = crate::tree::nodes_of(tree).len();
            &&& rows.len() <= all
            &&& crate::preview::states(line, "共 "@, all)
            &&& crate::preview::states(line, "可改名 "@, rows.len())
            &&& crate::preview::states(
                line,
                "将重命名 "@,
                number_with(rows, PreviewStatus::Ready),
            )
            &&& crate::preview::states(
                line,
                "冲突 "@,
                number_with(rows, PreviewStatus::Conflict),
            )
            &&& crate::preview::states(line, "错误 "@, number_with(rows, PreviewStatus::Error))
            &&& crate::preview::states(
                line,
                "无变化 "@,
                number_with(rows, PreviewStatus::Unchanged),
            )
            &&& crate::preview::states(line, "跳过 "@, (all - rows.len()) as nat)
        }),
{
    let rows = after.preview_by_path@;
    let all = crate::tree::nodes_of(tree);
    crate::preview::no_more_rows_than_nodes(all, items);
    crate::preview::statuses_partition_rows(rows);
    crate::preview::stats_state_every_figure(all.len(), counts_of(rows));
    assert(number_with(rows, PreviewStatus::Ready) == crate::preview::status_total(
        rows,
        PreviewStatus::Ready,
    ));
    assert(number_with(rows, PreviewStatus::Conflict) == crate::preview::status_total(
        rows,
        PreviewStatus::Conflict,
    ));
    assert(number_with(rows, PreviewStatus::Error) == crate::preview::status_total(
        rows,
        PreviewStatus::Error,
    ));
    assert(number_with(rows, PreviewStatus::Unchanged) == crate::preview::status_total(
        rows,
        PreviewStatus::Unchanged,
    ));
}

/// Whether one of the lines leads from `from` to `to`.
pub open spec fn line_leads(lines: Seq<String>, from: Seq<char>, to: Seq<char>) -> bool {
    exists|i: int| 0 <= i < lines.len() && #[trigger] lines[i]@ == from + "  →  "@ + to
}

/// The mapping window has a line for each mapped name, which leads to its new name, and no further
/// lines; a name that comes before another has its line above.
pub proof fn listing_shows_every_name(lines: Seq<String>, mapping: NameMapping)
    requires
        is_listing(lines, mapping),
    ensures
        lines.len() == mapping@.len(),
        forall|k: Seq<char>|
            mapping@.dom().contains(k) ==> #[trigger] line_leads(lines, k, mapping@[k]),
        forall|i: int, j: int|
            0 <= i < j < lines.len() ==> crate::mapping::comes_before(
                #[trigger] mapping.keys()[i],
                #[trigger] mapping.keys()[j],
            ),
{
    assert forall|k: Seq<char>| mapping@.dom().contains(k) implies #[trigger] line_leads(
        lines,
        k,
        mapping@[k],
    ) by {
        assert(mapping@.contains_key(k));
        assert(mapping.keys().contains(k));
        let i = choose|i: int| 0 <= i < mapping.keys().len() && mapping.keys()[i] == k;
        assert(lines[i]@ == mapping.keys()[i] + "  →  "@ + mapping@[mapping.keys()[i]]);
    }
}

/// Without a wanted screenshot no frame is counted and none is asked for; with one every frame is
/// counted, and the wish stays.
pub proof fn frames_count_towards_a_wanted_screenshot(c: Capture)
    requires
        c.frames < u32::MAX,
    ensures
        !c.wanted ==> capture_after(c).0 == c && capture_after(c).1 is Idle,
        c.wanted ==> {
            &&& capture_after(c).0.wanted
            &&& capture_after(c).0.frames == c.frames + 1
            &&& capture_after(c).1 is Settle <==> c.frames + 1 < 60
            &&& capture_after(c).1 is Request <==> c.frames + 1 >= 60 && !c.sent
            &&& capture_after(c).1 is Await <==> c.frames + 1 >= 60 && c.sent
            &&& capture_after(c).0.sent <==> c.sent || capture_after(c).1 is Request
        },
{
}

} // verus!
