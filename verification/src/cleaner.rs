//! A cleaning session: the result of the last scan, the directories shown
//! of it, the marks on them, and what each action of the operator does.

use vstd::prelude::*;
use crate::config::Config;
use crate::config::ConfigView;
use crate::config::MAX_THRESHOLD_DAYS;
use crate::project::ProjectInfo;
use crate::project::ProjectInfoView;
use crate::ranking::is_sorted_by_size;
use crate::scanner::lemma_scan_result_is_fresh;
use crate::scanner::scan_result;
use crate::scanner::Scanner;
use crate::selection::cache_path;
use crate::selection::count_marked;
use crate::selection::filter_projects;
use crate::selection::gone;
use crate::selection::keep_remaining;
use crate::selection::lemma_delete_fits;
use crate::selection::lemma_empty_lists_fit;
use crate::selection::lemma_refilter_fits;
use crate::selection::lemma_toggle_fits;
use crate::selection::lists_fit;
use crate::selection::marked_paths;
use crate::selection::none_marked;
use crate::selection::not_gone;
use crate::selection::refilter;
use crate::selection::remains;
use crate::selection::remove_gone;
use crate::selection::selected;
use crate::selection::shown_are_sorted;
use crate::selection::toggle_at;
use crate::selection::toggled_at;
use crate::selection::total_size;
use crate::walk::WalkEntry;
use crate::walk::WalkEntryView;

verus! {

/// What the session last did, with the numbers to tell the operator.
#[derive(Clone, Copy, Debug, PartialEq, Eq)]
pub enum StatusMessage {
    /// The session has started.
    Ready,
    /// The directory to scan was changed.
    ScanPathSet,
    /// A scan is in progress.
    Scanning,
    /// The shown directories were determined anew.
    Found { count: usize, total_bytes: u128 },
    /// Marked directories were deleted.
    Deleted { deleted: usize, failed: usize, freed_bytes: u128 },
}

/// The mathematical value of a [`StatusMessage`].
pub enum StatusView {
    Ready,
    ScanPathSet,
    Scanning,
    Found { count: nat, total_bytes: nat },
    Deleted { deleted: nat, failed: nat, freed_bytes: nat },
}

impl View for StatusMessage {
    type V = StatusView;

    open spec fn view(&self) -> StatusView {
        match *self {
            StatusMessage::Ready => StatusView::Ready,
            StatusMessage::ScanPathSet => StatusView::ScanPathSet,
            StatusMessage::Scanning => StatusView::Scanning,
            StatusMessage::Found { count, total_bytes } => StatusView::Found {
                count: count as nat,
                total_bytes: total_bytes as nat,
            },
            StatusMessage::Deleted { deleted, failed, freed_bytes } => StatusView::Deleted {
                deleted: deleted as nat,
                failed: failed as nat,
                freed_bytes: freed_bytes as nat,
            },
        }
    }
}

/// The mathematical value of a [`StorageCleaner`].
pub struct CleanerView {
    /// The directories shown, with their marks.
    pub projects: Seq<ProjectInfoView>,
    /// The result of the last scan.
    pub all_projects: Seq<ProjectInfoView>,
    pub config: ConfigView,
    pub is_scanning: bool,
    pub status_message: StatusView,
    /// Whether the age filter is applied.
    pub threshold_enabled: bool,
}

impl CleanerView {
    /// The lists of the session fit together.
    pub open spec fn well_formed(self) -> bool {
        lists_fit(self.projects, self.all_projects)
    }

    /// The message that tells what is shown.
    pub open spec fn found(shown: Seq<ProjectInfoView>) -> StatusView {
        StatusView::Found { count: shown.len(), total_bytes: total_size(shown) }
    }

    /// The session once the shown directories are determined anew at the
    /// time `now`: they are the scanned ones that pass the age filter, and a
    /// path that was marked stays marked.
    pub open spec fn filtered(self, now: u64) -> CleanerView {
        let shown = refilter(
            self.all_projects,
            self.projects,
            self.config.threshold_days,
            self.threshold_enabled,
            now,
        );
        CleanerView { projects: shown, status_message: Self::found(shown), ..self }
    }

    /// As `filtered`, where a scan has found anything; else unchanged.
    pub open spec fn refreshed(self, now: u64) -> CleanerView {
        if self.all_projects.len() > 0 {
            self.filtered(now)
        } else {
            self
        }
    }

    /// The session with another directory to scan.
    pub open spec fn with_scan_path(self, path: Seq<char>) -> CleanerView {
        CleanerView {
            config: ConfigView { scan_path: path, ..self.config },
            status_message: StatusView::ScanPathSet,
            ..self
        }
    }

    /// The session once a scan has begun; unchanged where one is in progress.
    pub open spec fn scan_begun(self) -> CleanerView {
        if self.is_scanning {
            self
        } else {
            CleanerView { is_scanning: true, status_message: StatusView::Scanning, ..self }
        }
    }

    /// The session once the scan in progress has seen `entries`: the scan
    /// result holds every cache directory of the walk, whatever its age, no
    /// directory is marked, and the age filter decides which are shown.
    /// Unchanged where no scan is in progress.
    pub open spec fn scan_ended(self, entries: Seq<WalkEntryView>, now: u64) -> CleanerView {
        if self.is_scanning {
            CleanerView {
                projects: Seq::empty(),
                all_projects: scan_result(entries, 0, now),
                is_scanning: false,
                ..self
            }.filtered(now)
        } else {
            self
        }
    }

    /// The session after a whole scan; unchanged where one is in progress.
    pub open spec fn scanned(self, entries: Seq<WalkEntryView>, now: u64) -> CleanerView {
        if self.is_scanning {
            self
        } else {
            self.scan_begun().scan_ended(entries, now)
        }
    }

    /// The session with the mark turned over on the shown directory of this
    /// path.
    pub open spec fn toggled(self, path: Seq<Seq<char>>) -> CleanerView {
        CleanerView { projects: self.projects.map_values(toggled_at(path)), ..self }
    }

    /// The session once the directories at the paths `deleted` are gone from
    /// the disk: a marked directory that was deleted leaves both lists, and
    /// one that was not stays, still marked.
    pub open spec fn deleted(self, deleted: Seq<Seq<Seq<char>>>) -> CleanerView {
        let left = self.projects.filter(not_gone(deleted));
        CleanerView {
            projects: left,
            all_projects: self.all_projects.filter(remains(self.projects, deleted)),
            status_message: StatusView::Deleted {
                deleted: self.projects.filter(gone(deleted)).len(),
                failed: left.filter(selected()).len(),
                freed_bytes: total_size(self.projects.filter(gone(deleted))),
            },
            ..self
        }
    }

    /// The session with the threshold `days`, which is at most a year.
    pub open spec fn with_threshold(self, days: u32, now: u64) -> CleanerView {
        CleanerView {
            config: ConfigView {
                threshold_days: if days <= MAX_THRESHOLD_DAYS {
                    days
                } else {
                    MAX_THRESHOLD_DAYS
                },
                ..self.config
            },
            ..self
        }.refreshed(now)
    }

    /// The session with the threshold a day longer, unless it is a year.
    pub open spec fn threshold_increased(self, now: u64) -> CleanerView {
        if self.config.threshold_days < MAX_THRESHOLD_DAYS {
            CleanerView {
                config: ConfigView {
                    threshold_days: (self.config.threshold_days + 1) as u32,
                    ..self.config
                },
                ..self
            }.refreshed(now)
        } else {
            self
        }
    }

    /// The session with the threshold a day shorter, unless it is zero.
    pub open spec fn threshold_decreased(self, now: u64) -> CleanerView {
        if self.config.threshold_days > 0 {
            CleanerView {
                config: ConfigView {
                    threshold_days: (self.config.threshold_days - 1) as u32,
                    ..self.config
                },
                ..self
            }.refreshed(now)
        } else {
            self
        }
    }

    /// The session with the age filter switched over.
    pub open spec fn threshold_toggled(self, now: u64) -> CleanerView {
        CleanerView { threshold_enabled: !self.threshold_enabled, ..self }.refreshed(now)
    }
}

/// A cleaning session.
pub struct StorageCleaner {
    projects: Vec<ProjectInfo>,
    all_projects: Vec<ProjectInfo>,
    config: Config,
    is_scanning: bool,
    status_message: StatusMessage,
    threshold_enabled: bool,
}

impl View for StorageCleaner {
    type V = CleanerView;

    closed spec fn view(&self) -> CleanerView {
        CleanerView {
            projects: self.projects.deep_view(),
            all_projects: self.all_projects.deep_view(),
            config: self.config@,
            is_scanning: self.is_scanning,
            status_message: self.status_message@,
            threshold_enabled: self.threshold_enabled,
        }
    }
}

impl StorageCleaner {
    /// The lists of every session fit together.
    #[verifier::type_invariant]
    closed spec fn lists_fit_together(&self) -> bool {
        self@.well_formed()
    }

    /// A session that has not scanned yet; the age filter is on.
    pub fn new(config: Config) -> (cleaner: Self)
        ensures
            cleaner@ == (CleanerView {
                projects: Seq::empty(),
                all_projects: Seq::empty(),
                config: config@,
                is_scanning: false,
                status_message: StatusView::Ready,
                threshold_enabled: true,
            }),
            cleaner@.well_formed(),
    {
        let projects: Vec<ProjectInfo> = Vec::new();
        let all_projects: Vec<ProjectInfo> = Vec::new();
        proof {
            assert(projects.deep_view() =~= Seq::empty());
            assert(all_projects.deep_view() =~= Seq::empty());
            lemma_empty_lists_fit();
        }
        Self {
            projects,
            all_projects,
            config,
            is_scanning: false,
            status_message: StatusMessage::Ready,
            threshold_enabled: true,
        }
    }

    /// The directories shown: some of the scan result, largest first.
    pub fn projects(&self) -> (shown: &Vec<ProjectInfo>)
        ensures
            shown.deep_view() == self@.projects,
            self@.well_formed(),
            is_sorted_by_size(shown.deep_view()),
    {
        proof {
            use_type_invariant(self);
            shown_are_sorted(self@.projects, self@.all_projects);
        }
        &self.projects
    }

    /// The result of the last scan, largest first and unmarked.
    pub fn all_projects(&self) -> (all: &Vec<ProjectInfo>)
        ensures
            all.deep_view() == self@.all_projects,
            self@.well_formed(),
            is_sorted_by_size(all.deep_view()),
            none_marked(all.deep_view()),
    {
        proof {
            use_type_invariant(self);
        }
        &self.all_projects
    }

    /// The settings of the session.
    pub fn config(&self) -> (config: &Config)
        ensures
            config@ == self@.config,
    {
        &self.config
    }

    /// Whether a scan is in progress.
    pub fn is_scanning(&self) -> (scanning: bool)
        ensures
            scanning == self@.is_scanning,
    {
        self.is_scanning
    }

    /// What the session last did.
    pub fn status_message(&self) -> (status: StatusMessage)
        ensures
            status@ == self@.status_message,
    {
        self.status_message
    }

    /// Whether the age filter is applied.
    pub fn threshold_enabled(&self) -> (enabled: bool)
        ensures
            enabled == self@.threshold_enabled,
    {
        self.threshold_enabled
    }

    /// Changes the directory to scan.
    pub fn set_scan_path(&mut self, path: String)
        ensures
            final(self)@ == old(self)@.with_scan_path(path@),
            final(self)@.well_formed(),
    {
        proof {
            use_type_invariant(&*self);
        }
        self.config.scan_path = path;
        self.status_message = StatusMessage::ScanPathSet;
    }

    /// Begins a scan, unless one is in progress; tells whether it began one.
    /// What is shown stays as it is until the scan ends.
    pub fn begin_scan(&mut self) -> (begun: bool)
        ensures
            begun == !old(self)@.is_scanning,
            final(self)@ == old(self)@.scan_begun(),
            final(self)@.well_formed(),
    {
        proof {
            use_type_invariant(&*self);
        }
        if self.is_scanning {
            return false;
        }
        self.is_scanning = true;
        self.status_message = StatusMessage::Scanning;
        true
    }

    /// Ends the scan in progress with what the walk has seen: replaces the
    /// scan result, clears every mark and shows what passes the age filter
    /// at the time `now`. Does nothing where no scan is in progress.
    pub fn finish_scan(&mut self, entries: &Vec<WalkEntry>, now: u64)
        ensures
            final(self)@ == old(self)@.scan_ended(entries.deep_view(), now),
            final(self)@.well_formed(),
    {
        proof {
            use_type_invariant(&*self);
        }
        if !self.is_scanning {
            return ;
        }
        let scanner = Scanner::new(0);
        let all = scanner.scan(entries, now);
        let none: Vec<ProjectInfo> = Vec::new();
        let (shown, total) = filter_projects(
            &all,
            &none,
            self.config.threshold_days,
            self.threshold_enabled,
            now,
        );
        proof {
            assert(none.deep_view() =~= Seq::empty());
            lemma_scan_result_is_fresh(entries.deep_view(), 0, now);
            lemma_refilter_fits(
                all.deep_view(),
                none.deep_view(),
                self.config.threshold_days,
                self.threshold_enabled,
                now,
            );
        }
        let count = shown.len();
        *self = StorageCleaner {
            projects: shown,
            all_projects: all,
            config: self.config.clone(),
            is_scanning: false,
            status_message: StatusMessage::Found { count, total_bytes: total },
            threshold_enabled: self.threshold_enabled,
        };
    }

    /// A whole scan, from what a walk has seen; does nothing where a scan is
    /// in progress.
    pub fn scan_for_projects(&mut self, entries: &Vec<WalkEntry>, now: u64)
        ensures
            final(self)@ == old(self)@.scanned(entries.deep_view(), now),
            final(self)@.well_formed(),
    {
        if self.begin_scan() {
            self.finish_scan(entries, now);
        }
    }

    /// Determines anew, at the time `now`, which directories are shown.
    pub fn apply_filter(&mut self, now: u64)
        ensures
            final(self)@ == old(self)@.filtered(now),
            final(self)@.well_formed(),
    {
        let (shown, total) = filter_projects(
            &self.all_projects,
            &self.projects,
            self.config.threshold_days,
            self.threshold_enabled,
            now,
        );
        proof {
            use_type_invariant(&*self);
            lemma_refilter_fits(
                self@.all_projects,
                self@.projects,
                self.config.threshold_days,
                self.threshold_enabled,
                now,
            );
        }
        self.status_message = StatusMessage::Found { count: shown.len(), total_bytes: total };
        self.projects = shown;
    }

    /// As `apply_filter`, where a scan has found anything.
    fn refresh(&mut self, now: u64)
        ensures
            final(self)@ == old(self)@.refreshed(now),
            final(self)@.well_formed(),
    {
        proof {
            use_type_invariant(&*self);
        }
        if !self.all_projects.is_empty() {
            self.apply_filter(now);
        }
    }

    /// Removes from both lists the marked directories whose paths are among
    /// `deleted`, the paths at which a deletion has succeeded, and reports
    /// the counts in the status message. A marked directory whose path is
    /// not among them stays, still marked, and counts as failed.
    pub fn delete_selected(&mut self, deleted: &Vec<Vec<String>>)
        ensures
            final(self)@ == old(self)@.deleted(deleted.deep_view()),
            final(self)@.well_formed(),
    {
        let rest = keep_remaining(&self.all_projects, &self.projects, deleted);
        let outcome = remove_gone(&self.projects, deleted);
        proof {
            use_type_invariant(&*self);
            lemma_delete_fits(self@.projects, self@.all_projects, deleted.deep_view());
        }
        *self = StorageCleaner {
            projects: outcome.left,
            all_projects: rest,
            config: self.config.clone(),
            is_scanning: self.is_scanning,
            status_message: StatusMessage::Deleted {
                deleted: outcome.deleted,
                failed: outcome.failed,
                freed_bytes: outcome.freed_bytes,
            },
            threshold_enabled: self.threshold_enabled,
        };
    }

    /// The paths to delete: those of the marked directories, in the order
    /// in which they are shown.
    pub fn selected_paths(&self) -> (paths: Vec<Vec<String>>)
        ensures
            paths.deep_view() == self@.projects.filter(selected()).map_values(cache_path()),
    {
        marked_paths(&self.projects)
    }

    /// Turns the mark over on the shown directory at `cache_path`; does
    /// nothing where none is shown.
    pub fn toggle_project(&mut self, cache_path: &Vec<String>)
        ensures
            final(self)@ == old(self)@.toggled(cache_path.deep_view()),
            final(self)@.well_formed(),
    {
        let turned = toggle_at(&self.projects, cache_path);
        proof {
            use_type_invariant(&*self);
            lemma_toggle_fits(self@.projects, self@.all_projects, cache_path.deep_view());
        }
        self.projects = turned;
    }

    /// The sum of the sizes of the marked directories.
    pub fn total_selected_size_bytes(&self) -> (total: u128)
        ensures
            total == total_size(self@.projects.filter(selected())),
    {
        count_marked(&self.projects).1
    }

    /// How many directories are marked.
    pub fn selected_count(&self) -> (count: usize)
        ensures
            count == self@.projects.filter(selected()).len(),
    {
        count_marked(&self.projects).0
    }

    /// Makes the threshold a day longer, unless it is a year, and shows what
    /// passes it now. Tells whether the threshold has changed.
    pub fn increase_threshold(&mut self, now: u64) -> (changed: bool)
        ensures
            changed == (old(self)@.config.threshold_days < MAX_THRESHOLD_DAYS),
            final(self)@ == old(self)@.threshold_increased(now),
            final(self)@.well_formed(),
    {
        proof {
            use_type_invariant(&*self);
        }
        if self.config.threshold_days < MAX_THRESHOLD_DAYS {
            self.config.threshold_days += 1;
            self.refresh(now);
            true
        } else {
            false
        }
    }

    /// Makes the threshold a day shorter, unless it is zero, and shows what
    /// passes it now. Tells whether the threshold has changed.
    pub fn decrease_threshold(&mut self, now: u64) -> (changed: bool)
        ensures
            changed == (old(self)@.config.threshold_days > 0),
            final(self)@ == old(self)@.threshold_decreased(now),
            final(self)@.well_formed(),
    {
        proof {
            use_type_invariant(&*self);
        }
        if self.config.threshold_days > 0 {
            self.config.threshold_days -= 1;
            self.refresh(now);
            true
        } else {
            false
        }
    }

    /// Sets the threshold to `days`, or to a year where `days` is more, and
    /// shows what passes it now.
    pub fn set_threshold(&mut self, days: u32, now: u64)
        ensures
            final(self)@ == old(self)@.with_threshold(days, now),
            final(self)@.config.threshold_days <= MAX_THRESHOLD_DAYS,
            final(self)@.well_formed(),
    {
        proof {
            use_type_invariant(&*self);
        }
        self.config.threshold_days = if days <= MAX_THRESHOLD_DAYS {
            days
        } else {
            MAX_THRESHOLD_DAYS
        };
        self.refresh(now);
    }

    /// Switches the age filter on or off, and shows what passes now.
    pub fn toggle_threshold(&mut self, now: u64)
        ensures
            final(self)@ == old(self)@.threshold_toggled(now),
            final(self)@.well_formed(),
    {
        proof {
            use_type_invariant(&*self);
        }
        self.threshold_enabled = !self.threshold_enabled;
        self.refresh(now);
    }
}

} // verus!
