use vstd::prelude::*;
use crate::model::{AppView, LibraryTab, SoundFxApp, strs};

verus! {

/// A file dropped on the window: its path, and the same path made canonical
/// (the path itself where that failed).
pub struct DroppedFile {
    pub path: String,
    pub normalized: String,
}

/// What a drop of files on the window leads to.
pub enum DropOutcome {
    /// The current screen takes no drops: the editor's drop zone is disarmed.
    Disarmed,
    /// Nothing to import.
    Ignored,
    /// Import `paths` into `target_folder_id` (`None`: the top level), in the
    /// background when dropped on the library, at once in the editor.
    Import { paths: Vec<String>, target_folder_id: Option<u128>, in_background: bool },
}

/// The paths of dropped files as character sequences.
pub open spec fn dropped_view(d: Seq<Option<DroppedFile>>) -> Seq<Option<(Seq<char>, Seq<char>)>> {
    d.map_values(
        |f: Option<DroppedFile>|
            match f {
                Some(f) => Some((f.path@, f.normalized@)),
                None => None,
            },
    )
}

/// An optional string as an optional character sequence.
pub open spec fn opt_str(s: Option<String>) -> Option<Seq<char>> {
    match s {
        Some(s) => Some(s@),
        None => None,
    }
}

/// The paths kept from a drop, in order, and the path still to ignore: the
/// first dropped file whose canonical path is the one to ignore is skipped,
/// and from then on nothing is ignored; files without a path are skipped.
pub open spec fn drop_scan(files: Seq<Option<(Seq<char>, Seq<char>)>>, ignored: Option<Seq<char>>) -> (
    Seq<Seq<char>>,
    Option<Seq<char>>,
)
    decreases files.len(),
{
    if files.len() == 0 {
        (Seq::empty(), ignored)
    } else {
        let (paths, ig) = drop_scan(files.drop_last(), ignored);
        match files.last() {
            None => (paths, ig),
            Some((p, n)) => if ig == Some(n) {
                (paths, None)
            } else {
                (paths.push(p), ig)
            },
        }
    }
}

/// The library's sound list is on screen.
pub open spec fn library_sounds_shown(app: SoundFxApp) -> bool {
    app.app_view == AppView::Library && app.library_tab == LibraryTab::Sounds
}

impl SoundFxApp {
    /// Whether files dragged over the window are to be shown as droppable on
    /// the library: its sound list is on screen, no modal panel is open and
    /// files hover.
    pub fn external_library_drop_active(&self, has_modal_panel: bool, files_hovered: bool) -> (r: bool)
        ensures
            r == (library_sounds_shown(*self) && !has_modal_panel && files_hovered),
    {
        self.app_view == AppView::Library && self.library_tab == LibraryTab::Sounds && !has_modal_panel
            && files_hovered
    }

    /// Decides what files dropped on the window become. Drops count on the
    /// library's sound list (on the folder `library_drop_target` names, when
    /// the pointer is over one; `Some(None)` is the top level) and in the
    /// editor (when the pointer is in its drop zone or the zone was armed).
    /// The path the application dragged out itself is ignored once.
    pub fn handle_dropped_files(
        &mut self,
        has_modal_panel: bool,
        dropped: Vec<Option<DroppedFile>>,
        library_drop_target: Option<Option<u128>>,
        pointer_in_editor_zone: bool,
    ) -> (r: DropOutcome)
        ensures
            ({
                let lib = library_sounds_shown(*old(self));
                let in_zone = if lib {
                    library_drop_target is Some
                } else {
                    pointer_in_editor_zone
                };
                let scan = drop_scan(dropped_view(dropped@), opt_str(old(self).ignored_drop_path));
                if (old(self).app_view != AppView::Editor && !lib) || has_modal_panel {
                    r is Disarmed && *final(self) == (SoundFxApp { editor_drop_armed: false, ..*old(self) })
                } else if dropped@.len() == 0 || (!old(self).editor_drop_armed && !in_zone) {
                    r is Ignored && *final(self) == *old(self)
                } else {
                    &&& opt_str(final(self).ignored_drop_path) == scan.1
                    &&& if scan.0.len() == 0 {
                        &&& r is Ignored
                        &&& *final(self) == (SoundFxApp {
                            editor_drop_armed: false,
                            ignored_drop_path: final(self).ignored_drop_path,
                            ..*old(self)
                        })
                    } else {
                        &&& r matches DropOutcome::Import { paths, target_folder_id, in_background } && {
                            &&& strs(paths@) == scan.0
                            &&& target_folder_id == (if lib {
                                match library_drop_target {
                                    Some(t) => t,
                                    None => None,
                                }
                            } else {
                                None
                            })
                            &&& in_background == lib
                        }
                        &&& *final(self) == (SoundFxApp {
                            editor_drop_armed: false,
                            ignored_drop_path: final(self).ignored_drop_path,
                            library_drop_target_folder: None,
                            library_drop_target_root: false,
                            ..*old(self)
                        })
                    }
                }
            }),
    {
        let lib = self.app_view == AppView::Library && self.library_tab == LibraryTab::Sounds;
        let editor = self.app_view == AppView::Editor;
        if (!editor && !lib) || has_modal_panel {
            self.editor_drop_armed = false;
            return DropOutcome::Disarmed;
        }
        if dropped.len() == 0 {
            return DropOutcome::Ignored;
        }
        let in_zone = if lib {
            library_drop_target.is_some()
        } else {
            pointer_in_editor_zone
        };
        if !self.editor_drop_armed && !in_zone {
            return DropOutcome::Ignored;
        }
        self.editor_drop_armed = false;
        let ghost files = dropped_view(dropped@);
        let ghost ignored0 = opt_str(self.ignored_drop_path);
        let ghost s0 = *self;
        let mut paths: Vec<String> = Vec::new();
        let mut i: usize = 0;
        while i < dropped.len()
            invariant
                i <= dropped.len(),
                files == dropped_view(dropped@),
                *self == (SoundFxApp { ignored_drop_path: self.ignored_drop_path, ..s0 }),
                ({
                    let sc = drop_scan(files.take(i as int), ignored0);
                    &&& strs(paths@) == sc.0
                    &&& opt_str(self.ignored_drop_path) == sc.1
                }),
            decreases dropped.len() - i,
        {
            assert(files.take(i + 1).drop_last() =~= files.take(i as int));
            assert(files.take(i + 1).last() == files[i as int]);
            match &dropped[i] {
                None => {},
                Some(f) => {
                    let skip = match &self.ignored_drop_path {
                        Some(ig) => *ig == f.normalized,
                        None => false,
                    };
                    if skip {
                        self.ignored_drop_path = None;
                    } else {
                        let ghost before = strs(paths@);
                        paths.push(f.path.clone());
                        assert(strs(paths@) =~= before.push(f.path@));
                    }
                },
            }
            i = i + 1;
        }
        assert(files.take(files.len() as int) =~= files);
        if paths.len() == 0 {
            return DropOutcome::Ignored;
        }
        let target_folder_id = if lib {
            match library_drop_target {
                Some(t) => t,
                None => None,
            }
        } else {
            None
        };
        self.library_drop_target_folder = None;
        self.library_drop_target_root = false;
        DropOutcome::Import { paths, target_folder_id, in_background: lib }
    }
}


impl SoundFxApp {
    /// Tracks files dragged over the window: while they hover over a screen
    /// that takes drops (and no modal panel is open), the drop is armed
    /// exactly when the pointer is over a drop target (a library folder or
    /// the top level, or the editor's drop zone); once nothing hovers and
    /// nothing was dropped, it is disarmed. Returns whether the pointer is
    /// over a target (the window then shows the copy cursor and keeps
    /// repainting).
    pub fn handle_external_file_hover(
        &mut self,
        has_modal_panel: bool,
        files_hovered: bool,
        files_dropped: bool,
        library_drop_target: Option<Option<u128>>,
        pointer_in_editor_zone: bool,
    ) -> (over_target: bool)
        ensures
            ({
                let lib = library_sounds_shown(*old(self));
                let hover = (old(self).app_view == AppView::Editor || lib) && !has_modal_panel && files_hovered;
                let over = if lib {
                    library_drop_target is Some
                } else {
                    pointer_in_editor_zone
                };
                &&& over_target == (hover && over)
                &&& *final(self) == (SoundFxApp {
                    editor_drop_armed: if hover {
                        over
                    } else if !files_dropped {
                        false
                    } else {
                        old(self).editor_drop_armed
                    },
                    ..*old(self)
                })
            }),
    {
        let lib = self.app_view == AppView::Library && self.library_tab == LibraryTab::Sounds;
        let hover = (self.app_view == AppView::Editor || lib) && !has_modal_panel && files_hovered;
        if hover {
            let over = if lib {
                library_drop_target.is_some()
            } else {
                pointer_in_editor_zone
            };
            self.editor_drop_armed = over;
            over
        } else {
            if !files_dropped {
                self.editor_drop_armed = false;
            }
            false
        }
    }
}

} // verus!
