use vstd::prelude::*;

use crate::config::{Config, ConfigView};
use crate::datetime::now_utc;
use crate::notes::{spec_render_doc, NotesFile, NotesFileView, YamlMeta, YamlMetaView};
use crate::strings::str_starts_with;
use crate::task::{ann_views, Annotation, AnnotationView, Task, TaskView};

verus! {

/// Human-readable feedback returned to the invoking tool.
pub type Feedback = String;

/// The hook engine: the per-event policy over a task's tag state. It holds
/// the configuration and nothing else; every decision is a pure function of
/// its task arguments.
///
/// The engine itself touches no file. A caller asks for the
/// [`HookAction`] of an event, performs the one filesystem step the action
/// names, and then completes the task mutation: [`Hooks::confirm_created`]
/// after a successful write, [`Hooks::removal_feedback`] after a removal
/// attempt.
pub struct Hooks {
    pub config: Config,
}

/// The single filesystem step a hook decides on.
pub enum HookAction {
    /// Write `text` to the file at `path`, creating or overwriting it.
    Create { path: String, text: String },
    /// Remove the file at `path` if it exists.
    Remove { path: String },
    /// Touch no file.
    Pass,
}

/// The mathematical content of a [`HookAction`].
pub enum HookActionView {
    Create { path: Seq<char>, text: Seq<char> },
    Remove { path: Seq<char> },
    Pass,
}

impl View for HookAction {
    type V = HookActionView;

    open spec fn view(&self) -> HookActionView {
        match self {
            HookAction::Create { path, text } => HookActionView::Create {
                path: path@,
                text: text@,
            },
            HookAction::Remove { path } => HookActionView::Remove { path: path@ },
            HookAction::Pass => HookActionView::Pass,
        }
    }
}

/// The prefix that marks an annotation as owned by the hook engine, so it
/// can later be told apart from user annotations and removed.
pub open spec fn spec_marker() -> Seq<char> {
    "taskw:note"@
}

/// Whether an annotation description carries the ownership marker prefix.
pub open spec fn is_ownership_annotation(d: Seq<char>) -> bool {
    spec_marker().is_prefix_of(d)
}

/// The notes file location for a task identifier:
/// `<notes_dir>/<uuid>.<ext>`.
pub open spec fn spec_note_file_path(cfg: ConfigView, uuid: Seq<char>) -> Seq<char> {
    cfg.notes_dir + "/"@ + uuid + "."@ + cfg.notes_ext
}

/// The notes document the creation path produces for a task: at the task's
/// note path, headed by the task's description as title and the calendar
/// date of its creation timestamp, with placeholder body content.
pub open spec fn spec_fresh_note(cfg: ConfigView, t: TaskView) -> NotesFileView {
    NotesFileView {
        path: spec_note_file_path(cfg, t.uuid),
        header: Some(
            YamlMetaView {
                title: t.description,
                date: t.entry.date,
                keywords: Seq::empty(),
                unknown_fields: Seq::empty(),
            },
        ),
        content: "%% Add your notes here"@,
    }
}

/// What the creation hook does: a tagged task gets its notes file written,
/// an untagged task passes through untouched.
pub open spec fn spec_on_add_action(cfg: ConfigView, t: TaskView) -> HookActionView {
    if t.tags.contains(cfg.notes_tag) {
        HookActionView::Create {
            path: spec_note_file_path(cfg, t.uuid),
            text: spec_render_doc(spec_fresh_note(cfg, t)),
        }
    } else {
        HookActionView::Pass
    }
}

/// What the modification hook does, keyed only on the notes tag's presence
/// before and after: newly tagged creates the notes file (exactly the
/// creation path, applied to the modified task), newly untagged removes it,
/// and both other combinations touch nothing.
pub open spec fn spec_on_modify_action(
    cfg: ConfigView,
    original: TaskView,
    modified: TaskView,
) -> HookActionView {
    let before = original.tags.contains(cfg.notes_tag);
    let after = modified.tags.contains(cfg.notes_tag);
    if !before && after {
        spec_on_add_action(cfg, modified)
    } else if before && !after {
        HookActionView::Remove { path: spec_note_file_path(cfg, modified.uuid) }
    } else {
        HookActionView::Pass
    }
}

/// The annotation list with every ownership annotation removed; user
/// annotations keep their order.
pub open spec fn spec_without_ownership(anns: Seq<AnnotationView>) -> Seq<AnnotationView> {
    anns.filter(|a: AnnotationView| !is_ownership_annotation(a.description))
}

impl Hooks {
    /// An engine with the given configuration.
    pub fn with_config(config: Config) -> (r: Hooks)
        ensures
            r.config@ == config@,
    {
        Hooks { config }
    }

    /// The notes file location for a task, per [`spec_note_file_path`].
    pub fn note_file_path(&self, task: &Task) -> (r: String)
        ensures
            r@ == spec_note_file_path(self.config@, task@.uuid),
    {
        let mut out = String::new();
        out.append(self.config.notes_dir.as_str());
        out.append("/");
        out.append(task.uuid.as_str());
        out.append(".");
        out.append(self.config.notes_ext.as_str());
        out
    }

    /// The notes document for a task's creation, per [`spec_fresh_note`].
    pub fn fresh_note(&self, task: &Task) -> (r: NotesFile)
        requires
            task@.entry.date.wf(),
        ensures
            r@ == spec_fresh_note(self.config@, task@),
            r@.wf(),
    {
        let path = self.note_file_path(task);
        let title = task.description.clone();
        let meta = YamlMeta::new(title.as_str(), task.entry.day_of());
        NotesFile::new(path.as_str()).with_header(meta).with_content("%% Add your notes here")
    }

    /// Decide the creation hook's filesystem step, per
    /// [`spec_on_add_action`]: `Create` with the rendered document exactly
    /// when the task carries the configured notes tag, otherwise `Pass`,
    /// and then no file is touched and the task passes through unchanged.
    pub fn on_add_action(&self, task: &Task) -> (r: HookAction)
        requires
            task@.entry.date.wf(),
        ensures
            r@ == spec_on_add_action(self.config@, task@),
    {
        if task.has_tag(self.config.notes_tag.as_str()) {
            let note = self.fresh_note(task);
            let text = note.render();
            HookAction::Create { path: self.note_file_path(task), text }
        } else {
            HookAction::Pass
        }
    }

    /// Decide the modification hook's filesystem step, per
    /// [`spec_on_modify_action`]: the three-way policy on the notes tag's
    /// presence in the original and the modified task.
    pub fn on_modify_action(&self, original: &Task, modified: &Task) -> (r: HookAction)
        requires
            modified@.entry.date.wf(),
        ensures
            r@ == spec_on_modify_action(self.config@, original@, modified@),
    {
        let before = original.has_tag(self.config.notes_tag.as_str());
        let after = modified.has_tag(self.config.notes_tag.as_str());
        if !before && after {
            self.on_add_action(modified)
        } else if before && !after {
            HookAction::Remove { path: self.note_file_path(modified) }
        } else {
            HookAction::Pass
        }
    }

    /// Complete a creation after the notes file was written: append exactly
    /// one ownership annotation naming the created path, leave every other
    /// field and every earlier annotation unchanged, and return the
    /// created-path feedback. Appending only after the write keeps a failed
    /// write from leaving a partial annotation behind.
    pub fn confirm_created(&self, task: Task) -> (r: (Task, Feedback))
        ensures
            r.0@ == (TaskView { annotations: r.0@.annotations, ..task@ }),
            r.0@.annotations.len() == task@.annotations.len() + 1,
            r.0@.annotations.take(task@.annotations.len() as int) == task@.annotations,
            r.0@.annotations.last().description == spec_marker() + " "@ + spec_note_file_path(
                self.config@,
                task@.uuid,
            ),
            is_ownership_annotation(r.0@.annotations.last().description),
            r.0@.annotations.last().entry.wf(),
            r.1@ == "Created notes file at "@ + spec_note_file_path(self.config@, task@.uuid),
    {
        let path = self.note_file_path(&task);
        let mut desc = String::new();
        desc.append("taskw:note");
        desc.append(" ");
        desc.append(path.as_str());
        let ann = Annotation { entry: now_utc(), description: desc };
        let ghost prev = task.annotations@;
        let mut t = task;
        t.annotations.push(ann);
        assert(ann_views(t.annotations@) =~= ann_views(prev).push(ann@));
        assert(ann_views(t.annotations@).take(prev.len() as int) =~= ann_views(prev));
        assert(is_ownership_annotation(ann@.description)) by {
            assert(ann@.description.take(spec_marker().len() as int) =~= spec_marker());
        };
        let mut feedback = String::new();
        feedback.append("Created notes file at ");
        feedback.append(path.as_str());
        (t, feedback)
    }

    /// Remove every ownership annotation from the task, per
    /// [`spec_without_ownership`]; user annotations and every other field
    /// stay unchanged.
    pub fn remove_path_annotation(&self, task: Task) -> (r: Task)
        ensures
            r@ == (TaskView {
                annotations: spec_without_ownership(task@.annotations),
                ..task@
            }),
    {
        proof {
            reveal(Seq::filter);
        }
        let ghost av = ann_views(task.annotations@);
        let n = task.annotations.len();
        let mut kept: Vec<Annotation> = Vec::new();
        let mut i: usize = 0;
        assert(av.take(0) =~= Seq::<AnnotationView>::empty());
        assert(ann_views(kept@) =~= Seq::<AnnotationView>::empty());
        while i < n
            invariant
                i <= n,
                n == task.annotations@.len(),
                av == ann_views(task.annotations@),
                ann_views(kept@) == spec_without_ownership(av.take(i as int)),
            decreases n - i,
        {
            proof {
                reveal(Seq::filter);
            }
            assert(av.take(i + 1).drop_last() =~= av.take(i as int));
            assert(av.take(i + 1).last() == task.annotations@[i as int]@);
            let own = str_starts_with(task.annotations[i].description.as_str(), "taskw:note");
            assert(own == is_ownership_annotation(av[i as int].description));
            if !own {
                let ghost prev = kept@;
                kept.push(
                    Annotation {
                        entry: task.annotations[i].entry,
                        description: task.annotations[i].description.clone(),
                    },
                );
                assert(ann_views(kept@) =~= ann_views(prev).push(task.annotations@[i as int]@));
                assert(spec_without_ownership(av.take(i + 1)) =~= spec_without_ownership(
                    av.take(i as int),
                ).push(av[i as int]));
            } else {
                assert(spec_without_ownership(av.take(i + 1)) =~= spec_without_ownership(
                    av.take(i as int),
                ));
            }
            i = i + 1;
        }
        assert(av.take(n as int) =~= av);
        let mut t = task;
        t.annotations = kept;
        t
    }

    /// The feedback after a removal attempt: it distinguishes a deleted
    /// file from one that was not there, and an absent file is not an
    /// error.
    pub fn removal_feedback(&self, removed: bool) -> (r: Feedback)
        ensures
            r@ == if removed {
                "Removed notes file"@
            } else {
                "No notes found"@
            },
    {
        if removed {
            String::from_str("Removed notes file")
        } else {
            String::from_str("No notes found")
        }
    }
}

/// Creating notes for the same task twice targets the same file with the
/// same text: the commit after a write changes nothing but the annotation
/// list, and the creation decision does not read annotations, so a second
/// run overwrites the same path (no duplicate files) — though each commit
/// appends its own ownership annotation.
pub proof fn lemma_second_run_same_file(cfg: ConfigView, before: TaskView, after: TaskView)
    requires
        after == (TaskView { annotations: after.annotations, ..before }),
    ensures
        spec_on_add_action(cfg, after) == spec_on_add_action(cfg, before),
{
}

/// Removal is complete: after [`Hooks::remove_path_annotation`] no
/// ownership annotation remains, and every annotation kept is one of the
/// original, non-ownership ones, in order.
pub proof fn lemma_removal_complete(anns: Seq<AnnotationView>)
    ensures
        forall|i: int|
            0 <= i < spec_without_ownership(anns).len() ==> !is_ownership_annotation(
                (#[trigger] spec_without_ownership(anns)[i]).description,
            ),
    decreases anns.len(),
{
    reveal(Seq::filter);
    if anns.len() > 0 {
        lemma_removal_complete(anns.drop_last());
    }
}

} // verus!

verus! {

/// The note the creation hook writes is read back intact: splitting the
/// written document recovers the header text and the placeholder body, and
/// the header text parses back to exactly the title and date the hook put
/// there — a later open of the created file sees the same structured
/// header, whatever the task's description holds.
pub proof fn lemma_created_note_reads_back(cfg: ConfigView, t: TaskView)
    requires
        t.wf(),
    ensures
        ({
            let nf = spec_fresh_note(cfg, t);
            let m = nf.header->Some_0;
            &&& crate::notes::spec_split_header(spec_render_doc(nf)) == Some(
                (crate::notes::spec_render_meta(m), nf.content),
            )
            &&& crate::notes::spec_parse_meta(crate::notes::spec_render_meta(m)) == Some(m)
        }),
{
    let nf = spec_fresh_note(cfg, t);
    let m = YamlMetaView {
        title: t.description,
        date: t.entry.date,
        keywords: Seq::empty(),
        unknown_fields: Seq::empty(),
    };
    crate::notes::lemma_fresh_meta_parses_back(m);
    crate::notes::lemma_fresh_meta_embeds(m);
    reveal_strlit("%% Add your notes here");
    let content = "%% Add your notes here"@;
    assert(content.len() == 22);
    assert(!crate::notes::is_ws(content[0]));
    assert(!crate::notes::is_ws(content.last()));
    assert forall|j: int| !crate::notes::delim_line_at(content, j) by {
        if crate::notes::delim_line_at(content, j) {
            assert(0 <= j && j + 3 <= 22);
            assert(content[j] == '-');
            assert(false);
        }
    };
    crate::notes::lemma_wrapped_document_splits(crate::notes::spec_render_meta(m), content);
}

} // verus!
