use taskw::{Config, Date, DateTime, HookAction, Hooks, Status, Task};

fn test_cfg(dir: &str) -> Config {
    Config {
        notes_tag: "wiki".to_string(),
        notes_dir: dir.to_string(),
        notes_ext: "md".to_string(),
    }
}

fn fixed_task(uuid: &str, description: &str) -> Task {
    Task {
        status: Status::Pending,
        uuid: uuid.to_string(),
        entry: DateTime::parse("20220110T171619Z").expect("valid timestamp"),
        description: description.to_string(),
        project: None,
        tags: Vec::new(),
        annotations: Vec::new(),
        modified: DateTime::parse("20220110T171619Z").expect("valid timestamp"),
        unknown_fields: Vec::new(),
    }
}

#[test]
fn hooks_create_note_file_path_for_task() {
    let cfg = test_cfg("/notes/dir");
    let task = Task::new("Dummy Task");
    let uuid = task.uuid.clone();
    let path = Hooks::with_config(cfg).note_file_path(&task);

    assert!(path.contains("/notes/dir"));
    assert!(path.contains(&uuid));
    assert!(path.contains("md"));
}

#[test]
fn mod_create_note_file_path_for_task() {
    let cfg = test_cfg("/somewhere/else");
    let task = Task::new("Dummy Task");
    let path = Hooks::with_config(cfg).note_file_path(&task);

    assert!(path.contains("/somewhere/else"));
    assert!(path.contains(&task.uuid));
    assert!(path.contains("md"));
    assert_eq!(path, format!("/somewhere/else/{}.md", task.uuid));
}

#[test]
fn hooks_on_add_passes_irrelevant_task() {
    let cfg = test_cfg("/notes/dir");
    let task = Task::new("Dummy Task").with_tag("not_the_wiki_tag");
    let hooks = Hooks::with_config(cfg);

    let action = hooks.on_add_action(&task);
    let (returned_task, feedback) = match action {
        HookAction::Pass => (task.clone(), String::new()),
        _ => panic!("expected the task to pass through"),
    };
    assert_eq!(task, returned_task);
    assert_eq!(feedback, String::new());
}

#[test]
fn on_add_on_add_passes_irrelevant_task() {
    let cfg = test_cfg("/notes/dir");
    let task = Task::new("Dummy Task").with_tag("not_the_wiki_tag");
    let action = Hooks::with_config(cfg).on_add_action(&task);
    assert!(matches!(action, HookAction::Pass));
}

#[test]
fn hooks_on_add_creates_notes_file_and_annotates_task_with_path() {
    let cfg = test_cfg("/notes/dir");
    let hooks = Hooks::with_config(cfg);
    let task = Task::new("Dummy Task").with_tag("wiki");
    let expected_path = hooks.note_file_path(&task);

    let action = hooks.on_add_action(&task);
    match action {
        HookAction::Create { path, text } => {
            assert_eq!(path, expected_path);
            assert!(text.contains("title: Dummy Task"));
        },
        _ => panic!("expected a creation action"),
    }
    let (task, _feedback) = hooks.confirm_created(task);
    assert_eq!(task.annotations.len(), 1);
    let in_annotation = &task.annotations[0].description;
    assert!(in_annotation.contains("/notes/dir"));
    assert!(in_annotation.contains(&expected_path));
}

#[test]
fn on_add_on_add_creates_notes_file_and_annotates_task_with_path() {
    let cfg = test_cfg("/notes/dir");
    let hooks = Hooks::with_config(cfg);
    let task = Task::new("Dummy Task").with_tag("wiki");

    let action = hooks.on_add_action(&task);
    assert!(matches!(action, HookAction::Create { .. }));
    let (task, feedback) = hooks.confirm_created(task);
    assert_eq!(task.annotations.len(), 1);
    assert!(feedback.contains("notes"));
}

#[test]
fn on_modify_creates_notes_file_and_annotates_task_with_path() {
    let cfg = test_cfg("/notes/dir");
    let hooks = Hooks::with_config(cfg);
    let old_task = Task::new("Dummy Task");
    let new_task = old_task.clone().with_tag("wiki");
    let expected_path = hooks.note_file_path(&new_task);

    let action = hooks.on_modify_action(&old_task, &new_task);
    match action {
        HookAction::Create { path, .. } => assert_eq!(path, expected_path),
        _ => panic!("expected a creation action"),
    }
    let (task, _feedback) = hooks.confirm_created(new_task);
    assert_eq!(task.annotations.len(), 1);
    assert!(task.annotations[0].description.contains("/notes/dir"));
}

#[test]
fn create_and_remove_notes_file() {
    let cfg = test_cfg("/notes/dir");
    let hooks = Hooks::with_config(cfg);
    let task = fixed_task("dde3720b-003f-4776-8e15-61e5d90376af", "Dummy Task");
    let tagged = task.clone().with_tag("wiki");
    let untagged = task;

    let create = hooks.on_modify_action(&untagged, &tagged);
    let remove = hooks.on_modify_action(&tagged, &untagged);
    match (create, remove) {
        (HookAction::Create { path: p1, .. }, HookAction::Remove { path: p2 }) => {
            assert_eq!(p1, p2);
            assert_eq!(p1, "/notes/dir/dde3720b-003f-4776-8e15-61e5d90376af.md");
        },
        _ => panic!("expected a creation and a removal action"),
    }
}

#[test]
fn create_and_remove_path_annotation() {
    let cfg = test_cfg("/notes/dir");
    let hooks = Hooks::with_config(cfg);
    let task = Task::new("Dummy Task");

    assert_eq!(task.annotations.len(), 0);
    let (task, _feedback) = hooks.confirm_created(task);
    assert_eq!(task.annotations.len(), 1);

    let path_in_annotation = task.annotations[0].description.clone();
    assert!(path_in_annotation.contains("/notes/dir"));
    assert!(path_in_annotation.contains(&task.uuid));

    assert_eq!(task.annotations.len(), 1);
    let task = hooks.remove_path_annotation(task);
    assert_eq!(task.annotations.len(), 0);
}

#[test]
fn add_and_remove_note_tag() {
    let cfg = test_cfg("/notes/dir");
    let hooks = Hooks::with_config(cfg);

    let old_task = Task::new("Dummy Task");
    let new_task = old_task.clone().with_tag("wiki");
    let action = hooks.on_modify_action(&old_task, &new_task);
    assert!(matches!(action, HookAction::Create { .. }));
    let (task_with, feedback) = hooks.confirm_created(new_task);

    assert_eq!(task_with.annotations.len(), 1);
    assert!(feedback.contains("notes"));

    let mut task_without = task_with.clone();
    task_without.tags.retain(|t| t != "wiki");
    let action = hooks.on_modify_action(&task_with, &task_without);
    assert!(matches!(action, HookAction::Remove { .. }));
    let task_final = hooks.remove_path_annotation(task_without);
    let feedback = hooks.removal_feedback(true);

    assert_eq!(task_final.annotations.len(), 0);
    assert!(feedback.contains("notes"));
}

#[test]
fn removal_keeps_user_annotations_only() {
    let cfg = test_cfg("/notes/dir");
    let hooks = Hooks::with_config(cfg);
    let mut task = fixed_task("dde3720b-003f-4776-8e15-61e5d90376af", "Dummy Task");
    task.annotations.push(taskw::Annotation {
        entry: DateTime::parse("20220110T171619Z").expect("valid timestamp"),
        description: "user note".to_string(),
    });
    let (task, _) = hooks.confirm_created(task);
    let (task, _) = hooks.confirm_created(task);
    assert_eq!(task.annotations.len(), 3);
    let task = hooks.remove_path_annotation(task);
    assert_eq!(task.annotations.len(), 1);
    assert_eq!(task.annotations[0].description, "user note");
}

#[test]
fn removal_feedback_distinguishes_absence() {
    let hooks = Hooks::with_config(test_cfg("/notes/dir"));
    assert_eq!(hooks.removal_feedback(true), "Removed notes file");
    assert_eq!(hooks.removal_feedback(false), "No notes found");
}

#[test]
fn unchanged_tag_state_passes_task_through() {
    let cfg = test_cfg("/notes/dir");
    let hooks = Hooks::with_config(cfg);
    let untagged = Task::new("Dummy Task");
    let tagged = untagged.clone().with_tag("wiki");

    let action = hooks.on_modify_action(&untagged, &untagged.clone());
    assert!(matches!(action, HookAction::Pass));
    let action = hooks.on_modify_action(&tagged, &tagged.clone());
    assert!(matches!(action, HookAction::Pass));
}

#[test]
fn second_run_overwrites_same_path_and_duplicates_annotation() {
    let cfg = test_cfg("/notes/dir");
    let hooks = Hooks::with_config(cfg);
    let task = Task::new("Plan trip").with_tag("wiki");

    let first = hooks.on_add_action(&task);
    let (task, _) = hooks.confirm_created(task);
    let second = hooks.on_add_action(&task);
    match (first, second) {
        (HookAction::Create { path: p1, text: t1 }, HookAction::Create { path: p2, text: t2 }) => {
            assert_eq!(p1, p2);
            assert_eq!(t1, t2);
        },
        _ => panic!("expected two creation actions"),
    }
    let (task, _) = hooks.confirm_created(task);
    assert_eq!(task.annotations.len(), 2);
}

#[test]
fn example_untagged_task_flows_through_unchanged() {
    let cfg = test_cfg("/notes/dir");
    let hooks = Hooks::with_config(cfg);
    let task = fixed_task("u1", "Plan trip");

    let action = hooks.on_add_action(&task);
    assert!(matches!(action, HookAction::Pass));
}

#[test]
fn example_tagged_task_creates_note_and_annotation() {
    let cfg = test_cfg("/notes/dir");
    let hooks = Hooks::with_config(cfg);
    let task = fixed_task("u1", "Plan trip").with_tag("wiki");

    let action = hooks.on_add_action(&task);
    match action {
        HookAction::Create { path, text } => {
            assert_eq!(path, "/notes/dir/u1.md");
            assert!(text.contains("title: Plan trip"));
            assert!(text.contains("date: 2022-01-10"));
        },
        _ => panic!("expected a creation action"),
    }
    let (task, feedback) = hooks.confirm_created(task);
    assert_eq!(task.annotations.len(), 1);
    assert!(task.annotations[0].description.contains("/notes/dir/u1.md"));
    assert!(feedback.contains("/notes/dir/u1.md"));
}

#[test]
fn default_config_values() {
    let cfg = Config::default();
    assert_eq!(cfg.notes_tag, "wiki");
    assert_eq!(cfg.notes_ext, "md");
    let pinned: &'static Config = cfg.to_static();
    assert_eq!(pinned.notes_tag, "wiki");
}
