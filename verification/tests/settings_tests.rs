use evk::remote::DisableAiSettings;
use evk::settings::{ExtendingVec, LspSettings, MergeFrom, SaturatingBool, WorktreeId};
use evk::settings_value::{RelPath, SettingValue, SettingsLocation};

#[test]
fn saturating_bool_stays_set() {
    let mut flag = SaturatingBool::from(false);
    flag.merge_from(&SaturatingBool(false));
    assert_eq!(flag, SaturatingBool(false));
    flag.merge_from(&SaturatingBool(true));
    assert_eq!(flag, SaturatingBool(true));
    flag.merge_from(&SaturatingBool(false));
    assert!(bool::from(flag));
}

#[test]
fn extending_vec_appends() {
    let mut list = ExtendingVec::from(vec![1, 2]);
    list.merge_from(&ExtendingVec(vec![3]));
    list.merge_from(&ExtendingVec(vec![]));
    list.merge_from(&ExtendingVec(vec![4, 5]));
    assert_eq!(list.into_vec(), vec![1, 2, 3, 4, 5]);
}

fn at<'a>(worktree: usize, path: &'a RelPath) -> Option<SettingsLocation<'a>> {
    Some(SettingsLocation { worktree_id: WorktreeId::from_usize(worktree), path })
}

#[test]
fn rel_path_prefixes() {
    let ab = RelPath::new("a/b");
    assert!(ab.starts_with(&RelPath::new("")));
    assert!(ab.starts_with(&RelPath::new("a")));
    assert!(ab.starts_with(&RelPath::new("a/b")));
    assert!(!ab.starts_with(&RelPath::new("a/")));
    assert!(!RelPath::new("ab").starts_with(&RelPath::new("a")));
    assert!(!RelPath::new("a").starts_with(&RelPath::new("a/b")));
}

#[test]
fn setting_values_by_path() {
    let mut value: SettingValue<u32> = SettingValue { global_value: None, local_values: vec![] };
    value.set_global_value(1);
    value.set_local_value(WorktreeId::from_usize(2), RelPath::new("src"), 20);
    value.set_local_value(WorktreeId::from_usize(2), RelPath::new(""), 10);
    value.set_local_value(WorktreeId::from_usize(2), RelPath::new("src/app"), 30);
    value.set_local_value(WorktreeId::from_usize(1), RelPath::new("src"), 5);

    assert_eq!(*value.value_for_path(None), 1);
    assert_eq!(*value.value_for_path(at(2, &RelPath::new("src/app/main.rs"))), 30);
    assert_eq!(*value.value_for_path(at(2, &RelPath::new("src/lib.rs"))), 20);
    assert_eq!(*value.value_for_path(at(2, &RelPath::new("srcs/lib.rs"))), 10);
    assert_eq!(*value.value_for_path(at(1, &RelPath::new("docs"))), 1);
    assert_eq!(*value.value_for_path(at(1, &RelPath::new("src"))), 5);
    assert_eq!(*value.value_for_path(at(3, &RelPath::new("src"))), 1);

    // sorted by worktree, then by directory
    let keys: Vec<(usize, &str)> = vec![(1, "src"), (2, ""), (2, "src"), (2, "src/app")];
    let all = value.all_local_values();
    assert_eq!(all.len(), 4);
    for (entry, key) in all.iter().zip(keys.iter()) {
        assert_eq!(entry.0.to_usize(), key.0);
        assert_eq!(entry.1, RelPath::new(key.1));
    }

    // writing again replaces the value
    value.set_local_value(WorktreeId::from_usize(2), RelPath::new("src"), 21);
    assert_eq!(value.local_values.len(), 4);
    assert_eq!(*value.value_for_path(at(2, &RelPath::new("src"))), 21);

    value.clear_local_values(WorktreeId::from_usize(2));
    assert_eq!(value.local_values.len(), 1);
    assert_eq!(*value.value_for_path(at(2, &RelPath::new("src/app/main.rs"))), 1);
    assert_eq!(*value.value_for_path(at(1, &RelPath::new("src/x"))), 5);
}

#[test]
fn local_value_without_global() {
    let mut value: SettingValue<&str> = SettingValue { global_value: None, local_values: vec![] };
    value.set_local_value(WorktreeId::from_usize(0), RelPath::new("a"), "here");
    assert_eq!(*value.value_for_path(at(0, &RelPath::new("a/b"))), "here");
}

#[test]
fn disable_ai_from_settings() {
    assert!(DisableAiSettings::from_settings(Some(SaturatingBool(true))).disable_ai);
    assert!(!DisableAiSettings::from_settings(Some(SaturatingBool(false))).disable_ai);
}

#[test]
fn language_server_defaults() {
    let s = LspSettings::default();
    assert!(s.binary.is_none());
    assert!(s.initialization_options.is_none());
    assert!(s.settings.is_none());
    assert!(s.enable_lsp_tasks);
    assert!(s.fetch.is_none());
}
