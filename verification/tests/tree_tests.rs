use evk::file_tree::{arrange_entries, is_markdown, ListedEntry};
use evk::layout_law as _;
use evk::text_ops::{InsertionFragment, Locator};
use evk::clock::{Lamport, ReplicaId};
use evk::window_layout::WindowButtonLayout;

fn entry(name: &str, is_dir: bool) -> ListedEntry {
    ListedEntry { name: name.to_string(), is_dir }
}

#[test]
fn markdown_names() {
    assert!(is_markdown("README.md"));
    assert!(is_markdown("notes.markdown"));
    assert!(is_markdown("a.b.md"));
    assert!(is_markdown("..md"));
    assert!(!is_markdown(".md"));
    assert!(!is_markdown("md"));
    assert!(!is_markdown("notes.txt"));
    assert!(!is_markdown("notes.md.txt"));
    assert!(!is_markdown("notes."));
    assert!(!is_markdown(".."));
    assert!(!is_markdown("README.MD"));
}

#[test]
fn tree_shows_directories_first_then_markdown_files_by_name() {
    let listed = vec![
        entry("zeta.md", false),
        entry("src", true),
        entry(".git", true),
        entry("alpha.md", false),
        entry("build.rs", false),
        entry("docs", true),
        entry(".hidden.md", false),
        entry("Beta.markdown", false),
    ];
    let shown = arrange_entries(listed);
    let names: Vec<(&str, bool)> = shown.iter().map(|e| (e.name.as_str(), e.is_dir)).collect();
    assert_eq!(
        names,
        vec![("docs", true), ("src", true), ("Beta.markdown", false), ("alpha.md", false), ("zeta.md", false)]
    );
    assert!(arrange_entries(vec![]).is_empty());
}

#[test]
fn locators() {
    assert_eq!(Locator::min().digits(), &[0u64][..]);
    assert_eq!(Locator::max().digits(), &[u64::MAX][..]);
    let f = InsertionFragment {
        timestamp: Lamport { value: 3, replica_id: ReplicaId::new(1) },
        split_offset: 7,
        fragment_id: Locator::max(),
    };
    let copy = f.clone();
    assert_eq!(copy.fragment_id.digits(), &[u64::MAX][..]);
    assert_eq!(f.summary().split_offset, 7);
    assert_eq!(f.key().timestamp, f.timestamp);
}

#[test]
fn formatting_what_was_read_reads_back_the_same() {
    for s in ["close,minimize:maximize", " close , close :minimize,spacer", "maximize", "appmenu:close", ":"] {
        let first = WindowButtonLayout::parse(s).unwrap();
        let again = WindowButtonLayout::parse(&first.format()).unwrap();
        assert_eq!(again, first);
    }
}
