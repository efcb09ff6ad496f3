use stelarc::tree::{plan_tree, PlannedEntry, WalkItem};

fn item(full: &str, rel: &str, is_dir: bool) -> WalkItem {
    WalkItem { full_path: full.as_bytes().to_vec(), rel_path: rel.as_bytes().to_vec(), is_dir }
}

fn archive_paths(plan: &[PlannedEntry]) -> Vec<String> {
    plan.iter().map(|p| String::from_utf8(p.archive_path.clone()).unwrap()).collect()
}

fn walk() -> Vec<WalkItem> {
    vec![
        item("/data/proj/a.txt", "a.txt", false),
        item("/data/proj/build", "build", true),
        item("/data/proj/build/out.o", "build/out.o", false),
        item("/data/proj/build/deep", "build/deep", true),
        item("/data/proj/build/deep/x", "build/deep/x", false),
        item("/data/proj/sub", "sub", true),
        item("/data/proj/sub/b.bin", "sub/b.bin", false),
    ]
}

#[test]
fn directory_input_is_rooted_at_its_name() {
    let plan = plan_tree(b"/data/proj", b"proj", true, &walk(), &Vec::new());
    assert_eq!(
        archive_paths(&plan),
        vec![
            "proj", "proj/a.txt", "proj/build", "proj/build/out.o", "proj/build/deep",
            "proj/build/deep/x", "proj/sub", "proj/sub/b.bin"
        ]
    );
    assert!(plan[0].is_dir);
    assert_eq!(plan[0].source_path, b"/data/proj".to_vec());
    assert!(!plan[1].is_dir);
    assert_eq!(plan[7].source_path, b"/data/proj/sub/b.bin".to_vec());
}

#[test]
fn excluded_directory_drops_its_subtree() {
    let plan = plan_tree(b"/data/proj", b"proj", true, &walk(), &vec![b"build".to_vec()]);
    assert_eq!(archive_paths(&plan), vec!["proj", "proj/a.txt", "proj/sub", "proj/sub/b.bin"]);
}

#[test]
fn excluded_input_gives_nothing() {
    let plan = plan_tree(b"/data/proj", b"proj", true, &walk(), &vec![b"data".to_vec()]);
    assert!(plan.is_empty());
}

#[test]
fn single_file_input_is_one_entry() {
    let plan = plan_tree(b"/tmp/notes.txt", b"notes.txt", false, &Vec::new(), &Vec::new());
    assert_eq!(archive_paths(&plan), vec!["notes.txt"]);
    assert!(!plan[0].is_dir);
}
