use dirtree::directory::DirectoryBuilder;
use dirtree::file::FileBuilder;
use dirtree::plan::Step;
use dirtree::run::Run;
use std::collections::BTreeSet;
use std::path::Path;

/// A filesystem kept in memory: which directories and files are there, and
/// in which directories nothing may be created.
struct Disk {
    dirs: BTreeSet<String>,
    files: BTreeSet<String>,
    locked: BTreeSet<String>,
    asked: Vec<String>,
}

impl Disk {
    fn with_dirs(dirs: &[&str]) -> Disk {
        Disk {
            dirs: dirs.iter().map(|d| d.to_string()).collect(),
            files: BTreeSet::new(),
            locked: BTreeSet::new(),
            asked: Vec::new(),
        }
    }

    fn has(&self, path: &str) -> bool {
        self.dirs.contains(path) || self.files.contains(path)
    }

    fn may_create_in(&self, path: &str) -> Option<String> {
        let above = Path::new(path).parent()?.to_str()?.to_string();
        if self.locked.contains(&above) {
            None
        } else {
            Some(above)
        }
    }

    fn create_dir(&mut self, path: &str, recursive: bool) -> bool {
        if self.dirs.contains(path) {
            return recursive;
        }
        if self.files.contains(path) {
            return false;
        }
        let above = match self.may_create_in(path) {
            Some(above) => above,
            None => return false,
        };
        if !self.dirs.contains(&above) && !(recursive && self.create_dir(&above, true)) {
            return false;
        }
        self.dirs.insert(path.to_string());
        true
    }

    fn write_file(&mut self, path: &str) -> bool {
        match self.may_create_in(path) {
            Some(above) if self.dirs.contains(&above) => {
                self.files.insert(path.to_string());
                true
            }
            _ => false,
        }
    }

    fn answer(&mut self, step: &Step) -> bool {
        match step {
            Step::Probe { path, .. } => {
                self.asked.push(format!("exists {}", path));
                self.has(path)
            }
            Step::CreateDir { path, recursive } => {
                self.asked.push(format!("mkdir {}", path));
                self.create_dir(path, *recursive)
            }
            Step::WriteFile { file } => {
                self.asked.push(format!("write {}", file.path));
                self.write_file(&file.path)
            }
        }
    }
}

fn build_on(disk: &mut Disk, root: &DirectoryBuilder) -> bool {
    let mut run = Run::new(root);
    loop {
        let yes = match run.pending() {
            Some(step) => disk.answer(step),
            None => break,
        };
        run.advance(yes);
    }
    assert_eq!(run.succeeded(), !run.failed());
    run.succeeded()
}

fn set(paths: &[&str]) -> BTreeSet<String> {
    paths.iter().map(|p| p.to_string()).collect()
}

fn project() -> DirectoryBuilder {
    let mut root = DirectoryBuilder::new().name("proj").path("/tmp/proj".to_string()).recursive(true);
    let mut src = DirectoryBuilder::new().name("src");
    src.parent(root.path.clone());
    let mut root = root.file(FileBuilder::new().name("README.md"));
    root = root.dir(src);
    root
}

#[test]
fn plan_of_a_single_node_probes_then_creates() {
    let node = DirectoryBuilder::new().path("/tmp/proj".to_string());
    assert_eq!(
        node.plan(),
        vec![
            Step::Probe { path: "/tmp/proj".to_string(), span: 1 },
            Step::CreateDir { path: "/tmp/proj".to_string(), recursive: false },
        ]
    );
}

#[test]
fn plan_lays_out_own_directory_then_children_then_files() {
    let readme = FileBuilder { name: "README.md".to_string(), path: "/tmp/proj/README.md".to_string() };
    assert_eq!(
        project().plan(),
        vec![
            Step::Probe { path: "/tmp/proj".to_string(), span: 1 },
            Step::CreateDir { path: "/tmp/proj".to_string(), recursive: true },
            Step::Probe { path: "/tmp/proj/src".to_string(), span: 2 },
            Step::Probe { path: "/tmp/proj/src".to_string(), span: 1 },
            Step::CreateDir { path: "/tmp/proj/src".to_string(), recursive: false },
            Step::WriteFile { file: readme },
        ]
    );
}

#[test]
fn plan_probe_of_a_child_spans_its_whole_subtree() {
    let mut leaf = DirectoryBuilder::new().name("leaf");
    leaf.parent("/r/a".to_string());
    leaf.file(FileBuilder::new().name("x"));
    let mut a = DirectoryBuilder::new().name("a");
    a.parent("/r".to_string());
    let mut a = a.dir(leaf);
    a.file(FileBuilder::new().name("y"));
    let mut b = DirectoryBuilder::new().name("b");
    b.parent("/r".to_string());
    let root = DirectoryBuilder::new().path("/r".to_string()).dir(a).dir(b);
    let plan = root.plan();
    assert_eq!(plan.len(), 13);
    assert_eq!(plan[2], Step::Probe { path: "/r/a".to_string(), span: 7 });
    assert_eq!(plan[5], Step::Probe { path: "/r/a/leaf".to_string(), span: 3 });
    assert_eq!(plan[10], Step::Probe { path: "/r/b".to_string(), span: 2 });
    for (place, step) in plan.iter().enumerate() {
        if let Step::Probe { span, .. } = step {
            assert!(place + 1 + span <= plan.len());
        }
    }
}

#[test]
fn build_creates_a_missing_path() {
    let mut disk = Disk::with_dirs(&["/tmp"]);
    let node = DirectoryBuilder::new().name("proj").path("/tmp/proj".to_string());
    assert!(build_on(&mut disk, &node));
    assert!(disk.dirs.contains("/tmp/proj"));
    assert_eq!(disk.asked, vec!["exists /tmp/proj", "mkdir /tmp/proj"]);
}

#[test]
fn build_leaves_an_existing_path_alone_and_does_not_fail() {
    let mut disk = Disk::with_dirs(&["/tmp", "/tmp/proj"]);
    let node = project();
    let before = node.clone();
    assert!(build_on(&mut disk, &node));
    assert_eq!(node, before);
    assert!(!disk.asked.contains(&"mkdir /tmp/proj".to_string()));
    assert!(disk.dirs.contains("/tmp/proj/src"));
    assert!(disk.files.contains("/tmp/proj/README.md"));
}

#[test]
fn build_twice_creates_nothing_the_second_time() {
    let mut disk = Disk::with_dirs(&["/tmp"]);
    let node = project();
    assert!(build_on(&mut disk, &node));
    let dirs = disk.dirs.clone();
    disk.asked.clear();
    assert!(build_on(&mut disk, &node));
    assert_eq!(disk.dirs, dirs);
    assert_eq!(
        disk.asked,
        vec!["exists /tmp/proj", "exists /tmp/proj/src", "write /tmp/proj/README.md"]
    );
}

#[test]
fn recursive_build_creates_missing_intermediate_segments() {
    let mut disk = Disk::with_dirs(&["/tmp"]);
    let node = DirectoryBuilder::new().path("/tmp/a/b/proj".to_string()).recursive(true);
    assert!(build_on(&mut disk, &node));
    assert_eq!(disk.dirs, set(&["/tmp", "/tmp/a", "/tmp/a/b", "/tmp/a/b/proj"]));
}

#[test]
fn plain_build_fails_on_missing_intermediate_segments() {
    let mut disk = Disk::with_dirs(&["/tmp"]);
    let node = DirectoryBuilder::new().path("/tmp/a/b/proj".to_string()).recursive(false);
    assert!(!build_on(&mut disk, &node));
    assert_eq!(disk.dirs, set(&["/tmp"]));
}

#[test]
fn recursive_flag_does_not_reach_the_children() {
    let mut disk = Disk::with_dirs(&["/tmp"]);
    let deep = DirectoryBuilder::new().name("deep").path("/tmp/proj/x/y/deep".to_string());
    let root = DirectoryBuilder::new().path("/tmp/proj".to_string()).recursive(true).dir(deep);
    assert!(!build_on(&mut disk, &root));
    assert_eq!(disk.dirs, set(&["/tmp", "/tmp/proj"]));
}

#[test]
fn end_to_end_project_tree() {
    let mut disk = Disk::with_dirs(&["/tmp"]);
    assert!(build_on(&mut disk, &project()));
    assert_eq!(disk.dirs, set(&["/tmp", "/tmp/proj", "/tmp/proj/src"]));
    assert_eq!(disk.files, set(&["/tmp/proj/README.md"]));
    assert_eq!(
        disk.asked,
        vec![
            "exists /tmp/proj",
            "mkdir /tmp/proj",
            "exists /tmp/proj/src",
            "exists /tmp/proj/src",
            "mkdir /tmp/proj/src",
            "write /tmp/proj/README.md",
        ]
    );
}

#[test]
fn end_to_end_existing_child_is_not_entered() {
    let mut disk = Disk::with_dirs(&["/tmp", "/tmp/proj/src"]);
    disk.files.insert("/tmp/proj/src/kept.txt".to_string());
    let mut nested = DirectoryBuilder::new().name("nested");
    nested.parent("/tmp/proj/src".to_string());
    let mut src = DirectoryBuilder::new().name("src");
    src.parent("/tmp/proj".to_string());
    let mut src = src.dir(nested);
    src.file(FileBuilder::new().name("main.rs"));
    let mut root = DirectoryBuilder::new().name("proj").path("/tmp/proj".to_string()).recursive(true);
    root.file(FileBuilder::new().name("README.md"));
    let root = root.dir(src);

    assert!(build_on(&mut disk, &root));
    assert_eq!(disk.dirs, set(&["/tmp", "/tmp/proj", "/tmp/proj/src"]));
    assert_eq!(disk.files, set(&["/tmp/proj/README.md", "/tmp/proj/src/kept.txt"]));
    assert_eq!(
        disk.asked,
        vec![
            "exists /tmp/proj",
            "mkdir /tmp/proj",
            "exists /tmp/proj/src",
            "write /tmp/proj/README.md",
        ]
    );
}

#[test]
fn error_is_final_and_nothing_is_created() {
    let mut disk = Disk::with_dirs(&["/", "/sealed"]);
    disk.locked.insert("/sealed".to_string());
    let mut root = DirectoryBuilder::new().name("proj").path("/sealed/proj".to_string()).recursive(true);
    let mut src = DirectoryBuilder::new().name("src");
    src.parent(root.path.clone());
    root.file(FileBuilder::new().name("README.md"));
    let root = root.dir(src);

    assert!(!build_on(&mut disk, &root));
    assert_eq!(disk.dirs, set(&["/", "/sealed"]));
    assert!(disk.files.is_empty());
    assert_eq!(disk.asked, vec!["exists /sealed/proj", "mkdir /sealed/proj"]);
}

#[test]
fn failed_child_stops_later_children_and_files() {
    let mut disk = Disk::with_dirs(&["/tmp", "/tmp/proj", "/tmp/proj/b"]);
    disk.locked.insert("/tmp/proj/b".to_string());
    let a = DirectoryBuilder::new().name("a").path("/tmp/proj/a".to_string());
    let inner = DirectoryBuilder::new().name("inner").path("/tmp/proj/b/inner".to_string());
    let c = DirectoryBuilder::new().name("c").path("/tmp/proj/c".to_string());
    let mut root = DirectoryBuilder::new().path("/tmp/proj".to_string());
    root.file(FileBuilder::new().name("README.md"));
    let root = root.dir(a).dir(inner).dir(c);

    assert!(!build_on(&mut disk, &root));
    assert_eq!(disk.dirs, set(&["/tmp", "/tmp/proj", "/tmp/proj/a", "/tmp/proj/b"]));
    assert!(disk.files.is_empty());
    assert_eq!(disk.asked.last().unwrap(), "mkdir /tmp/proj/b/inner");
}

#[test]
fn failed_file_stops_later_files() {
    let mut disk = Disk::with_dirs(&["/tmp"]);
    let mut root = DirectoryBuilder::new().path("/tmp/proj".to_string());
    root.file(FileBuilder::new().name("a.txt"));
    let stray = FileBuilder { name: "b.txt".to_string(), path: "/nowhere/b.txt".to_string() };
    root.files.push(stray);
    root.file(FileBuilder::new().name("c.txt"));

    assert!(!build_on(&mut disk, &root));
    assert_eq!(disk.files, set(&["/tmp/proj/a.txt"]));
    assert_eq!(disk.asked.last().unwrap(), "write /nowhere/b.txt");
}

#[test]
fn children_are_built_in_order_before_files() {
    let mut disk = Disk::with_dirs(&["/r"]);
    let mut root = DirectoryBuilder::new().path("/r".to_string());
    root.file(FileBuilder::new().name("f1"));
    let z = DirectoryBuilder::new().name("z").path("/r/z".to_string());
    let a = DirectoryBuilder::new().name("a").path("/r/a".to_string());
    let mut root = root.dir(z).dir(a);
    root.file(FileBuilder::new().name("f0"));
    assert!(build_on(&mut disk, &root));
    assert_eq!(
        disk.asked,
        vec![
            "exists /r",
            "exists /r/z",
            "exists /r/z",
            "mkdir /r/z",
            "exists /r/a",
            "exists /r/a",
            "mkdir /r/a",
            "write /r/f1",
            "write /r/f0",
        ]
    );
}

#[test]
fn run_steps_through_probe_answers() {
    let root = project();
    let mut run = Run::new(&root);
    assert_eq!(run.pending(), Some(&Step::Probe { path: "/tmp/proj".to_string(), span: 1 }));
    run.advance(false);
    assert_eq!(
        run.pending(),
        Some(&Step::CreateDir { path: "/tmp/proj".to_string(), recursive: true })
    );
    run.advance(true);
    assert_eq!(run.pending(), Some(&Step::Probe { path: "/tmp/proj/src".to_string(), span: 2 }));
    run.advance(true);
    let readme = FileBuilder { name: "README.md".to_string(), path: "/tmp/proj/README.md".to_string() };
    assert_eq!(run.pending(), Some(&Step::WriteFile { file: readme }));
    assert!(!run.succeeded());
    run.advance(true);
    assert_eq!(run.pending(), None);
    assert!(run.succeeded());
    assert!(!run.failed());
}

#[test]
fn run_that_failed_has_nothing_pending_and_stays_failed() {
    let root = project();
    let mut run = Run::new(&root);
    run.advance(false);
    run.advance(false);
    assert!(run.failed());
    assert!(!run.succeeded());
    assert_eq!(run.pending(), None);
    run.advance(true);
    assert!(run.failed());
    assert_eq!(run.pending(), None);
}

#[test]
fn run_that_is_through_ignores_further_answers() {
    let node = DirectoryBuilder::new().path("/tmp/proj".to_string());
    let mut run = Run::new(&node);
    run.advance(true);
    assert!(run.succeeded());
    run.advance(false);
    assert!(run.succeeded());
    assert!(!run.failed());
}

#[test]
fn run_keeps_the_paths_the_tree_had_when_it_began() {
    let node = DirectoryBuilder::new().path("/tmp/proj".to_string());
    let run = Run::new(&node);
    let node = node.path("/tmp/other".to_string());
    assert_eq!(run.pending(), Some(&Step::Probe { path: "/tmp/proj".to_string(), span: 1 }));
    assert_eq!(node.path, "/tmp/other");
}

#[test]
fn empty_path_is_passed_through() {
    let mut disk = Disk::with_dirs(&["/tmp"]);
    let node = DirectoryBuilder::new().name("proj");
    assert!(!build_on(&mut disk, &node));
    assert_eq!(disk.asked, vec!["exists ", "mkdir "]);
}
