use clean_recursive::exclude::Entry;
use clean_recursive::mode::{CleanAction, DeleteMode};
use clean_recursive::walk::{Command, Config, Failure, Stage, Walker};

struct Dir {
    name: String,
    utf8: bool,
    is_dir: bool,
    descriptor: bool,
    output: bool,
    children: Vec<usize>,
    clean_fails: bool,
    list_fails: bool,
    unreadable_after: Option<usize>,
}

struct Tree {
    nodes: Vec<Dir>,
}

impl Tree {
    fn new() -> Tree {
        let mut t = Tree { nodes: Vec::new() };
        t.push("root", true);
        t
    }

    fn push(&mut self, name: &str, is_dir: bool) -> usize {
        self.nodes.push(Dir {
            name: name.to_string(),
            utf8: true,
            is_dir,
            descriptor: false,
            output: false,
            children: Vec::new(),
            clean_fails: false,
            list_fails: false,
            unreadable_after: None,
        });
        self.nodes.len() - 1
    }

    fn dir(&mut self, parent: usize, name: &str) -> usize {
        let n = self.push(name, true);
        self.nodes[parent].children.push(n);
        n
    }

    fn file(&mut self, parent: usize, name: &str) -> usize {
        let n = self.push(name, false);
        self.nodes[parent].children.push(n);
        n
    }

    fn project(&mut self, parent: usize, name: &str, output: bool) -> usize {
        let n = self.dir(parent, name);
        self.nodes[n].descriptor = true;
        self.nodes[n].output = output;
        n
    }
}

#[derive(Debug)]
struct Run {
    visited: Vec<usize>,
    listed: Vec<usize>,
    cleans: Vec<(usize, CleanAction)>,
    warnings: Vec<Failure>,
    result: Result<(), Failure>,
}

fn config(exclusions: &[&str], del_mode: DeleteMode) -> Config {
    Config { exclude_dirs: exclusions.iter().map(|s| s.to_string()).collect(), del_mode }
}

fn run(tree: &Tree, depth: usize, config: Config) -> Run {
    let (mut w, mut cmd) = Walker::new(0, depth, config);
    let mut r = Run {
        visited: Vec::new(),
        listed: Vec::new(),
        cleans: Vec::new(),
        warnings: Vec::new(),
        result: Ok(()),
    };
    loop {
        cmd = match cmd {
            Command::Clean(n) => {
                r.visited.push(n);
                let d = &tree.nodes[n];
                if d.clean_fails {
                    w.cleaned(false)
                } else {
                    for a in w.plan(d.descriptor, d.output) {
                        r.cleans.push((n, a));
                    }
                    w.cleaned(true)
                }
            }
            Command::List(n) => {
                r.listed.push(n);
                let d = &tree.nodes[n];
                if d.list_fails {
                    w.list_failed()
                } else {
                    let upto = d.unreadable_after.unwrap_or(d.children.len());
                    let entries: Vec<Entry> = d.children[..upto]
                        .iter()
                        .map(|&c| Entry {
                            node: c,
                            name: if tree.nodes[c].utf8 {
                                Some(tree.nodes[c].name.clone())
                            } else {
                                None
                            },
                            is_dir: tree.nodes[c].is_dir,
                        })
                        .collect();
                    w.listed(&entries, d.unreadable_after.is_none())
                }
            }
            Command::Warn(f) => {
                r.warnings.push(f);
                w.resume()
            }
            Command::Finish(res) => {
                r.result = res;
                return r;
            }
        };
    }
}

#[test]
fn one_build_root_among_two_projects() {
    let mut t = Tree::new();
    let a = t.project(0, "proj-a", true);
    let b = t.project(0, "proj-b", false);
    let r = run(&t, 64, config(&[], DeleteMode::All));
    assert_eq!(r.cleans, vec![(a, CleanAction::Full)]);
    assert!(r.visited.contains(&b));
    assert_eq!(r.result, Ok(()));
    assert!(r.warnings.is_empty());
}

#[test]
fn excluded_directory_is_never_entered() {
    let mut t = Tree::new();
    let build = t.dir(0, "build");
    let inner = t.project(build, "inner", true);
    let other = t.dir(0, "src");
    let r = run(&t, 64, config(&["build"], DeleteMode::All));
    assert!(!r.visited.contains(&build));
    assert!(!r.visited.contains(&inner));
    assert!(!r.listed.contains(&build));
    assert!(r.visited.contains(&other));
    assert!(r.cleans.is_empty());
}

#[test]
fn depth_one_cleans_root_only() {
    let mut t = Tree::new();
    t.nodes[0].descriptor = true;
    t.nodes[0].output = true;
    let sub = t.project(0, "sub", true);
    let r = run(&t, 1, config(&[], DeleteMode::All));
    assert_eq!(r.cleans, vec![(0, CleanAction::Full)]);
    assert_eq!(r.visited, vec![0]);
    assert!(!r.visited.contains(&sub));
    assert_eq!(r.result, Ok(()));
}

#[test]
fn depth_zero_visits_nothing() {
    let mut t = Tree::new();
    t.nodes[0].descriptor = true;
    t.nodes[0].output = true;
    let r = run(&t, 0, config(&[], DeleteMode::All));
    assert!(r.visited.is_empty());
    assert!(r.listed.is_empty());
    assert!(r.cleans.is_empty());
    assert_eq!(r.result, Ok(()));
}

#[test]
fn depth_budget_bounds_visits() {
    let mut t = Tree::new();
    let a = t.dir(0, "a");
    let b = t.dir(a, "b");
    let c = t.dir(b, "c");
    let r = run(&t, 2, config(&[], DeleteMode::All));
    assert_eq!(r.visited, vec![0, a]);
    let r = run(&t, 3, config(&[], DeleteMode::All));
    assert_eq!(r.visited, vec![0, a, b]);
    let r = run(&t, 64, config(&[], DeleteMode::All));
    assert_eq!(r.visited, vec![0, a, b, c]);
}

#[test]
fn walk_is_depth_first_in_listing_order() {
    let mut t = Tree::new();
    let a = t.dir(0, "a");
    let a1 = t.dir(a, "a1");
    let f = t.file(0, "notes.txt");
    let b = t.dir(0, "b");
    let r = run(&t, 64, config(&[], DeleteMode::All));
    assert_eq!(r.visited, vec![0, a, a1, b]);
    assert!(!r.visited.contains(&f));
    assert_eq!(r.listed, vec![0, a, a1, b]);
}

#[test]
fn exclusion_is_a_suffix_match() {
    let mut t = Tree::new();
    t.nodes[0].name = "build".to_string();
    let suffixed = t.dir(0, "mybuild");
    let prefixed = t.dir(0, "build-x");
    let inside = t.dir(0, "rebuilds");
    let r = run(&t, 64, config(&["build"], DeleteMode::All));
    assert!(r.visited.contains(&0));
    assert!(!r.visited.contains(&suffixed));
    assert!(r.visited.contains(&prefixed));
    assert!(r.visited.contains(&inside));
}

#[test]
fn name_that_is_not_utf8_is_entered() {
    let mut t = Tree::new();
    let odd = t.dir(0, "build");
    t.nodes[odd].utf8 = false;
    let r = run(&t, 64, config(&["build"], DeleteMode::All));
    assert!(r.visited.contains(&odd));
}

#[test]
fn detection_needs_descriptor_and_output() {
    let mut t = Tree::new();
    let both = t.project(0, "both", true);
    let desc_only = t.project(0, "desc", false);
    let out_only = t.dir(0, "out");
    t.nodes[out_only].output = true;
    let modes = [
        DeleteMode::All,
        DeleteMode::Partial { doc: true, release: true },
        DeleteMode::Partial { doc: false, release: true },
    ];
    for m in modes {
        let r = run(&t, 64, config(&[], m));
        assert!(r.cleans.iter().all(|&(n, _)| n == both));
        assert!(!r.cleans.is_empty());
        assert!(r.visited.contains(&desc_only));
        assert!(r.visited.contains(&out_only));
    }
}

#[test]
fn partial_modes_dispatch() {
    let mut t = Tree::new();
    let p = t.project(0, "p", true);
    let r = run(&t, 64, config(&[], DeleteMode::Partial { doc: true, release: false }));
    assert_eq!(r.cleans, vec![(p, CleanAction::Doc)]);
    let r = run(&t, 64, config(&[], DeleteMode::Partial { doc: false, release: true }));
    assert_eq!(r.cleans, vec![(p, CleanAction::Release)]);
    let r = run(&t, 64, config(&[], DeleteMode::Partial { doc: true, release: true }));
    assert_eq!(r.cleans, vec![(p, CleanAction::Doc), (p, CleanAction::Release)]);
    let r = run(&t, 64, config(&[], DeleteMode::Partial { doc: false, release: false }));
    assert!(r.cleans.is_empty());
    assert_eq!(r.result, Ok(()));
}

#[test]
fn child_listing_failure_is_a_warning() {
    let mut t = Tree::new();
    let bad = t.dir(0, "locked");
    let below = t.dir(bad, "below");
    let good = t.project(0, "good", true);
    t.nodes[bad].list_fails = true;
    let r = run(&t, 64, config(&[], DeleteMode::All));
    assert_eq!(r.warnings, vec![Failure { node: bad, stage: Stage::List }]);
    assert!(!r.visited.contains(&below));
    assert!(r.visited.contains(&good));
    assert_eq!(r.cleans, vec![(good, CleanAction::Full)]);
    assert_eq!(r.result, Ok(()));
}

#[test]
fn deep_clean_failure_is_a_warning() {
    let mut t = Tree::new();
    let a = t.dir(0, "a");
    let bad = t.project(a, "bad", true);
    let below = t.dir(bad, "below");
    let sibling = t.dir(a, "sibling");
    let uncle = t.dir(0, "uncle");
    t.nodes[bad].clean_fails = true;
    let r = run(&t, 64, config(&[], DeleteMode::All));
    assert_eq!(r.warnings, vec![Failure { node: bad, stage: Stage::Clean }]);
    assert!(!r.listed.contains(&bad));
    assert!(!r.visited.contains(&below));
    assert_eq!(r.visited, vec![0, a, bad, sibling, uncle]);
    assert_eq!(r.result, Ok(()));
}

#[test]
fn unreadable_entry_fails_its_directory() {
    let mut t = Tree::new();
    let a = t.dir(0, "a");
    let a1 = t.dir(a, "a1");
    let a2 = t.dir(a, "a2");
    let b = t.dir(0, "b");
    t.nodes[a].unreadable_after = Some(1);
    let r = run(&t, 64, config(&[], DeleteMode::All));
    assert_eq!(r.visited, vec![0, a, a1, b]);
    assert!(!r.visited.contains(&a2));
    assert_eq!(r.warnings, vec![Failure { node: a, stage: Stage::ReadEntry }]);
    assert_eq!(r.result, Ok(()));
}

#[test]
fn root_failures_are_fatal() {
    let mut t = Tree::new();
    t.dir(0, "a");
    t.nodes[0].clean_fails = true;
    let r = run(&t, 64, config(&[], DeleteMode::All));
    assert_eq!(r.result, Err(Failure { node: 0, stage: Stage::Clean }));
    assert_eq!(r.visited, vec![0]);

    t.nodes[0].clean_fails = false;
    t.nodes[0].list_fails = true;
    let r = run(&t, 64, config(&[], DeleteMode::All));
    assert_eq!(r.result, Err(Failure { node: 0, stage: Stage::List }));

    t.nodes[0].list_fails = false;
    t.nodes[0].unreadable_after = Some(1);
    let r = run(&t, 64, config(&[], DeleteMode::All));
    assert_eq!(r.result, Err(Failure { node: 0, stage: Stage::ReadEntry }));
    assert!(r.warnings.is_empty());
}

#[test]
fn scan_without_build_roots_twice() {
    let mut t = Tree::new();
    let a = t.project(0, "a", false);
    let b = t.dir(a, "b");
    t.dir(b, "c");
    for _ in 0..2 {
        let r = run(&t, 64, config(&[], DeleteMode::All));
        assert!(r.cleans.is_empty());
        assert!(r.warnings.is_empty());
        assert_eq!(r.result, Ok(()));
        assert_eq!(r.visited.len(), 4);
    }
}

#[test]
fn plan_uses_the_walkers_mode() {
    let (w, cmd) = Walker::new(7, 3, config(&[], DeleteMode::Partial { doc: true, release: false }));
    assert_eq!(cmd, Command::Clean(7));
    assert_eq!(w.del_mode(), DeleteMode::Partial { doc: true, release: false });
    assert_eq!(w.plan(true, true), vec![CleanAction::Doc]);
    assert!(w.plan(true, false).is_empty());
}
