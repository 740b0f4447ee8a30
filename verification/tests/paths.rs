use hk::path::RelPath;
use hk::path_set::PathSet;

fn p(s: &str) -> RelPath {
    if s.is_empty() {
        return RelPath::empty();
    }
    RelPath::from_components(s.split('/').map(|c| c.to_string()).collect())
}

#[test]
fn parent_and_file_name() {
    let a = p("src/lib.rs");
    assert_eq!(a.parent().unwrap().to_slash_string(), "src");
    assert_eq!(a.file_name().unwrap(), "lib.rs");
    assert_eq!(p("lib.rs").parent().unwrap().len(), 0);
    assert!(RelPath::empty().parent().is_none());
    assert!(RelPath::empty().file_name().is_none());
}

#[test]
fn join_and_slash_string() {
    assert_eq!(p("src").join("main.rs").to_slash_string(), "src/main.rs");
    assert_eq!(RelPath::empty().join("a").to_slash_string(), "a");
    assert_eq!(RelPath::empty().to_slash_string(), "");
}

#[test]
fn starts_with_is_by_component() {
    assert!(p("src/crate-1/src").starts_with(&p("src/crate-1")));
    assert!(!p("src/crate-10").starts_with(&p("src/crate-1")));
    assert!(p("a").starts_with(&RelPath::empty()));
    assert!(p("a/b").starts_with(&p("a/b")));
    assert!(!p("a").starts_with(&p("a/b")));
}

#[test]
fn order_is_by_component() {
    assert!(p("a/b").before(&p("a.b")));
    assert!(!p("a.b").before(&p("a/b")));
    assert!(p("a").before(&p("a/b")));
    assert!(!p("a").before(&p("a")));
    assert!(p("B").before(&p("a")));
    assert!(p("z").before(&p("\u{e9}")));
}

#[test]
fn path_set_sorts_and_dedups() {
    let mut set = PathSet::new();
    assert!(set.insert(p("src/main.rs")));
    assert!(set.insert(p("README.md")));
    assert!(set.insert(p("a.b")));
    assert!(set.insert(p("a/b")));
    assert!(!set.insert(p("README.md")));
    assert!(set.contains(&p("a/b")));
    assert!(!set.contains(&p("a")));
    assert_eq!(set.len(), 4);
    let out: Vec<String> = set.into_sorted_vec().iter().map(|x| x.to_slash_string()).collect();
    assert_eq!(out, vec!["README.md", "a/b", "a.b", "src/main.rs"]);
}

#[test]
fn path_set_matches_std_path_order() {
    let names = ["x/y", "x-y", "x", "x/a", "w", "x.y/z"];
    let mut set = PathSet::new();
    for n in names {
        set.insert(p(n));
    }
    let ours: Vec<String> = set.into_sorted_vec().iter().map(|x| x.to_slash_string()).collect();
    let mut std_sorted: Vec<std::path::PathBuf> = names.iter().map(std::path::PathBuf::from).collect();
    std_sorted.sort();
    let theirs: Vec<String> = std_sorted.iter().map(|x| x.to_string_lossy().into_owned()).collect();
    assert_eq!(ours, theirs);
}

#[test]
fn duplicate_and_same_as() {
    let a = p("src/lib.rs");
    let b = a.duplicate();
    assert!(a.same_as(&b));
    assert!(!a.same_as(&p("src")));
    assert!(!p("src/x").same_as(&p("src/y")));
}

#[test]
fn sorted_list_depends_only_on_the_set() {
    let mut first = PathSet::new();
    let mut second = PathSet::new();
    for n in ["b/c", "a", "b", "a/z"] {
        first.insert(p(n));
    }
    for n in ["a/z", "b", "a", "b/c", "a"] {
        second.insert(p(n));
    }
    let x: Vec<String> = first.into_sorted_vec().iter().map(|v| v.to_slash_string()).collect();
    let y: Vec<String> = second.into_sorted_vec().iter().map(|v| v.to_slash_string()).collect();
    assert_eq!(x, y);
    assert_eq!(x, vec!["a", "a/z", "b", "b/c"]);
}
