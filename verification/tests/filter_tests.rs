use dirbundle::config::Config;
use dirbundle::filter::ExcludeError;
use dirbundle::filter::Excluder;
use dirbundle::select::Entry;
use dirbundle::select::select_files;

fn strings(items: &[&str]) -> Vec<String> {
    items.iter().map(|s| s.to_string()).collect()
}

fn config(dirs: &[&str], files: &[&str], patterns: &[&str]) -> Config {
    Config {
        exclude_dirs: strings(dirs),
        exclude_files: strings(files),
        exclude_patterns: strings(patterns),
    }
}

fn file(rel: &str) -> Entry {
    Entry { rel: rel.to_string(), is_dir: false }
}

fn dir(rel: &str) -> Entry {
    Entry { rel: rel.to_string(), is_dir: true }
}

#[test]
fn empty_config_skips_nothing() {
    let ex = Excluder::new(&Config::empty()).unwrap();
    assert!(!ex.should_skip_dir("src"));
    assert!(!ex.should_skip_file("src/lib.rs"));
    assert!(!ex.should_skip(true, "src"));
    assert!(!ex.should_skip(false, "src/lib.rs"));
}

#[test]
fn absent_config_keeps_all_files() {
    // A root with `a.txt` and `b/secret.txt`, and no configuration source:
    // the defaults exclude nothing, so both files are selected.
    let ex = Excluder::new(&Config::empty()).unwrap();
    let entries = vec![file("a.txt"), dir("b"), file("b/secret.txt")];
    let selected = select_files(&ex, &entries);
    assert_eq!(selected, strings(&["a.txt", "b/secret.txt"]));
}

#[test]
fn glob_pattern_excludes_matching_files() {
    // Config `excludePatterns: ["*.log"]`: `app.log` is skipped, `app.txt` kept.
    let ex = Excluder::new(&config(&[], &[], &["*.log"])).unwrap();
    assert!(ex.should_skip_file("app.log"));
    assert!(!ex.should_skip_file("app.txt"));
    let entries = vec![file("app.log"), file("app.txt")];
    assert_eq!(select_files(&ex, &entries), strings(&["app.txt"]));
}

#[test]
fn excluded_dir_prunes_subtree() {
    // Config `excludeDirs: ["node_modules"]`: the directory itself is
    // skipped, every file beneath it is skipped, `src/index.js` is kept.
    let ex = Excluder::new(&config(&["node_modules"], &[], &[])).unwrap();
    assert!(ex.should_skip_dir("node_modules"));
    assert!(!ex.should_skip_dir("src"));
    assert!(ex.should_skip_file("node_modules/pkg/index.js"));
    assert!(!ex.should_skip_file("src/index.js"));
    let entries = vec![
        dir("node_modules"),
        dir("node_modules/pkg"),
        file("node_modules/pkg/index.js"),
        dir("src"),
        file("src/index.js"),
    ];
    assert_eq!(select_files(&ex, &entries), strings(&["src/index.js"]));
}

#[test]
fn dir_exclusion_is_exact_match() {
    // A nested directory whose last component matches a configured name is
    // not skipped: only the full relative path counts.
    let ex = Excluder::new(&config(&["node_modules"], &[], &[])).unwrap();
    assert!(!ex.should_skip_dir("vendor/node_modules"));
    assert!(!ex.should_skip_file("vendor/node_modules/x.js"));
    // A file named exactly like the excluded directory is not a directory,
    // and no file rule matches it.
    assert!(!ex.should_skip_file("node_modules"));
}

#[test]
fn file_exclusion_is_exact_match() {
    let ex = Excluder::new(&config(&[], &["secret.txt"], &[])).unwrap();
    assert!(ex.should_skip_file("secret.txt"));
    assert!(!ex.should_skip_file("b/secret.txt"));
    assert!(!ex.should_skip_file("secret.txt.bak"));
    assert!(!ex.should_skip_dir("secret.txt"));
}

#[test]
fn or_semantics_combine_three_filters() {
    let ex = Excluder::new(&config(&["build"], &["todo.txt"], &["*.tmp"])).unwrap();
    assert!(ex.should_skip_file("build/out.bin"));
    assert!(ex.should_skip_file("todo.txt"));
    assert!(ex.should_skip_file("cache.tmp"));
    assert!(!ex.should_skip_file("src/main.rs"));
}

#[test]
fn invalid_glob_pattern_is_reported() {
    let r = Excluder::new(&config(&[], &[], &["*.ok", "a[", "*.txt"]));
    match r {
        Err(ExcludeError::InvalidPattern { index, pattern }) => {
            assert_eq!(index, 1);
            assert_eq!(pattern, "a[".to_string());
        },
        _ => panic!("expected the invalid pattern to be reported"),
    }
}

#[test]
fn glob_matches_real_glob_semantics() {
    // `*` does not cross a path separator; `**` does.
    let ex = Excluder::new(&config(&[], &[], &["*.rs"])).unwrap();
    assert!(ex.should_skip_file("lib.rs"));
    assert!(!ex.should_skip_file("lib.c"));
    let ex2 = Excluder::new(&config(&[], &[], &["**/*.rs"])).unwrap();
    assert!(ex2.should_skip_file("deep/dir/lib.rs"));
}

#[test]
fn selection_is_deterministic() {
    let cfg = config(&["target"], &["secret"], &["*.log"]);
    let ex1 = Excluder::new(&cfg).unwrap();
    let ex2 = Excluder::new(&cfg).unwrap();
    let entries = vec![
        dir("target"),
        file("target/out"),
        file("secret"),
        file("run.log"),
        file("keep.txt"),
        dir("src"),
        file("src/keep.rs"),
    ];
    let s1 = select_files(&ex1, &entries);
    let s2 = select_files(&ex2, &entries);
    assert_eq!(s1, s2);
    assert_eq!(s1, strings(&["keep.txt", "src/keep.rs"]));
}

#[test]
fn selected_file_appears_exactly_once() {
    let ex = Excluder::new(&config(&[], &[], &[])).unwrap();
    let entries = vec![dir("a"), file("a/x.txt"), file("b.txt")];
    let selected = select_files(&ex, &entries);
    assert_eq!(selected.iter().filter(|r| r.as_str() == "a/x.txt").count(), 1);
    assert_eq!(selected.iter().filter(|r| r.as_str() == "a").count(), 0);
}
