//! The exclusion predicate: deciding, per walk entry, whether it is skipped.
//!
//! A directory entry is skipped exactly when its relative path equals one of
//! the configured directory entries. A file entry is skipped exactly when it
//! lies beneath a configured directory entry (prefix test), equals a
//! configured file entry, or matches a configured glob pattern.

use vstd::prelude::*;
use crate::config::Config;
use crate::globs::builder_add;
use crate::globs::builder_build;
use crate::globs::builder_new;
use crate::globs::builder_patterns;
use crate::globs::glob_matches;
use crate::globs::glob_new;
use crate::globs::glob_ok;
use crate::globs::globset_build_ok;
use crate::globs::globset_patterns;
use crate::globs::set_is_match;
use crate::strutil::is_prefix_of;
use crate::strutil::str_eq;
use crate::strutil::str_starts_with;
use crate::strutil::str_views;

verus! {

/// Why building the exclusion predicate failed.
#[derive(Debug)]
pub enum ExcludeError {
    /// A configured glob pattern is not valid glob syntax; carries the
    /// pattern and its position in `exclude_patterns`.
    InvalidPattern { index: usize, pattern: String },
    /// The pattern set could not be compiled into one matcher.
    BuildFailed,
}

/// Every pattern of the sequence is valid glob syntax.
pub open spec fn all_patterns_ok(pats: Seq<Seq<char>>) -> bool {
    forall|i: int| 0 <= i < pats.len() ==> glob_ok(#[trigger] pats[i])
}

/// The compiled exclusion predicate: the three exclusion lists plus a
/// matcher compiled from the glob patterns. Built once from a `Config`,
/// read-only afterwards.
pub struct Excluder {
    dirs: Vec<String>,
    files: Vec<String>,
    patterns: Vec<String>,
    matcher: globset::GlobSet,
}

impl Excluder {
    /// The configured directory entries (exact match for directories,
    /// prefix match for files).
    pub closed spec fn dirs_view(self) -> Seq<Seq<char>> {
        str_views(self.dirs@)
    }

    /// The configured file entries (exact match).
    pub closed spec fn files_view(self) -> Seq<Seq<char>> {
        str_views(self.files@)
    }

    /// The configured glob patterns.
    pub closed spec fn patterns_view(self) -> Seq<Seq<char>> {
        str_views(self.patterns@)
    }

    /// The matcher was compiled from exactly the configured patterns.
    pub closed spec fn wf(self) -> bool {
        globset_patterns(self.matcher) == self.patterns_view()
    }

    /// A directory entry is skipped iff its relative path equals one of the
    /// configured directory entries exactly.
    pub open spec fn spec_skip_dir(self, rel: Seq<char>) -> bool {
        exists|i: int| 0 <= i < self.dirs_view().len() && self.dirs_view()[i] == rel
    }

    /// The file lies beneath an excluded directory: its relative path starts
    /// with `"<d>/"` for some configured directory entry `d`.
    pub open spec fn spec_in_excluded_dir(self, rel: Seq<char>) -> bool {
        exists|i: int|
            0 <= i < self.dirs_view().len() && is_prefix_of(
                #[trigger] self.dirs_view()[i].push('/'),
                rel,
            )
    }

    /// Some configured glob pattern matches the relative path.
    pub open spec fn spec_matches_pattern(self, rel: Seq<char>) -> bool {
        exists|i: int|
            0 <= i < self.patterns_view().len() && glob_matches(
                #[trigger] self.patterns_view()[i],
                rel,
            )
    }

    /// A file entry is skipped iff it lies beneath an excluded directory, or
    /// its relative path equals a configured file entry, or a configured glob
    /// pattern matches its relative path.
    pub open spec fn spec_skip_file(self, rel: Seq<char>) -> bool {
        self.spec_in_excluded_dir(rel) || (exists|i: int|
            0 <= i < self.files_view().len() && self.files_view()[i] == rel)
            || self.spec_matches_pattern(rel)
    }

    /// The skip decision for an entry of the walk.
    pub open spec fn spec_skip(self, is_dir: bool, rel: Seq<char>) -> bool {
        if is_dir {
            self.spec_skip_dir(rel)
        } else {
            self.spec_skip_file(rel)
        }
    }

    /// Compile the exclusion predicate from a configuration.
    ///
    /// Fails exactly on the first glob pattern that is not valid glob syntax,
    /// reporting that pattern and its position. With only valid patterns,
    /// success is owed whenever the pattern set compiles into one matcher,
    /// and failing to compile is the only other outcome.
    pub fn new(cfg: &Config) -> (r: Result<Excluder, ExcludeError>)
        ensures
            (match r {
                Ok(ex) => ex.wf() && ex.dirs_view() == str_views(cfg.exclude_dirs@)
                    && ex.files_view() == str_views(cfg.exclude_files@) && ex.patterns_view()
                    == str_views(cfg.exclude_patterns@) && all_patterns_ok(
                    str_views(cfg.exclude_patterns@),
                ),
                Err(e) => match e {
                    ExcludeError::InvalidPattern { index, pattern } => index
                        < cfg.exclude_patterns@.len() && pattern@ == cfg.exclude_patterns@[
                        index as int
                    ]@ && !glob_ok(pattern@) && (forall|j: int|
                        0 <= j < index ==> glob_ok(
                            #[trigger] str_views(cfg.exclude_patterns@)[j],
                        )),
                    ExcludeError::BuildFailed => all_patterns_ok(str_views(cfg.exclude_patterns@))
                        && !globset_build_ok(str_views(cfg.exclude_patterns@)),
                },
            }),
            all_patterns_ok(str_views(cfg.exclude_patterns@)) && globset_build_ok(
                str_views(cfg.exclude_patterns@),
            ) ==> r is Ok,
            !all_patterns_ok(str_views(cfg.exclude_patterns@)) ==> !(r is Ok),
    {
        let mut builder = builder_new();
        let ghost pats: Seq<Seq<char>> = str_views(cfg.exclude_patterns@);
        let mut i: usize = 0;
        proof {
            assert(builder_patterns(builder) =~= pats.take(0));
        }
        while i < cfg.exclude_patterns.len()
            invariant
                i <= cfg.exclude_patterns@.len(),
                pats == str_views(cfg.exclude_patterns@),
                builder_patterns(builder) == pats.take(i as int),
                forall|j: int| 0 <= j < i ==> glob_ok(#[trigger] pats[j]),
            decreases cfg.exclude_patterns@.len() - i,
        {
            match glob_new(cfg.exclude_patterns[i].as_str()) {
                Ok(g) => {
                    builder_add(&mut builder, g);
                    proof {
                        assert(pats[i as int] == cfg.exclude_patterns@[i as int]@);
                        assert(builder_patterns(builder) =~= pats.take(i as int + 1));
                    }
                },
                Err(_) => {
                    proof {
                        assert(pats[i as int] == cfg.exclude_patterns@[i as int]@);
                    }
                    return Err(ExcludeError::InvalidPattern {
                        index: i,
                        pattern: cfg.exclude_patterns[i].clone(),
                    });
                },
            }
            i += 1;
        }
        proof {
            assert(builder_patterns(builder) =~= pats);
        }
        match builder_build(&builder) {
            Ok(set) => {
                let ex = Excluder {
                    dirs: cfg.exclude_dirs.clone(),
                    files: cfg.exclude_files.clone(),
                    patterns: cfg.exclude_patterns.clone(),
                    matcher: set,
                };
                proof {
                    assert(ex.dirs_view() =~= str_views(cfg.exclude_dirs@));
                    assert(ex.files_view() =~= str_views(cfg.exclude_files@));
                    assert(ex.patterns_view() =~= str_views(cfg.exclude_patterns@));
                }
                Ok(ex)
            },
            Err(_) => Err(ExcludeError::BuildFailed),
        }
    }

    /// The skip decision for a directory entry: exact match against the
    /// configured directory entries.
    pub fn should_skip_dir(&self, rel: &str) -> (r: bool)
        ensures
            r == self.spec_skip_dir(rel@),
    {
        let mut i: usize = 0;
        while i < self.dirs.len()
            invariant
                i <= self.dirs@.len(),
                forall|j: int| 0 <= j < i ==> #[trigger] self.dirs_view()[j] != rel@,
            decreases self.dirs@.len() - i,
        {
            if str_eq(rel, self.dirs[i].as_str()) {
                proof {
                    assert(self.dirs_view()[i as int] == rel@);
                }
                return true;
            }
            proof {
                assert(self.dirs_view()[i as int] == self.dirs@[i as int]@);
            }
            i += 1;
        }
        false
    }

    /// The skip decision for a file entry: beneath an excluded directory,
    /// exact match against the configured file entries, or a glob match.
    pub fn should_skip_file(&self, rel: &str) -> (r: bool)
        requires
            self.wf(),
        ensures
            r == self.spec_skip_file(rel@),
    {
        let mut i: usize = 0;
        while i < self.dirs.len()
            invariant
                i <= self.dirs@.len(),
                forall|j: int|
                    0 <= j < i ==> !is_prefix_of(#[trigger] self.dirs_view()[j].push('/'), rel@),
            decreases self.dirs@.len() - i,
        {
            let prefix = self.dirs[i].clone().concat("/");
            proof {
                reveal_strlit("/");
                assert("/"@ =~= seq!['/']);
                assert(prefix@ =~= self.dirs_view()[i as int].push('/'));
            }
            if str_starts_with(rel, prefix.as_str()) {
                return true;
            }
            i += 1;
        }
        let mut k: usize = 0;
        while k < self.files.len()
            invariant
                k <= self.files@.len(),
                forall|j: int| 0 <= j < k ==> #[trigger] self.files_view()[j] != rel@,
                !self.spec_in_excluded_dir(rel@),
            decreases self.files@.len() - k,
        {
            if str_eq(rel, self.files[k].as_str()) {
                proof {
                    assert(self.files_view()[k as int] == rel@);
                }
                return true;
            }
            proof {
                assert(self.files_view()[k as int] == self.files@[k as int]@);
            }
            k += 1;
        }
        let m = set_is_match(&self.matcher, rel);
        proof {
            assert(m == self.spec_matches_pattern(rel@));
        }
        m
    }

    /// The skip decision for any entry of the walk.
    pub fn should_skip(&self, is_dir: bool, rel: &str) -> (r: bool)
        requires
            self.wf(),
        ensures
            r == self.spec_skip(is_dir, rel@),
    {
        if is_dir {
            self.should_skip_dir(rel)
        } else {
            self.should_skip_file(rel)
        }
    }
}

} // verus!
