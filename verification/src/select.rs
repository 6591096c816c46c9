//! Selecting the files of a walk that the exclusion rules keep, and the
//! laws of that selection: exclusion is complete (nothing under an excluded
//! directory survives), kept files survive exactly once, and the selection
//! is a function of the configuration and the walk sequence alone.

use vstd::prelude::*;
use crate::filter::Excluder;
use crate::strutil::is_prefix_of;
use crate::strutil::str_views;

verus! {

/// One entry of the walk: its path relative to the walk root, and whether
/// it is a directory.
pub struct Entry {
    pub rel: String,
    pub is_dir: bool,
}

/// The mathematical shape of an entry.
pub struct EntryView {
    pub rel: Seq<char>,
    pub is_dir: bool,
}

impl View for Entry {
    type V = EntryView;

    open spec fn view(&self) -> EntryView {
        EntryView { rel: self.rel@, is_dir: self.is_dir }
    }
}

/// The views of a sequence of entries.
pub open spec fn entry_views(es: Seq<Entry>) -> Seq<EntryView> {
    es.map_values(|e: Entry| e@)
}

/// The relative paths of the file entries that the exclusion rules keep,
/// in walk order.
pub open spec fn spec_selected(ex: Excluder, evs: Seq<EntryView>) -> Seq<Seq<char>>
    decreases evs.len(),
{
    if evs.len() == 0 {
        Seq::empty()
    } else {
        let rest = spec_selected(ex, evs.drop_last());
        let e = evs.last();
        if !e.is_dir && !ex.spec_skip_file(e.rel) {
            rest.push(e.rel)
        } else {
            rest
        }
    }
}

/// The relative paths of the file entries of the walk that the exclusion
/// rules keep, in walk order.
pub fn select_files(ex: &Excluder, entries: &Vec<Entry>) -> (r: Vec<String>)
    requires
        ex.wf(),
    ensures
        str_views(r@) == spec_selected(*ex, entry_views(entries@)),
{
    let mut out: Vec<String> = Vec::new();
    proof {
        assert(str_views(out@) =~= spec_selected(*ex, entry_views(entries@).take(0)));
    }
    let mut i: usize = 0;
    while i < entries.len()
        invariant
            ex.wf(),
            i <= entries@.len(),
            str_views(out@) == spec_selected(*ex, entry_views(entries@).take(i as int)),
        decreases entries@.len() - i,
    {
        let e = &entries[i];
        if !e.is_dir && !ex.should_skip_file(e.rel.as_str()) {
            out.push(e.rel.clone());
        }
        proof {
            let evs = entry_views(entries@);
            assert(evs[i as int] == entries@[i as int]@);
            assert(evs.take(i + 1).drop_last() =~= evs.take(i as int));
            assert(evs.take(i + 1).last() == evs[i as int]);
            assert(str_views(out@) =~= spec_selected(*ex, evs.take(i + 1)));
        }
        i += 1;
    }
    proof {
        assert(entry_views(entries@).take(entries@.len() as int) =~= entry_views(entries@));
    }
    out
}

/// How many times `x` occurs in a sequence of relative paths.
pub open spec fn count_occurrences(s: Seq<Seq<char>>, x: Seq<char>) -> nat
    decreases s.len(),
{
    if s.len() == 0 {
        0
    } else {
        count_occurrences(s.drop_last(), x) + (if s.last() == x {
            1nat
        } else {
            0nat
        })
    }
}

/// How many entries of the walk are files with relative path `x`.
pub open spec fn count_file_entries(evs: Seq<EntryView>, x: Seq<char>) -> nat
    decreases evs.len(),
{
    if evs.len() == 0 {
        0
    } else {
        count_file_entries(evs.drop_last(), x) + (if !evs.last().is_dir && evs.last().rel == x {
            1nat
        } else {
            0nat
        })
    }
}

/// A file that the exclusion rules skip never appears in the selection; a
/// file that they keep appears exactly as often as the walk yields it as a
/// file entry — in particular exactly once when the walk yields it once.
pub proof fn lemma_selected_count(ex: Excluder, evs: Seq<EntryView>, x: Seq<char>)
    ensures
        ex.spec_skip_file(x) ==> count_occurrences(spec_selected(ex, evs), x) == 0,
        !ex.spec_skip_file(x) ==> count_occurrences(spec_selected(ex, evs), x)
            == count_file_entries(evs, x),
    decreases evs.len(),
{
    if evs.len() > 0 {
        lemma_selected_count(ex, evs.drop_last(), x);
        let rest = spec_selected(ex, evs.drop_last());
        let e = evs.last();
        if !e.is_dir && !ex.spec_skip_file(e.rel) {
            assert(rest.push(e.rel).drop_last() =~= rest);
        }
    }
}

/// A directory entry whose relative path stands in the configured directory
/// list is skipped, and so is every file beneath it: any relative path that
/// starts with `"<d>/"` is skipped and absent from the selection.
pub proof fn lemma_excluded_dir_subtree(
    ex: Excluder,
    d: Seq<char>,
    rel: Seq<char>,
    evs: Seq<EntryView>,
)
    requires
        ex.dirs_view().contains(d),
    ensures
        ex.spec_skip_dir(d),
        is_prefix_of(d.push('/'), rel) ==> ex.spec_skip_file(rel),
        is_prefix_of(d.push('/'), rel) ==> count_occurrences(spec_selected(ex, evs), rel) == 0,
{
    let i = choose|i: int| 0 <= i < ex.dirs_view().len() && ex.dirs_view()[i] == d;
    assert(ex.dirs_view()[i] == d);
    if is_prefix_of(d.push('/'), rel) {
        assert(is_prefix_of(ex.dirs_view()[i].push('/'), rel));
        assert(ex.spec_in_excluded_dir(rel));
        lemma_selected_count(ex, evs, rel);
    }
}

/// The selection depends on the configuration and the walk sequence alone:
/// two predicates built from equal exclusion lists select the same files
/// from equal walks, however the matchers were compiled.
pub proof fn lemma_selection_deterministic(ex1: Excluder, ex2: Excluder, evs: Seq<EntryView>)
    requires
        ex1.dirs_view() == ex2.dirs_view(),
        ex1.files_view() == ex2.files_view(),
        ex1.patterns_view() == ex2.patterns_view(),
    ensures
        spec_selected(ex1, evs) == spec_selected(ex2, evs),
    decreases evs.len(),
{
    if evs.len() > 0 {
        lemma_selection_deterministic(ex1, ex2, evs.drop_last());
        let e = evs.last();
        assert(ex1.spec_skip_file(e.rel) == ex2.spec_skip_file(e.rel));
    }
}

} // verus!
