//! The directory walk as a state machine: the surrounding program lists
//! directories and hands the entries in; the walker decides which entries
//! are RAW files, which subdirectories still wait to be listed, and which
//! output directories must be created.
//!
//! The walk is sequential and precedes the concurrent extraction phase: the
//! program creates each output directory the moment `on_dir_listed` asks
//! for it, and only starts file tasks once the queue is drained, so every
//! output directory exists before any write into it is attempted.

use vstd::prelude::*;
use vstd::slice::slice_to_vec;
use crate::walk::{extra_view, is_raw_name, joined, matches_raw_name, join_rel};

verus! {

/// One listed entry of a directory: its name and whether it is itself a
/// directory.
pub struct DirEntry {
    pub name: Vec<u8>,
    pub is_dir: bool,
}

impl View for DirEntry {
    type V = (Seq<u8>, bool);

    open spec fn view(&self) -> (Seq<u8>, bool) {
        (self.name@, self.is_dir)
    }
}

/// One file to process: the relative directory it sits in and its name.
pub struct FileTask {
    pub rel_dir: Vec<u8>,
    pub name: Vec<u8>,
}

impl View for FileTask {
    type V = (Seq<u8>, Seq<u8>);

    open spec fn view(&self) -> (Seq<u8>, Seq<u8>) {
        (self.rel_dir@, self.name@)
    }
}

/// The views of a sequence of directory entries.
pub open spec fn entry_views(es: Seq<DirEntry>) -> Seq<(Seq<u8>, bool)> {
    es.map_values(|e: DirEntry| e@)
}

/// The views of a sequence of file tasks.
pub open spec fn task_views(ts: Seq<FileTask>) -> Seq<(Seq<u8>, Seq<u8>)> {
    ts.map_values(|t: FileTask| t@)
}

/// The views of a sequence of byte-string paths.
pub open spec fn dir_views(ds: Seq<Vec<u8>>) -> Seq<Seq<u8>> {
    ds.map_values(|d: Vec<u8>| d@)
}

/// The view of the optional extra extension field.
pub open spec fn opt_view(extra: Option<Vec<u8>>) -> Option<Seq<u8>> {
    match extra {
        Some(e) => Some(e@),
        None => None,
    }
}

/// Maps a listed entry to the file task it yields, if it is a RAW file of
/// the directory `dir`.
pub open spec fn task_of(dir: Seq<u8>, extra: Option<Seq<u8>>) -> spec_fn((Seq<u8>, bool)) -> Option<
    (Seq<u8>, Seq<u8>),
> {
    |e: (Seq<u8>, bool)|
        if !e.1 && is_raw_name(e.0, extra) {
            Some((dir, e.0))
        } else {
            None
        }
}

/// Maps a listed entry to the pending subdirectory it yields, if it is a
/// directory.
pub open spec fn subdir_of(dir: Seq<u8>) -> spec_fn((Seq<u8>, bool)) -> Option<Seq<u8>> {
    |e: (Seq<u8>, bool)|
        if e.1 {
            Some(joined(dir, e.0))
        } else {
            None
        }
}

/// The walk's state: directories still to list, file tasks found so far,
/// output directories asked for so far, and the optional extra extension.
pub struct Walker {
    pub queue: Vec<Vec<u8>>,
    pub files: Vec<FileTask>,
    pub dirs: Vec<Vec<u8>>,
    pub extra: Option<Vec<u8>>,
}

impl Walker {
    /// Every file task found so far targets a directory already asked for:
    /// the walk never plans a write into a directory it has not planned to
    /// create.
    pub open spec fn wf(self) -> bool {
        forall|i: int|
            0 <= i < self.files@.len() ==> dir_views(self.dirs@).contains(
                #[trigger] self.files@[i].rel_dir@,
            )
    }

    /// A fresh walk over the input root (the empty relative directory),
    /// with an optional extra recognized extension.
    pub fn new(extra: Option<Vec<u8>>) -> (w: Walker)
        ensures
            w.wf(),
            w.queue@.len() == 1 && w.queue@[0]@ == Seq::<u8>::empty(),
            w.files@ == Seq::<FileTask>::empty(),
            w.dirs@ == Seq::<Vec<u8>>::empty(),
            opt_view(w.extra) == opt_view(extra),
    {
        let mut queue: Vec<Vec<u8>> = Vec::new();
        queue.push(Vec::new());
        Walker { queue, files: Vec::new(), dirs: Vec::new(), extra }
    }

    /// The next directory to list, or `None` when the walk is done.
    pub fn next_dir(&mut self) -> (r: Option<Vec<u8>>)
        requires
            old(self).wf(),
        ensures
            final(self).wf(),
            final(self).files == old(self).files,
            final(self).dirs == old(self).dirs,
            final(self).extra == old(self).extra,
            old(self).queue@.len() == 0 ==> r is None && final(self).queue@ == old(self).queue@,
            old(self).queue@.len() > 0 ==> (r matches Some(d) && d == old(self).queue@.last()
                && final(self).queue@ == old(self).queue@.subrange(
                    0,
                    old(self).queue@.len() - 1,
                )),
    {
        self.queue.pop()
    }

    /// Folds one listed directory into the walk: subdirectories join the
    /// queue, RAW files of the directory become file tasks, and the result
    /// says whether the directory holds at least one RAW file, in which
    /// case the directory was recorded and its output mirror must be
    /// created now, before any of its file tasks runs.
    pub fn on_dir_listed(&mut self, dir: &Vec<u8>, entries: &Vec<DirEntry>) -> (created: bool)
        requires
            old(self).wf(),
        ensures
            final(self).wf(),
            final(self).extra == old(self).extra,
            task_views(final(self).files@) == task_views(old(self).files@) + entry_views(
                entries@,
            ).filter_map(task_of(dir@, opt_view(old(self).extra))),
            dir_views(final(self).queue@) == dir_views(old(self).queue@) + entry_views(
                entries@,
            ).filter_map(subdir_of(dir@)),
            created == (entry_views(entries@).filter_map(
                task_of(dir@, opt_view(old(self).extra)),
            ).len() > 0),
            created ==> dir_views(final(self).dirs@) == dir_views(old(self).dirs@).push(dir@),
            !created ==> final(self).dirs == old(self).dirs,
    {
        let ghost old_files = self.files@;
        let ghost old_queue = self.queue@;
        let ghost tf = task_of(dir@, opt_view(self.extra));
        let ghost sf = subdir_of(dir@);
        let n = entries.len();
        let mut i: usize = 0;
        let mut found = false;
        proof {
            assert(entry_views(entries@).take(0) =~= Seq::<(Seq<u8>, bool)>::empty());
            assert(task_views(self.files@) =~= task_views(old_files) + entry_views(
                entries@,
            ).take(0).filter_map(tf));
            assert(dir_views(self.queue@) =~= dir_views(old_queue) + entry_views(
                entries@,
            ).take(0).filter_map(sf));
        }
        while i < n
            invariant
                n == entries@.len(),
                i <= n,
                self.dirs == old(self).dirs,
                self.extra == old(self).extra,
                old(self).wf(),
                tf == task_of(dir@, opt_view(self.extra)),
                sf == subdir_of(dir@),
                task_views(self.files@) == task_views(old_files) + entry_views(
                    entries@,
                ).take(i as int).filter_map(tf),
                dir_views(self.queue@) == dir_views(old_queue) + entry_views(
                    entries@,
                ).take(i as int).filter_map(sf),
                found == (entry_views(entries@).take(i as int).filter_map(tf).len() > 0),
                old_files == old(self).files@,
                forall|k: int|
                    old_files.len() <= k < self.files@.len() ==> (
                    #[trigger] self.files@[k]).rel_dir@ == dir@,
            decreases n - i,
        {
            let e = &entries[i];
            proof {
                assert(entry_views(entries@)[i as int] == e@);
                entry_views(entries@).lemma_filter_map_take_succ(tf, i as int);
                entry_views(entries@).lemma_filter_map_take_succ(sf, i as int);
            }
            if e.is_dir {
                let sub = join_rel(dir.as_slice(), e.name.as_slice());
                assert(sf(e@) == Some(joined(dir@, e.name@)));
                assert(tf(e@) is None);
                let ghost q0 = self.queue@;
                let ghost subv = sub@;
                self.queue.push(sub);
                proof {
                    let ev = entry_views(entries@);
                    assert(ev.take(i + 1).filter_map(sf) == ev.take(i as int).filter_map(sf)
                        + seq![joined(dir@, e.name@)]);
                    assert(ev.take(i + 1).filter_map(tf) == ev.take(i as int).filter_map(tf));
                    assert(self.queue@ == q0.push(sub));
                    assert(dir_views(q0.push(sub)) =~= dir_views(q0).push(subv));
                    assert(dir_views(q0).push(subv) =~= dir_views(old_queue) + (ev.take(
                        i as int,
                    ).filter_map(sf) + seq![subv]));
                    assert(dir_views(self.queue@) == dir_views(old_queue) + ev.take(
                        i + 1,
                    ).filter_map(sf));
                    assert(task_views(self.files@) == task_views(old_files) + ev.take(
                        i + 1,
                    ).filter_map(tf));
                }
            } else {
                let extra_ref: Option<&[u8]> = match &self.extra {
                    Some(v) => Some(v.as_slice()),
                    None => None,
                };
                assert(extra_view(extra_ref) == opt_view(self.extra));
                if matches_raw_name(e.name.as_slice(), extra_ref) {
                    let task = FileTask {
                        rel_dir: slice_to_vec(dir.as_slice()),
                        name: slice_to_vec(e.name.as_slice()),
                    };
                    assert(task@ == (dir@, e.name@));
                    assert(tf(e@) == Some((dir@, e.name@)));
                    assert(sf(e@) is None);
                    let ghost f0 = self.files@;
                    let ghost taskv = task@;
                    self.files.push(task);
                    found = true;
                    proof {
                        let ev = entry_views(entries@);
                        assert(ev.take(i + 1).filter_map(tf) == ev.take(i as int).filter_map(tf)
                            + seq![(dir@, e.name@)]);
                        assert(ev.take(i + 1).filter_map(sf) == ev.take(i as int).filter_map(sf));
                        assert(self.files@ == f0.push(task));
                        assert(task_views(f0.push(task)) =~= task_views(f0).push(taskv));
                        assert(task_views(f0).push(taskv) =~= task_views(old_files) + (ev.take(
                            i as int,
                        ).filter_map(tf) + seq![taskv]));
                        assert(task_views(self.files@) == task_views(old_files) + ev.take(
                            i + 1,
                        ).filter_map(tf));
                        assert(dir_views(self.queue@) == dir_views(old_queue) + ev.take(
                            i + 1,
                        ).filter_map(sf));
                    }
                } else {
                    proof {
                        let ev = entry_views(entries@);
                        assert(tf(e@) is None);
                        assert(sf(e@) is None);
                        assert(ev.take(i + 1).filter_map(tf) == ev.take(i as int).filter_map(tf));
                        assert(ev.take(i + 1).filter_map(sf) == ev.take(i as int).filter_map(sf));
                        assert(task_views(self.files@) == task_views(old_files) + ev.take(
                            i + 1,
                        ).filter_map(tf));
                        assert(dir_views(self.queue@) == dir_views(old_queue) + ev.take(
                            i + 1,
                        ).filter_map(sf));
                    }
                }
            }
            i = i + 1;
        }
        proof {
            assert(entry_views(entries@).take(n as int) =~= entry_views(entries@));
        }
        if !found {
            proof {
                assert forall|i2: int| 0 <= i2 < self.files@.len() implies dir_views(
                    self.dirs@,
                ).contains(#[trigger] self.files@[i2].rel_dir@) by {
                    assert(task_views(self.files@)[i2] == task_views(old_files)[i2]);
                    assert(self.files@[i2]@ == old_files[i2]@);
                    assert(dir_views(self.dirs@).contains(old_files[i2].rel_dir@));
                }
            }
        }
        if found {
            self.dirs.push(slice_to_vec(dir.as_slice()));
            proof {
                broadcast use vstd::seq_lib::lemma_seq_contains_after_push;
                assert(dir_views(self.dirs@) =~= dir_views(old(self).dirs@).push(dir@));
                assert forall|i2: int| 0 <= i2 < self.files@.len() implies dir_views(
                    self.dirs@,
                ).contains(#[trigger] self.files@[i2].rel_dir@) by {
                    if i2 < old_files.len() {
                        assert(task_views(self.files@)[i2] == task_views(old_files)[i2]);
                        assert(self.files@[i2]@ == old_files[i2]@);
                        assert(old_files[i2].rel_dir@ == self.files@[i2].rel_dir@);
                        assert(dir_views(old(self).dirs@).contains(self.files@[i2].rel_dir@));
                        assert(dir_views(old(self).dirs@).push(dir@).contains(
                            self.files@[i2].rel_dir@,
                        ));
                    } else {
                        assert(self.files@[i2].rel_dir@ == dir@);
                        assert(dir_views(old(self).dirs@).push(dir@).contains(dir@));
                    }
                }
            }
        }
        found
    }
}

/// Directory creation precedes the writes into it: every file task the walk
/// has produced targets a directory the walk has already asked to create.
pub proof fn lemma_dirs_cover_files(w: Walker)
    requires
        w.wf(),
    ensures
        forall|i: int|
            0 <= i < w.files@.len() ==> dir_views(w.dirs@).contains(
                #[trigger] w.files@[i].rel_dir@,
            ),
{
}

} // verus!
