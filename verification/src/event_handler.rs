//! What a change in a watched directory leads to.
//!
//! Only a modified file is uploaded: a file that was just created may not
//! hold its content yet. The caller waits for the changes and hands each in.

use crate::config::{tag_or_empty, Config};
use vstd::prelude::*;

verus! {

/// What happened to the paths of a change.
#[derive(Clone, Copy, Debug, PartialEq, Eq, Structural)]
pub enum ChangeKind {
    Created,
    Modified,
    Removed,
    Other,
}

/// A path that changed, and the directory it lies in; the directory is empty
/// where the path has none.
pub struct ChangedPath {
    pub path: String,
    pub parent: String,
}

/// One change: what happened, and to which paths.
pub struct ChangeEvent {
    pub kind: ChangeKind,
    pub paths: Vec<ChangedPath>,
}

/// A file to upload, and the tag of its directory.
pub struct UploadJob {
    pub path: String,
    pub dir_tag: String,
}

/// The path and the tag of each job.
pub open spec fn jobs_view(jobs: Seq<UploadJob>) -> Seq<(Seq<char>, Seq<char>)> {
    Seq::new(jobs.len(), |i: int| (jobs[i].path@, jobs[i].dir_tag@))
}

/// The uploads that a change leads to: one for each path of a modification,
/// in their order, under the tag of the directory of the path, which is empty
/// where no watched directory fits; none for any other change.
pub open spec fn jobs_of(event: ChangeEvent, config: Config) -> Seq<(Seq<char>, Seq<char>)> {
    if event.kind == ChangeKind::Modified {
        Seq::new(
            event.paths@.len(),
            |i: int|
                (
                    event.paths@[i].path@,
                    tag_or_empty(config.watch_dir@, event.paths@[i].parent@, config.use_regex),
                ),
        )
    } else {
        Seq::empty()
    }
}

/// The uploads that a change leads to.
pub fn handle_event(event: &ChangeEvent, config: &Config) -> (jobs: Vec<UploadJob>)
    ensures
        jobs_view(jobs@) == jobs_of(*event, *config),
{
    let mut jobs: Vec<UploadJob> = Vec::new();
    match event.kind {
        ChangeKind::Modified => {},
        _ => {
            assert(jobs_view(jobs@) == Seq::<(Seq<char>, Seq<char>)>::empty());
            return jobs;
        },
    }
    let mut i: usize = 0;
    while i < event.paths.len()
        invariant
            i <= event.paths@.len(),
            jobs@.len() == i,
            forall|k: int|
                0 <= k < i ==> (#[trigger] jobs@[k]).path@ == event.paths@[k].path@
                    && jobs@[k].dir_tag@ == tag_or_empty(
                    config.watch_dir@,
                    event.paths@[k].parent@,
                    config.use_regex,
                ),
        decreases event.paths@.len() - i,
    {
        let changed = &event.paths[i];
        let dir_tag = match config.get_tag_for_directory(changed.parent.as_str()) {
            Some(tag) => tag.to_owned(),
            None => String::new(),
        };
        jobs.push(UploadJob { path: changed.path.clone(), dir_tag });
        i += 1;
    }
    assert(jobs_view(jobs@) == jobs_of(*event, *config));
    jobs
}

} // verus!
