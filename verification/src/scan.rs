//! What a walk of the watched directories gives: the directories to upload
//! at the start, and the directories to watch.
//!
//! The walk itself is the caller's work. It hands in what it found, one list
//! of entries for each watched directory, in the order of the settings.

use crate::classify::FileRecord;
use crate::config::{Config, WatchDirectory};
use crate::path_match::{is_path_match, parts_utf8, pattern_matches, split_pattern, split_star};
use crate::pattern_laws::lemma_split_len;
use crate::text::{texts, utf8};
use vstd::prelude::*;

verus! {

/// What an entry of a walk is.
#[derive(Clone, Copy, Debug, PartialEq, Eq, Structural)]
pub enum EntryKind {
    Directory,
    File,
    Other,
}

/// One entry of a walk.
pub struct WalkEntry {
    pub kind: EntryKind,
    pub file: FileRecord,
}

/// A directory whose images are uploaded, and the tag they get.
pub struct DirectoryUpload {
    pub path: String,
    pub tag: String,
}

/// Whether an entry is a directory whose path matches the pattern.
pub open spec fn is_matching_directory(pattern: Seq<char>, entry: WalkEntry) -> bool {
    entry.kind == EntryKind::Directory && pattern_matches(
        utf8(entry.file.path@),
        split_star(utf8(pattern)),
    )
}

/// The paths of the directories of a walk that match the pattern, in the
/// order of the walk.
pub open spec fn matching_dirs(pattern: Seq<char>, entries: Seq<WalkEntry>) -> Seq<Seq<char>>
    decreases entries.len(),
{
    if entries.len() == 0 {
        Seq::empty()
    } else {
        let before = matching_dirs(pattern, entries.drop_last());
        if is_matching_directory(pattern, entries.last()) {
            before.push(entries.last().file.path@)
        } else {
            before
        }
    }
}

/// The walk that belongs to the rule with the index `i`; a rule without a
/// walk has no entries.
pub open spec fn walk_of(walks: Seq<Vec<WalkEntry>>, i: int) -> Seq<WalkEntry> {
    if 0 <= i < walks.len() {
        walks[i]@
    } else {
        Seq::empty()
    }
}

/// The matching directories of the first `n` rules, rule after rule.
pub open spec fn matching_dirs_of_rules(
    rules: Seq<WatchDirectory>,
    walks: Seq<Vec<WalkEntry>>,
    n: int,
) -> Seq<Seq<char>>
    decreases n,
{
    if n <= 0 {
        Seq::empty()
    } else {
        matching_dirs_of_rules(rules, walks, n - 1) + matching_dirs(
            rules[n - 1].dir@,
            walk_of(walks, n - 1),
        )
    }
}

/// Each path with the tag.
pub open spec fn tagged(paths: Seq<Seq<char>>, tag: Seq<char>) -> Seq<(Seq<char>, Seq<char>)> {
    Seq::new(paths.len(), |i: int| (paths[i], tag))
}

/// The matching directories of the first `n` rules, each with the tag of its
/// rule.
pub open spec fn tagged_dirs_of_rules(
    rules: Seq<WatchDirectory>,
    walks: Seq<Vec<WalkEntry>>,
    n: int,
) -> Seq<(Seq<char>, Seq<char>)>
    decreases n,
{
    if n <= 0 {
        Seq::empty()
    } else {
        tagged_dirs_of_rules(rules, walks, n - 1) + tagged(
            matching_dirs(rules[n - 1].dir@, walk_of(walks, n - 1)),
            rules[n - 1].tag@,
        )
    }
}

/// The directories uploaded at the start: none where the settings turn that
/// off, else every matching directory with the tag of its rule.
pub open spec fn existing_uploads(config: Config, walks: Seq<Vec<WalkEntry>>) -> Seq<
    (Seq<char>, Seq<char>),
> {
    if config.upload_existing {
        tagged_dirs_of_rules(config.watch_dir@, walks, config.watch_dir@.len() as int)
    } else {
        Seq::empty()
    }
}

/// The directories to watch: with wildcards the matching directories of the
/// walks, without them the watched directories as they are written.
pub open spec fn watch_targets(config: Config, walks: Seq<Vec<WalkEntry>>) -> Seq<Seq<char>> {
    if config.use_regex {
        matching_dirs_of_rules(config.watch_dir@, walks, config.watch_dir@.len() as int)
    } else {
        Seq::new(config.watch_dir@.len(), |i: int| config.watch_dir@[i].dir@)
    }
}

/// The path and the tag of each upload.
pub open spec fn uploads_view(list: Seq<DirectoryUpload>) -> Seq<(Seq<char>, Seq<char>)> {
    Seq::new(list.len(), |i: int| (list[i].path@, list[i].tag@))
}

/// The directory at which the walk for a pattern starts: the pattern up to
/// its first wildcard, or all of it where it has none.
pub fn base_directory<'a>(pattern: &'a str) -> (base: &'a str)
    ensures
        utf8(base@) == split_star(utf8(pattern@))[0],
{
    let parts = split_pattern(pattern);
    proof {
        lemma_split_len(utf8(pattern@));
        assert(parts_utf8(parts@)[0] == utf8(parts@[0]@));
    }
    parts[0]
}

/// The paths of the directories of a walk that match the pattern, in the
/// order of the walk.
pub fn matching_directories(pattern: &str, entries: &Vec<WalkEntry>) -> (dirs: Vec<String>)
    ensures
        texts(dirs@) == matching_dirs(pattern@, entries@),
{
    let parts = split_pattern(pattern);
    let mut dirs: Vec<String> = Vec::new();
    let mut i: usize = 0;
    proof {
        assert(entries@.take(0) == Seq::<WalkEntry>::empty());
        assert(texts(dirs@) == Seq::<Seq<char>>::empty());
    }
    while i < entries.len()
        invariant
            i <= entries@.len(),
            parts_utf8(parts@) == split_star(utf8(pattern@)),
            texts(dirs@) == matching_dirs(pattern@, entries@.take(i as int)),
        decreases entries@.len() - i,
    {
        let entry = &entries[i];
        proof {
            let seen = entries@.take(i + 1);
            assert(seen.drop_last() == entries@.take(i as int));
            assert(seen.last() == *entry);
        }
        let is_dir = match entry.kind {
            EntryKind::Directory => true,
            _ => false,
        };
        if is_dir && is_path_match(entry.file.path.as_str(), parts.as_slice()) {
            let ghost before = texts(dirs@);
            dirs.push(entry.file.path.clone());
            assert(texts(dirs@) == before.push(entry.file.path@));
        }
        i += 1;
    }
    assert(entries@.take(i as int) == entries@);
    dirs
}

/// The directories whose images are uploaded at the start, each with the tag
/// of its rule: for every watched directory, the directories of its walk that
/// match it. None where the settings turn the upload at the start off.
pub fn process_existing_directories(config: &Config, walks: &Vec<Vec<WalkEntry>>) -> (uploads: Vec<
    DirectoryUpload,
>)
    ensures
        uploads_view(uploads@) == existing_uploads(*config, walks@),
{
    let mut uploads: Vec<DirectoryUpload> = Vec::new();
    assert(uploads_view(uploads@) == Seq::<(Seq<char>, Seq<char>)>::empty());
    if !config.upload_existing {
        return uploads;
    }
    let mut i: usize = 0;
    while i < config.watch_dir.len()
        invariant
            i <= config.watch_dir@.len(),
            uploads_view(uploads@) == tagged_dirs_of_rules(config.watch_dir@, walks@, i as int),
        decreases config.watch_dir@.len() - i,
    {
        let rule = &config.watch_dir[i];
        if i < walks.len() {
            let dirs = matching_directories(rule.dir.as_str(), &walks[i]);
            let ghost start = uploads_view(uploads@);
            let ghost found = tagged(texts(dirs@), rule.tag@);
            let mut k: usize = 0;
            assert(found.take(0) == Seq::<(Seq<char>, Seq<char>)>::empty());
            while k < dirs.len()
                invariant
                    k <= dirs@.len(),
                    found == tagged(texts(dirs@), rule.tag@),
                    uploads_view(uploads@) == start + found.take(k as int),
                decreases dirs@.len() - k,
            {
                let ghost before = uploads_view(uploads@);
                uploads.push(DirectoryUpload { path: dirs[k].clone(), tag: rule.tag.clone() });
                proof {
                    assert(uploads_view(uploads@) == before.push((dirs@[k as int]@, rule.tag@)));
                    assert(found.take(k + 1) == found.take(k as int).push(found[k as int]));
                }
                k += 1;
            }
            assert(found.take(k as int) == found);
        } else {
            assert(tagged(Seq::<Seq<char>>::empty(), rule.tag@) == Seq::<
                (Seq<char>, Seq<char>),
            >::empty());
            assert(matching_dirs(rule.dir@, Seq::<WalkEntry>::empty()) == Seq::<
                Seq<char>,
            >::empty());
        }
        i += 1;
    }
    uploads
}

/// The directories to watch. With wildcards: for every watched directory the
/// directories of its walk that match it. Without: the watched directories
/// as they are written, whatever the walks hold.
pub fn register_watch_directories(config: &Config, walks: &Vec<Vec<WalkEntry>>) -> (targets: Vec<
    String,
>)
    ensures
        texts(targets@) == watch_targets(*config, walks@),
{
    let mut targets: Vec<String> = Vec::new();
    let mut i: usize = 0;
    if config.use_regex {
        assert(texts(targets@) == Seq::<Seq<char>>::empty());
        while i < config.watch_dir.len()
            invariant
                i <= config.watch_dir@.len(),
                texts(targets@) == matching_dirs_of_rules(config.watch_dir@, walks@, i as int),
            decreases config.watch_dir@.len() - i,
        {
            let rule = &config.watch_dir[i];
            if i < walks.len() {
                let mut dirs = matching_directories(rule.dir.as_str(), &walks[i]);
                let ghost before = texts(targets@);
                let ghost found = texts(dirs@);
                targets.append(&mut dirs);
                assert(texts(targets@) == before + found);
            } else {
                assert(matching_dirs(rule.dir@, Seq::<WalkEntry>::empty()) == Seq::<
                    Seq<char>,
                >::empty());
                assert(texts(targets@) + Seq::<Seq<char>>::empty() == texts(targets@));
            }
            i += 1;
        }
    } else {
        while i < config.watch_dir.len()
            invariant
                i <= config.watch_dir@.len(),
                targets@.len() == i,
                forall|k: int| 0 <= k < i ==> (#[trigger] targets@[k])@ == config.watch_dir@[k].dir@,
            decreases config.watch_dir@.len() - i,
        {
            targets.push(config.watch_dir[i].dir.clone());
            i += 1;
        }
        assert(texts(targets@) == watch_targets(*config, walks@));
    }
    targets
}

} // verus!
