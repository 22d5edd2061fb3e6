//! The settings of a run, and the tag that a directory gets from them.

use crate::path_match::{is_path_match, pattern_matches, split_pattern, split_star};
use crate::tags::TagMap;
use crate::text::{str_eq, utf8};
use vstd::prelude::*;

verus! {

/// One watched directory: a path, or a pattern with `*`, and the tag of the
/// files below it.
pub struct WatchDirectory {
    pub dir: String,
    pub tag: String,
}

/// The settings of a run.
pub struct Config {
    /// The watched directories; the first that fits a path decides its tag.
    pub watch_dir: Vec<WatchDirectory>,
    /// Whether `*` in a watched directory is a wildcard.
    pub use_regex: bool,
    /// Whether the images found at the start are uploaded.
    pub upload_existing: bool,
    pub s3_bucket: String,
    pub s3_region: String,
    pub s3_access_key_id: String,
    pub s3_secret_access_key: String,
    pub s3_url: String,
    /// The largest size of an image, in bytes.
    pub max_image_size: u64,
    /// The smallest size of an image, in bytes.
    pub min_image_size: u64,
    /// The tags that every upload carries.
    pub common_tags: TagMap,
}

/// Whether the rule with the directory `rule_dir` fits the directory `dir`:
/// as a pattern with wildcards, or letter for letter.
pub open spec fn rule_fits(rule_dir: Seq<char>, dir: Seq<char>, wildcards: bool) -> bool {
    if wildcards {
        pattern_matches(utf8(dir), split_star(utf8(rule_dir)))
    } else {
        dir == rule_dir
    }
}

/// The index of the first rule that fits `dir`, if one does.
pub open spec fn first_fit(rules: Seq<WatchDirectory>, dir: Seq<char>, wildcards: bool) -> Option<
    int,
>
    decreases rules.len(),
{
    if rules.len() == 0 {
        None
    } else {
        match first_fit(rules.drop_last(), dir, wildcards) {
            Some(i) => Some(i),
            None => if rule_fits(rules.last().dir@, dir, wildcards) {
                Some(rules.len() - 1)
            } else {
                None
            },
        }
    }
}

/// The tag of `dir`: that of the first rule that fits it.
pub open spec fn tag_of(rules: Seq<WatchDirectory>, dir: Seq<char>, wildcards: bool) -> Option<
    Seq<char>,
> {
    match first_fit(rules, dir, wildcards) {
        Some(i) => Some(rules[i].tag@),
        None => None,
    }
}

/// The tag under which the files of `dir` are uploaded: the tag of the
/// directory, or the empty tag where it has none.
pub open spec fn tag_or_empty(rules: Seq<WatchDirectory>, dir: Seq<char>, wildcards: bool) -> Seq<
    char,
> {
    match tag_of(rules, dir, wildcards) {
        Some(tag) => tag,
        None => Seq::empty(),
    }
}

/// `first_fit` gives a rule that fits, before which none fits, and gives
/// `None` only where no rule fits.
pub proof fn lemma_first_fit(rules: Seq<WatchDirectory>, dir: Seq<char>, wildcards: bool)
    ensures
        match first_fit(rules, dir, wildcards) {
            Some(i) => {
                &&& 0 <= i < rules.len()
                &&& rule_fits(rules[i].dir@, dir, wildcards)
                &&& forall|j: int| 0 <= j < i ==> !rule_fits(#[trigger] rules[j].dir@, dir, wildcards)
            },
            None => forall|j: int|
                0 <= j < rules.len() ==> !rule_fits(#[trigger] rules[j].dir@, dir, wildcards),
        },
    decreases rules.len(),
{
    if rules.len() > 0 {
        lemma_first_fit(rules.drop_last(), dir, wildcards);
        assert forall|j: int| 0 <= j < rules.len() - 1 implies rules.drop_last()[j] == rules[j] by {}
    }
}

/// Without this setting `*` is no wildcard.
pub fn default_use_regex() -> (wildcards: bool)
    ensures
        !wildcards,
{
    false
}

/// Without this setting the images found at the start are uploaded.
pub fn default_upload_existing() -> (upload: bool)
    ensures
        upload,
{
    true
}

/// Without this setting no tag is common to all uploads.
pub fn default_common_tags() -> (tags: TagMap)
    ensures
        tags@ == Map::<Seq<char>, Seq<char>>::empty(),
{
    TagMap::new()
}

impl WatchDirectory {
    /// Whether this rule fits the directory `dir_path`.
    pub fn fits(&self, dir_path: &str, wildcards: bool) -> (yes: bool)
        ensures
            yes == rule_fits(self.dir@, dir_path@, wildcards),
    {
        if wildcards {
            let parts = split_pattern(self.dir.as_str());
            is_path_match(dir_path, parts.as_slice())
        } else {
            str_eq(dir_path, self.dir.as_str())
        }
    }
}

impl Config {
    /// The tag of the directory `dir_path`: that of the first watched
    /// directory that fits it, `None` where none does.
    pub fn get_tag_for_directory(&self, dir_path: &str) -> (tag: Option<&str>)
        ensures
            match tag {
                Some(text) => tag_of(self.watch_dir@, dir_path@, self.use_regex) == Some(text@),
                None => tag_of(self.watch_dir@, dir_path@, self.use_regex) is None,
            },
    {
        let mut i: usize = 0;
        assert(self.watch_dir@.take(0) == Seq::<WatchDirectory>::empty());
        while i < self.watch_dir.len()
            invariant
                i <= self.watch_dir@.len(),
                first_fit(self.watch_dir@.take(i as int), dir_path@, self.use_regex) is None,
            decreases self.watch_dir@.len() - i,
        {
            let rule = &self.watch_dir[i];
            proof {
                let seen = self.watch_dir@.take(i + 1);
                assert(seen.drop_last() == self.watch_dir@.take(i as int));
                assert(seen.last() == *rule);
            }
            if rule.fits(dir_path, self.use_regex) {
                proof {
                    lemma_first_fit_grows(self.watch_dir@, i + 1, dir_path@, self.use_regex);
                }
                return Some(rule.tag.as_str());
            }
            i += 1;
        }
        assert(self.watch_dir@.take(i as int) == self.watch_dir@);
        None
    }
}

/// Where one of the first `n` rules fits, the first fit among all the rules
/// is the first fit among those.
proof fn lemma_first_fit_grows(rules: Seq<WatchDirectory>, n: int, dir: Seq<char>, wildcards: bool)
    requires
        0 <= n <= rules.len(),
        first_fit(rules.take(n), dir, wildcards) is Some,
    ensures
        first_fit(rules, dir, wildcards) == first_fit(rules.take(n), dir, wildcards),
    decreases rules.len() - n,
{
    if n < rules.len() {
        assert(rules.take(n + 1).drop_last() == rules.take(n));
        lemma_first_fit_grows(rules, n + 1, dir, wildcards);
    } else {
        assert(rules.take(n) == rules);
    }
}

} // verus!
