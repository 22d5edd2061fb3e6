//! The upload of one file: whether it is sent, under which key, and with
//! which content type and tags.
//!
//! Reading the file and sending it are the caller's work. `upload_file` says
//! what is to be sent, `UploadPlan::finish` what the upload came to.

use crate::classify::{
    content_type, content_type_of, eligible, is_eligible, size_in_bounds, FileRecord,
};
use crate::identity::{hyphenated, identity_step, IdentityCache, UploadIdentity};
use crate::scan::{EntryKind, WalkEntry};
use crate::tags::TagMap;
use crate::text::texts;
use vstd::prelude::*;
use vstd::string::StringExecFns;

verus! {

/// Why a file was not uploaded.
#[derive(Clone, Copy, Debug, PartialEq, Eq, Structural)]
pub enum UploadError {
    /// The size of the file could not be read.
    MetadataUnreadable,
    /// The file is new to the cache and its creation time is not to be had.
    CreationTimeUnavailable,
    /// The content of the file could not be read.
    ContentUnreadable,
    /// The storage did not take the file.
    StorageFailed,
}

/// What became of a file that raised no error.
#[derive(Clone, Copy, Debug, PartialEq, Eq, Structural)]
pub enum UploadOutcome {
    Uploaded,
    Skipped,
}

/// What carrying out a put request came to.
#[derive(Clone, Copy, Debug, PartialEq, Eq, Structural)]
pub enum Transfer {
    /// The storage took the file.
    Stored,
    /// The content of the file could not be read; nothing was sent.
    ContentUnreadable,
    /// The storage refused the file, or did not answer.
    Rejected,
}

/// One call of the storage: the content of the file goes to `bucket` under
/// `key`.
pub struct PutRequest {
    pub bucket: String,
    pub key: String,
    pub content_type: String,
    pub metadata: TagMap,
}

/// What is to be done with a file.
pub enum UploadPlan {
    /// Nothing: its size is out of bounds.
    Skipped,
    /// It is sent.
    Put(PutRequest),
}

/// The key of an upload: the identity, a dot, the extension.
pub open spec fn object_key(identity: UploadIdentity, extension: Seq<char>) -> Seq<char> {
    hyphenated(identity.value) + "."@ + extension
}

/// The tags of an upload: the tag of the directory under the name `dir-tag`,
/// with the common tags laid over it.
pub open spec fn metadata_for(dir_tag: Seq<char>, common_tags: Map<Seq<char>, Seq<char>>) -> Map<
    Seq<char>,
    Seq<char>,
> {
    Map::<Seq<char>, Seq<char>>::empty().insert("dir-tag"@, dir_tag).union_prefer_right(
        common_tags,
    )
}

/// `request` is the put request for a file with this identity and extension.
pub open spec fn is_request_for(
    request: PutRequest,
    bucket: Seq<char>,
    identity: UploadIdentity,
    extension: Seq<char>,
    dir_tag: Seq<char>,
    common_tags: Map<Seq<char>, Seq<char>>,
) -> bool {
    &&& request.bucket@ == bucket
    &&& request.key@ == object_key(identity, extension)
    &&& request.content_type@ == content_type_of(extension)
    &&& request.metadata@ == metadata_for(dir_tag, common_tags)
}

/// The creation time that counts for a file: the one that was read, and zero
/// where none was.
pub open spec fn creation_time_of(file: FileRecord) -> u64 {
    match file.creation_time {
        Some(seconds) => seconds,
        None => 0,
    }
}

/// What `upload_file` does with a file, by cases: a file whose size could
/// not be read is an error; one out of bounds is skipped; one that is new and
/// has no creation time is an error; in all three the identities stay as
/// they are. Any other file gets its identity, and the request is made for
/// it.
pub open spec fn upload_step(
    before: Map<Seq<char>, UploadIdentity>,
    bucket: Seq<char>,
    min_size: u64,
    max_size: u64,
    file: FileRecord,
    dir_tag: Seq<char>,
    common_tags: Map<Seq<char>, Seq<char>>,
    after: Map<Seq<char>, UploadIdentity>,
    result: Result<UploadPlan, UploadError>,
) -> bool {
    if file.size is None {
        result == Err::<UploadPlan, UploadError>(UploadError::MetadataUnreadable) && after
            == before
    } else if !size_in_bounds(file.size, min_size, max_size) {
        result == Ok::<UploadPlan, UploadError>(UploadPlan::Skipped) && after == before
    } else if !before.contains_key(file.path@) && file.creation_time is None {
        result == Err::<UploadPlan, UploadError>(UploadError::CreationTimeUnavailable) && after
            == before
    } else {
        &&& after.contains_key(file.path@)
        &&& identity_step(before, file.path@, creation_time_of(file), after, after[file.path@])
        &&& result matches Ok(UploadPlan::Put(request))
        &&& is_request_for(
            request,
            bucket,
            after[file.path@],
            file.extension@,
            dir_tag,
            common_tags,
        )
    }
}

/// Whether an entry of a walk is handed to `upload_file`: a file that is an
/// image of a size within the bounds.
pub open spec fn is_upload_candidate(entry: WalkEntry, min_size: u64, max_size: u64) -> bool {
    entry.kind == EntryKind::File && eligible(entry.file, min_size, max_size)
}

/// The paths of the upload candidates of a walk, in the order of the walk.
pub open spec fn upload_candidates(entries: Seq<WalkEntry>, min_size: u64, max_size: u64) -> Seq<
    Seq<char>,
>
    decreases entries.len(),
{
    if entries.len() == 0 {
        Seq::empty()
    } else {
        let before = upload_candidates(entries.drop_last(), min_size, max_size);
        if is_upload_candidate(entries.last(), min_size, max_size) {
            before.push(entries.last().file.path@)
        } else {
            before
        }
    }
}

/// What the upload of a file came to: a skipped file is no error, whatever
/// `transfer` says, since nothing was sent for it; a file that was sent is
/// uploaded where the storage took it, and an error where its content could
/// not be read or the storage did not take it.
pub open spec fn outcome_of(plan: UploadPlan, transfer: Transfer) -> Result<
    UploadOutcome,
    UploadError,
> {
    match plan {
        UploadPlan::Skipped => Ok(UploadOutcome::Skipped),
        UploadPlan::Put(_) => match transfer {
            Transfer::Stored => Ok(UploadOutcome::Uploaded),
            Transfer::ContentUnreadable => Err(UploadError::ContentUnreadable),
            Transfer::Rejected => Err(UploadError::StorageFailed),
        },
    }
}

impl UploadPlan {
    /// What the upload came to, once the plan was carried out.
    pub fn finish(&self, transfer: Transfer) -> (outcome: Result<UploadOutcome, UploadError>)
        ensures
            outcome == outcome_of(*self, transfer),
    {
        match self {
            UploadPlan::Skipped => Ok(UploadOutcome::Skipped),
            UploadPlan::Put(_) => match transfer {
                Transfer::Stored => Ok(UploadOutcome::Uploaded),
                Transfer::ContentUnreadable => Err(UploadError::ContentUnreadable),
                Transfer::Rejected => Err(UploadError::StorageFailed),
            },
        }
    }
}

impl UploadError {
    /// Whether the error came from reading the file, not from the storage.
    pub fn is_io(&self) -> (io: bool)
        ensures
            io == (*self != UploadError::StorageFailed),
    {
        match self {
            UploadError::StorageFailed => false,
            _ => true,
        }
    }
}

/// The tags of an upload.
pub fn compose_metadata(dir_tag: &str, common_tags: &TagMap) -> (metadata: TagMap)
    ensures
        metadata@ == metadata_for(dir_tag@, common_tags@),
{
    let mut metadata = TagMap::new();
    metadata.insert("dir-tag".to_owned(), dir_tag.to_owned());
    metadata.overlay(common_tags);
    metadata
}

/// The key of an upload.
pub fn make_object_key(identity: UploadIdentity, extension: &str) -> (key: String)
    ensures
        key@ == object_key(identity, extension@),
{
    let mut key = identity.to_text();
    key.append(".");
    key.append(extension);
    key
}

/// What decides the uploads of a run: the bucket, the bounds on the size of
/// an image, and the identities given out so far.
pub struct S3Client {
    bucket: String,
    max_image_size: u64,
    min_image_size: u64,
    file_uuid_map: IdentityCache,
}

impl S3Client {
    /// The name of the bucket.
    pub closed spec fn bucket_name(&self) -> Seq<char> {
        self.bucket@
    }

    /// The largest size of an image.
    pub closed spec fn max_size(&self) -> u64 {
        self.max_image_size
    }

    /// The smallest size of an image.
    pub closed spec fn min_size(&self) -> u64 {
        self.min_image_size
    }

    /// The identities given out so far, by path.
    pub closed spec fn identities(&self) -> Map<Seq<char>, UploadIdentity> {
        self.file_uuid_map@
    }

    /// A client that has given out no identity yet.
    pub fn new(bucket: &str, max_image_size: u64, min_image_size: u64) -> (client: S3Client)
        ensures
            client.bucket_name() == bucket@,
            client.max_size() == max_image_size,
            client.min_size() == min_image_size,
            client.identities() == Map::<Seq<char>, UploadIdentity>::empty(),
    {
        S3Client {
            bucket: bucket.to_owned(),
            max_image_size,
            min_image_size,
            file_uuid_map: IdentityCache::new(),
        }
    }

    /// The name of the bucket.
    pub fn bucket(&self) -> (name: &str)
        ensures
            name@ == self.bucket_name(),
    {
        self.bucket.as_str()
    }

    /// The largest size of an image.
    pub fn max_image_size(&self) -> (size: u64)
        ensures
            size == self.max_size(),
    {
        self.max_image_size
    }

    /// The smallest size of an image.
    pub fn min_image_size(&self) -> (size: u64)
        ensures
            size == self.min_size(),
    {
        self.min_image_size
    }

    /// The identity that a path has, if it has one.
    pub fn identity_of(&self, path: &str) -> (identity: Option<UploadIdentity>)
        ensures
            identity == if self.identities().contains_key(path@) {
                Some(self.identities()[path@])
            } else {
                None
            },
    {
        self.file_uuid_map.get(path)
    }

    /// The files of a walk that are handed to `upload_file`, in the order of
    /// the walk: the entries that are files, images, and of a size within the
    /// bounds.
    pub fn upload_directory(&self, entries: &Vec<WalkEntry>) -> (paths: Vec<String>)
        ensures
            texts(paths@) == upload_candidates(entries@, self.min_size(), self.max_size()),
    {
        let mut paths: Vec<String> = Vec::new();
        let mut i: usize = 0;
        proof {
            assert(entries@.take(0) == Seq::<WalkEntry>::empty());
            assert(texts(paths@) == Seq::<Seq<char>>::empty());
        }
        while i < entries.len()
            invariant
                i <= entries@.len(),
                texts(paths@) == upload_candidates(
                    entries@.take(i as int),
                    self.min_size(),
                    self.max_size(),
                ),
            decreases entries@.len() - i,
        {
            let entry = &entries[i];
            proof {
                let seen = entries@.take(i + 1);
                assert(seen.drop_last() == entries@.take(i as int));
                assert(seen.last() == *entry);
            }
            let is_file = match entry.kind {
                EntryKind::File => true,
                _ => false,
            };
            if is_file && is_eligible(&entry.file, self.min_image_size, self.max_image_size) {
                let ghost before = texts(paths@);
                paths.push(entry.file.path.clone());
                assert(texts(paths@) == before.push(entry.file.path@));
            }
            i += 1;
        }
        assert(entries@.take(i as int) == entries@);
        paths
    }

    /// What is to be done with a file that was looked at just now: an error
    /// where its size could not be read, nothing where the size is out of
    /// bounds, and else a put request under the identity of its path, which
    /// the path gets here if it has none.
    pub fn upload_file(&mut self, file: &FileRecord, dir_tag: &str, common_tags: &TagMap) -> (plan:
        Result<UploadPlan, UploadError>)
        ensures
            final(self).bucket_name() == old(self).bucket_name(),
            final(self).max_size() == old(self).max_size(),
            final(self).min_size() == old(self).min_size(),
            upload_step(
                old(self).identities(),
                old(self).bucket_name(),
                old(self).min_size(),
                old(self).max_size(),
                *file,
                dir_tag@,
                common_tags@,
                final(self).identities(),
                plan,
            ),
    {
        let size = match file.size {
            Some(size) => size,
            None => {
                return Err(UploadError::MetadataUnreadable);
            },
        };
        if size < self.min_image_size || size > self.max_image_size {
            return Ok(UploadPlan::Skipped);
        }
        let path = file.path.as_str();
        let identity = match self.file_uuid_map.get(path) {
            Some(identity) => identity,
            None => match file.creation_time {
                Some(seconds) => self.file_uuid_map.identity_for(path, seconds),
                None => {
                    return Err(UploadError::CreationTimeUnavailable);
                },
            },
        };
        let extension = file.extension.as_str();
        let request = PutRequest {
            bucket: self.bucket.clone(),
            key: make_object_key(identity, extension),
            content_type: content_type(extension).to_owned(),
            metadata: compose_metadata(dir_tag, common_tags),
        };
        Ok(UploadPlan::Put(request))
    }
}

/// A file whose size is below the smallest or above the largest is skipped:
/// no request is made for it, and no identity is given out.
pub proof fn lemma_out_of_bounds_is_skipped(
    before: Map<Seq<char>, UploadIdentity>,
    bucket: Seq<char>,
    min_size: u64,
    max_size: u64,
    file: FileRecord,
    dir_tag: Seq<char>,
    common_tags: Map<Seq<char>, Seq<char>>,
    after: Map<Seq<char>, UploadIdentity>,
    result: Result<UploadPlan, UploadError>,
)
    requires
        upload_step(
            before,
            bucket,
            min_size,
            max_size,
            file,
            dir_tag,
            common_tags,
            after,
            result,
        ),
        file.size matches Some(size) && (size < min_size || size > max_size),
    ensures
        result == Ok::<UploadPlan, UploadError>(UploadPlan::Skipped),
        after == before,
        forall|transfer: Transfer|
            outcome_of(result->Ok_0, transfer) == Ok::<UploadOutcome, UploadError>(
                UploadOutcome::Skipped,
            ),
{
}

/// The tags of an upload always hold the name `dir-tag`. Its value is the
/// tag of the directory unless the common tags hold that name too: then it
/// is theirs. Every common tag is among the tags of the upload, and nothing
/// else is.
pub proof fn lemma_metadata(dir_tag: Seq<char>, common_tags: Map<Seq<char>, Seq<char>>)
    ensures
        metadata_for(dir_tag, common_tags).contains_key("dir-tag"@),
        metadata_for(dir_tag, common_tags)["dir-tag"@] == if common_tags.contains_key("dir-tag"@) {
            common_tags["dir-tag"@]
        } else {
            dir_tag
        },
        forall|name: Seq<char>| #[trigger]
            common_tags.contains_key(name) ==> metadata_for(dir_tag, common_tags).contains_key(
                name,
            ) && metadata_for(dir_tag, common_tags)[name] == common_tags[name],
        forall|name: Seq<char>| #[trigger]
            metadata_for(dir_tag, common_tags).contains_key(name) ==> name == "dir-tag"@
                || common_tags.contains_key(name),
{
}

/// A file that is sent twice goes under the same key both times, whatever
/// happened between the two and whatever its creation time is said to be the
/// second time.
pub proof fn lemma_same_file_same_key(
    start: Map<Seq<char>, UploadIdentity>,
    bucket: Seq<char>,
    min_size: u64,
    max_size: u64,
    first_look: FileRecord,
    second_look: FileRecord,
    dir_tag: Seq<char>,
    common_tags: Map<Seq<char>, Seq<char>>,
    middle: Map<Seq<char>, UploadIdentity>,
    first: PutRequest,
    end: Map<Seq<char>, UploadIdentity>,
    second: PutRequest,
)
    requires
        first_look.path@ == second_look.path@,
        first_look.extension@ == second_look.extension@,
        upload_step(
            start,
            bucket,
            min_size,
            max_size,
            first_look,
            dir_tag,
            common_tags,
            middle,
            Ok(UploadPlan::Put(first)),
        ),
        upload_step(
            middle,
            bucket,
            min_size,
            max_size,
            second_look,
            dir_tag,
            common_tags,
            end,
            Ok(UploadPlan::Put(second)),
        ),
    ensures
        first.key@ == second.key@,
        end == middle,
{
}

} // verus!
