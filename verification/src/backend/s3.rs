//! Blobs in S3: where a bucket is made, and what the answers about an upload
//! mean.

use vstd::prelude::*;
use vstd::string::*;

use crate::backend::wire::{BackendError, BackendErrorView, PartView, UploadedPart};
use crate::blob::parts_view;
use crate::db::row::opt_text;
use crate::text::{contains_text, text_contains, text_same};

verus! {

/// Where the bucket is and how it is reached.
pub struct S3Config {
    pub bucket_name: String,
    pub region: String,
    /// Another endpoint than the region's.
    pub endpoint_url: Option<String>,
    pub credentials: S3Credentials,
}

/// Who reaches it.
pub enum S3Credentials {
    /// Whoever the environment says.
    FromEnvironment,
    /// Whoever is named here.
    Explicit {
        access_key_id: String,
        secret_access_key: String,
        session_token: Option<String>,
    },
}

/// The region that a new bucket is bound to.
pub open spec fn bound_region(region: Seq<char>) -> Option<Seq<char>> {
    if region == "us-east-1"@ {
        None
    } else {
        Some(region)
    }
}

/// The region that a new bucket is bound to. The default region must not be
/// named, every other has to be.
pub fn location_constraint(region: &str) -> (r: Option<String>)
    ensures
        opt_text(r) == bound_region(region@),
{
    if text_same(region, "us-east-1") {
        None
    } else {
        Some(region.to_owned())
    }
}

/// The parts of an answer that have a tag, in their order. A part without a
/// number counts as number zero.
pub open spec fn tagged_parts(raw: Seq<(Option<i32>, Option<String>)>) -> Seq<PartView>
    decreases raw.len(),
{
    if raw.len() == 0 {
        Seq::empty()
    } else {
        let front = tagged_parts(raw.drop_last());
        match raw.last().1 {
            Some(etag) => front.push(
                PartView {
                    part_number: match raw.last().0 {
                        Some(n) => n,
                        None => 0,
                    },
                    etag: etag@,
                },
            ),
            None => front,
        }
    }
}

/// The parts of an upload that an answer lists.
pub fn listed_parts(raw: &Vec<(Option<i32>, Option<String>)>) -> (r: Vec<UploadedPart>)
    ensures
        parts_view(r@) == tagged_parts(raw@),
{
    let mut out: Vec<UploadedPart> = Vec::new();
    let mut i: usize = 0;
    assert(parts_view(out@) =~= tagged_parts(raw@.take(0)));
    while i < raw.len()
        invariant
            i <= raw@.len(),
            parts_view(out@) == tagged_parts(raw@.take(i as int)),
        decreases raw@.len() - i,
    {
        let ghost before = parts_view(out@);
        assert(raw@.take(i + 1).drop_last() =~= raw@.take(i as int));
        assert(raw@.take(i + 1).last() == raw@[i as int]);
        if let Some(etag) = &raw[i].1 {
            let number: i32 = match raw[i].0 {
                Some(n) => n,
                None => 0,
            };
            out.push(UploadedPart { part_number: number, etag: etag.clone() });
            assert(parts_view(out@) =~= before.push(
                PartView { part_number: number, etag: etag@ },
            ));
        }
        i = i + 1;
    }
    assert(raw@.take(i as int) =~= raw@);
    out
}

/// Whether the failure to list the parts of an upload says that it is gone.
pub open spec fn is_gone(text: Seq<char>) -> bool {
    contains_text(text, "NoSuchUpload"@)
}

/// What it means that the parts of an upload could not be listed: an upload that
/// is gone has none; any other failure may pass.
pub fn list_failed(text: String) -> (r: Result<Vec<UploadedPart>, BackendError>)
    ensures
        if is_gone(text@) {
            r is Ok && r->Ok_0@.len() == 0
        } else {
            r is Err && r->Err_0@ == BackendErrorView::Transient(text@)
        },
{
    if text_contains(text.as_str(), "NoSuchUpload") {
        Ok(Vec::new())
    } else {
        Err(BackendError::Transient(text))
    }
}

/// The id of an upload that was begun. An answer without one is a failure.
pub fn created_upload(upload_id: Option<String>) -> (r: Result<String, BackendError>)
    ensures
        match upload_id {
            Some(id) => r == Ok::<String, BackendError>(id),
            None => r is Err && r->Err_0@ == BackendErrorView::Transient(
                "S3 returned no upload_id"@,
            ),
        },
{
    match upload_id {
        Some(id) => Ok(id),
        None => Err(BackendError::Transient("S3 returned no upload_id".to_owned())),
    }
}

/// The tag of a part that was sent. An answer without one is a failure.
pub fn sent_part(etag: Option<String>) -> (r: Result<String, BackendError>)
    ensures
        match etag {
            Some(tag) => r == Ok::<String, BackendError>(tag),
            None => r is Err && r->Err_0@ == BackendErrorView::Transient(
                "S3 returned no ETag for part"@,
            ),
        },
{
    match etag {
        Some(tag) => Ok(tag),
        None => Err(BackendError::Transient("S3 returned no ETag for part".to_owned())),
    }
}

} // verus!
