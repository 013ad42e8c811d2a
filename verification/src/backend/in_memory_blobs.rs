//! A remote blob store in memory, with uploads in parts.

use vstd::prelude::*;
use vstd::string::*;

use crate::backend::wire::{BackendError, BackendErrorView, PartView, UploadedPart};
use crate::blob::parts_view;
use crate::db::row::copy_bytes;
use crate::keyed::Keyed;
use crate::text::{decimal, decimal_int, decimal_int_text, decimal_text};

verus! {

/// An upload that is not complete: the key it is for, and its parts by number.
pub struct Upload {
    pub key: String,
    pub parts: Vec<(i32, Vec<u8>)>,
}

/// The tag of a part.
pub open spec fn etag_of(number: i32) -> Seq<char> {
    "part-"@ + decimal_int(number as int)
}

/// The bytes of the part that was sent last under a number.
pub open spec fn part_bytes(parts: Seq<(i32, Vec<u8>)>, number: int) -> Option<Seq<u8>>
    decreases parts.len(),
{
    if parts.len() == 0 {
        None
    } else if parts.last().0 == number {
        Some(parts.last().1@)
    } else {
        part_bytes(parts.drop_last(), number)
    }
}

/// The parts of an upload one after the other, as a list names them. Nothing
/// where one of them was not sent.
pub open spec fn assembled(parts: Seq<(i32, Vec<u8>)>, list: Seq<PartView>) -> Option<Seq<u8>>
    decreases list.len(),
{
    if list.len() == 0 {
        Some(Seq::empty())
    } else {
        match (
            assembled(parts, list.drop_last()),
            part_bytes(parts, list.last().part_number as int),
        ) {
            (Some(front), Some(bytes)) => Some(front + bytes),
            _ => None,
        }
    }
}

/// Blobs by key, and uploads by id.
pub struct InMemoryBlobStore {
    objects: Keyed<Vec<u8>>,
    uploads: Keyed<Upload>,
    next_upload: u128,
}

impl InMemoryBlobStore {
    /// The lists of blobs and uploads are in order.
    pub closed spec fn wf(&self) -> bool {
        self.objects.wf() && self.uploads.wf()
    }

    /// The blobs of the store.
    pub closed spec fn objects(&self) -> Map<Seq<char>, Vec<u8>> {
        self.objects@
    }

    /// The uploads of the store.
    pub closed spec fn uploads(&self) -> Map<Seq<char>, Upload> {
        self.uploads@
    }

    /// How many uploads were begun.
    pub closed spec fn begun(&self) -> nat {
        self.next_upload as nat
    }

    /// An empty store.
    pub fn new() -> (r: InMemoryBlobStore)
        ensures
            r.wf(),
            r.objects() == Map::<Seq<char>, Vec<u8>>::empty(),
            r.uploads() == Map::<Seq<char>, Upload>::empty(),
            r.begun() == 0,
    {
        InMemoryBlobStore { objects: Keyed::new(), uploads: Keyed::new(), next_upload: 0 }
    }

    /// Stores a blob in one piece.
    pub fn put_object(&mut self, key: &str, data: Vec<u8>)
        requires
            old(self).wf(),
        ensures
            final(self).wf(),
            final(self).objects() == old(self).objects().insert(key@, data),
            final(self).uploads() == old(self).uploads(),
            final(self).begun() == old(self).begun(),
    {
        self.put_under(key.to_owned(), data);
    }

    fn put_under(&mut self, key: String, data: Vec<u8>)
        requires
            old(self).wf(),
        ensures
            final(self).wf(),
            final(self).objects() == old(self).objects().insert(key@, data),
            final(self).uploads() == old(self).uploads(),
            final(self).begun() == old(self).begun(),
    {
        self.objects.put(key, data);
    }

    /// The bytes of a blob.
    pub fn get_object(&self, key: &str) -> (r: Result<Vec<u8>, BackendError>)
        requires
            self.wf(),
        ensures
            if self.objects().contains_key(key@) {
                r is Ok && r->Ok_0@ == self.objects()[key@]@
            } else {
                r is Err && r->Err_0@ == BackendErrorView::Transient("no such object: "@ + key@)
            },
    {
        match self.objects.get(key) {
            Some(data) => Ok(copy_bytes(data)),
            None => Err(BackendError::Transient("no such object: ".to_owned().concat(key))),
        }
    }

    /// Removes a blob, if it is there.
    pub fn delete_object(&mut self, key: &str)
        requires
            old(self).wf(),
        ensures
            final(self).wf(),
            final(self).objects() == old(self).objects().remove(key@),
            final(self).uploads() == old(self).uploads(),
            final(self).begun() == old(self).begun(),
    {
        let _ = self.objects.take(key);
    }

    /// Begins an upload in parts, and gives its id.
    pub fn create_multipart_upload(&mut self, key: &str) -> (r: String)
        requires
            old(self).wf(),
            old(self).begun() < u128::MAX,
        ensures
            final(self).wf(),
            final(self).begun() == old(self).begun() + 1,
            r@ == "upload-"@ + decimal(final(self).begun()),
            final(self).objects() == old(self).objects(),
            final(self).uploads().contains_key(r@),
            final(self).uploads()[r@].key@ == key@,
            final(self).uploads()[r@].parts@.len() == 0,
            final(self).uploads().remove(r@) == old(self).uploads().remove(r@),
    {
        self.next_upload = self.next_upload + 1;
        let number = decimal_text(self.next_upload);
        let id = "upload-".to_owned().concat(number.as_str());
        let upload = Upload { key: key.to_owned(), parts: Vec::new() };
        let name = id.clone();
        self.uploads.put(name, upload);
        assert(self.uploads@.remove(id@) =~= old(self).uploads@.remove(id@));
        id
    }

    /// Takes a part of an upload, and gives its tag.
    pub fn upload_part(&mut self, upload_id: &str, part_number: i32, data: Vec<u8>) -> (r: Result<
        String,
        BackendError,
    >)
        requires
            old(self).wf(),
        ensures
            final(self).wf(),
            final(self).objects() == old(self).objects(),
            final(self).begun() == old(self).begun(),
            if old(self).uploads().contains_key(upload_id@) {
                &&& r is Ok
                &&& r->Ok_0@ == etag_of(part_number)
                &&& final(self).uploads().contains_key(upload_id@)
                &&& final(self).uploads()[upload_id@].key == old(self).uploads()[upload_id@].key
                &&& final(self).uploads()[upload_id@].parts@ == old(
                    self,
                ).uploads()[upload_id@].parts@.push((part_number, data))
                &&& final(self).uploads().remove(upload_id@) == old(self).uploads().remove(
                    upload_id@,
                )
            } else {
                &&& r is Err
                &&& r->Err_0@ == BackendErrorView::Transient("NoSuchUpload: "@ + upload_id@)
                &&& final(self).uploads() == old(self).uploads()
            },
    {
        match self.uploads.take(upload_id) {
            None => {
                assert(old(self).uploads@.remove(upload_id@) =~= old(self).uploads@);
                Err(BackendError::Transient("NoSuchUpload: ".to_owned().concat(upload_id)))
            },
            Some(mut upload) => {
                upload.parts.push((part_number, data));
                self.uploads.put(upload_id.to_owned(), upload);
                assert(self.uploads@.remove(upload_id@) =~= old(self).uploads@.remove(upload_id@));
                let number = decimal_int_text(part_number as i64);
                Ok("part-".to_owned().concat(number.as_str()))
            },
        }
    }

    /// The parts of an upload that were sent. An upload that is gone has none.
    pub fn list_parts(&self, upload_id: &str) -> (r: Vec<UploadedPart>)
        requires
            self.wf(),
        ensures
            if self.uploads().contains_key(upload_id@) {
                let parts = self.uploads()[upload_id@].parts@;
                parts_view(r@) == Seq::new(
                    parts.len(),
                    |i: int| PartView { part_number: parts[i].0, etag: etag_of(parts[i].0) },
                )
            } else {
                r@.len() == 0
            },
    {
        let mut out: Vec<UploadedPart> = Vec::new();
        if let Some(upload) = self.uploads.get(upload_id) {
            let mut i: usize = 0;
            while i < upload.parts.len()
                invariant
                    i <= upload.parts@.len(),
                    out@.len() == i,
                    forall|k: int|
                        0 <= k < i ==> (#[trigger] out@[k])@ == (PartView {
                            part_number: upload.parts@[k].0,
                            etag: etag_of(upload.parts@[k].0),
                        }),
                decreases upload.parts@.len() - i,
            {
                let part_number: i32 = upload.parts[i].0;
                let number = decimal_int_text(part_number as i64);
                let etag = "part-".to_owned().concat(number.as_str());
                out.push(UploadedPart { part_number, etag });
                i = i + 1;
            }
            assert(parts_view(out@) =~= Seq::new(
                upload.parts@.len(),
                |i: int|
                    PartView {
                        part_number: upload.parts@[i].0,
                        etag: etag_of(upload.parts@[i].0),
                    },
            ));
        }
        out
    }

    /// Completes an upload: the parts that the list names, one after the other,
    /// become the blob of its key. It fails, and leaves everything as it is,
    /// where the upload is gone or one of the parts was not sent.
    pub fn complete_multipart_upload(&mut self, upload_id: &str, list: &Vec<UploadedPart>) -> (r:
        Result<(), BackendError>)
        requires
            old(self).wf(),
        ensures
            final(self).wf(),
            final(self).begun() == old(self).begun(),
            if !old(self).uploads().contains_key(upload_id@) {
                &&& r is Err
                &&& r->Err_0@ == BackendErrorView::Transient("NoSuchUpload: "@ + upload_id@)
                &&& final(self).objects() == old(self).objects()
                &&& final(self).uploads() == old(self).uploads()
            } else {
                let upload = old(self).uploads()[upload_id@];
                match assembled(upload.parts@, parts_view(list@)) {
                    Some(bytes) => {
                        &&& r is Ok
                        &&& final(self).objects().contains_key(upload.key@)
                        &&& final(self).objects()[upload.key@]@ == bytes
                        &&& final(self).objects().remove(upload.key@) == old(
                            self,
                        ).objects().remove(upload.key@)
                        &&& final(self).uploads() == old(self).uploads().remove(upload_id@)
                    },
                    None => {
                        &&& r is Err
                        &&& r->Err_0@ == BackendErrorView::Transient(
                            "InvalidPart: "@ + upload_id@,
                        )
                        &&& final(self).objects() == old(self).objects()
                        &&& final(self).uploads() == old(self).uploads()
                    },
                }
            },
    {
        let (key, bytes): (String, Option<Vec<u8>>) = match self.uploads.get(upload_id) {
            None => {
                return Err(
                    BackendError::Transient("NoSuchUpload: ".to_owned().concat(upload_id)),
                );
            },
            Some(upload) => (upload.key.clone(), assemble(&upload.parts, list)),
        };
        match bytes {
            None => Err(BackendError::Transient("InvalidPart: ".to_owned().concat(upload_id))),
            Some(data) => {
                let _ = self.uploads.take(upload_id);
                let ghost name = key@;
                self.put_under(key, data);
                assert(self.objects@.remove(name) =~= old(self).objects@.remove(name));
                Ok(())
            },
        }
    }
}

fn find_part<'a>(parts: &'a Vec<(i32, Vec<u8>)>, number: i32) -> (r: Option<&'a Vec<u8>>)
    ensures
        match part_bytes(parts@, number as int) {
            Some(b) => r is Some && r->0@ == b,
            None => r is None,
        },
{
    let mut i: usize = parts.len();
    assert(parts@.take(i as int) =~= parts@);
    while i > 0
        invariant
            i <= parts@.len(),
            part_bytes(parts@, number as int) == part_bytes(parts@.take(i as int), number as int),
        decreases i,
    {
        assert(parts@.take(i as int).drop_last() =~= parts@.take(i - 1));
        assert(parts@.take(i as int).last() == parts@[i - 1]);
        if parts[i - 1].0 == number {
            return Some(&parts[i - 1].1);
        }
        i = i - 1;
    }
    None
}

/// A list that names a part that was not sent cannot be assembled, whatever
/// comes after it.
proof fn lemma_not_assembled(parts: Seq<(i32, Vec<u8>)>, list: Seq<PartView>, k: int)
    requires
        0 <= k <= list.len(),
        assembled(parts, list.take(k)) is None,
    ensures
        assembled(parts, list) is None,
    decreases list.len(),
{
    if k == list.len() {
        assert(list.take(k) =~= list);
    } else {
        assert(list.drop_last().take(k) =~= list.take(k));
        lemma_not_assembled(parts, list.drop_last(), k);
    }
}

fn assemble(parts: &Vec<(i32, Vec<u8>)>, list: &Vec<UploadedPart>) -> (r: Option<Vec<u8>>)
    ensures
        match assembled(parts@, parts_view(list@)) {
            Some(b) => r is Some && r->0@ == b,
            None => r is None,
        },
{
    let ghost view = parts_view(list@);
    let mut out: Vec<u8> = Vec::new();
    let mut i: usize = 0;
    assert(out@ =~= Seq::<u8>::empty());
    assert(assembled(parts@, view.take(0)) == Some(out@));
    while i < list.len()
        invariant
            i <= list@.len(),
            view == parts_view(list@),
            assembled(parts@, view.take(i as int)) == Some(out@),
        decreases list@.len() - i,
    {
        assert(view.take(i + 1).drop_last() =~= view.take(i as int));
        assert(view.take(i + 1).last() == list@[i as int]@);
        match find_part(parts, list[i].part_number) {
            None => {
                proof {
                    lemma_not_assembled(parts@, view, i + 1);
                }
                return None;
            },
            Some(bytes) => {
                let ghost before = out@;
                out.extend_from_slice(bytes.as_slice());
                assert(out@ =~= before + bytes@);
            },
        }
        i = i + 1;
    }
    assert(view.take(i as int) =~= view);
    Some(out)
}

/// Of the parts that were sent under one number the last counts, and a number
/// that was never sent has no bytes.
pub proof fn law_last_sent_part_counts(parts: Seq<(i32, Vec<u8>)>, number: int, i: int)
    ensures
        0 <= i < parts.len() && parts[i].0 == number && (forall|k: int|
            i < k < parts.len() ==> (#[trigger] parts[k]).0 != number) ==> part_bytes(parts, number)
            == Some(parts[i].1@),
        (forall|k: int| 0 <= k < parts.len() ==> (#[trigger] parts[k]).0 != number) ==> part_bytes(
            parts,
            number,
        ) is None,
    decreases parts.len(),
{
    if parts.len() > 0 {
        let front = parts.drop_last();
        assert(parts.last() == parts[parts.len() - 1]);
        law_last_sent_part_counts(front, number, i);
        if forall|k: int| 0 <= k < parts.len() ==> (#[trigger] parts[k]).0 != number {
            assert(forall|k: int| 0 <= k < front.len() ==> (#[trigger] front[k]) == parts[k]);
        }
        if 0 <= i < parts.len() - 1 && parts[i].0 == number && (forall|k: int|
            i < k < parts.len() ==> (#[trigger] parts[k]).0 != number) {
            assert(front[i] == parts[i]);
            assert(forall|k: int| i < k < front.len() ==> (#[trigger] front[k]) == parts[k]);
        }
    }
}

/// What two lists name one after the other is put together of what each of them
/// names, and cannot be where one of them cannot. A list of one part gives that
/// part.
pub proof fn law_assembly_joins(
    parts: Seq<(i32, Vec<u8>)>,
    first: Seq<PartView>,
    second: Seq<PartView>,
    one: PartView,
)
    ensures
        assembled(parts, first + second) is Some <==> assembled(parts, first) is Some && assembled(
            parts,
            second,
        ) is Some,
        assembled(parts, first + second) is Some ==> assembled(parts, first + second)->0
            == assembled(parts, first)->0 + assembled(parts, second)->0,
        assembled(parts, seq![one]) == part_bytes(parts, one.part_number as int),
    decreases second.len(),
{
    let single = seq![one];
    assert(single.drop_last() =~= Seq::<PartView>::empty());
    assert(assembled(parts, single.drop_last()) == Some(Seq::<u8>::empty()));
    if let Some(bytes) = part_bytes(parts, one.part_number as int) {
        assert(Seq::<u8>::empty() + bytes =~= bytes);
    }
    if second.len() == 0 {
        assert(first + second =~= first);
        if let Some(bytes) = assembled(parts, first) {
            assert(bytes + Seq::<u8>::empty() =~= bytes);
        }
    } else {
        law_assembly_joins(parts, first, second.drop_last(), one);
        assert((first + second).drop_last() =~= first + second.drop_last());
        assert((first + second).last() == second.last());
        if let Some(all) = assembled(parts, first + second) {
            let a = assembled(parts, first)->0;
            let b = assembled(parts, second.drop_last())->0;
            let c = part_bytes(parts, second.last().part_number as int)->0;
            assert(a + b + c =~= a + (b + c));
        }
    }
}

/// The tags of different parts differ.
pub proof fn law_tags_tell_parts_apart(a: i32, b: i32)
    requires
        a >= 0,
        b >= 0,
        etag_of(a) == etag_of(b),
    ensures
        a == b,
{
    crate::text_laws::law_numerals_differ(a as nat, b as nat);
    let n = "part-"@.len() as int;
    assert(etag_of(a).skip(n) =~= decimal_int(a as int));
    assert(etag_of(b).skip(n) =~= decimal_int(b as int));
}

/// The parts of a file, cut as an upload cuts it, are the file again when they
/// are put together in order: a list of `n` parts in their places gives the
/// file up to the end of the last.
pub proof fn law_parts_make_the_file(
    file: Seq<u8>,
    parts: Seq<(i32, Vec<u8>)>,
    list: Seq<PartView>,
    n: nat,
)
    requires
        list.len() == n,
        n <= crate::blob::part_count(file.len()),
        forall|i: int| 0 <= i < n ==> (#[trigger] list[i]).part_number == i + 1,
        forall|k: int|
            1 <= k <= n ==> #[trigger] part_bytes(parts, k) == Some(
                file.subrange(
                    crate::blob::part_offset(k),
                    crate::blob::part_offset(k) + crate::blob::part_len(k, file.len()),
                ),
            ),
    ensures
        n > 0 ==> assembled(parts, list) == Some(
            file.take(
                crate::blob::part_offset(n as int) + crate::blob::part_len(n as int, file.len()),
            ),
        ),
        n == crate::blob::part_count(file.len()) ==> assembled(parts, list) == Some(file),
    decreases n,
{
    let size = file.len();
    if n > 0 {
        let m = (n - 1) as nat;
        let front = list.drop_last();
        assert forall|i: int| 0 <= i < m implies (#[trigger] front[i]).part_number == i + 1 by {
            assert(list[i] == front[i]);
        }
        law_parts_make_the_file(file, parts, front, m);
        crate::blob::lemma_parts(size, n as int);
        assert(list[n - 1].part_number == n);
        let off = crate::blob::part_offset(n as int);
        let len = crate::blob::part_len(n as int, size);
        assert(part_bytes(parts, n as int) == Some(file.subrange(off, off + len)));
        if m > 0 {
            crate::blob_laws::law_parts_lie_end_to_end(size, m as int);
            assert(file.take(off) + file.subrange(off, off + len) =~= file.take(off + len));
        } else {
            assert(off == 0);
            assert(Seq::<u8>::empty() + file.subrange(off, off + len) =~= file.take(off + len));
        }
        if n == crate::blob::part_count(size) {
            assert(file.take(off + len) =~= file);
        }
    } else {
        crate::blob_laws::law_part_count(size);
        if n == crate::blob::part_count(size) {
            assert(file =~= Seq::<u8>::empty());
        }
    }
}

} // verus!
