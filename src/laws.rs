use vstd::prelude::*;
use crate::blobs::{
    FilesView, read_file, temp_path, last_index, lemma_last_index_bounds, lemma_last_index_push,
    lemma_read_file_push,
};
use crate::depot::{
    DepotError, DepotView, RecordView, upload_spec, promote_spec, record_of, with_ident,
    named_channel,
};
use crate::ident::IdentView;

verus! {

proof fn lemma_last_index_update<T>(s: Seq<T>, i: int, x: T, p: spec_fn(T) -> bool)
    requires
        last_index(s, p) == Some(i),
        p(x),
    ensures
        last_index(s.update(i, x), p) == Some(i),
    decreases s.len(),
{
    lemma_last_index_bounds(s, p);
    if i < s.len() - 1 {
        assert(s.update(i, x).last() == s.last());
        assert(s.update(i, x).drop_last() =~= s.drop_last().update(i, x));
        lemma_last_index_update(s.drop_last(), i, x, p);
    }
}

/// Write-once: once an upload of a fully qualified identity succeeds,
/// another upload of that identity, with a checksum and whatever content,
/// is refused with `Conflict` and changes nothing.
pub proof fn lemma_write_once(
    s: DepotView,
    id: IdentView,
    checksum: Option<Seq<char>>,
    body: Seq<u8>,
    archive: Option<RecordView>,
    checksum2: Option<Seq<char>>,
    body2: Seq<u8>,
    archive2: Option<RecordView>,
)
    requires
        s.wf(),
        upload_spec(s, id, checksum, body, archive).1.is_ok(),
        checksum2.is_some(),
    ensures
        ({
            let s1 = upload_spec(s, id, checksum, body, archive).0;
            upload_spec(s1, id, checksum2, body2, archive2) == (s1, Err::<Seq<char>, DepotError>(
                DepotError::Conflict,
            ))
        }),
{
    let a = archive.unwrap();
    assert(a.ident == id);
    lemma_last_index_push(s.packages, a, with_ident(id));
}

/// Write-once, in any later state: while a record for `id` is stored, every
/// upload of `id` that carries a checksum is refused with `Conflict` and
/// changes nothing.
pub proof fn lemma_recorded_identity_is_taken(
    s: DepotView,
    id: IdentView,
    checksum: Option<Seq<char>>,
    body: Seq<u8>,
    archive: Option<RecordView>,
)
    requires
        s.wf(),
        record_of(s.packages, id).is_some(),
        checksum.is_some(),
    ensures
        upload_spec(s, id, checksum, body, archive) == (s, Err::<Seq<char>, DepotError>(
            DepotError::Conflict,
        )),
{
    lemma_last_index_bounds(s.packages, with_ident(id));
    let i = last_index(s.packages, with_ident(id)).unwrap();
    assert(s.packages[i].ident == id);
}

/// An upload whose archive's checksum differs from the claimed one never
/// adds a package record; where the request is otherwise well formed and
/// new, it is refused with `UnprocessableEntity`.
pub proof fn lemma_checksum_integrity(
    s: DepotView,
    id: IdentView,
    checksum: Option<Seq<char>>,
    body: Seq<u8>,
    archive: RecordView,
)
    requires
        checksum.is_some(),
        archive.checksum != checksum.unwrap(),
    ensures
        upload_spec(s, id, checksum, body, Some(archive)).0.packages == s.packages,
        id.fully_qualified() && record_of(s.packages, id).is_none() && read_file(
            s.files,
            crate::paths::archive_path(id),
        ).is_none() ==> upload_spec(s, id, checksum, body, Some(archive)).1 == Err::<
            Seq<char>,
            DepotError,
        >(DepotError::UnprocessableEntity),
{
}

/// An upload under a fully qualified identity whose archive carries a
/// different identity never adds a package record; where the request is
/// otherwise well formed and new, it is refused with `UnprocessableEntity`.
pub proof fn lemma_identity_reconciliation(
    s: DepotView,
    id: IdentView,
    checksum: Option<Seq<char>>,
    body: Seq<u8>,
    archive: RecordView,
)
    requires
        id.fully_qualified(),
        archive.ident != id,
    ensures
        upload_spec(s, id, checksum, body, Some(archive)).0.packages == s.packages,
        checksum.is_some() && record_of(s.packages, id).is_none() && read_file(
            s.files,
            crate::paths::archive_path(id),
        ).is_none() ==> upload_spec(s, id, checksum, body, Some(archive)).1 == Err::<
            Seq<char>,
            DepotError,
        >(DepotError::UnprocessableEntity),
{
    assert(!id.satisfied_by(archive.ident));
}

/// A write goes through a temporary file that is never the published
/// path; committing it changes what readers see at its path only, and
/// they then see the whole content.
pub proof fn lemma_atomic_visibility(files: FilesView, path: Seq<char>, bytes: Seq<u8>, other: Seq<char>)
    ensures
        temp_path(path) != path,
        read_file(files.push((path, bytes)), path) == Some(bytes),
        other != path ==> read_file(files.push((path, bytes)), other) == read_file(files, other),
{
    assert(temp_path(path).len() > path.len()) by {
        reveal_strlit(".tmp");
    }
    lemma_read_file_push(files, (path, bytes), path);
    lemma_read_file_push(files, (path, bytes), other);
}

/// Promoting the same identity into the same channel a second time
/// changes nothing and gives the same result.
pub proof fn lemma_promote_idempotent(s: DepotView, c: Seq<char>, id: IdentView)
    ensures
        ({
            let (s1, r1) = promote_spec(s, c, id);
            promote_spec(s1, c, id) == (s1, r1)
        }),
{
    match last_index(s.channels, named_channel(c)) {
        None => {},
        Some(ci) => {
            lemma_last_index_bounds(s.channels, named_channel(c));
            if record_of(s.packages, id).is_some() && !s.channels[ci].1.contains(id) {
                let m = s.channels[ci].1.push(id);
                lemma_last_index_update(s.channels, ci, (c, m), named_channel(c));
                let s1 = promote_spec(s, c, id).0;
                assert(s1.channels[ci].1 == m);
                assert(m[m.len() - 1] == id);
            }
        },
    }
}

} // verus!
