use vstd::prelude::*;
use crate::blobs::{BlobStore, FilesView, read_file, last_index, lemma_last_index_bounds, lemma_read_file_push};
use crate::ident::{IdentView, PackageIdent, opt_view};
use crate::paths::{
    archive_path, archive_filename, package_location, make_archive_path, make_archive_filename,
    make_package_location,
};
use crate::version::{ident_lt, compare_idents, chars_cmp, chars_of, cmp_chars};
use crate::paths::{
    key_path, key_filename, key_location, member_location, make_key_path, make_key_filename,
    make_key_location, make_member_location,
};

verus! {

/// How an operation of the depot can fail.
#[derive(Clone, Copy, Debug, PartialEq, Eq, Structural)]
pub enum DepotError {
    /// A required parameter is missing, or an identity is not fully
    /// qualified where it must be.
    BadRequest,
    /// The identity or key revision is already present.
    Conflict,
    /// The archive does not match its claimed checksum or identity, or
    /// cannot be read.
    UnprocessableEntity,
    /// No record, file, origin or channel for the request.
    NotFound,
    /// A stored record has no file behind it.
    InternalFault,
}

/// A package record as a mathematical value.
pub struct RecordView {
    pub ident: IdentView,
    pub checksum: Seq<char>,
    pub manifest: Seq<char>,
}

/// The record of an uploaded package: its identity, the checksum of its
/// archive, and the archive's metadata, which this crate does not read.
#[derive(Debug)]
pub struct PackageRecord {
    pub ident: PackageIdent,
    pub checksum: String,
    pub manifest: String,
}

impl View for PackageRecord {
    type V = RecordView;

    open spec fn view(&self) -> RecordView {
        RecordView { ident: self.ident@, checksum: self.checksum@, manifest: self.manifest@ }
    }
}

impl PackageRecord {
    pub fn new(ident: PackageIdent, checksum: String, manifest: String) -> (r: Self)
        ensures
            r@ == (RecordView { ident: ident@, checksum: checksum@, manifest: manifest@ }),
    {
        PackageRecord { ident, checksum, manifest }
    }

    pub fn duplicate(&self) -> (r: Self)
        ensures
            r@ == self@,
    {
        PackageRecord {
            ident: self.ident.duplicate(),
            checksum: self.checksum.clone(),
            manifest: self.manifest.clone(),
        }
    }
}

/// A downloadable file: its content and the name offered for it.
#[derive(Debug)]
pub struct Download {
    pub bytes: Vec<u8>,
    pub filename: String,
}

/// A named channel and the identities promoted into it, in order.
pub struct Channel {
    pub name: String,
    pub members: Vec<PackageIdent>,
}

/// An origin and its members.
pub struct Origin {
    pub name: String,
    pub members: Vec<String>,
}

/// The whole state of a depot as a mathematical value.
pub struct DepotView {
    pub packages: Seq<RecordView>,
    pub files: FilesView,
    pub keys: Seq<(Seq<char>, Seq<char>)>,
    pub secret_keys: Seq<(Seq<char>, Seq<char>, Seq<char>)>,
    pub origins: Seq<(Seq<char>, Seq<Seq<char>>)>,
    pub channels: Seq<(Seq<char>, Seq<IdentView>)>,
}

pub open spec fn with_ident(id: IdentView) -> spec_fn(RecordView) -> bool {
    |r: RecordView| r.ident == id
}

/// The record stored for `id`, if any.
pub open spec fn record_of(packages: Seq<RecordView>, id: IdentView) -> Option<RecordView> {
    match last_index(packages, with_ident(id)) {
        Some(i) => Some(packages[i]),
        None => None,
    }
}

pub open spec fn named_channel(name: Seq<char>) -> spec_fn((Seq<char>, Seq<IdentView>)) -> bool {
    |c: (Seq<char>, Seq<IdentView>)| c.0 == name
}

/// The members of the channel called `name`, if there is one.
pub open spec fn channel_of(s: DepotView, name: Seq<char>) -> Option<Seq<IdentView>> {
    match last_index(s.channels, named_channel(name)) {
        Some(i) => Some(s.channels[i].1),
        None => None,
    }
}

/// Of the identities in `s` that satisfy `q`, the newest by `ident_lt`;
/// among equally new ones, the first.
pub open spec fn latest_matching(s: Seq<IdentView>, q: IdentView) -> Option<IdentView>
    decreases s.len(),
{
    if s.len() == 0 {
        None
    } else {
        let x = s.last();
        let prev = latest_matching(s.drop_last(), q);
        if !q.satisfied_by(x) {
            prev
        } else {
            match prev {
                None => Some(x),
                Some(b) => if ident_lt(b, x) {
                    Some(x)
                } else {
                    Some(b)
                },
            }
        }
    }
}

pub open spec fn idents_of(packages: Seq<RecordView>) -> Seq<IdentView> {
    packages.map_values(|r: RecordView| r.ident)
}

impl DepotView {
    /// Every record is fully qualified and has its archive stored.
    pub open spec fn wf(self) -> bool {
        forall|i: int|
            0 <= i < self.packages.len() ==> {
                &&& (#[trigger] self.packages[i]).ident.fully_qualified()
                &&& read_file(self.files, archive_path(self.packages[i].ident)).is_some()
            }
    }

    pub open spec fn with_files(self, files: FilesView) -> DepotView {
        DepotView { files, ..self }
    }

    pub open spec fn with_packages(self, packages: Seq<RecordView>) -> DepotView {
        DepotView { packages, ..self }
    }

    pub open spec fn with_channels(self, channels: Seq<(Seq<char>, Seq<IdentView>)>) -> DepotView {
        DepotView { channels, ..self }
    }
}

/// The outcome of a package upload. `archive` is what the extractor reads
/// from `body`, or `None` where it cannot read it.
pub open spec fn upload_spec(
    s: DepotView,
    id: IdentView,
    checksum: Option<Seq<char>>,
    body: Seq<u8>,
    archive: Option<RecordView>,
) -> (DepotView, Result<Seq<char>, DepotError>) {
    if checksum.is_none() || !id.fully_qualified() {
        (s, Err(DepotError::BadRequest))
    } else if record_of(s.packages, id).is_some() || read_file(s.files, archive_path(id)).is_some() {
        (s, Err(DepotError::Conflict))
    } else {
        let s1 = s.with_files(s.files.push((archive_path(id), body)));
        match archive {
            None => (s1, Err(DepotError::UnprocessableEntity)),
            Some(a) => if a.checksum != checksum.unwrap() || !id.satisfied_by(a.ident) {
                (s1, Err(DepotError::UnprocessableEntity))
            } else {
                (s1.with_packages(s.packages.push(a)), Ok(package_location(a.ident)))
            },
        }
    }
}

/// The package that a lookup of `q` resolves to, in the channel `channel`
/// where one is given: `q` itself where it is fully qualified, else the
/// latest that satisfies it.
pub open spec fn show_spec(s: DepotView, q: IdentView, channel: Option<Seq<char>>) -> Result<
    RecordView,
    DepotError,
> {
    let target = match channel {
        None => if q.fully_qualified() {
            Some(q)
        } else {
            latest_matching(idents_of(s.packages), q)
        },
        Some(c) => match channel_of(s, c) {
            None => None,
            Some(members) => if q.fully_qualified() {
                if members.contains(q) {
                    Some(q)
                } else {
                    None
                }
            } else {
                latest_matching(members, q)
            },
        },
    };
    match target {
        None => Err(DepotError::NotFound),
        Some(t) => match record_of(s.packages, t) {
            Some(r) => Ok(r),
            None => Err(DepotError::NotFound),
        },
    }
}

/// The archive of the package `id`, for download.
pub open spec fn download_spec(s: DepotView, id: IdentView) -> Result<(Seq<u8>, Seq<char>), DepotError> {
    match record_of(s.packages, id) {
        None => Err(DepotError::NotFound),
        Some(r) => match read_file(s.files, archive_path(r.ident)) {
            None => Err(DepotError::InternalFault),
            Some(b) => Ok((b, archive_filename(r.ident))),
        },
    }
}

/// Adds `id` to the channel `c`, where both exist; a member stays once.
pub open spec fn promote_spec(s: DepotView, c: Seq<char>, id: IdentView) -> (DepotView, Result<(), DepotError>) {
    match last_index(s.channels, named_channel(c)) {
        None => (s, Err(DepotError::NotFound)),
        Some(ci) => if record_of(s.packages, id).is_none() {
            (s, Err(DepotError::NotFound))
        } else if s.channels[ci].1.contains(id) {
            (s, Ok(()))
        } else {
            (s.with_channels(s.channels.update(ci, (c, s.channels[ci].1.push(id)))), Ok(()))
        },
    }
}

/// Creates an empty channel `c`, unless one exists.
pub open spec fn create_channel_spec(s: DepotView, c: Seq<char>) -> (DepotView, Result<(), DepotError>) {
    if channel_of(s, c).is_some() {
        (s, Err(DepotError::Conflict))
    } else {
        (s.with_channels(s.channels.push((c, Seq::<IdentView>::empty()))), Ok(()))
    }
}

/// `x` is listed under `origin`, and under `name` and `version` where given.
pub open spec fn listed(origin: Seq<char>, name: Option<Seq<char>>, version: Option<Seq<char>>, x: IdentView) -> bool {
    &&& x.origin == origin
    &&& (name.is_some() ==> x.name == name.unwrap())
    &&& (version.is_some() ==> x.version == version)
}

/// The identities of `s` that are listed under the prefix, in order.
pub open spec fn select_listed(
    s: Seq<IdentView>,
    origin: Seq<char>,
    name: Option<Seq<char>>,
    version: Option<Seq<char>>,
) -> Seq<IdentView>
    decreases s.len(),
{
    if s.len() == 0 {
        Seq::<IdentView>::empty()
    } else {
        let p = select_listed(s.drop_last(), origin, name, version);
        if listed(origin, name, version, s.last()) {
            p.push(s.last())
        } else {
            p
        }
    }
}

/// The identities under a prefix: of all packages, or of the members of
/// `channel` where one is given.
pub open spec fn list_spec(
    s: DepotView,
    origin: Seq<char>,
    name: Option<Seq<char>>,
    version: Option<Seq<char>>,
    channel: Option<Seq<char>>,
) -> Result<Seq<IdentView>, DepotError> {
    match channel {
        None => Ok(select_listed(idents_of(s.packages), origin, name, version)),
        Some(c) => match channel_of(s, c) {
            None => Err(DepotError::NotFound),
            Some(m) => Ok(select_listed(m, origin, name, version)),
        },
    }
}

pub open spec fn idents_view(v: Vec<PackageIdent>) -> Seq<IdentView> {
    v@.map_values(|i: PackageIdent| i@)
}

pub open spec fn list_view(r: Result<Vec<PackageIdent>, DepotError>) -> Result<Seq<IdentView>, DepotError> {
    match r {
        Ok(v) => Ok(idents_view(v)),
        Err(e) => Err(e),
    }
}

/// Whether `q` is among `v`.
pub fn contains_ident(v: &Vec<PackageIdent>, q: &PackageIdent) -> (r: bool)
    ensures
        r == idents_view(*v).contains(q@),
{
    let mut i: usize = 0;
    while i < v.len()
        invariant
            i <= v@.len(),
            forall|j: int| 0 <= j < i ==> idents_view(*v)[j] != q@,
        decreases v.len() - i,
    {
        if v[i].same_as(q) {
            assert(idents_view(*v)[i as int] == q@);
            return true;
        }
        i = i + 1;
    }
    false
}

/// The position in `v` of the identity that `latest_matching` picks.
pub fn latest_among(v: &Vec<PackageIdent>, q: &PackageIdent) -> (r: Option<usize>)
    ensures
        match r {
            Some(i) => i < v@.len() && latest_matching(idents_view(*v), q@) == Some(v@[i as int]@),
            None => latest_matching(idents_view(*v), q@).is_none(),
        },
{
    let ghost w = idents_view(*v);
    let mut best: Option<usize> = None;
    let mut i: usize = 0;
    assert(w.take(0) =~= Seq::<IdentView>::empty());
    while i < v.len()
        invariant
            i <= v@.len(),
            w == idents_view(*v),
            match best {
                Some(b) => b < i && latest_matching(w.take(i as int), q@) == Some(v@[b as int]@),
                None => latest_matching(w.take(i as int), q@).is_none(),
            },
        decreases v.len() - i,
    {
        assert(w.take(i + 1).drop_last() =~= w.take(i as int));
        assert(w.take(i + 1).last() == v@[i as int]@);
        if q.satisfies(&v[i]) {
            match best {
                None => {
                    best = Some(i);
                },
                Some(b) => {
                    if compare_idents(&v[b], &v[i]) < 0 {
                        best = Some(i);
                    }
                },
            }
        }
        i = i + 1;
    }
    assert(w.take(v@.len() as int) =~= w);
    best
}

/// The identities of `v` listed under the prefix, in order.
pub fn select_listed_idents(
    v: &Vec<PackageIdent>,
    origin: &String,
    name: &Option<String>,
    version: &Option<String>,
) -> (r: Vec<PackageIdent>)
    ensures
        idents_view(r) == select_listed(idents_view(*v), origin@, opt_view(*name), opt_view(*version)),
{
    let ghost w = idents_view(*v);
    let mut r: Vec<PackageIdent> = Vec::new();
    let mut i: usize = 0;
    assert(w.take(0) =~= Seq::<IdentView>::empty());
    while i < v.len()
        invariant
            i <= v@.len(),
            w == idents_view(*v),
            idents_view(r) == select_listed(w.take(i as int), origin@, opt_view(*name), opt_view(*version)),
        decreases v.len() - i,
    {
        assert(w.take(i + 1).drop_last() =~= w.take(i as int));
        assert(w.take(i + 1).last() == v@[i as int]@);
        let x = &v[i];
        let name_ok = match name {
            Some(n) => x.name == *n,
            None => true,
        };
        let version_ok = match version {
            Some(_) => crate::ident::opt_eq(&x.version, version),
            None => true,
        };
        if x.origin == *origin && name_ok && version_ok {
            let ghost before = idents_view(r);
            r.push(x.duplicate());
            assert(idents_view(r) =~= before.push(x@));
        }
        i = i + 1;
    }
    assert(w.take(v@.len() as int) =~= w);
    r
}

pub open spec fn key_named(o: Seq<char>, r: Seq<char>) -> spec_fn((Seq<char>, Seq<char>)) -> bool {
    |k: (Seq<char>, Seq<char>)| k.0 == o && k.1 == r
}

pub open spec fn secret_named(o: Seq<char>, r: Seq<char>) -> spec_fn((Seq<char>, Seq<char>, Seq<char>)) -> bool {
    |k: (Seq<char>, Seq<char>, Seq<char>)| k.0 == o && k.1 == r
}

/// A public key record exists for revision `r` of origin `o`.
pub open spec fn has_key(s: DepotView, o: Seq<char>, r: Seq<char>) -> bool {
    last_index(s.keys, key_named(o, r)).is_some()
}

/// A secret key is stored for revision `r` of origin `o`.
pub open spec fn has_secret_key(s: DepotView, o: Seq<char>, r: Seq<char>) -> bool {
    last_index(s.secret_keys, secret_named(o, r)).is_some()
}

/// Uploads the public key of revision `r` of origin `o`: its record first,
/// then its file. Write-once: `Conflict` where either exists.
pub open spec fn upload_key_spec(s: DepotView, o: Seq<char>, r: Seq<char>, body: Seq<u8>) -> (
    DepotView,
    Result<Seq<char>, DepotError>,
) {
    if has_key(s, o, r) || read_file(s.files, key_path(o, r)).is_some() {
        (s, Err(DepotError::Conflict))
    } else {
        (
            DepotView { keys: s.keys.push((o, r)), files: s.files.push((key_path(o, r), body)), ..s },
            Ok(key_location(o, r)),
        )
    }
}

/// Stores the secret key of revision `r` of origin `o`, which needs its
/// public key; a stored secret key is not overwritten.
pub open spec fn upload_secret_key_spec(s: DepotView, o: Seq<char>, r: Seq<char>, content: Seq<char>) -> (
    DepotView,
    Result<Seq<char>, DepotError>,
) {
    if !has_key(s, o, r) {
        (s, Err(DepotError::NotFound))
    } else if has_secret_key(s, o, r) {
        (s, Err(DepotError::Conflict))
    } else {
        (DepotView { secret_keys: s.secret_keys.push((o, r, content)), ..s }, Ok(key_location(o, r)))
    }
}

/// The file of the public key of revision `r` of origin `o`.
pub open spec fn download_key_spec(s: DepotView, o: Seq<char>, r: Seq<char>) -> Result<(Seq<u8>, Seq<char>), DepotError> {
    match read_file(s.files, key_path(o, r)) {
        Some(b) => Ok((b, key_filename(o, r))),
        None => Err(DepotError::NotFound),
    }
}

/// The greatest revision of origin `o` by `chars_cmp`; among equal ones,
/// the first.
pub open spec fn latest_revision(keys: Seq<(Seq<char>, Seq<char>)>, o: Seq<char>) -> Option<Seq<char>>
    decreases keys.len(),
{
    if keys.len() == 0 {
        None
    } else {
        let k = keys.last();
        let prev = latest_revision(keys.drop_last(), o);
        if k.0 != o {
            prev
        } else {
            match prev {
                None => Some(k.1),
                Some(b) => if chars_cmp(b, k.1) < 0 {
                    Some(k.1)
                } else {
                    Some(b)
                },
            }
        }
    }
}

pub open spec fn download_latest_key_spec(s: DepotView, o: Seq<char>) -> Result<(Seq<u8>, Seq<char>), DepotError> {
    match latest_revision(s.keys, o) {
        None => Err(DepotError::NotFound),
        Some(r) => download_key_spec(s, o, r),
    }
}

/// The revisions of origin `o`, in order of upload.
pub open spec fn revisions_of(keys: Seq<(Seq<char>, Seq<char>)>, o: Seq<char>) -> Seq<Seq<char>>
    decreases keys.len(),
{
    if keys.len() == 0 {
        Seq::<Seq<char>>::empty()
    } else {
        let p = revisions_of(keys.drop_last(), o);
        if keys.last().0 == o {
            p.push(keys.last().1)
        } else {
            p
        }
    }
}

pub open spec fn origin_named(o: Seq<char>) -> spec_fn((Seq<char>, Seq<Seq<char>>)) -> bool {
    |e: (Seq<char>, Seq<Seq<char>>)| e.0 == o
}

/// The members of origin `o`, if it exists.
pub open spec fn members_of(s: DepotView, o: Seq<char>) -> Option<Seq<Seq<char>>> {
    match last_index(s.origins, origin_named(o)) {
        Some(i) => Some(s.origins[i].1),
        None => None,
    }
}

/// Creates origin `o` with `owner` as its only member.
pub open spec fn create_origin_spec(s: DepotView, o: Seq<char>, owner: Seq<char>) -> (
    DepotView,
    Result<Seq<char>, DepotError>,
) {
    if members_of(s, o).is_some() {
        (s, Err(DepotError::Conflict))
    } else {
        (DepotView { origins: s.origins.push((o, seq![owner])), ..s }, Ok(member_location(o, owner)))
    }
}

/// Removes the record of origin `o`, and nothing else.
pub open spec fn delete_origin_spec(s: DepotView, o: Seq<char>) -> (DepotView, Result<(), DepotError>) {
    match last_index(s.origins, origin_named(o)) {
        None => (s, Err(DepotError::NotFound)),
        Some(i) => (DepotView { origins: s.origins.remove(i), ..s }, Ok(())),
    }
}

/// Adds `u` to the members of origin `o`; a member stays once.
pub open spec fn add_member_spec(s: DepotView, o: Seq<char>, u: Seq<char>) -> (DepotView, Result<(), DepotError>) {
    match last_index(s.origins, origin_named(o)) {
        None => (s, Err(DepotError::NotFound)),
        Some(i) => if s.origins[i].1.contains(u) {
            (s, Ok(()))
        } else {
            (DepotView { origins: s.origins.update(i, (o, s.origins[i].1.push(u))), ..s }, Ok(()))
        },
    }
}

/// `s` without any occurrence of `u`.
pub open spec fn without(s: Seq<Seq<char>>, u: Seq<char>) -> Seq<Seq<char>>
    decreases s.len(),
{
    if s.len() == 0 {
        s
    } else if s.last() == u {
        without(s.drop_last(), u)
    } else {
        without(s.drop_last(), u).push(s.last())
    }
}

/// Removes `u` from the members of origin `o`.
pub open spec fn remove_member_spec(s: DepotView, o: Seq<char>, u: Seq<char>) -> (DepotView, Result<(), DepotError>) {
    match last_index(s.origins, origin_named(o)) {
        None => (s, Err(DepotError::NotFound)),
        Some(i) => (
            DepotView { origins: s.origins.update(i, (o, without(s.origins[i].1, u))), ..s },
            Ok(()),
        ),
    }
}

pub open spec fn strings_view(v: Vec<String>) -> Seq<Seq<char>> {
    v@.map_values(|m: String| m@)
}

fn contains_string(v: &Vec<String>, u: &String) -> (r: bool)
    ensures
        r == strings_view(*v).contains(u@),
{
    let mut i: usize = 0;
    while i < v.len()
        invariant
            i <= v@.len(),
            forall|j: int| 0 <= j < i ==> strings_view(*v)[j] != u@,
        decreases v.len() - i,
    {
        if v[i] == *u {
            assert(strings_view(*v)[i as int] == u@);
            return true;
        }
        i = i + 1;
    }
    false
}

fn copy_strings(v: &Vec<String>) -> (r: Vec<String>)
    ensures
        strings_view(r) == strings_view(*v),
{
    let mut r: Vec<String> = Vec::new();
    let mut i: usize = 0;
    while i < v.len()
        invariant
            i <= v@.len(),
            strings_view(r) == strings_view(*v).take(i as int),
        decreases v.len() - i,
    {
        let ghost before = strings_view(r);
        let m = v[i].clone();
        r.push(m);
        assert(strings_view(r) =~= before.push(m@));
        assert(strings_view(*v).take(i + 1) =~= strings_view(*v).take(i as int).push(v@[i as int]@));
        i = i + 1;
    }
    assert(strings_view(*v).take(v@.len() as int) =~= strings_view(*v));
    r
}

fn without_string(v: &Vec<String>, u: &String) -> (r: Vec<String>)
    ensures
        strings_view(r) == without(strings_view(*v), u@),
{
    let ghost w = strings_view(*v);
    let mut r: Vec<String> = Vec::new();
    let mut i: usize = 0;
    assert(w.take(0) =~= Seq::<Seq<char>>::empty());
    while i < v.len()
        invariant
            i <= v@.len(),
            w == strings_view(*v),
            strings_view(r) == without(w.take(i as int), u@),
        decreases v.len() - i,
    {
        assert(w.take(i + 1).drop_last() =~= w.take(i as int));
        assert(w.take(i + 1).last() == v@[i as int]@);
        if v[i] != *u {
            let ghost before = strings_view(r);
            let m = v[i].clone();
            r.push(m);
            assert(strings_view(r) =~= before.push(m@));
        }
        i = i + 1;
    }
    assert(w.take(v@.len() as int) =~= w);
    r
}


pub open spec fn result_view<T: View>(r: Result<T, DepotError>) -> Result<T::V, DepotError> {
    match r {
        Ok(v) => Ok(v@),
        Err(e) => Err(e),
    }
}

pub open spec fn download_view(r: Result<Download, DepotError>) -> Result<(Seq<u8>, Seq<char>), DepotError> {
    match r {
        Ok(d) => Ok((d.bytes@, d.filename@)),
        Err(e) => Err(e),
    }
}

/// The package depot: records, stored files, keys, origins and channels.
pub struct Depot {
    packages: Vec<PackageRecord>,
    blobs: BlobStore,
    keys: Vec<(String, String)>,
    secret_keys: Vec<(String, String, String)>,
    origins: Vec<Origin>,
    channels: Vec<Channel>,
}

impl View for Depot {
    type V = DepotView;

    closed spec fn view(&self) -> DepotView {
        DepotView {
            packages: self.packages@.map_values(|r: PackageRecord| r@),
            files: self.blobs@,
            keys: self.keys@.map_values(|k: (String, String)| (k.0@, k.1@)),
            secret_keys: self.secret_keys@.map_values(
                |k: (String, String, String)| (k.0@, k.1@, k.2@),
            ),
            origins: self.origins@.map_values(
                |o: Origin| (o.name@, o.members@.map_values(|m: String| m@)),
            ),
            channels: self.channels@.map_values(
                |c: Channel| (c.name@, c.members@.map_values(|m: PackageIdent| m@)),
            ),
        }
    }
}

impl Depot {
    /// An empty depot.
    pub fn new() -> (r: Depot)
        ensures
            r@.wf(),
            r@.packages.len() == 0,
            r@.files.len() == 0,
            r@.keys.len() == 0,
            r@.secret_keys.len() == 0,
            r@.origins.len() == 0,
            r@.channels.len() == 0,
    {
        Depot {
            packages: Vec::new(),
            blobs: BlobStore::new(),
            keys: Vec::new(),
            secret_keys: Vec::new(),
            origins: Vec::new(),
            channels: Vec::new(),
        }
    }

    /// Uploads a package archive under the claimed identity `ident`.
    ///
    /// The archive is committed to the blob store before it is checked, and
    /// stays there when a check fails. `archive` is what the extractor
    /// reads from `body`: the identity and checksum it finds, and the
    /// metadata; `None` where the archive cannot be read. On success the
    /// result is the location of the package's download.
    pub fn upload_package(
        &mut self,
        ident: &PackageIdent,
        checksum: &Option<String>,
        body: &[u8],
        archive: &Option<PackageRecord>,
    ) -> (r: Result<String, DepotError>)
        requires
            old(self)@.wf(),
        ensures
            final(self)@.wf(),
            (final(self)@, result_view(r)) == upload_spec(
                old(self)@,
                ident@,
                opt_view(*checksum),
                body@,
                match archive {
                    Some(a) => Some(a@),
                    None => None,
                },
            ),
    {
        let ghost s0 = self@;
        let claimed = match checksum {
            Some(c) => c,
            None => return Err(DepotError::BadRequest),
        };
        if !ident.fully_qualified() {
            return Err(DepotError::BadRequest);
        }
        let path = make_archive_path(ident);
        if self.find_record(ident).is_some() || self.blobs.contains(&path) {
            return Err(DepotError::Conflict);
        }
        self.blobs.store(&path, body);
        proof {
            assert forall|i: int| 0 <= i < self@.packages.len() implies {
                &&& (#[trigger] self@.packages[i]).ident.fully_qualified()
                &&& read_file(self@.files, archive_path(self@.packages[i].ident)).is_some()
            } by {
                lemma_read_file_push(s0.files, (path@, body@), archive_path(s0.packages[i].ident));
            }
            assert(self@ == s0.with_files(s0.files.push((path@, body@))));
        }
        let a = match archive {
            Some(a) => a,
            None => return Err(DepotError::UnprocessableEntity),
        };
        if a.checksum != *claimed || !ident.satisfies(&a.ident) {
            return Err(DepotError::UnprocessableEntity);
        }
        let location = make_package_location(&a.ident);
        let ghost s1 = self@;
        let rec = a.duplicate();
        self.packages.push(rec);
        proof {
            assert(a@.ident == ident@);
            lemma_read_file_push(s0.files, (path@, body@), archive_path(ident@));
            assert(self@.packages =~= s1.packages.push(a@));
            assert(self@ == s1.with_packages(s0.packages.push(a@)));
            assert forall|i: int| 0 <= i < self@.packages.len() implies {
                &&& (#[trigger] self@.packages[i]).ident.fully_qualified()
                &&& read_file(self@.files, archive_path(self@.packages[i].ident)).is_some()
            } by {
                if i < s1.packages.len() {
                    assert(self@.packages[i] == s1.packages[i]);
                }
            }
        }
        Ok(location)
    }

    /// The identities of all package records, in order of upload.
    pub fn package_idents(&self) -> (r: Vec<PackageIdent>)
        ensures
            idents_view(r) == idents_of(self@.packages),
    {
        let mut r: Vec<PackageIdent> = Vec::new();
        let mut i: usize = 0;
        while i < self.packages.len()
            invariant
                i <= self@.packages.len(),
                idents_view(r) == idents_of(self@.packages).take(i as int),
            decreases self.packages.len() - i,
        {
            let ghost before = idents_view(r);
            let d = self.packages[i].ident.duplicate();
            r.push(d);
            assert(idents_view(r) =~= before.push(d@));
            assert(idents_of(self@.packages).take(i + 1) =~= idents_of(self@.packages).take(
                i as int,
            ).push(self@.packages[i as int].ident));
            i = i + 1;
        }
        assert(idents_of(self@.packages).take(self@.packages.len() as int) =~= idents_of(
            self@.packages,
        ));
        r
    }

    /// Looks up the package `q` resolves to: `q` itself where it is fully
    /// qualified, else the latest package that satisfies it; among the
    /// members of `channel` where one is given.
    pub fn show_package(&self, q: &PackageIdent, channel: &Option<String>) -> (r: Result<
        PackageRecord,
        DepotError,
    >)
        ensures
            result_view(r) == show_spec(self@, q@, opt_view(*channel)),
    {
        let target: PackageIdent = match channel {
            None => {
                if q.fully_qualified() {
                    q.duplicate()
                } else {
                    let ids = self.package_idents();
                    match latest_among(&ids, q) {
                        Some(i) => ids[i].duplicate(),
                        None => return Err(DepotError::NotFound),
                    }
                }
            },
            Some(c) => match self.find_channel(c) {
                None => return Err(DepotError::NotFound),
                Some(ci) => {
                    let members = &self.channels[ci].members;
                    assert(idents_view(*members) == self@.channels[ci as int].1);
                    if q.fully_qualified() {
                        if contains_ident(members, q) {
                            q.duplicate()
                        } else {
                            return Err(DepotError::NotFound);
                        }
                    } else {
                        match latest_among(members, q) {
                            Some(i) => members[i].duplicate(),
                            None => return Err(DepotError::NotFound),
                        }
                    }
                },
            },
        };
        match self.find_record(&target) {
            Some(i) => Ok(self.packages[i].duplicate()),
            None => Err(DepotError::NotFound),
        }
    }

    /// The archive of the package `id`, with the file name to offer.
    /// A record whose archive is missing gives `InternalFault`; a
    /// well-formed depot has none.
    pub fn download_package(&self, id: &PackageIdent) -> (r: Result<Download, DepotError>)
        ensures
            download_view(r) == download_spec(self@, id@),
            self@.wf() ==> r.is_ok() || r == Err::<Download, DepotError>(DepotError::NotFound),
    {
        match self.find_record(id) {
            None => Err(DepotError::NotFound),
            Some(i) => {
                let rec = &self.packages[i];
                let path = make_archive_path(&rec.ident);
                match self.blobs.read(&path) {
                    Some(bytes) => Ok(Download { bytes, filename: make_archive_filename(&rec.ident) }),
                    None => Err(DepotError::InternalFault),
                }
            },
        }
    }

    /// The identities listed under `origin`, and `name` and `version` where
    /// given; among the members of `channel` where one is given.
    pub fn list_packages(
        &self,
        origin: &String,
        name: &Option<String>,
        version: &Option<String>,
        channel: &Option<String>,
    ) -> (r: Result<Vec<PackageIdent>, DepotError>)
        ensures
            list_view(r) == list_spec(
                self@,
                origin@,
                opt_view(*name),
                opt_view(*version),
                opt_view(*channel),
            ),
    {
        match channel {
            None => {
                let ids = self.package_idents();
                Ok(select_listed_idents(&ids, origin, name, version))
            },
            Some(c) => match self.find_channel(c) {
                None => Err(DepotError::NotFound),
                Some(ci) => {
                    let members = &self.channels[ci].members;
                    assert(idents_view(*members) == self@.channels[ci as int].1);
                    Ok(select_listed_idents(members, origin, name, version))
                },
            },
        }
    }

    /// Creates the empty channel `name`; `Conflict` where it exists.
    pub fn create_channel(&mut self, name: &String) -> (r: Result<(), DepotError>)
        requires
            old(self)@.wf(),
        ensures
            final(self)@.wf(),
            (final(self)@, r) == create_channel_spec(old(self)@, name@),
    {
        if self.find_channel(name).is_some() {
            return Err(DepotError::Conflict);
        }
        let ghost s0 = self@;
        let ch = Channel { name: name.clone(), members: Vec::new() };
        assert(idents_view(ch.members) =~= Seq::<IdentView>::empty());
        self.channels.push(ch);
        assert(self@.channels =~= s0.channels.push((name@, Seq::<IdentView>::empty())));
        assert(self@ == s0.with_channels(s0.channels.push((name@, Seq::<IdentView>::empty()))));
        Ok(())
    }

    /// The names of all channels, in order of creation.
    pub fn list_channels(&self) -> (r: Vec<String>)
        ensures
            r@.map_values(|n: String| n@) == self@.channels.map_values(
                |c: (Seq<char>, Seq<IdentView>)| c.0,
            ),
    {
        let ghost w = self@.channels.map_values(|c: (Seq<char>, Seq<IdentView>)| c.0);
        let mut r: Vec<String> = Vec::new();
        let mut i: usize = 0;
        while i < self.channels.len()
            invariant
                i <= self@.channels.len(),
                w == self@.channels.map_values(|c: (Seq<char>, Seq<IdentView>)| c.0),
                r@.map_values(|n: String| n@) == w.take(i as int),
            decreases self.channels.len() - i,
        {
            let ghost before = r@.map_values(|n: String| n@);
            let n = self.channels[i].name.clone();
            r.push(n);
            assert(r@.map_values(|n: String| n@) =~= before.push(n@));
            assert(w.take(i + 1) =~= w.take(i as int).push(w[i as int]));
            i = i + 1;
        }
        assert(w.take(w.len() as int) =~= w);
        r
    }

    /// Promotes the package `id` into the channel `channel`. Both must
    /// exist (`NotFound` otherwise); a member is not added twice.
    pub fn promote_package(&mut self, channel: &String, id: &PackageIdent) -> (r: Result<(), DepotError>)
        requires
            old(self)@.wf(),
        ensures
            final(self)@.wf(),
            (final(self)@, r) == promote_spec(old(self)@, channel@, id@),
    {
        let ci = match self.find_channel(channel) {
            None => return Err(DepotError::NotFound),
            Some(ci) => ci,
        };
        if self.find_record(id).is_none() {
            return Err(DepotError::NotFound);
        }
        assert(idents_view(self.channels@[ci as int].members) == self@.channels[ci as int].1);
        if contains_ident(&self.channels[ci].members, id) {
            return Ok(());
        }
        let ghost s0 = self@;
        let ghost c0 = self.channels@;
        proof {
            lemma_last_index_bounds(s0.channels, named_channel(channel@));
        }
        let mut ch = Channel { name: String::new(), members: Vec::new() };
        self.channels.set_and_swap(ci, &mut ch);
        let ghost old_members = idents_view(ch.members);
        assert(ch.name@ == channel@);
        let d = id.duplicate();
        ch.members.push(d);
        assert(idents_view(ch.members) =~= old_members.push(id@));
        self.channels.set_and_swap(ci, &mut ch);
        assert(self.channels@ == c0.update(ci as int, self.channels@[ci as int]));
        assert(self@.channels =~= s0.channels.update(
            ci as int,
            (channel@, s0.channels[ci as int].1.push(id@)),
        ));
        assert(self@ == s0.with_channels(
            s0.channels.update(ci as int, (channel@, s0.channels[ci as int].1.push(id@))),
        ));
        Ok(())
    }

    /// Uploads the public key of revision `revision` of `origin`. On
    /// success the result is the key's location.
    pub fn upload_origin_key(&mut self, origin: &String, revision: &String, body: &[u8]) -> (r: Result<
        String,
        DepotError,
    >)
        requires
            old(self)@.wf(),
        ensures
            final(self)@.wf(),
            (final(self)@, result_view(r)) == upload_key_spec(old(self)@, origin@, revision@, body@),
    {
        let path = make_key_path(origin, revision);
        if self.find_key(origin, revision).is_some() || self.blobs.contains(&path) {
            return Err(DepotError::Conflict);
        }
        let ghost s0 = self@;
        self.keys.push((origin.clone(), revision.clone()));
        assert(self@.keys =~= s0.keys.push((origin@, revision@)));
        self.blobs.store(&path, body);
        proof {
            assert forall|i: int| 0 <= i < self@.packages.len() implies {
                &&& (#[trigger] self@.packages[i]).ident.fully_qualified()
                &&& read_file(self@.files, archive_path(self@.packages[i].ident)).is_some()
            } by {
                lemma_read_file_push(s0.files, (path@, body@), archive_path(s0.packages[i].ident));
            }
        }
        Ok(make_key_location(origin, revision))
    }

    /// Stores the secret key of revision `revision` of `origin`.
    pub fn upload_origin_secret_key(&mut self, origin: &String, revision: &String, content: &String) -> (r:
        Result<String, DepotError>)
        requires
            old(self)@.wf(),
        ensures
            final(self)@.wf(),
            (final(self)@, result_view(r)) == upload_secret_key_spec(
                old(self)@,
                origin@,
                revision@,
                content@,
            ),
    {
        if self.find_key(origin, revision).is_none() {
            return Err(DepotError::NotFound);
        }
        if self.find_secret_key(origin, revision).is_some() {
            return Err(DepotError::Conflict);
        }
        let ghost s0 = self@;
        self.secret_keys.push((origin.clone(), revision.clone(), content.clone()));
        assert(self@.secret_keys =~= s0.secret_keys.push((origin@, revision@, content@)));
        Ok(make_key_location(origin, revision))
    }

    /// The file of the public key of revision `revision` of `origin`.
    pub fn download_origin_key(&self, origin: &String, revision: &String) -> (r: Result<Download, DepotError>)
        ensures
            download_view(r) == download_key_spec(self@, origin@, revision@),
    {
        let path = make_key_path(origin, revision);
        match self.blobs.read(&path) {
            Some(bytes) => Ok(Download { bytes, filename: make_key_filename(origin, revision) }),
            None => Err(DepotError::NotFound),
        }
    }

    /// The greatest revision of `origin`.
    pub fn latest_origin_key(&self, origin: &String) -> (r: Option<String>)
        ensures
            opt_view(r) == latest_revision(self@.keys, origin@),
    {
        let ghost w = self@.keys;
        let mut best: Option<usize> = None;
        let mut best_chars: Vec<char> = Vec::new();
        let mut i: usize = 0;
        assert(w.take(0) =~= Seq::<(Seq<char>, Seq<char>)>::empty());
        while i < self.keys.len()
            invariant
                i <= w.len(),
                w == self@.keys,
                match best {
                    Some(b) => b < i && latest_revision(w.take(i as int), origin@) == Some(w[b as int].1)
                        && best_chars@ == w[b as int].1,
                    None => latest_revision(w.take(i as int), origin@).is_none(),
                },
            decreases self.keys.len() - i,
        {
            assert(w.take(i + 1).drop_last() =~= w.take(i as int));
            assert(w.take(i + 1).last() == w[i as int]);
            if self.keys[i].0 == *origin {
                let cs = chars_of(self.keys[i].1.as_str());
                match best {
                    None => {
                        best = Some(i);
                        best_chars = cs;
                    },
                    Some(_) => {
                        if cmp_chars(&best_chars, &cs) < 0 {
                            best = Some(i);
                            best_chars = cs;
                        }
                    },
                }
            }
            i = i + 1;
        }
        assert(w.take(w.len() as int) =~= w);
        match best {
            Some(b) => Some(self.keys[b].1.clone()),
            None => None,
        }
    }

    /// The file of the greatest revision of the public key of `origin`.
    pub fn download_latest_origin_key(&self, origin: &String) -> (r: Result<Download, DepotError>)
        ensures
            download_view(r) == download_latest_key_spec(self@, origin@),
    {
        match self.latest_origin_key(origin) {
            None => Err(DepotError::NotFound),
            Some(rev) => self.download_origin_key(origin, &rev),
        }
    }

    /// The revisions of the public keys of `origin`, in order of upload.
    pub fn list_origin_keys(&self, origin: &String) -> (r: Vec<String>)
        ensures
            strings_view(r) == revisions_of(self@.keys, origin@),
    {
        let ghost w = self@.keys;
        let mut r: Vec<String> = Vec::new();
        let mut i: usize = 0;
        assert(w.take(0) =~= Seq::<(Seq<char>, Seq<char>)>::empty());
        while i < self.keys.len()
            invariant
                i <= w.len(),
                w == self@.keys,
                strings_view(r) == revisions_of(w.take(i as int), origin@),
            decreases self.keys.len() - i,
        {
            assert(w.take(i + 1).drop_last() =~= w.take(i as int));
            assert(w.take(i + 1).last() == w[i as int]);
            if self.keys[i].0 == *origin {
                let ghost before = strings_view(r);
                let rev = self.keys[i].1.clone();
                r.push(rev);
                assert(strings_view(r) =~= before.push(rev@));
            }
            i = i + 1;
        }
        assert(w.take(w.len() as int) =~= w);
        r
    }

    /// Creates `origin` with `owner` as its only member. On success the
    /// result is the owner's membership location.
    pub fn create_origin(&mut self, origin: &String, owner: &String) -> (r: Result<String, DepotError>)
        requires
            old(self)@.wf(),
        ensures
            final(self)@.wf(),
            (final(self)@, result_view(r)) == create_origin_spec(old(self)@, origin@, owner@),
    {
        if self.find_origin(origin).is_some() {
            return Err(DepotError::Conflict);
        }
        let ghost s0 = self@;
        let mut members: Vec<String> = Vec::new();
        members.push(owner.clone());
        let o = Origin { name: origin.clone(), members };
        assert(strings_view(o.members) =~= seq![owner@]);
        self.origins.push(o);
        assert(self@.origins =~= s0.origins.push((origin@, seq![owner@])));
        Ok(make_member_location(origin, owner))
    }

    /// Removes the record of `origin`; its packages and keys stay.
    pub fn delete_origin(&mut self, origin: &String) -> (r: Result<(), DepotError>)
        requires
            old(self)@.wf(),
        ensures
            final(self)@.wf(),
            (final(self)@, r) == delete_origin_spec(old(self)@, origin@),
    {
        let i = match self.find_origin(origin) {
            None => return Err(DepotError::NotFound),
            Some(i) => i,
        };
        let ghost s0 = self@;
        self.origins.remove(i);
        assert(self@.origins =~= s0.origins.remove(i as int));
        Ok(())
    }

    /// The members of `origin`, if it exists.
    pub fn origin_members(&self, origin: &String) -> (r: Option<Vec<String>>)
        ensures
            match r {
                Some(v) => members_of(self@, origin@) == Some(strings_view(v)),
                None => members_of(self@, origin@).is_none(),
            },
    {
        match self.find_origin(origin) {
            None => None,
            Some(i) => {
                assert(strings_view(self.origins@[i as int].members) == self@.origins[i as int].1);
                Some(copy_strings(&self.origins[i].members))
            },
        }
    }

    /// Adds `user` to the members of `origin`.
    pub fn add_user_to_origin(&mut self, origin: &String, user: &String) -> (r: Result<(), DepotError>)
        requires
            old(self)@.wf(),
        ensures
            final(self)@.wf(),
            (final(self)@, r) == add_member_spec(old(self)@, origin@, user@),
    {
        let i = match self.find_origin(origin) {
            None => return Err(DepotError::NotFound),
            Some(i) => i,
        };
        assert(strings_view(self.origins@[i as int].members) == self@.origins[i as int].1);
        if contains_string(&self.origins[i].members, user) {
            return Ok(());
        }
        let ghost s0 = self@;
        let ghost o0 = self.origins@;
        proof {
            lemma_last_index_bounds(s0.origins, origin_named(origin@));
        }
        let mut o = Origin { name: String::new(), members: Vec::new() };
        self.origins.set_and_swap(i, &mut o);
        let ghost old_members = strings_view(o.members);
        let u = user.clone();
        o.members.push(u);
        assert(strings_view(o.members) =~= old_members.push(user@));
        self.origins.set_and_swap(i, &mut o);
        assert(self.origins@ == o0.update(i as int, self.origins@[i as int]));
        assert(self@.origins =~= s0.origins.update(
            i as int,
            (origin@, s0.origins[i as int].1.push(user@)),
        ));
        Ok(())
    }

    /// Removes `user` from the members of `origin`.
    pub fn remove_user_from_origin(&mut self, origin: &String, user: &String) -> (r: Result<(), DepotError>)
        requires
            old(self)@.wf(),
        ensures
            final(self)@.wf(),
            (final(self)@, r) == remove_member_spec(old(self)@, origin@, user@),
    {
        let i = match self.find_origin(origin) {
            None => return Err(DepotError::NotFound),
            Some(i) => i,
        };
        assert(strings_view(self.origins@[i as int].members) == self@.origins[i as int].1);
        let kept = without_string(&self.origins[i].members, user);
        let ghost s0 = self@;
        proof {
            lemma_last_index_bounds(s0.origins, origin_named(origin@));
        }
        let name = self.origins[i].name.clone();
        let o = Origin { name, members: kept };
        self.origins.set(i, o);
        assert(self@.origins =~= s0.origins.update(
            i as int,
            (origin@, without(s0.origins[i as int].1, user@)),
        ));
        Ok(())
    }

    fn find_key(&self, origin: &String, revision: &String) -> (r: Option<usize>)
        ensures
            match r {
                Some(i) => last_index(self@.keys, key_named(origin@, revision@)) == Some(i as int),
                None => last_index(self@.keys, key_named(origin@, revision@)).is_none(),
            },
    {
        let ghost v = self@.keys;
        let mut i: usize = self.keys.len();
        assert(v.take(i as int) =~= v);
        while i > 0
            invariant
                i <= v.len(),
                v == self@.keys,
                last_index(v, key_named(origin@, revision@)) == last_index(
                    v.take(i as int),
                    key_named(origin@, revision@),
                ),
            decreases i,
        {
            let ghost t = v.take(i as int);
            assert(t.last() == v[i - 1]);
            assert(t.drop_last() =~= v.take(i - 1));
            if self.keys[i - 1].0 == *origin && self.keys[i - 1].1 == *revision {
                return Some(i - 1);
            }
            i = i - 1;
        }
        None
    }

    fn find_secret_key(&self, origin: &String, revision: &String) -> (r: Option<usize>)
        ensures
            match r {
                Some(i) => last_index(self@.secret_keys, secret_named(origin@, revision@)) == Some(
                    i as int,
                ),
                None => last_index(self@.secret_keys, secret_named(origin@, revision@)).is_none(),
            },
    {
        let ghost v = self@.secret_keys;
        let mut i: usize = self.secret_keys.len();
        assert(v.take(i as int) =~= v);
        while i > 0
            invariant
                i <= v.len(),
                v == self@.secret_keys,
                last_index(v, secret_named(origin@, revision@)) == last_index(
                    v.take(i as int),
                    secret_named(origin@, revision@),
                ),
            decreases i,
        {
            let ghost t = v.take(i as int);
            assert(t.last() == v[i - 1]);
            assert(t.drop_last() =~= v.take(i - 1));
            if self.secret_keys[i - 1].0 == *origin && self.secret_keys[i - 1].1 == *revision {
                return Some(i - 1);
            }
            i = i - 1;
        }
        None
    }

    fn find_origin(&self, origin: &String) -> (r: Option<usize>)
        ensures
            match r {
                Some(i) => last_index(self@.origins, origin_named(origin@)) == Some(i as int) && i
                    < self@.origins.len(),
                None => last_index(self@.origins, origin_named(origin@)).is_none(),
            },
    {
        let ghost v = self@.origins;
        proof {
            lemma_last_index_bounds(v, origin_named(origin@));
        }
        let mut i: usize = self.origins.len();
        assert(v.take(i as int) =~= v);
        while i > 0
            invariant
                i <= v.len(),
                v == self@.origins,
                last_index(v, origin_named(origin@)) == last_index(
                    v.take(i as int),
                    origin_named(origin@),
                ),
            decreases i,
        {
            let ghost t = v.take(i as int);
            assert(t.last() == v[i - 1]);
            assert(t.drop_last() =~= v.take(i - 1));
            if self.origins[i - 1].name == *origin {
                return Some(i - 1);
            }
            i = i - 1;
        }
        None
    }

    fn find_record(&self, id: &PackageIdent) -> (r: Option<usize>)
        ensures
            match r {
                Some(i) => last_index(self@.packages, with_ident(id@)) == Some(i as int) && i
                    < self@.packages.len(),
                None => last_index(self@.packages, with_ident(id@)).is_none(),
            },
    {
        let ghost v = self@.packages;
        proof {
            lemma_last_index_bounds(v, with_ident(id@));
        }
        let mut i: usize = self.packages.len();
        assert(v.take(i as int) =~= v);
        while i > 0
            invariant
                i <= v.len(),
                v == self@.packages,
                last_index(v, with_ident(id@)) == last_index(v.take(i as int), with_ident(id@)),
            decreases i,
        {
            let ghost t = v.take(i as int);
            assert(t.last() == v[i - 1]);
            assert(t.drop_last() =~= v.take(i - 1));
            if self.packages[i - 1].ident.same_as(id) {
                return Some(i - 1);
            }
            i = i - 1;
        }
        None
    }

    fn find_channel(&self, name: &String) -> (r: Option<usize>)
        ensures
            match r {
                Some(i) => last_index(self@.channels, named_channel(name@)) == Some(i as int) && i
                    < self@.channels.len(),
                None => last_index(self@.channels, named_channel(name@)).is_none(),
            },
    {
        let ghost v = self@.channels;
        proof {
            lemma_last_index_bounds(v, named_channel(name@));
        }
        let mut i: usize = self.channels.len();
        assert(v.take(i as int) =~= v);
        while i > 0
            invariant
                i <= v.len(),
                v == self@.channels,
                last_index(v, named_channel(name@)) == last_index(
                    v.take(i as int),
                    named_channel(name@),
                ),
            decreases i,
        {
            let ghost t = v.take(i as int);
            assert(t.last() == v[i - 1]);
            assert(t.drop_last() =~= v.take(i - 1));
            if self.channels[i - 1].name == *name {
                return Some(i - 1);
            }
            i = i - 1;
        }
        None
    }
}

} // verus!
