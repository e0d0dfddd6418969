use depot::blobs::{BlobStore, StagedBlob};
use depot::depot::{Depot, DepotError, PackageRecord};
use depot::ident::PackageIdent;

fn s(x: &str) -> String {
    x.to_string()
}

fn ident(o: &str, n: &str, v: Option<&str>, r: Option<&str>) -> PackageIdent {
    PackageIdent::new(s(o), s(n), v.map(s), r.map(s))
}

fn archive(id: &PackageIdent, checksum: &str) -> Option<PackageRecord> {
    Some(PackageRecord::new(id.duplicate(), s(checksum), s("{\"deps\":[]}")))
}

fn upload(d: &mut Depot, o: &str, n: &str, v: &str, r: &str, ck: &str) -> Result<String, DepotError> {
    let id = ident(o, n, Some(v), Some(r));
    let a = archive(&id, ck);
    d.upload_package(&id, &Some(s(ck)), b"archive bytes", &a)
}

#[test]
fn upload_fetch_latest_then_conflict() {
    let mut d = Depot::new();
    let r = upload(&mut d, "acme", "tool", "1.0.0", "20230101", "abc123");
    assert_eq!(r, Ok(s("/pkgs/acme/tool/1.0.0/20230101/download")));
    let latest = d.show_package(&ident("acme", "tool", None, None), &None).unwrap();
    assert_eq!(latest.ident.version, Some(s("1.0.0")));
    assert_eq!(latest.ident.release, Some(s("20230101")));
    assert_eq!(latest.checksum, s("abc123"));
    let again = upload(&mut d, "acme", "tool", "1.0.0", "20230101", "abc123");
    assert_eq!(again, Err(DepotError::Conflict));
}

#[test]
fn second_upload_conflicts_whatever_its_content() {
    let mut d = Depot::new();
    assert!(upload(&mut d, "acme", "tool", "1.0.0", "1", "aaa").is_ok());
    let id = ident("acme", "tool", Some("1.0.0"), Some("1"));
    let r = d.upload_package(&id, &Some(s("zzz")), b"other bytes", &archive(&id, "zzz"));
    assert_eq!(r, Err(DepotError::Conflict));
    let r = d.upload_package(&id, &Some(s("zzz")), b"", &None);
    assert_eq!(r, Err(DepotError::Conflict));
}

#[test]
fn checksum_mismatch_is_unprocessable_and_not_listed() {
    let mut d = Depot::new();
    let id = ident("acme", "tool", Some("1.0.0"), Some("1"));
    let r = d.upload_package(&id, &Some(s("claimed")), b"bytes", &archive(&id, "actual"));
    assert_eq!(r, Err(DepotError::UnprocessableEntity));
    assert_eq!(d.show_package(&id, &None).unwrap_err(), DepotError::NotFound);
    let listed = d.list_packages(&s("acme"), &None, &None, &None).unwrap();
    assert!(listed.is_empty());
    // the archive stays behind, so the identity is taken
    let r = d.upload_package(&id, &Some(s("actual")), b"bytes", &archive(&id, "actual"));
    assert_eq!(r, Err(DepotError::Conflict));
}

#[test]
fn identity_mismatch_is_unprocessable() {
    let mut d = Depot::new();
    let claimed = ident("acme", "tool", Some("1.0.0"), Some("1"));
    for embedded in [
        ident("other", "tool", Some("1.0.0"), Some("1")),
        ident("acme", "toolz", Some("1.0.0"), Some("1")),
        ident("acme", "tool", Some("1.0.1"), Some("1")),
        ident("acme", "tool", Some("1.0.0"), Some("2")),
    ] {
        let mut fresh = Depot::new();
        let a = archive(&embedded, "ck");
        let r = fresh.upload_package(&claimed, &Some(s("ck")), b"x", &a);
        assert_eq!(r, Err(DepotError::UnprocessableEntity));
    }
    let r = d.upload_package(&claimed, &Some(s("ck")), b"x", &None);
    assert_eq!(r, Err(DepotError::UnprocessableEntity));
}

#[test]
fn bad_requests() {
    let mut d = Depot::new();
    let id = ident("acme", "tool", Some("1.0.0"), Some("1"));
    assert_eq!(d.upload_package(&id, &None, b"x", &archive(&id, "c")), Err(DepotError::BadRequest));
    let partial = ident("acme", "tool", Some("1.0.0"), None);
    assert_eq!(
        d.upload_package(&partial, &Some(s("c")), b"x", &archive(&id, "c")),
        Err(DepotError::BadRequest)
    );
}

#[test]
fn latest_of_three_versions() {
    let mut d = Depot::new();
    for v in ["1.0.0", "1.2.0", "1.1.5"] {
        assert!(upload(&mut d, "acme", "tool", v, "20230101", "c").is_ok());
    }
    let latest = d.show_package(&ident("acme", "tool", None, None), &None).unwrap();
    assert_eq!(latest.ident.version, Some(s("1.2.0")));
}

#[test]
fn latest_compares_numbers_by_value_and_then_release() {
    let mut d = Depot::new();
    assert!(upload(&mut d, "acme", "tool", "1.9", "20230101", "c").is_ok());
    assert!(upload(&mut d, "acme", "tool", "1.10", "20220101", "c").is_ok());
    assert!(upload(&mut d, "acme", "tool", "1.10", "20210101", "c").is_ok());
    let latest = d.show_package(&ident("acme", "tool", None, None), &None).unwrap();
    assert_eq!(latest.ident.version, Some(s("1.10")));
    assert_eq!(latest.ident.release, Some(s("20220101")));
    let in_19 = d.show_package(&ident("acme", "tool", Some("1.9"), None), &None).unwrap();
    assert_eq!(in_19.ident.release, Some(s("20230101")));
    let missing = d.show_package(&ident("acme", "other", None, None), &None);
    assert_eq!(missing.unwrap_err(), DepotError::NotFound);
}

#[test]
fn download_gives_archive_and_file_name() {
    let mut d = Depot::new();
    assert!(upload(&mut d, "acme", "tool", "1.0.0", "20230101", "c").is_ok());
    let got = d.download_package(&ident("acme", "tool", Some("1.0.0"), Some("20230101"))).unwrap();
    assert_eq!(got.bytes, b"archive bytes".to_vec());
    assert_eq!(got.filename, s("acme-tool-1.0.0-20230101.hart"));
    let none = d.download_package(&ident("acme", "tool", Some("2.0.0"), Some("1")));
    assert_eq!(none.unwrap_err(), DepotError::NotFound);
}

#[test]
fn listing_by_prefix() {
    let mut d = Depot::new();
    assert!(upload(&mut d, "acme", "tool", "1.0.0", "1", "c").is_ok());
    assert!(upload(&mut d, "acme", "tool", "2.0.0", "1", "c").is_ok());
    assert!(upload(&mut d, "acme", "lib", "1.0.0", "1", "c").is_ok());
    assert!(upload(&mut d, "other", "tool", "1.0.0", "1", "c").is_ok());
    assert_eq!(d.list_packages(&s("acme"), &None, &None, &None).unwrap().len(), 3);
    assert_eq!(d.list_packages(&s("acme"), &Some(s("tool")), &None, &None).unwrap().len(), 2);
    let v1 = d.list_packages(&s("acme"), &Some(s("tool")), &Some(s("1.0.0")), &None).unwrap();
    assert_eq!(v1.len(), 1);
    assert_eq!(v1[0].text(), s("acme/tool/1.0.0/1"));
    assert_eq!(
        d.list_packages(&s("acme"), &None, &None, &Some(s("stable"))).unwrap_err(),
        DepotError::NotFound
    );
}

#[test]
fn promotion_twice_keeps_one_member() {
    let mut d = Depot::new();
    assert!(upload(&mut d, "acme", "tool", "1.0.0", "1", "c").is_ok());
    assert!(upload(&mut d, "acme", "tool", "2.0.0", "1", "c").is_ok());
    assert_eq!(d.create_channel(&s("stable")), Ok(()));
    assert_eq!(d.create_channel(&s("stable")), Err(DepotError::Conflict));
    assert_eq!(d.list_channels(), vec![s("stable")]);
    let id = ident("acme", "tool", Some("1.0.0"), Some("1"));
    assert_eq!(d.promote_package(&s("stable"), &id), Ok(()));
    assert_eq!(d.promote_package(&s("stable"), &id), Ok(()));
    let members = d.list_packages(&s("acme"), &None, &None, &Some(s("stable"))).unwrap();
    assert_eq!(members.len(), 1);
    // within the channel, latest is among promoted packages only
    let latest = d.show_package(&ident("acme", "tool", None, None), &Some(s("stable"))).unwrap();
    assert_eq!(latest.ident.version, Some(s("1.0.0")));
    let not_member = ident("acme", "tool", Some("2.0.0"), Some("1"));
    assert_eq!(d.show_package(&not_member, &Some(s("stable"))).unwrap_err(), DepotError::NotFound);
    assert!(d.show_package(&id, &Some(s("stable"))).is_ok());
}

#[test]
fn promotion_needs_channel_and_package() {
    let mut d = Depot::new();
    let id = ident("acme", "tool", Some("1.0.0"), Some("1"));
    assert_eq!(d.promote_package(&s("stable"), &id), Err(DepotError::NotFound));
    assert_eq!(d.create_channel(&s("stable")), Ok(()));
    assert_eq!(d.promote_package(&s("stable"), &id), Err(DepotError::NotFound));
}

#[test]
fn staged_blob_is_invisible_until_commit() {
    let mut store = BlobStore::new();
    let path = s("pkgs/acme/tool/1/1.hart");
    let mut staged = StagedBlob::begin(&path);
    assert_eq!(staged.temp, s("pkgs/acme/tool/1/1.hart.tmp"));
    assert_eq!(staged.write(b"hello "), 6);
    assert!(!store.contains(&path));
    assert_eq!(staged.write(b"world"), 5);
    assert_eq!(store.read(&path), None);
    store.commit(staged);
    assert_eq!(store.read(&path), Some(b"hello world".to_vec()));
    assert!(!store.contains(&s("pkgs/acme/tool/1/1.hart.tmp")));
}
