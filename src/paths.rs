use vstd::prelude::*;
use crate::ident::{IdentView, PackageIdent};

verus! {

/// Where the archive of a fully qualified identity is stored.
pub open spec fn archive_path(i: IdentView) -> Seq<char> {
    "pkgs/"@ + i.text() + ".hart"@
}

/// The file name offered to clients that download an archive.
pub open spec fn archive_filename(i: IdentView) -> Seq<char> {
    i.origin + "-"@ + i.name + "-"@ + opt_or_empty(i.version) + "-"@ + opt_or_empty(i.release)
        + ".hart"@
}

pub open spec fn opt_or_empty(o: Option<Seq<char>>) -> Seq<char> {
    match o {
        Some(s) => s,
        None => Seq::<char>::empty(),
    }
}

/// Where a package can be downloaded from, once uploaded.
pub open spec fn package_location(i: IdentView) -> Seq<char> {
    "/pkgs/"@ + i.text() + "/download"@
}

/// The file name of a public origin key.
pub open spec fn key_filename(origin: Seq<char>, revision: Seq<char>) -> Seq<char> {
    origin + "-"@ + revision + ".pub"@
}

/// Where a public origin key is stored.
pub open spec fn key_path(origin: Seq<char>, revision: Seq<char>) -> Seq<char> {
    "keys/"@ + key_filename(origin, revision)
}

pub open spec fn key_location(origin: Seq<char>, revision: Seq<char>) -> Seq<char> {
    "/origins/"@ + origin + "/keys/"@ + revision
}

pub open spec fn member_location(origin: Seq<char>, user: Seq<char>) -> Seq<char> {
    "/origins/"@ + origin + "/users/"@ + user
}

fn push_opt(s: &mut String, o: &Option<String>)
    ensures
        final(s)@ == old(s)@ + opt_or_empty(crate::ident::opt_view(*o)),
{
    match o {
        Some(v) => s.append(v.as_str()),
        None => {
            assert(old(s)@ + Seq::<char>::empty() =~= old(s)@);
        },
    }
}

pub fn make_archive_path(i: &PackageIdent) -> (r: String)
    ensures
        r@ == archive_path(i@),
{
    let mut s = String::from_str("pkgs/");
    let t = i.text();
    s.append(t.as_str());
    s.append(".hart");
    s
}

pub fn make_archive_filename(i: &PackageIdent) -> (r: String)
    ensures
        r@ == archive_filename(i@),
{
    let mut s = i.origin.clone();
    s.append("-");
    s.append(i.name.as_str());
    s.append("-");
    push_opt(&mut s, &i.version);
    s.append("-");
    push_opt(&mut s, &i.release);
    s.append(".hart");
    s
}

pub fn make_package_location(i: &PackageIdent) -> (r: String)
    ensures
        r@ == package_location(i@),
{
    let mut s = String::from_str("/pkgs/");
    let t = i.text();
    s.append(t.as_str());
    s.append("/download");
    s
}

pub fn make_key_filename(origin: &String, revision: &String) -> (r: String)
    ensures
        r@ == key_filename(origin@, revision@),
{
    let mut s = origin.clone();
    s.append("-");
    s.append(revision.as_str());
    s.append(".pub");
    s
}

pub fn make_key_path(origin: &String, revision: &String) -> (r: String)
    ensures
        r@ == key_path(origin@, revision@),
{
    let mut s = String::from_str("keys/");
    let f = make_key_filename(origin, revision);
    s.append(f.as_str());
    s
}

pub fn make_key_location(origin: &String, revision: &String) -> (r: String)
    ensures
        r@ == key_location(origin@, revision@),
{
    let mut s = String::from_str("/origins/");
    s.append(origin.as_str());
    s.append("/keys/");
    s.append(revision.as_str());
    s
}

pub fn make_member_location(origin: &String, user: &String) -> (r: String)
    ensures
        r@ == member_location(origin@, user@),
{
    let mut s = String::from_str("/origins/");
    s.append(origin.as_str());
    s.append("/users/");
    s.append(user.as_str());
    s
}

} // verus!
