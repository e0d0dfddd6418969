use vstd::prelude::*;

verus! {

/// A package identity as a mathematical value.
pub struct IdentView {
    pub origin: Seq<char>,
    pub name: Seq<char>,
    pub version: Option<Seq<char>>,
    pub release: Option<Seq<char>>,
}

pub open spec fn opt_view(o: Option<String>) -> Option<Seq<char>> {
    match o {
        Some(s) => Some(s@),
        None => None,
    }
}

impl IdentView {
    /// Both version and release are present.
    pub open spec fn fully_qualified(self) -> bool {
        self.version.is_some() && self.release.is_some()
    }

    /// `other` matches `self` on origin, name, and on every field that
    /// `self` gives.
    pub open spec fn satisfied_by(self, other: IdentView) -> bool {
        &&& self.origin == other.origin
        &&& self.name == other.name
        &&& (self.version.is_some() ==> other.version == self.version)
        &&& (self.release.is_some() ==> other.release == self.release)
    }

    /// The identity written as `origin/name[/version[/release]]`.
    pub open spec fn text(self) -> Seq<char> {
        let base = self.origin + "/"@ + self.name;
        match self.version {
            None => base,
            Some(v) => match self.release {
                None => base + "/"@ + v,
                Some(r) => base + "/"@ + v + "/"@ + r,
            },
        }
    }
}

/// An origin, a name, and optionally a version and a release.
#[derive(Debug)]
pub struct PackageIdent {
    pub origin: String,
    pub name: String,
    pub version: Option<String>,
    pub release: Option<String>,
}

impl View for PackageIdent {
    type V = IdentView;

    open spec fn view(&self) -> IdentView {
        IdentView {
            origin: self.origin@,
            name: self.name@,
            version: opt_view(self.version),
            release: opt_view(self.release),
        }
    }
}

pub fn copy_opt(o: &Option<String>) -> (r: Option<String>)
    ensures
        opt_view(r) == opt_view(*o),
{
    match o {
        Some(s) => Some(s.clone()),
        None => None,
    }
}

pub fn opt_eq(a: &Option<String>, b: &Option<String>) -> (r: bool)
    ensures
        r == (opt_view(*a) == opt_view(*b)),
{
    match a {
        Some(x) => match b {
            Some(y) => *x == *y,
            None => false,
        },
        None => b.is_none(),
    }
}

impl PackageIdent {
    pub fn new(origin: String, name: String, version: Option<String>, release: Option<String>) -> (r: Self)
        ensures
            r@ == (IdentView {
                origin: origin@,
                name: name@,
                version: opt_view(version),
                release: opt_view(release),
            }),
    {
        PackageIdent { origin, name, version, release }
    }

    /// A copy with the same view.
    pub fn duplicate(&self) -> (r: Self)
        ensures
            r@ == self@,
    {
        PackageIdent {
            origin: self.origin.clone(),
            name: self.name.clone(),
            version: copy_opt(&self.version),
            release: copy_opt(&self.release),
        }
    }

    pub fn fully_qualified(&self) -> (r: bool)
        ensures
            r == self@.fully_qualified(),
    {
        self.version.is_some() && self.release.is_some()
    }

    /// Whether `other` agrees with `self` on origin, name and on each of
    /// version and release that `self` gives.
    pub fn satisfies(&self, other: &PackageIdent) -> (r: bool)
        ensures
            r == self@.satisfied_by(other@),
    {
        if self.origin != other.origin || self.name != other.name {
            return false;
        }
        let v_ok = match &self.version {
            Some(v) => match &other.version {
                Some(w) => *v == *w,
                None => false,
            },
            None => true,
        };
        let r_ok = match &self.release {
            Some(v) => match &other.release {
                Some(w) => *v == *w,
                None => false,
            },
            None => true,
        };
        v_ok && r_ok
    }

    /// Whether the two identities are equal field by field.
    pub fn same_as(&self, other: &PackageIdent) -> (r: bool)
        ensures
            r == (self@ == other@),
    {
        self.origin == other.origin && self.name == other.name && opt_eq(&self.version, &other.version)
            && opt_eq(&self.release, &other.release)
    }

    /// The identity written as `origin/name[/version[/release]]`.
    pub fn text(&self) -> (r: String)
        ensures
            r@ == self@.text(),
    {
        let mut s = self.origin.clone();
        s.append("/");
        s.append(self.name.as_str());
        match &self.version {
            None => {},
            Some(v) => {
                s.append("/");
                s.append(v.as_str());
                match &self.release {
                    None => {},
                    Some(r) => {
                        s.append("/");
                        s.append(r.as_str());
                    },
                }
            },
        }
        s
    }
}

} // verus!
