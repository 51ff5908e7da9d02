//! The data model: one repository record, one locally installed package,
//! and the pair the diff engine emits for an outdated package.

use vstd::prelude::*;

verus! {

/// Base URL of the remote repository; download URLs are built from it.
pub const AUR_URL: &'static str = "https://aur.archlinux.org";

/// Sentinel description for records whose dump entry carries none.
pub const NO_DESCRIPTION: &'static str = "No description provided";

/// Version a record falls back to when the dump entry carries none,
/// so that version comparisons stay well-defined.
pub const DEFAULT_VERSION: &'static str = "1";

/// Popularity scores are kept as fixed-point integers in millionths,
/// so that ranking needs no floating point.
pub const POPULARITY_SCALE: u64 = 1000000;

/// One entry of the remote repository.
///
/// The version string is opaque: equality is the only comparison ever made
/// on it. The popularity score is in millionths (see [`POPULARITY_SCALE`]).
#[derive(Debug, Clone, PartialEq)]
pub struct Record {
    pub name: String,
    pub version: String,
    pub description: String,
    pub popularity: u64,
    pub url_path: String,
    pub depends: Vec<String>,
}

/// The mathematical value of a [`Record`]: every text field as its
/// character sequence.
pub ghost struct RecordV {
    pub name: Seq<char>,
    pub version: Seq<char>,
    pub description: Seq<char>,
    pub popularity: u64,
    pub url_path: Seq<char>,
    pub depends: Seq<Seq<char>>,
}

impl View for Record {
    type V = RecordV;

    open spec fn view(&self) -> RecordV {
        RecordV {
            name: self.name@,
            version: self.version@,
            description: self.description@,
            popularity: self.popularity,
            url_path: self.url_path@,
            depends: self.depends@.map_values(|s: String| s@),
        }
    }
}

impl Record {
    /// A record is well-formed when its name is non-empty; the shard key
    /// is then defined.
    pub open spec fn wf(&self) -> bool {
        self.name@.len() > 0
    }

    /// Builds a record, applying the documented defaults for every absent
    /// optional field.
    pub fn new(
        name: String,
        description: Option<String>,
        version: Option<String>,
        popularity: Option<u64>,
        url: Option<String>,
        depends: Option<Vec<String>>,
    ) -> (r: Record)
        requires
            name@.len() > 0,
        ensures
            r.wf(),
            r.name@ == name@,
            r.description@ == (match description {
                Some(d) => d@,
                None => NO_DESCRIPTION@,
            }),
            r.version@ == (match version {
                Some(v) => v@,
                None => DEFAULT_VERSION@,
            }),
            r.popularity == (match popularity {
                Some(p) => p,
                None => 0u64,
            }),
            r.url_path@ == (match url {
                Some(u) => u@,
                None => Seq::<char>::empty(),
            }),
            r.depends@ == (match depends {
                Some(d) => d@,
                None => Seq::<String>::empty(),
            }),
    {
        Record {
            name,
            description: match description {
                Some(d) => d,
                None => String::from_str(NO_DESCRIPTION),
            },
            version: match version {
                Some(v) => v,
                None => String::from_str(DEFAULT_VERSION),
            },
            popularity: match popularity {
                Some(p) => p,
                None => 0,
            },
            url_path: match url {
                Some(u) => u,
                None => String::new(),
            },
            depends: match depends {
                Some(d) => d,
                None => Vec::new(),
            },
        }
    }

    /// The record's description.
    pub fn get_description(&self) -> (r: &str)
        ensures
            r@ == self.description@,
    {
        self.description.as_str()
    }

    /// The full download URL of the record's source archive.
    pub fn get_url_path(&self) -> (r: String)
        ensures
            r@ == AUR_URL@ + self.url_path@,
    {
        let mut r = String::from_str(AUR_URL);
        r.append(self.url_path.as_str());
        r
    }

    /// A copy of the record with the same mathematical value.
    pub fn duplicate(&self) -> (r: Record)
        ensures
            r@ == self@,
    {
        let mut depends: Vec<String> = Vec::new();
        let mut i: usize = 0;
        while i < self.depends.len()
            invariant
                i <= self.depends@.len(),
                depends@ == self.depends@.subrange(0, i as int),
            decreases self.depends@.len() - i,
        {
            depends.push(self.depends[i].clone());
            i = i + 1;
            proof {
                assert(depends@ =~= self.depends@.subrange(0, i as int));
            }
        }
        proof {
            assert(depends@ =~= self.depends@);
        }
        let r = Record {
            name: self.name.clone(),
            version: self.version.clone(),
            description: self.description.clone(),
            popularity: self.popularity,
            url_path: self.url_path.clone(),
            depends,
        };
        proof {
            assert(r@.depends =~= self@.depends);
        }
        r
    }
}

/// The views of a sequence of records.
pub open spec fn record_views(s: Seq<Record>) -> Seq<RecordV> {
    s.map_values(|r: Record| r@)
}

/// The mathematical value of an [`InstalledPackage`].
pub ghost struct InstalledV {
    pub name: Seq<char>,
    pub version: Seq<char>,
}

impl View for InstalledPackage {
    type V = InstalledV;

    open spec fn view(&self) -> InstalledV {
        InstalledV { name: self.name@, version: self.version@ }
    }
}

/// The views of a sequence of installed packages.
pub open spec fn installed_views(s: Seq<InstalledPackage>) -> Seq<InstalledV> {
    s.map_values(|p: InstalledPackage| p@)
}

/// The mathematical value of an [`OutdatedPair`].
pub ghost struct OutdatedPairV {
    pub installed: InstalledV,
    pub remote: RecordV,
}

impl View for OutdatedPair {
    type V = OutdatedPairV;

    open spec fn view(&self) -> OutdatedPairV {
        OutdatedPairV { installed: self.installed@, remote: self.remote@ }
    }
}

/// The views of a sequence of outdated pairs.
pub open spec fn pair_views(s: Seq<OutdatedPair>) -> Seq<OutdatedPairV> {
    s.map_values(|p: OutdatedPair| p@)
}

/// A locally installed package: a name and a version, as reported by the
/// external system collaborator.
#[derive(Debug, Clone, PartialEq)]
pub struct InstalledPackage {
    pub name: String,
    pub version: String,
}

impl InstalledPackage {
    pub open spec fn wf(&self) -> bool {
        self.name@.len() > 0
    }

    pub fn new(name: String, version: String) -> (r: InstalledPackage)
        ensures
            r.name@ == name@,
            r.version@ == version@,
    {
        InstalledPackage { name, version }
    }

    /// An equal copy of the installed-package entry.
    pub fn duplicate(&self) -> (r: InstalledPackage)
        ensures
            r == *self,
    {
        InstalledPackage { name: self.name.clone(), version: self.version.clone() }
    }
}

/// An installed package together with the repository record of the same
/// name whose version differs: one element of the outdated set.
#[derive(Debug, Clone, PartialEq)]
pub struct OutdatedPair {
    pub installed: InstalledPackage,
    pub remote: Record,
}

} // verus!
