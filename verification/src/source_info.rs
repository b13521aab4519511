//! Identity and capability data of a loaded source.

use crate::input::{Input, InputV, inputs_view};
use vstd::prelude::*;

verus! {

/// Identity and metadata of a source: an immutable snapshot returned by
/// query operations, never mutated in place.
#[derive(Clone, Debug, PartialEq, Eq)]
pub struct SourceInfo {
    /// Unique, stable across reloads.
    pub id: i64,
    /// Also the stem of the source's preference file.
    pub name: String,
    pub url: String,
    /// Semantic version string, `major.minor.patch`.
    pub version: String,
    pub icon: String,
    pub need_login: bool,
}

/// The mathematical shape of a [`SourceInfo`].
pub struct SourceInfoV {
    pub id: int,
    pub name: Seq<char>,
    pub url: Seq<char>,
    pub version: Seq<char>,
    pub icon: Seq<char>,
    pub need_login: bool,
}

impl View for SourceInfo {
    type V = SourceInfoV;

    open spec fn view(&self) -> SourceInfoV {
        SourceInfoV {
            id: self.id as int,
            name: self.name@,
            url: self.url@,
            version: self.version@,
            icon: self.icon@,
            need_login: self.need_login,
        }
    }
}

impl SourceInfo {
    /// A fresh copy whose view is the same.
    pub fn snapshot(&self) -> (r: SourceInfo)
        ensures
            r@ == self@,
    {
        SourceInfo {
            id: self.id,
            name: self.name.clone(),
            url: self.url.clone(),
            version: self.version.clone(),
            icon: self.icon.clone(),
            need_login: self.need_login,
        }
    }
}

/// The filter schema a source offers for its listings.
#[derive(Clone, Debug, PartialEq, Eq)]
pub struct Filters {
    /// Name of the field selected by default.
    pub default: String,
    /// Filter fields, keyed by name.
    pub fields: Vec<(String, Input)>,
}

/// The mathematical shape of a [`Filters`].
pub struct FiltersV {
    pub default: Seq<char>,
    pub fields: Seq<(Seq<char>, InputV)>,
}

impl View for Filters {
    type V = FiltersV;

    open spec fn view(&self) -> FiltersV {
        FiltersV {
            default: self.default@,
            fields: self.fields@.map_values(|f: (String, Input)| (f.0@, f.1@)),
        }
    }
}

impl Filters {
    /// A fresh copy whose view is the same.
    pub fn snapshot(&self) -> (r: Filters)
        ensures
            r@ == self@,
    {
        let n = self.fields.len();
        let mut fields: Vec<(String, Input)> = Vec::new();
        let mut i: usize = 0;
        while i < n
            invariant
                i <= n,
                n == self.fields@.len(),
                fields@.len() == i,
                forall|j: int|
                    0 <= j < i ==> (#[trigger] fields@[j]).0@ == self.fields@[j].0@ && fields@[j].1@
                        == self.fields@[j].1@,
            decreases n - i,
        {
            let name = self.fields[i].0.clone();
            let inp = self.fields[i].1.snapshot();
            fields.push((name, inp));
            i += 1;
        }
        let r = Filters { default: self.default.clone(), fields };
        proof {
            assert(r@.fields =~= self@.fields);
        }
        r
    }
}

/// Which of the two plugin variants an entry is.
#[derive(Clone, Copy, Debug, PartialEq, Eq, Structural)]
pub enum SourceKind {
    /// Loaded from on-disk script bytes into the script engine.
    Script,
    /// Statically constructed, e.g. a local-filesystem source.
    BuiltIn,
}

/// A live plugin instance as the registry sees it: its identity, its current
/// preference values, its filter schema, and which variant it is.
#[derive(Clone, Debug, PartialEq, Eq)]
pub struct SourceEntry {
    pub info: SourceInfo,
    pub preferences: Vec<Input>,
    pub filters: Option<Filters>,
    pub kind: SourceKind,
}

/// The mathematical shape of a [`SourceEntry`].
pub struct EntryV {
    pub info: SourceInfoV,
    pub preferences: Seq<InputV>,
    pub filters: Option<FiltersV>,
    pub kind: SourceKind,
}

impl View for SourceEntry {
    type V = EntryV;

    open spec fn view(&self) -> EntryV {
        EntryV {
            info: self.info@,
            preferences: inputs_view(self.preferences@),
            filters: match &self.filters {
                Some(f) => Some(f@),
                None => None,
            },
            kind: self.kind,
        }
    }
}

impl SourceEntry {
    /// A fresh copy whose view is the same.
    pub fn snapshot(&self) -> (r: SourceEntry)
        ensures
            r@ == self@,
    {
        SourceEntry {
            info: self.info.snapshot(),
            preferences: crate::input::clone_inputs(&self.preferences),
            filters: match &self.filters {
                Some(f) => Some(f.snapshot()),
                None => None,
            },
            kind: self.kind,
        }
    }
}

/// What the script engine said about one script: either the instance it
/// constructed (identity, the instance's own default preference values, and
/// its filter schema), or that it rejected the script's content.
///
/// The engine runs outside this crate; every function that takes a verdict is
/// verified for every possible verdict value.
#[derive(Clone, Debug)]
pub enum LoadVerdict {
    Accepted { info: SourceInfo, defaults: Vec<Input>, filters: Option<Filters> },
    Rejected,
}

} // verus!
