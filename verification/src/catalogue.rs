//! The catalogue surface over the source manager: listing installed sources
//! with update flags, offering not-yet-installed catalog entries, and the
//! decisions behind install and update requests.
//!
//! Fetching the remote catalog and the script package is plain I/O done by
//! the embedder; every function here takes the already-fetched catalog rows
//! as arguments and decides from them.

use crate::manager::SourceManager;
use crate::source_info::EntryV;
use crate::source_info::{SourceInfo, SourceInfoV};
use crate::version::{Version, parse_version_spec, version_lt};
use vstd::prelude::*;

verus! {

/// A failure of a catalogue query or mutation.
#[derive(Clone, Copy, Debug, PartialEq, Eq, Structural)]
pub enum CatalogueError {
    /// The id is already registered; an update must be used instead.
    AlreadyInstalled,
    /// No catalog row, or no installed source, carries the id.
    NotFound,
    /// Installed and catalog version are the same.
    NoNewVersion,
    /// A version string did not parse.
    BadVersion,
}

/// One row of the remote catalog of available sources.
#[derive(Debug)]
pub struct SourceIndex {
    pub id: i64,
    pub name: String,
    pub path: String,
    pub version: String,
    pub icon: String,
}

/// The mathematical shape of a [`SourceIndex`].
pub struct SourceIndexV {
    pub id: int,
    pub name: Seq<char>,
    pub path: Seq<char>,
    pub version: Seq<char>,
    pub icon: Seq<char>,
}

impl View for SourceIndex {
    type V = SourceIndexV;

    open spec fn view(&self) -> SourceIndexV {
        SourceIndexV {
            id: self.id as int,
            name: self.name@,
            path: self.path@,
            version: self.version@,
            icon: self.icon@,
        }
    }
}

impl SourceIndex {
    /// A fresh copy whose view is the same.
    pub fn snapshot(&self) -> (r: SourceIndex)
        ensures
            r@ == self@,
    {
        SourceIndex {
            id: self.id,
            name: self.name.clone(),
            path: self.path.clone(),
            version: self.version.clone(),
            icon: self.icon.clone(),
        }
    }
}

/// A source as the catalogue presents it: metadata plus the update flag.
#[derive(Debug)]
pub struct Source {
    pub id: i64,
    pub name: String,
    pub url: String,
    pub version: String,
    pub icon: String,
    pub need_login: bool,
    pub has_update: bool,
}

/// The mathematical shape of a [`Source`].
pub struct SourceV {
    pub id: int,
    pub name: Seq<char>,
    pub url: Seq<char>,
    pub version: Seq<char>,
    pub icon: Seq<char>,
    pub need_login: bool,
    pub has_update: bool,
}

impl View for Source {
    type V = SourceV;

    open spec fn view(&self) -> SourceV {
        SourceV {
            id: self.id as int,
            name: self.name@,
            url: self.url@,
            version: self.version@,
            icon: self.icon@,
            need_login: self.need_login,
            has_update: self.has_update,
        }
    }
}

/// The source a catalog row presents as: no URL, no login, no update flag.
pub open spec fn index_source_v(i: SourceIndexV) -> SourceV {
    SourceV {
        id: i.id,
        name: i.name,
        url: Seq::empty(),
        version: i.version,
        icon: i.icon,
        need_login: false,
        has_update: false,
    }
}

/// The source an installed instance presents as, with the given update flag.
pub open spec fn info_source_v(si: SourceInfoV, has_update: bool) -> SourceV {
    SourceV {
        id: si.id,
        name: si.name,
        url: si.url,
        version: si.version,
        icon: si.icon,
        need_login: si.need_login,
        has_update,
    }
}

impl Source {
    /// The source a catalog row presents as.
    pub fn from_index(index: SourceIndex) -> (r: Source)
        ensures
            r@ == index_source_v(index@),
    {
        let r = Source {
            id: index.id,
            name: index.name,
            url: String::new(),
            version: index.version,
            icon: index.icon,
            need_login: false,
            has_update: false,
        };
        proof {
            assert(r@.url =~= Seq::<char>::empty());
        }
        r
    }

    /// The source an installed instance presents as.
    pub fn from_info(info: SourceInfo, has_update: bool) -> (r: Source)
        ensures
            r@ == info_source_v(info@, has_update),
    {
        Source {
            id: info.id,
            name: info.name,
            url: info.url,
            version: info.version,
            icon: info.icon,
            need_login: info.need_login,
            has_update,
        }
    }

    pub fn id(&self) -> (r: i64)
        ensures
            r == self.id,
    {
        self.id
    }

    pub fn name(&self) -> (r: String)
        ensures
            r@ == self.name@,
    {
        self.name.clone()
    }

    pub fn url(&self) -> (r: String)
        ensures
            r@ == self.url@,
    {
        self.url.clone()
    }

    pub fn version(&self) -> (r: String)
        ensures
            r@ == self.version@,
    {
        self.version.clone()
    }

    pub fn icon(&self) -> (r: String)
        ensures
            r@ == self.icon@,
    {
        self.icon.clone()
    }

    pub fn need_login(&self) -> (r: bool)
        ensures
            r == self.need_login,
    {
        self.need_login
    }

    pub fn has_update(&self) -> (r: bool)
        ensures
            r == self.has_update,
    {
        self.has_update
    }
}

// ---------------------------------------------------------------------------
// Catalog lookups.
// ---------------------------------------------------------------------------
/// The last catalog row carrying `id` — the row that wins when the catalog
/// is folded into a map, later rows overwriting earlier ones.
pub open spec fn last_index(avail: Seq<SourceIndex>, id: int) -> Option<SourceIndex>
    decreases avail.len(),
{
    if avail.len() == 0 {
        None
    } else if avail.last().id == id {
        Some(avail.last())
    } else {
        last_index(avail.drop_last(), id)
    }
}

/// The first catalog row carrying `id` — what a front-to-back search finds.
pub open spec fn first_index(avail: Seq<SourceIndex>, id: int) -> Option<SourceIndex>
    decreases avail.len(),
{
    if avail.len() == 0 {
        None
    } else if avail[0].id == id {
        Some(avail[0])
    } else {
        first_index(avail.drop_first(), id)
    }
}

/// Position of the last catalog row carrying `id`.
fn find_last_pos(avail: &Vec<SourceIndex>, id: i64) -> (r: Option<usize>)
    ensures
        match r {
            Some(i) => i < avail@.len() && last_index(avail@, id as int) == Some(avail@[i as int]),
            None => last_index(avail@, id as int) is None,
        },
{
    let mut j = avail.len();
    proof {
        assert(avail@.subrange(0, avail@.len() as int) =~= avail@);
    }
    while j > 0
        invariant
            j <= avail@.len(),
            last_index(avail@, id as int) == last_index(avail@.subrange(0, j as int), id as int),
        decreases j,
    {
        proof {
            let pre = avail@.subrange(0, j as int);
            assert(pre.last() == avail@[j - 1]);
            assert(pre.drop_last() =~= avail@.subrange(0, j - 1));
        }
        if avail[j - 1].id == id {
            return Some(j - 1);
        }
        j = j - 1;
    }
    proof {
        assert(avail@.subrange(0, 0) =~= Seq::<SourceIndex>::empty());
    }
    None
}

/// Position of the first catalog row carrying `id`.
fn find_first_pos(avail: &Vec<SourceIndex>, id: i64) -> (r: Option<usize>)
    ensures
        match r {
            Some(i) => i < avail@.len() && first_index(avail@, id as int) == Some(avail@[i as int]),
            None => first_index(avail@, id as int) is None,
        },
{
    let n = avail.len();
    let mut j: usize = 0;
    proof {
        assert(avail@.subrange(0, n as int) =~= avail@);
    }
    while j < n
        invariant
            j <= n,
            n == avail@.len(),
            first_index(avail@, id as int) == first_index(
                avail@.subrange(j as int, n as int),
                id as int,
            ),
        decreases n - j,
    {
        proof {
            let rest = avail@.subrange(j as int, n as int);
            assert(rest[0] == avail@[j as int]);
            assert(rest.drop_first() =~= avail@.subrange(j + 1, n as int));
        }
        if avail[j].id == id {
            return Some(j);
        }
        j += 1;
    }
    proof {
        assert(avail@.subrange(n as int, n as int) =~= Seq::<SourceIndex>::empty());
    }
    None
}

// ---------------------------------------------------------------------------
// Listing installed sources, with update flags.
// ---------------------------------------------------------------------------
/// The update flag of one installed source against the catalog: `None` when
/// a version string fails to parse.
pub open spec fn update_flag(si: SourceInfoV, avail: Seq<SourceIndex>) -> Option<bool> {
    match last_index(avail, si.id) {
        None => Some(false),
        Some(idx) => match (parse_version_spec(idx.version@), parse_version_spec(si.version)) {
            (Some(iv), Some(sv)) => Some(version_lt(sv, iv)),
            _ => None,
        },
    }
}

/// All installed sources with their flags, before sorting; `None` when any
/// version fails to parse.
pub open spec fn merged_sources(
    infos: Seq<SourceInfoV>,
    avail: Seq<SourceIndex>,
    check: bool,
) -> Option<Seq<SourceV>>
    decreases infos.len(),
{
    if infos.len() == 0 {
        Some(Seq::empty())
    } else {
        let flag = if check {
            update_flag(infos[0], avail)
        } else {
            Some(false)
        };
        match flag {
            None => None,
            Some(f) => match merged_sources(infos.drop_first(), avail, check) {
                None => None,
                Some(tail) => Some(seq![info_source_v(infos[0], f)] + tail),
            },
        }
    }
}

/// Ascending ids.
pub open spec fn sorted_by_id(s: Seq<Source>) -> bool {
    forall|i: int, j: int| 0 <= i < j < s.len() ==> (#[trigger] s[i]).id <= (#[trigger] s[j]).id
}

pub open spec fn source_views(s: Seq<Source>) -> Seq<SourceV> {
    s.map_values(|x: Source| x@)
}

pub open spec fn info_views(s: Seq<SourceInfo>) -> Seq<SourceInfoV> {
    s.map_values(|x: SourceInfo| x@)
}

/// Inserting anywhere adds exactly one occurrence to the multiset.
proof fn lemma_insert_multiset(s: Seq<SourceV>, j: int, x: SourceV)
    requires
        0 <= j <= s.len(),
    ensures
        s.insert(j, x).to_multiset() == s.to_multiset().insert(x),
{
    broadcast use vstd::seq_lib::group_to_multiset_ensures;

    let ins = s.insert(j, x);
    assert(ins.remove(j) =~= s);
    assert(ins[j] == x);
    assert(ins.to_multiset().contains(x)) by {
        assert(ins.contains(x)) by {
            assert(ins[j] == x);
        }
    }
    assert(ins.remove(j).to_multiset() =~= ins.to_multiset().remove(x));
    assert(ins.to_multiset() =~= s.to_multiset().insert(x));
}

/// The position an id-ordered insertion goes to: everything before is at
/// most `x_id`, everything from it on is larger.
fn insert_pos(out: &Vec<Source>, x_id: i64) -> (j: usize)
    requires
        sorted_by_id(out@),
    ensures
        j <= out@.len(),
        forall|t: int| 0 <= t < j ==> (#[trigger] out@[t]).id <= x_id,
        forall|t: int| j <= t < out@.len() ==> (#[trigger] out@[t]).id > x_id,
{
    let n = out.len();
    let mut j: usize = 0;
    while j < n
        invariant
            j <= n,
            n == out@.len(),
            sorted_by_id(out@),
            forall|t: int| 0 <= t < j ==> (#[trigger] out@[t]).id <= x_id,
        decreases n - j,
    {
        if out[j].id > x_id {
            return j;
        }
        j += 1;
    }
    j
}

/// Sorts sources ascending by id; the result holds exactly the given
/// sources.
fn sort_sources_by_id(input: Vec<Source>) -> (r: Vec<Source>)
    ensures
        sorted_by_id(r@),
        source_views(r@).to_multiset() == source_views(input@).to_multiset(),
{
    broadcast use vstd::seq_lib::group_to_multiset_ensures;

    let ghost all = input@;
    let mut rest = input;
    let mut out: Vec<Source> = Vec::new();
    proof {
        assert(source_views(out@) =~= Seq::<SourceV>::empty());
        assert(rest@ =~= all.subrange(0, all.len() as int));
        assert(source_views(all.subrange(0, 0)) =~= Seq::<SourceV>::empty());
    }
    while rest.len() > 0
        invariant
            rest@.len() <= all.len(),
            rest@ == all.subrange(all.len() - rest@.len(), all.len() as int),
            sorted_by_id(out@),
            source_views(out@).to_multiset() == source_views(
                all.subrange(0, all.len() - rest@.len()),
            ).to_multiset(),
        decreases rest@.len(),
    {
        let ghost k = all.len() - rest@.len();
        let ghost out_pre = out@;
        let x = rest.remove(0);
        proof {
            assert(x == all[k as int]);
            assert(rest@ =~= all.subrange(k + 1, all.len() as int));
        }
        let j = insert_pos(&out, x.id);
        out.insert(j, x);
        proof {
            assert(source_views(out@) =~= source_views(out_pre).insert(j as int, x@));
            lemma_insert_multiset(source_views(out_pre), j as int, x@);
            assert(source_views(out@).to_multiset() == source_views(out_pre).to_multiset().insert(
                x@,
            ));
            let done = all.subrange(0, k + 1);
            assert(done.drop_last() =~= all.subrange(0, k as int));
            assert(done.last() == all[k as int]);
            assert(source_views(done) =~= source_views(done.drop_last()).push(x@));
            vstd::seq_lib::to_multiset_build(source_views(done.drop_last()), x@);
            assert(source_views(done.drop_last()).push(x@).to_multiset() =~= source_views(
                done.drop_last(),
            ).to_multiset().insert(x@));
            assert(source_views(done).to_multiset() == source_views(out@).to_multiset());
            assert(sorted_by_id(out@)) by {
                assert(forall|t: int|
                    0 <= t < out@.len() && t < j ==> out@[t] == out_pre[t]);
                assert(forall|t: int|
                    j < t < out@.len() ==> out@[t] == out_pre[t - 1]);
                assert(out@[j as int] == x);
            }
        }
    }
    proof {
        assert(all.subrange(0, all.len() as int) =~= all);
    }
    out
}

// ---------------------------------------------------------------------------
// The catalogue query surface.
// ---------------------------------------------------------------------------
/// The read-only catalogue queries.
pub struct SourceRoot {}

impl SourceRoot {
    /// All installed sources, ascending by id. With `check_update`, each is
    /// flagged when the catalog's (last) row for its id carries a strictly
    /// newer version; a version string that does not parse fails the whole
    /// query, as the bad row cannot be judged.
    pub fn installed_sources(
        &self,
        installed: Vec<SourceInfo>,
        available: &Vec<SourceIndex>,
        check_update: bool,
    ) -> (r: Result<Vec<Source>, CatalogueError>)
        ensures
            match merged_sources(info_views(installed@), available@, check_update) {
                None => r matches Err(e) && e == CatalogueError::BadVersion,
                Some(ms) => r matches Ok(l) && sorted_by_id(l@) && source_views(l@).to_multiset()
                    == ms.to_multiset(),
            },
    {
        let ghost infos = info_views(installed@);
        let n_inst = installed.len();
        let mut out: Vec<Source> = Vec::new();
        let mut k: usize = 0;
        proof {
            assert(source_views(out@) =~= Seq::<SourceV>::empty());
            assert(infos.subrange(0, infos.len() as int) =~= infos);
            let whole = merged_sources(infos, available@, check_update);
            if whole is Some {
                assert(Seq::<SourceV>::empty() + whole->Some_0 =~= whole->Some_0);
            }
        }
        while k < n_inst
            invariant
                k <= n_inst,
                n_inst == installed@.len(),
                infos == info_views(installed@),
                ({
                    let av = source_views(out@);
                    match merged_sources(
                        infos.subrange(k as int, infos.len() as int),
                        available@,
                        check_update,
                    ) {
                        Some(tail) => merged_sources(infos, available@, check_update) == Some(
                            av + tail,
                        ),
                        None => merged_sources(infos, available@, check_update) is None,
                    }
                }),
            decreases n_inst - k,
        {
            let ghost remaining = infos.subrange(k as int, infos.len() as int);
            let ghost av = source_views(out@);
            let info = installed[k].snapshot();
            proof {
                assert(remaining[0] == info@) by {
                    assert(remaining[0] == infos[k as int]);
                    assert(infos[k as int] == installed@[k as int]@);
                }
                assert(remaining.drop_first() =~= infos.subrange(k + 1, infos.len() as int));
            }
            let flag: bool = if check_update {
                match find_last_pos(available, info.id) {
                    None => false,
                    Some(i) => {
                        let iv = Version::parse(available[i].version.as_str());
                        let sv = Version::parse(info.version.as_str());
                        match (iv, sv) {
                            (Some(ivv), Some(svv)) => ivv.newer_than(&svv),
                            _ => {
                                proof {
                                    assert(update_flag(info@, available@) is None);
                                    assert(merged_sources(
                                        remaining,
                                        available@,
                                        check_update,
                                    ) is None);
                                }
                                return Err(CatalogueError::BadVersion);
                            },
                        }
                    },
                }
            } else {
                false
            };
            proof {
                if check_update {
                    assert(update_flag(info@, available@) == Some(flag));
                }
            }
            let s = Source::from_info(info, flag);
            proof {
                let inner = merged_sources(remaining.drop_first(), available@, check_update);
                if inner is Some {
                    let tail = inner->Some_0;
                    assert(av + (seq![s@] + tail) =~= (av + seq![s@]) + tail);
                    assert(source_views(out@.push(s)) =~= av + seq![s@]);
                }
            }
            out.push(s);
            k += 1;
        }
        proof {
            assert(infos.subrange(infos.len() as int, infos.len() as int) =~= Seq::<
                SourceInfoV,
            >::empty());
            let av = source_views(out@);
            assert(av + Seq::<SourceV>::empty() =~= av);
        }
        Ok(sort_sources_by_id(out))
    }

    /// The catalog rows not yet installed, in catalog order.
    pub fn available_sources(&self, mgr: &SourceManager, available: &Vec<SourceIndex>) -> (r: Vec<
        Source,
    >)
        requires
            mgr.wf(),
        ensures
            source_views(r@) == not_installed_sources(mgr@.sources, available@),
    {
        let n = available.len();
        let mut out: Vec<Source> = Vec::new();
        let mut i: usize = 0;
        proof {
            assert(source_views(out@) =~= Seq::<SourceV>::empty());
            assert(available@.subrange(0, 0) =~= Seq::<SourceIndex>::empty());
            assert(not_installed_sources(mgr@.sources, available@.subrange(0, 0)) =~= Seq::<
                SourceV,
            >::empty());
        }
        while i < n
            invariant
                mgr.wf(),
                i <= n,
                n == available@.len(),
                source_views(out@) == not_installed_sources(
                    mgr@.sources,
                    available@.subrange(0, i as int),
                ),
            decreases n - i,
        {
            let ghost pre = available@.subrange(0, i as int);
            proof {
                let done = available@.subrange(0, i + 1);
                assert(done.drop_last() =~= pre);
                assert(done.last() == available@[i as int]);
            }
            if !mgr.exist(available[i].id) {
                let s = Source::from_index(available[i].snapshot());
                proof {
                    assert(source_views(out@.push(s)) =~= source_views(out@).push(s@));
                }
                out.push(s);
            }
            i += 1;
        }
        proof {
            assert(available@.subrange(0, n as int) =~= available@);
        }
        out
    }

    /// One installed source, without an update flag.
    pub fn source(&self, mgr: &SourceManager, source_id: i64) -> (r: Result<Source, CatalogueError>)
        requires
            mgr.wf(),
        ensures
            match r {
                Ok(s) => mgr@.sources.dom().contains(source_id as int) && s@ == info_source_v(
                    mgr@.sources[source_id as int].info,
                    false,
                ),
                Err(e) => e == CatalogueError::NotFound && !mgr@.sources.dom().contains(
                    source_id as int,
                ),
            },
    {
        match mgr.detail(source_id) {
            Ok(info) => Ok(Source::from_info(info, false)),
            Err(_) => Err(CatalogueError::NotFound),
        }
    }
}

/// The catalog rows whose id is not registered, converted, in order.
pub open spec fn not_installed_sources(
    sources: Map<int, EntryV>,
    avail: Seq<SourceIndex>,
) -> Seq<SourceV>
    decreases avail.len(),
{
    if avail.len() == 0 {
        Seq::empty()
    } else {
        let t = not_installed_sources(sources, avail.drop_last());
        if sources.dom().contains(avail.last().id as int) {
            t
        } else {
            t.push(index_source_v(avail.last()@))
        }
    }
}

// ---------------------------------------------------------------------------
// The catalogue mutation decisions.
// ---------------------------------------------------------------------------
/// The decisions behind the install/update/uninstall mutations; the embedder
/// fetches the catalog and the script bytes and drives the manager with the
/// returned row.
pub struct SourceMutationRoot {}

impl SourceMutationRoot {
    /// Decides an install request: refused when the id is already
    /// registered, otherwise the first catalog row carrying the id — the
    /// row whose script package the embedder is to fetch and install.
    pub fn plan_install(&self, mgr: &SourceManager, source_id: i64, available: &Vec<SourceIndex>)
        -> (r: Result<SourceIndex, CatalogueError>)
        requires
            mgr.wf(),
        ensures
            mgr@.sources.dom().contains(source_id as int) ==> (r matches Err(e) && e
                == CatalogueError::AlreadyInstalled),
            !mgr@.sources.dom().contains(source_id as int) ==> match first_index(
                available@,
                source_id as int,
            ) {
                None => r matches Err(e) && e == CatalogueError::NotFound,
                Some(idx) => r matches Ok(row) && row@ == idx@,
            },
    {
        if mgr.exist(source_id) {
            return Err(CatalogueError::AlreadyInstalled);
        }
        match find_first_pos(available, source_id) {
            None => Err(CatalogueError::NotFound),
            Some(i) => Ok(available[i].snapshot()),
        }
    }

    /// Decides an update request: the first catalog row carrying the id,
    /// refused when the id is not installed, when either version string
    /// does not parse, or when both versions are the same.
    pub fn plan_update(&self, mgr: &SourceManager, source_id: i64, available: &Vec<SourceIndex>)
        -> (r: Result<SourceIndex, CatalogueError>)
        requires
            mgr.wf(),
        ensures
            !mgr@.sources.dom().contains(source_id as int) ==> (r matches Err(e) && e
                == CatalogueError::NotFound),
            mgr@.sources.dom().contains(source_id as int) ==> match first_index(
                available@,
                source_id as int,
            ) {
                None => r matches Err(e) && e == CatalogueError::NotFound,
                Some(idx) => match (
                    parse_version_spec(idx.version@),
                    parse_version_spec(mgr@.sources[source_id as int].info.version),
                ) {
                    (Some(iv), Some(sv)) => if iv == sv {
                        r matches Err(e) && e == CatalogueError::NoNewVersion
                    } else {
                        r matches Ok(row) && row@ == idx@
                    },
                    _ => r matches Err(e) && e == CatalogueError::BadVersion,
                },
            },
    {
        let installed = match mgr.detail(source_id) {
            Ok(info) => info,
            Err(_) => {
                return Err(CatalogueError::NotFound);
            },
        };
        match find_first_pos(available, source_id) {
            None => Err(CatalogueError::NotFound),
            Some(i) => {
                let iv = Version::parse(available[i].version.as_str());
                let sv = Version::parse(installed.version.as_str());
                match (iv, sv) {
                    (Some(ivv), Some(svv)) => {
                        if ivv == svv {
                            Err(CatalogueError::NoNewVersion)
                        } else {
                            Ok(available[i].snapshot())
                        }
                    },
                    _ => Err(CatalogueError::BadVersion),
                }
            },
        }
    }
}

} // verus!
