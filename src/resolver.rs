use vstd::prelude::*;

use crate::models::{
    has_file_for, hard_edges, is_first_file_for, lemma_hard_edges_are_hard, Dependency, ModInfo,
    ModInfoView, SearchResult, HARD_DEPENDENCY,
};
use crate::text::text_of;
use crate::url::{info_url, info_url_text};

verus! {

/// What is known of each mod fetched so far: its file for the game version, or `None` where
/// it has none. A later entry for the same mod wins.
pub type Catalog = Seq<(u32, Option<ModInfoView>)>;

/// What the catalog knows of `id`, if anything.
pub open spec fn lookup(cat: Catalog, id: u32) -> Option<Option<ModInfoView>>
    decreases cat.len(),
{
    if cat.len() == 0 {
        None
    } else if cat.last().0 == id {
        Some(cat.last().1)
    } else {
        lookup(cat.drop_last(), id)
    }
}

/// Every file in the catalog is filed under the mod it belongs to.
pub open spec fn stamped(cat: Catalog) -> bool {
    forall|i: int| 0 <= i < cat.len() ==> ((#[trigger] cat[i]).1 matches Some(f) ==> f.id == cat[i].0)
}

/// How many catalog entries name a mod that is not on `path`.
pub open spec fn unexplored(cat: Catalog, path: Seq<u32>) -> nat
    decreases cat.len(),
{
    if cat.len() == 0 {
        0
    } else {
        unexplored(cat.drop_last(), path) + if path.contains(cat.last().0) {
            0nat
        } else {
            1nat
        }
    }
}

/// The files that resolving `id` yields below the ancestors `path`: nothing where `id` is an
/// ancestor (a cycle) or has no known file; else its file, then what each of its hard
/// dependencies yields, in their order.
pub open spec fn resolution(cat: Catalog, path: Seq<u32>, id: u32) -> Seq<ModInfoView>
    decreases unexplored(cat, path), 0nat, 0nat,
    via resolution_decreases
{
    if path.contains(id) {
        Seq::empty()
    } else {
        match lookup(cat, id) {
            Some(Some(f)) => seq![f] + forest(cat, path.push(id), hard_edges(f.dependencies)),
            _ => Seq::empty(),
        }
    }
}

/// What the targets of `edges` yield one after another.
pub open spec fn forest(cat: Catalog, path: Seq<u32>, edges: Seq<Dependency>) -> Seq<ModInfoView>
    decreases unexplored(cat, path), 1nat, edges.len(),
{
    if edges.len() == 0 {
        Seq::empty()
    } else {
        resolution(cat, path, edges[0].addon_id) + forest(cat, path, edges.drop_first())
    }
}

/// The first mod, in the order of the walk, that the walk reaches and the catalog does not
/// know yet.
pub open spec fn first_missing(cat: Catalog, path: Seq<u32>, id: u32) -> Option<u32>
    decreases unexplored(cat, path), 0nat, 0nat,
    via first_missing_decreases
{
    if path.contains(id) {
        None
    } else {
        match lookup(cat, id) {
            None => Some(id),
            Some(None) => None,
            Some(Some(f)) => first_missing_in(cat, path.push(id), hard_edges(f.dependencies)),
        }
    }
}

pub open spec fn first_missing_in(cat: Catalog, path: Seq<u32>, edges: Seq<Dependency>) -> Option<
    u32,
>
    decreases unexplored(cat, path), 1nat, edges.len(),
{
    if edges.len() == 0 {
        None
    } else {
        match first_missing(cat, path, edges[0].addon_id) {
            Some(m) => Some(m),
            None => first_missing_in(cat, path, edges.drop_first()),
        }
    }
}

/// A file record filed under the mod `mod_id`.
pub open spec fn filed_under(f: ModInfoView, mod_id: u32) -> ModInfoView {
    ModInfoView {
        id: mod_id,
        display_name: f.display_name,
        file_name: f.file_name,
        download_url: f.download_url,
        dependencies: f.dependencies,
    }
}

pub open spec fn views(s: Seq<ModInfo>) -> Seq<ModInfoView> {
    s.map_values(|m: ModInfo| m@)
}

pub open spec fn entry_view(e: (u32, Option<ModInfo>)) -> (u32, Option<ModInfoView>) {
    (
        e.0,
        match e.1 {
            Some(f) => Some(f@),
            None => None,
        },
    )
}

/// `a` has a hard dependency edge to `target`.
pub open spec fn hard_edge_to(a: ModInfoView, target: u32) -> bool {
    exists|k: int|
        0 <= k < a.dependencies.len() && (#[trigger] a.dependencies[k]).dep_type == HARD_DEPENDENCY
            && a.dependencies[k].addon_id == target
}

/// Some file before position `i` has a hard dependency edge to the mod of position `i`.
pub open spec fn fed_by_hard_edge(r: Seq<ModInfoView>, i: int) -> bool {
    exists|j: int| 0 <= j < i && hard_edge_to(#[trigger] r[j], r[i].id)
}

pub proof fn lemma_unexplored_shrinks(cat: Catalog, path: Seq<u32>, id: u32)
    ensures
        unexplored(cat, path.push(id)) <= unexplored(cat, path),
        lookup(cat, id) is Some && !path.contains(id) ==> unexplored(cat, path.push(id))
            < unexplored(cat, path),
    decreases cat.len(),
{
    if cat.len() > 0 {
        lemma_unexplored_shrinks(cat.drop_last(), path, id);
        let e = cat.last().0;
        if path.contains(e) {
            assert(path.push(id).contains(e)) by {
                let k = choose|k: int| 0 <= k < path.len() && path[k] == e;
                assert(path.push(id)[k] == e);
            }
        }
        if e == id {
            assert(path.push(id)[path.len() as int] == id);
        }
    }
}

#[via_fn]
proof fn resolution_decreases(cat: Catalog, path: Seq<u32>, id: u32) {
    lemma_unexplored_shrinks(cat, path, id);
}

#[via_fn]
proof fn first_missing_decreases(cat: Catalog, path: Seq<u32>, id: u32) {
    lemma_unexplored_shrinks(cat, path, id);
}

proof fn lemma_lookup_stamped(cat: Catalog, id: u32)
    requires
        stamped(cat),
    ensures
        lookup(cat, id) matches Some(Some(f)) ==> f.id == id,
    decreases cat.len(),
{
    if cat.len() > 0 {
        assert(cat[cat.len() - 1] == cat.last());
        assert forall|i: int| 0 <= i < cat.drop_last().len() implies ((#[trigger] cat.drop_last()[i]).1 matches Some(f) ==> f.id == cat.drop_last()[i].0) by {
            assert(cat.drop_last()[i] == cat[i]);
        }
        lemma_lookup_stamped(cat.drop_last(), id);
    }
}

/// Whatever resolving a mod yields starts with that mod's own file.
pub proof fn lemma_first_is_requested(cat: Catalog, path: Seq<u32>, id: u32)
    requires
        stamped(cat),
        resolution(cat, path, id).len() > 0,
    ensures
        resolution(cat, path, id)[0].id == id,
{
    lemma_lookup_stamped(cat, id);
}

/// Resolving a mod yields nothing exactly where the mod has no file for the version.
pub proof fn lemma_empty_iff_no_file(cat: Catalog, id: u32)
    ensures
        resolution(cat, Seq::empty(), id).len() == 0 <==> !(lookup(cat, id) matches Some(Some(_))),
{
    assert(!Seq::<u32>::empty().contains(id));
}

proof fn lemma_forest_fed(cat: Catalog, path: Seq<u32>, edges: Seq<Dependency>)
    requires
        stamped(cat),
    ensures
        forall|i: int|
            0 <= i < forest(cat, path, edges).len() ==> (exists|k: int|
                0 <= k < edges.len() && (#[trigger] edges[k]).addon_id == forest(
                    cat,
                    path,
                    edges,
                )[i].id) || fed_by_hard_edge(forest(cat, path, edges), i),
    decreases unexplored(cat, path), 1nat, edges.len(),
{
    if edges.len() > 0 {
        let a = resolution(cat, path, edges[0].addon_id);
        let b = forest(cat, path, edges.drop_first());
        let f = forest(cat, path, edges);
        assert(f == a + b);
        lemma_resolution_fed(cat, path, edges[0].addon_id);
        lemma_forest_fed(cat, path, edges.drop_first());
        assert forall|i: int| 0 <= i < f.len() implies (exists|k: int|
            0 <= k < edges.len() && (#[trigger] edges[k]).addon_id == f[i].id) || fed_by_hard_edge(
            f,
            i,
        ) by {
            if i < a.len() {
                if i == 0 {
                    lemma_first_is_requested(cat, path, edges[0].addon_id);
                    assert(edges[0].addon_id == f[i].id);
                } else {
                    assert(fed_by_hard_edge(a, i));
                    let j = choose|j: int| 0 <= j < i && hard_edge_to(#[trigger] a[j], a[i].id);
                    assert(f[j] == a[j]);
                    assert(fed_by_hard_edge(f, i));
                }
            } else {
                let p = i - a.len();
                assert(f[i] == b[p]);
                if exists|k: int|
                    0 <= k < edges.drop_first().len() && (#[trigger] edges.drop_first()[k]).addon_id
                        == b[p].id {
                    let k = choose|k: int|
                        0 <= k < edges.drop_first().len() && (#[trigger] edges.drop_first()[k]).addon_id
                            == b[p].id;
                    assert(edges[k + 1] == edges.drop_first()[k]);
                } else {
                    assert(fed_by_hard_edge(b, p));
                    let j = choose|j: int| 0 <= j < p && hard_edge_to(#[trigger] b[j], b[p].id);
                    assert(f[j + a.len()] == b[j]);
                    assert(fed_by_hard_edge(f, i));
                }
            }
        }
    }
}

proof fn lemma_resolution_fed(cat: Catalog, path: Seq<u32>, id: u32)
    requires
        stamped(cat),
    ensures
        forall|i: int|
            0 < i < resolution(cat, path, id).len() ==> fed_by_hard_edge(
                resolution(cat, path, id),
                i,
            ),
    decreases unexplored(cat, path), 0nat, 0nat,
{
    if !path.contains(id) {
        if let Some(Some(f)) = lookup(cat, id) {
            lemma_unexplored_shrinks(cat, path, id);
            let h = hard_edges(f.dependencies);
            let rest = forest(cat, path.push(id), h);
            let r = resolution(cat, path, id);
            assert(r == seq![f] + rest);
            lemma_forest_fed(cat, path.push(id), h);
            lemma_hard_edges_are_hard(f.dependencies);
            assert forall|i: int| 0 < i < r.len() implies fed_by_hard_edge(r, i) by {
                assert(r[i] == rest[i - 1]);
                if exists|k: int| 0 <= k < h.len() && (#[trigger] h[k]).addon_id == rest[i - 1].id {
                    let k = choose|k: int| 0 <= k < h.len() && (#[trigger] h[k]).addon_id == rest[i - 1].id;
                    assert(f.dependencies.contains(h[k]));
                    let q = choose|q: int| 0 <= q < f.dependencies.len() && f.dependencies[q] == h[k];
                    assert(hard_edge_to(r[0], r[i].id));
                } else {
                    assert(fed_by_hard_edge(rest, i - 1));
                    let j = choose|j: int| 0 <= j < i - 1 && hard_edge_to(#[trigger] rest[j], rest[i - 1].id);
                    assert(r[j + 1] == rest[j]);
                }
            }
        }
    }
}

/// Only hard dependency edges bring files into a resolution: every file after the first is
/// the target of a hard edge of some file before it.
pub proof fn lemma_only_hard_edges(cat: Catalog, id: u32)
    requires
        stamped(cat),
    ensures
        forall|i: int|
            0 < i < resolution(cat, Seq::empty(), id).len() ==> #[trigger] fed_by_hard_edge(
                resolution(cat, Seq::empty(), id),
                i,
            ),
{
    lemma_resolution_fed(cat, Seq::empty(), id);
}

/// `path` with `id` added at its end.
fn extended(path: &Vec<u32>, id: u32) -> (r: Vec<u32>)
    ensures
        r@ == path@.push(id),
{
    let mut r: Vec<u32> = Vec::new();
    let mut i: usize = 0;
    while i < path.len()
        invariant
            i <= path@.len(),
            r@ == path@.take(i as int),
        decreases path@.len() - i,
    {
        r.push(path[i]);
        assert(path@.take(i + 1) =~= path@.take(i as int).push(path@[i as int]));
        i = i + 1;
    }
    assert(path@.take(i as int) =~= path@);
    r.push(id);
    r
}

/// Whether `id` is on `path`.
fn on_path(path: &Vec<u32>, id: u32) -> (r: bool)
    ensures
        r == path@.contains(id),
{
    let mut i: usize = 0;
    while i < path.len()
        invariant
            i <= path@.len(),
            forall|j: int| 0 <= j < i ==> path@[j] != id,
        decreases path@.len() - i,
    {
        if path[i] == id {
            assert(path@[i as int] == id);
            return true;
        }
        i = i + 1;
    }
    false
}

/// Works out, one fetch at a time, the files to download for a mod and the game version:
/// the mod's own file first, then the files of its hard dependencies, depth first.
///
/// The caller asks `next_needed` which mod to fetch, hands its summary to `learn_summary`
/// and, where that asks for it, the file record to `learn_file`, until nothing is needed;
/// then `resolved` gives the list. A mod that depends on one of its own ancestors adds
/// nothing there, so a cyclic graph ends.
pub struct Resolver {
    game_version: String,
    root: u32,
    known: Vec<(u32, Option<ModInfo>)>,
}

impl Resolver {
    /// What the resolver has learnt so far.
    pub closed spec fn catalog(&self) -> Catalog {
        self.known@.map_values(|e: (u32, Option<ModInfo>)| entry_view(e))
    }

    /// The mod whose files are being resolved.
    pub closed spec fn root(&self) -> u32 {
        self.root
    }

    pub closed spec fn version(&self) -> Seq<char> {
        self.game_version@
    }

    pub open spec fn wf(&self) -> bool {
        stamped(self.catalog())
    }

    pub fn new(game_version: &str, mod_id: u32) -> (r: Resolver)
        ensures
            r.catalog() == Seq::<(u32, Option<ModInfoView>)>::empty(),
            r.root() == mod_id,
            r.version() == game_version@,
            r.wf(),
    {
        let r = Resolver { game_version: text_of(game_version), root: mod_id, known: Vec::new() };
        assert(r.catalog() =~= Seq::<(u32, Option<ModInfoView>)>::empty());
        r
    }

    /// What the catalog holds for `id`, searched from the latest entry.
    fn find(&self, id: u32) -> (r: Option<&Option<ModInfo>>)
        ensures
            r is None ==> lookup(self.catalog(), id) is None,
            r matches Some(e) ==> lookup(self.catalog(), id) == Some(entry_view((id, *e)).1),
    {
        let mut i: usize = self.known.len();
        assert(self.catalog().take(i as int) =~= self.catalog());
        while i > 0
            invariant
                i <= self.known@.len(),
                lookup(self.catalog(), id) == lookup(self.catalog().take(i as int), id),
            decreases i,
        {
            assert(self.catalog().take(i as int).drop_last() =~= self.catalog().take(i - 1));
            assert(self.catalog()[i - 1] == entry_view(self.known@[i - 1]));
            if self.known[i - 1].0 == id {
                return Some(&self.known[i - 1].1);
            }
            i = i - 1;
        }
        None
    }

    fn missing_from(&self, path: &Vec<u32>, id: u32) -> (r: Option<u32>)
        ensures
            r == first_missing(self.catalog(), path@, id),
        decreases unexplored(self.catalog(), path@),
    {
        let ghost cat = self.catalog();
        let ghost start = path@;
        if on_path(path, id) {
            return None;
        }
        match self.find(id) {
            None => Some(id),
            Some(None) => None,
            Some(Some(f)) => {
                let deps = f.hard_dependencies();
                let ghost edges = hard_edges(f@.dependencies);
                proof {
                    lemma_unexplored_shrinks(cat, start, id);
                    assert(edges.skip(0) =~= edges);
                }
                let below = extended(path, id);
                let mut k: usize = 0;
                while k < deps.len()
                    invariant
                        below@ == start.push(id),
                        path@ == start,
                        k <= deps@.len(),
                        deps@.len() == edges.len(),
                        forall|q: int| 0 <= q < deps@.len() ==> *deps@[q] == #[trigger] edges[q],
                        cat == self.catalog(),
                        unexplored(cat, start.push(id)) < unexplored(cat, start),
                        first_missing(cat, start, id) == first_missing_in(
                            cat,
                            start.push(id),
                            edges.skip(k as int),
                        ),
                    decreases deps@.len() - k,
                {
                    assert(edges.skip(k as int)[0] == edges[k as int]);
                    assert(edges.skip(k as int).drop_first() =~= edges.skip(k + 1));
                    let m = self.missing_from(&below, deps[k].addon_id);
                    if m.is_some() {
                        return m;
                    }
                    k = k + 1;
                }
                None
            },
        }
    }

    fn resolve_into(&self, path: &Vec<u32>, id: u32, out: &mut Vec<ModInfo>)
        ensures
            views(final(out)@) == views(old(out)@) + resolution(self.catalog(), path@, id),
        decreases unexplored(self.catalog(), path@),
    {
        let ghost cat = self.catalog();
        let ghost start = path@;
        let ghost out0 = views(out@);
        if on_path(path, id) {
            assert(views(out@) =~= out0 + Seq::<ModInfoView>::empty());
            return;
        }
        match self.find(id) {
            Some(Some(f)) => {
                let deps = f.hard_dependencies();
                let ghost edges = hard_edges(f@.dependencies);
                proof {
                    lemma_unexplored_shrinks(cat, start, id);
                    assert(edges.skip(0) =~= edges);
                }
                out.push(f.duplicate());
                assert(views(out@) =~= out0.push(f@));
                let below = extended(path, id);
                let mut k: usize = 0;
                while k < deps.len()
                    invariant
                        below@ == start.push(id),
                        path@ == start,
                        k <= deps@.len(),
                        deps@.len() == edges.len(),
                        forall|q: int| 0 <= q < deps@.len() ==> *deps@[q] == #[trigger] edges[q],
                        cat == self.catalog(),
                        unexplored(cat, start.push(id)) < unexplored(cat, start),
                        views(out@) + forest(cat, start.push(id), edges.skip(k as int)) == out0
                            + resolution(cat, start, id),
                    decreases deps@.len() - k,
                {
                    let ghost before = views(out@);
                    assert(edges.skip(k as int)[0] == edges[k as int]);
                    assert(edges.skip(k as int).drop_first() =~= edges.skip(k + 1));
                    self.resolve_into(&below, deps[k].addon_id, out);
                    assert(before + forest(cat, start.push(id), edges.skip(k as int)) =~= views(out@)
                        + forest(cat, start.push(id), edges.skip(k + 1)));
                    k = k + 1;
                }
                assert(edges.skip(k as int) =~= Seq::<Dependency>::empty());
                assert(views(out@) =~= views(out@) + Seq::<ModInfoView>::empty());
            },
            _ => {
                assert(views(out@) =~= out0 + Seq::<ModInfoView>::empty());
            },
        }
    }

    /// The next mod whose summary is needed, or `None` once every mod that the walk reaches
    /// is known.
    pub fn next_needed(&self) -> (r: Option<u32>)
        ensures
            r == first_missing(self.catalog(), Seq::empty(), self.root()),
    {
        let path: Vec<u32> = Vec::new();
        assert(path@ =~= Seq::<u32>::empty());
        self.missing_from(&path, self.root)
    }

    /// Takes the summary fetched for `mod_id`. Where it lists no file for the game version
    /// the mod is known to add nothing; else the result is the address of that file's record,
    /// to be fetched and handed to `learn_file`.
    pub fn learn_summary(&mut self, mod_id: u32, summary: &SearchResult) -> (r: Option<String>)
        ensures
            final(self).root() == old(self).root(),
            final(self).version() == old(self).version(),
            !has_file_for(summary.game_files@, old(self).version()) ==> r is None
                && final(self).catalog() == old(self).catalog().push((mod_id, None)),
            has_file_for(summary.game_files@, old(self).version()) ==> final(self).catalog()
                == old(self).catalog() && exists|i: int|
                is_first_file_for(summary.game_files@, old(self).version(), i) && (r matches Some(
                    u,
                ) && u@ == info_url_text(summary.id, summary.game_files@[i].project_file_id)),
            old(self).wf() ==> final(self).wf(),
    {
        match summary.get_file_by_version(self.game_version.as_str()) {
            None => {
                let ghost before = self.known@;
                self.known.push((mod_id, None));
                assert(self.catalog() =~= before.map_values(
                    |e: (u32, Option<ModInfo>)| entry_view(e),
                ).push((mod_id, None)));
                None
            },
            Some(f) => Some(info_url(summary.id, f.project_file_id)),
        }
    }

    /// Takes the file record of `mod_id` for the game version.
    pub fn learn_file(&mut self, mod_id: u32, info: ModInfo)
        ensures
            final(self).root() == old(self).root(),
            final(self).version() == old(self).version(),
            final(self).catalog() == old(self).catalog().push((mod_id, Some(filed_under(info@, mod_id)))),
            old(self).wf() ==> final(self).wf(),
    {
        let ghost before = self.known@;
        let mut info = info;
        info.id = mod_id;
        self.known.push((mod_id, Some(info)));
        assert(self.catalog() =~= before.map_values(|e: (u32, Option<ModInfo>)| entry_view(e)).push(
            (mod_id, Some(filed_under(info@, mod_id))),
        ));
    }

    /// The files to download: the root's file first, then what its hard dependencies yield,
    /// depth first and in the order they are listed. Empty where the root has no file for
    /// the game version.
    pub fn resolved(&self) -> (r: Vec<ModInfo>)
        ensures
            views(r@) == resolution(self.catalog(), Seq::empty(), self.root()),
            self.wf() && r@.len() > 0 ==> r@[0].id == self.root(),
    {
        let path: Vec<u32> = Vec::new();
        let mut out: Vec<ModInfo> = Vec::new();
        assert(path@ =~= Seq::<u32>::empty());
        assert(views(out@) =~= Seq::<ModInfoView>::empty());
        self.resolve_into(&path, self.root, &mut out);
        assert(views(out@) =~= Seq::<ModInfoView>::empty() + resolution(
            self.catalog(),
            Seq::empty(),
            self.root,
        ));
        proof {
            if self.wf() && out@.len() > 0 {
                lemma_first_is_requested(self.catalog(), Seq::empty(), self.root);
                assert(views(out@)[0] == out@[0]@);
            }
        }
        out
    }
}

} // verus!
