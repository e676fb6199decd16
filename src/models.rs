use vstd::prelude::*;

use crate::text::{lower_of, lowercase, push_char, push_text, same_text, text_of};

verus! {

/// Which mod loader a search is restricted to.
#[derive(Clone, Copy, Debug, PartialEq, Eq, Structural)]
pub enum ModLoader {
    Forge,
    Fabric,
    Both,
}

/// The orderings the search endpoint offers.
#[derive(Clone, Copy, Debug, PartialEq, Eq, Structural)]
pub enum SortType {
    TotalDownloads,
    Popularity,
    Name,
    LastUpdated,
    DateCreated,
}

/// The relation code of a required ("hard") dependency edge.
pub const HARD_DEPENDENCY: u32 = 3;

/// The category tag that marks a mod as built for Fabric.
pub const FABRIC_CATEGORY: u32 = 4780;

pub struct Author {
    pub name: String,
    pub url: String,
    pub id: u32,
}

pub struct Category {
    pub category_id: u32,
    pub name: String,
    pub url: String,
}

pub struct GameFile {
    pub game_version: String,
    pub project_file_id: u32,
    pub project_file_name: String,
    pub file_type: u8,
}

/// A mod as the search endpoint describes it.
pub struct SearchResult {
    pub authors: Vec<Author>,
    pub description: String,
    pub categories: Vec<Category>,
    pub game_files: Vec<GameFile>,
    pub id: u32,
    pub name: String,
    pub website_url: String,
}

/// One dependency edge of a file: the mod it points to and the relation code.
#[derive(Clone, Copy, Debug, PartialEq, Eq, Structural)]
pub struct Dependency {
    pub addon_id: u32,
    pub dep_type: u32,
}

/// A concrete downloadable file of the mod `id`.
pub struct ModInfo {
    pub id: u32,
    pub display_name: String,
    pub file_name: String,
    pub download_url: String,
    pub dependencies: Vec<Dependency>,
}

/// What a file record holds, as plain values.
pub struct ModInfoView {
    pub id: u32,
    pub display_name: Seq<char>,
    pub file_name: Seq<char>,
    pub download_url: Seq<char>,
    pub dependencies: Seq<Dependency>,
}

impl View for ModInfo {
    type V = ModInfoView;

    open spec fn view(&self) -> ModInfoView {
        ModInfoView {
            id: self.id,
            display_name: self.display_name@,
            file_name: self.file_name@,
            download_url: self.download_url@,
            dependencies: self.dependencies@,
        }
    }
}

/// Whether some category of the list is the Fabric tag.
pub open spec fn has_fabric_tag(categories: Seq<Category>) -> bool {
    exists|i: int| 0 <= i < categories.len() && #[trigger] categories[i].category_id == FABRIC_CATEGORY
}

/// `i` is the first file of the list that is made for `version`.
pub open spec fn is_first_file_for(files: Seq<GameFile>, version: Seq<char>, i: int) -> bool {
    &&& 0 <= i < files.len()
    &&& files[i].game_version@ == version
    &&& forall|j: int| 0 <= j < i ==> #[trigger] files[j].game_version@ != version
}

/// Whether some file of the list is made for `version`.
pub open spec fn has_file_for(files: Seq<GameFile>, version: Seq<char>) -> bool {
    exists|i: int| 0 <= i < files.len() && #[trigger] files[i].game_version@ == version
}

/// The edges of `deps` whose relation is a hard dependency, in their order.
pub open spec fn hard_edges(deps: Seq<Dependency>) -> Seq<Dependency>
    decreases deps.len(),
{
    if deps.len() == 0 {
        Seq::empty()
    } else if deps.last().dep_type == HARD_DEPENDENCY {
        hard_edges(deps.drop_last()).push(deps.last())
    } else {
        hard_edges(deps.drop_last())
    }
}

/// The names of a list of authors, separated by a comma and a space.
pub open spec fn joined_names(authors: Seq<Author>) -> Seq<char>
    decreases authors.len(),
{
    if authors.len() == 0 {
        Seq::empty()
    } else if authors.len() == 1 {
        authors[0].name@
    } else {
        joined_names(authors.drop_last()) + seq![',', ' '] + authors.last().name@
    }
}

/// The author line of a mod: at most three names, then a space, then "et al." where more
/// authors were left out.
pub open spec fn author_line(authors: Seq<Author>) -> Seq<char> {
    let shown = if authors.len() > 3 {
        authors.take(3)
    } else {
        authors
    };
    let tail = if authors.len() > 3 {
        seq!['e', 't', ' ', 'a', 'l', '.']
    } else {
        Seq::empty()
    };
    joined_names(shown) + seq![' '] + tail
}

pub proof fn lemma_hard_edges_are_hard(deps: Seq<Dependency>)
    ensures
        forall|i: int|
            0 <= i < hard_edges(deps).len() ==> (#[trigger] hard_edges(deps)[i]).dep_type
                == HARD_DEPENDENCY && deps.contains(hard_edges(deps)[i]),
    decreases deps.len(),
{
    if deps.len() > 0 {
        lemma_hard_edges_are_hard(deps.drop_last());
        assert forall|i: int| 0 <= i < hard_edges(deps).len() implies (#[trigger] hard_edges(
            deps,
        )[i]).dep_type == HARD_DEPENDENCY && deps.contains(hard_edges(deps)[i]) by {
            let h = hard_edges(deps)[i];
            if i < hard_edges(deps.drop_last()).len() {
                let k = choose|k: int| 0 <= k < deps.drop_last().len() && deps.drop_last()[k] == h;
                assert(deps[k] == h);
            } else {
                assert(deps[deps.len() - 1] == h);
            }
        }
    }
}

/// The loader that a lower-case name stands for.
pub open spec fn loader_named(s: Seq<char>) -> Option<ModLoader> {
    if s == "forge"@ {
        Some(ModLoader::Forge)
    } else if s == "fabric"@ {
        Some(ModLoader::Fabric)
    } else if s == "both"@ {
        Some(ModLoader::Both)
    } else {
        None
    }
}

/// The ordering that a lower-case name stands for.
pub open spec fn sort_named(s: Seq<char>) -> Option<SortType> {
    if s == "downloads"@ {
        Some(SortType::TotalDownloads)
    } else if s == "popularity"@ {
        Some(SortType::Popularity)
    } else if s == "name"@ {
        Some(SortType::Name)
    } else if s == "updated"@ {
        Some(SortType::LastUpdated)
    } else if s == "created"@ {
        Some(SortType::DateCreated)
    } else {
        None
    }
}

/// The message for a name that stands for nothing: the name in quotes, then what it
/// should have named.
pub open spec fn not_valid_message(name: Seq<char>, what: Seq<char>) -> Seq<char> {
    seq!['\''] + name + "' not a valid "@ + what
}

pub open spec fn loader_label(l: ModLoader) -> Seq<char> {
    match l {
        ModLoader::Forge => "Forge"@,
        ModLoader::Fabric => "Fabric"@,
        ModLoader::Both => "Forge/Fabric"@,
    }
}

pub open spec fn sort_label(s: SortType) -> Seq<char> {
    match s {
        SortType::TotalDownloads => "TotalDownloads"@,
        SortType::Popularity => "Popularity"@,
        SortType::Name => "Name"@,
        SortType::LastUpdated => "LastUpdated"@,
        SortType::DateCreated => "DateCreated"@,
    }
}

fn not_valid(name: &str, what: &str) -> (r: String)
    ensures
        r@ == not_valid_message(name@, what@),
{
    let mut r = String::new();
    push_char(&mut r, '\'');
    push_text(&mut r, name);
    push_text(&mut r, "' not a valid ");
    push_text(&mut r, what);
    assert(r@ =~= not_valid_message(name@, what@));
    r
}

impl ModLoader {
    /// The loader named by a lower-case name, or the message saying that it names none.
    pub fn from_lowercase(s: &str) -> (r: Result<ModLoader, String>)
        ensures
            loader_named(s@) matches Some(l) ==> r == Ok::<ModLoader, String>(l),
            loader_named(s@) is None ==> (r matches Err(m) && m@ == not_valid_message(s@, "mod loader"@)),
    {
        if same_text(s, "forge") {
            Ok(ModLoader::Forge)
        } else if same_text(s, "fabric") {
            Ok(ModLoader::Fabric)
        } else if same_text(s, "both") {
            Ok(ModLoader::Both)
        } else {
            Err(not_valid(s, "mod loader"))
        }
    }

    /// The loader named by `s` in any case.
    pub fn parse(s: &str) -> (r: Result<ModLoader, String>)
        ensures
            loader_named(lower_of(s@)) matches Some(l) ==> r == Ok::<ModLoader, String>(l),
            loader_named(lower_of(s@)) is None ==> (r matches Err(m) && m@ == not_valid_message(lower_of(s@), "mod loader"@)),
    {
        let lower = lowercase(s);
        Self::from_lowercase(lower.as_str())
    }

    pub fn to_string(&self) -> (r: String)
        ensures
            r@ == loader_label(*self),
    {
        match self {
            ModLoader::Forge => text_of("Forge"),
            ModLoader::Fabric => text_of("Fabric"),
            ModLoader::Both => text_of("Forge/Fabric"),
        }
    }
}

impl std::str::FromStr for ModLoader {
    type Err = String;

    fn from_str(s: &str) -> Result<ModLoader, String> {
        ModLoader::parse(s)
    }
}

impl SortType {
    /// The ordering named by a lower-case name, or the message saying that it names none.
    pub fn from_lowercase(s: &str) -> (r: Result<SortType, String>)
        ensures
            sort_named(s@) matches Some(t) ==> r == Ok::<SortType, String>(t),
            sort_named(s@) is None ==> (r matches Err(m) && m@ == not_valid_message(s@, "sort type"@)),
    {
        if same_text(s, "downloads") {
            Ok(SortType::TotalDownloads)
        } else if same_text(s, "popularity") {
            Ok(SortType::Popularity)
        } else if same_text(s, "name") {
            Ok(SortType::Name)
        } else if same_text(s, "updated") {
            Ok(SortType::LastUpdated)
        } else if same_text(s, "created") {
            Ok(SortType::DateCreated)
        } else {
            Err(not_valid(s, "sort type"))
        }
    }

    /// The ordering named by `s` in any case.
    pub fn parse(s: &str) -> (r: Result<SortType, String>)
        ensures
            sort_named(lower_of(s@)) matches Some(t) ==> r == Ok::<SortType, String>(t),
            sort_named(lower_of(s@)) is None ==> (r matches Err(m) && m@ == not_valid_message(lower_of(s@), "sort type"@)),
    {
        let lower = lowercase(s);
        Self::from_lowercase(lower.as_str())
    }

    /// The name the search endpoint knows this ordering by.
    pub fn to_string(&self) -> (r: String)
        ensures
            r@ == sort_label(*self),
    {
        match self {
            SortType::TotalDownloads => text_of("TotalDownloads"),
            SortType::Popularity => text_of("Popularity"),
            SortType::Name => text_of("Name"),
            SortType::LastUpdated => text_of("LastUpdated"),
            SortType::DateCreated => text_of("DateCreated"),
        }
    }
}

impl std::str::FromStr for SortType {
    type Err = String;

    fn from_str(s: &str) -> Result<SortType, String> {
        SortType::parse(s)
    }
}

impl Category {
    /// The category tag that marks Fabric mods.
    pub fn fabric_id() -> (r: u32)
        ensures
            r == FABRIC_CATEGORY,
    {
        FABRIC_CATEGORY
    }
}

impl Dependency {
    /// The relation code of a hard dependency.
    pub fn hard_id() -> (r: u32)
        ensures
            r == HARD_DEPENDENCY,
    {
        HARD_DEPENDENCY
    }
}

impl SearchResult {
    pub open spec fn spec_is_fabric(&self) -> bool {
        has_fabric_tag(self.categories@)
    }

    /// The first file of this mod that is made for `version`, if there is one.
    pub fn get_file_by_version(&self, version: &str) -> (r: Option<&GameFile>)
        ensures
            r is None <==> !has_file_for(self.game_files@, version@),
            r matches Some(f) ==> exists|i: int|
                is_first_file_for(self.game_files@, version@, i) && self.game_files@[i] == *f,
    {
        let mut i: usize = 0;
        while i < self.game_files.len()
            invariant
                i <= self.game_files@.len(),
                forall|j: int| 0 <= j < i ==> #[trigger] self.game_files@[j].game_version@ != version@,
            decreases self.game_files@.len() - i,
        {
            if same_text(self.game_files[i].game_version.as_str(), version) {
                assert(is_first_file_for(self.game_files@, version@, i as int));
                return Some(&self.game_files[i]);
            }
            i = i + 1;
        }
        None
    }

    /// Whether this mod carries the Fabric category tag.
    pub fn is_fabric(&self) -> (r: bool)
        ensures
            r == self.spec_is_fabric(),
    {
        let mut i: usize = 0;
        while i < self.categories.len()
            invariant
                i <= self.categories@.len(),
                forall|j: int| 0 <= j < i ==> #[trigger] self.categories@[j].category_id != FABRIC_CATEGORY,
            decreases self.categories@.len() - i,
        {
            if self.categories[i].category_id == Category::fabric_id() {
                return true;
            }
            i = i + 1;
        }
        false
    }

    /// The first three author names joined by ", ", a space, and "et al." where there
    /// are more than three authors.
    pub fn author_names(&self) -> (r: String)
        requires
            self.authors@.len() > 0,
        ensures
            r@ == author_line(self.authors@),
    {
        let total = self.authors.len();
        let shown: usize = if total > 3 {
            3
        } else {
            total
        };
        let ghost shown_seq = self.authors@.take(shown as int);
        let mut r = String::new();
        push_text(&mut r, self.authors[0].name.as_str());
        assert(shown_seq.take(1).drop_last().len() == 0);
        assert(r@ == joined_names(shown_seq.take(1)));
        let mut i: usize = 1;
        while i < shown
            invariant
                1 <= i <= shown <= total,
                total == self.authors@.len(),
                shown_seq == self.authors@.take(shown as int),
                r@ == joined_names(shown_seq.take(i as int)),
            decreases shown - i,
        {
            push_char(&mut r, ',');
            push_char(&mut r, ' ');
            push_text(&mut r, self.authors[i].name.as_str());
            assert(shown_seq.take(i + 1).drop_last() =~= shown_seq.take(i as int));
            assert(r@ =~= joined_names(shown_seq.take(i as int)) + seq![',', ' ']
                + shown_seq.take(i + 1).last().name@);
            i = i + 1;
        }
        assert(shown_seq.take(shown as int) =~= shown_seq);
        if total <= 3 {
            assert(shown_seq =~= self.authors@);
        }
        push_char(&mut r, ' ');
        if total > 3 {
            push_char(&mut r, 'e');
            push_char(&mut r, 't');
            push_char(&mut r, ' ');
            push_char(&mut r, 'a');
            push_char(&mut r, 'l');
            push_char(&mut r, '.');
        }
        assert(r@ =~= author_line(self.authors@));
        r
    }
}

impl ModInfo {
    pub open spec fn hard_edges(&self) -> Seq<Dependency> {
        hard_edges(self.dependencies@)
    }

    /// The dependency edges of this file that are hard dependencies, in their order.
    pub fn hard_dependencies(&self) -> (r: Vec<&Dependency>)
        ensures
            r@.len() == self.hard_edges().len(),
            forall|i: int| 0 <= i < r@.len() ==> *r@[i] == #[trigger] self.hard_edges()[i],
    {
        let mut r: Vec<&Dependency> = Vec::new();
        let mut i: usize = 0;
        while i < self.dependencies.len()
            invariant
                i <= self.dependencies@.len(),
                r@.len() == hard_edges(self.dependencies@.take(i as int)).len(),
                forall|k: int|
                    0 <= k < r@.len() ==> *r@[k] == #[trigger] hard_edges(
                        self.dependencies@.take(i as int),
                    )[k],
            decreases self.dependencies@.len() - i,
        {
            let d = &self.dependencies[i];
            assert(self.dependencies@.take(i + 1).drop_last() =~= self.dependencies@.take(i as int));
            if d.dep_type == Dependency::hard_id() {
                r.push(d);
            }
            i = i + 1;
        }
        assert(self.dependencies@.take(i as int) =~= self.dependencies@);
        r
    }

    /// A copy of this file record.
    pub fn duplicate(&self) -> (r: ModInfo)
        ensures
            r@ == self@,
    {
        let mut deps: Vec<Dependency> = Vec::new();
        let mut i: usize = 0;
        while i < self.dependencies.len()
            invariant
                i <= self.dependencies@.len(),
                deps@ == self.dependencies@.take(i as int),
            decreases self.dependencies@.len() - i,
        {
            deps.push(self.dependencies[i]);
            assert(self.dependencies@.take(i + 1) =~= self.dependencies@.take(i as int).push(
                self.dependencies@[i as int],
            ));
            i = i + 1;
        }
        assert(self.dependencies@.take(i as int) =~= self.dependencies@);
        ModInfo {
            id: self.id,
            display_name: self.display_name.clone(),
            file_name: self.file_name.clone(),
            download_url: self.download_url.clone(),
            dependencies: deps,
        }
    }
}

} // verus!
