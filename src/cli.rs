use vstd::prelude::*;

use crate::models::{ModLoader, SortType};
use crate::text::text_of;
use crate::url::{search_url, search_url_text};

verus! {

/// The settings kept between runs.
pub struct Config {
    pub game_version: String,
    pub mod_loader: ModLoader,
    pub sort_type: SortType,
    pub amount: u8,
}

impl Default for Config {
    fn default() -> (r: Config)
        ensures
            r.game_version@ == "1.16.4"@,
            r.mod_loader == ModLoader::Forge,
            r.sort_type == SortType::Popularity,
            r.amount == 9,
    {
        Config {
            game_version: text_of("1.16.4"),
            mod_loader: ModLoader::Forge,
            sort_type: SortType::Popularity,
            amount: 9,
        }
    }
}

/// The command line: each setting left out falls back on the configuration.
pub struct Cdl {
    pub mod_loader: Option<ModLoader>,
    pub game_version: Option<String>,
    pub sort: Option<SortType>,
    pub amount: Option<u8>,
    pub github: bool,
    pub query: String,
}

impl Cdl {
    pub open spec fn version_or(&self, config: &Config) -> Seq<char> {
        match self.game_version {
            Some(v) => v@,
            None => config.game_version@,
        }
    }

    pub open spec fn loader_or(&self, config: &Config) -> ModLoader {
        match self.mod_loader {
            Some(l) => l,
            None => config.mod_loader,
        }
    }

    pub open spec fn amount_or(&self, config: &Config) -> u8 {
        match self.amount {
            Some(a) => a,
            None => config.amount,
        }
    }

    pub open spec fn sort_or(&self, config: &Config) -> SortType {
        match self.sort {
            Some(s) => s,
            None => config.sort_type,
        }
    }

    /// The game version to use.
    pub fn version<'a>(&'a self, config: &'a Config) -> (r: &'a str)
        ensures
            r@ == self.version_or(config),
    {
        match &self.game_version {
            Some(v) => v.as_str(),
            None => config.game_version.as_str(),
        }
    }

    /// The mod loader to search for.
    pub fn loader(&self, config: &Config) -> (r: ModLoader)
        ensures
            r == self.loader_or(config),
    {
        match self.mod_loader {
            Some(l) => l,
            None => config.mod_loader,
        }
    }

    /// How many results to ask for.
    pub fn page_size(&self, config: &Config) -> (r: u8)
        ensures
            r == self.amount_or(config),
    {
        match self.amount {
            Some(a) => a,
            None => config.amount,
        }
    }

    /// The ordering of the results.
    pub fn sort_type(&self, config: &Config) -> (r: SortType)
        ensures
            r == self.sort_or(config),
    {
        match self.sort {
            Some(s) => s,
            None => config.sort_type,
        }
    }

    /// The search address for this command line, with the configuration filling in what it
    /// leaves out.
    pub fn search_url(&self, config: &Config) -> (r: String)
        ensures
            r@ == search_url_text(
                self.query@,
                self.version_or(config),
                self.amount_or(config),
                self.sort_or(config),
            ),
    {
        let sort = self.sort_type(config);
        search_url(self.query.as_str(), self.version(config), self.page_size(config), &sort)
    }
}

} // verus!
