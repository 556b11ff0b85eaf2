pub mod value;
pub mod registry;

use vstd::prelude::*;

use crate::asset::Asset;
use crate::common::deps::{RulebookDependency, key_of, rulebook_key};
use crate::common::ids::{name_based_id, uuid_v5_x500};
use crate::common::meta::copy_texts;
use crate::common::text::{dashed, join_texts, joined, lowercased, replace_spaces, text_eq, to_lowercase, views_of};
use crate::error::FreError;

verus! {

//==============================================================================================
//        Ruleset Info
//==============================================================================================

/// The game system a rulebook belongs to: its title and, if it has one, its short name.
#[derive(Debug)]
pub struct RulesetInfo {
    title: String,
    short: Option<String>,
}

/// The content of a `RulesetInfo`.
pub struct RulesetModel {
    pub title: Seq<char>,
    pub short: Option<Seq<char>>,
}

pub open spec fn text_option_view(o: Option<String>) -> Option<Seq<char>> {
    match o {
        Some(s) => Some(s@),
        None => None,
    }
}

impl View for RulesetInfo {
    type V = RulesetModel;

    closed spec fn view(&self) -> RulesetModel {
        RulesetModel { title: self.title@, short: text_option_view(self.short) }
    }
}

/// A ruleset is named `name` by its short name or by its title.
pub open spec fn ruleset_named(r: RulesetModel, name: Seq<char>) -> bool {
    r.short == Some(name) || r.title == name
}

pub fn copy_text_option(o: &Option<String>) -> (r: Option<String>)
    ensures
        text_option_view(r) == text_option_view(*o),
{
    match o {
        Some(s) => Some(s.clone()),
        None => None,
    }
}

impl RulesetInfo {
    pub fn new(title: String, short: Option<String>) -> (r: RulesetInfo)
        ensures
            r@ == (RulesetModel { title: title@, short: text_option_view(short) }),
    {
        RulesetInfo { title, short }
    }

    /// The ruleset titled `title`, without a short name.
    pub fn from_title(title: &str) -> (r: RulesetInfo)
        ensures
            r@ == (RulesetModel { title: title@, short: None }),
    {
        RulesetInfo { title: title.to_owned(), short: None }
    }

    pub fn title(&self) -> (r: &str)
        ensures
            r@ == self@.title,
    {
        self.title.as_str()
    }

    pub fn short(&self) -> (r: Option<&String>)
        ensures
            match r {
                Some(s) => self@.short == Some(s@),
                None => self@.short is None,
            },
    {
        match &self.short {
            Some(s) => Some(s),
            None => None,
        }
    }

    /// Whether the ruleset goes by `name`, as its short name or its title.
    pub fn is_named(&self, name: &str) -> (r: bool)
        ensures
            r == ruleset_named(self@, name@),
    {
        if let Some(short) = &self.short {
            if text_eq(short.as_str(), name) {
                return true;
            }
        }
        text_eq(self.title.as_str(), name)
    }
}

impl Clone for RulesetInfo {
    fn clone(&self) -> (r: Self)
        ensures
            r@ == self@,
    {
        RulesetInfo { title: self.title.clone(), short: copy_text_option(&self.short) }
    }
}

impl Default for RulesetInfo {
    fn default() -> (r: Self)
        ensures
            r@ == (RulesetModel { title: Seq::empty(), short: None }),
    {
        RulesetInfo { title: String::new(), short: None }
    }
}

impl core::str::FromStr for RulesetInfo {
    type Err = FreError;

    fn from_str(s: &str) -> (r: Result<Self, Self::Err>)
        ensures
            r is Ok && r->Ok_0@ == (RulesetModel { title: s@, short: None }),
    {
        Ok(RulesetInfo::from_title(s))
    }
}

//==============================================================================================
//        Rulebook Settings
//==============================================================================================

/// The name of the settings file of a rulebook project.
pub open spec fn settings_file_name() -> Seq<char> {
    "familiar.config.json"@
}

/// The name of the settings file of a rulebook project.
pub fn settings_file() -> (r: &'static str)
    ensures
        r@ == settings_file_name(),
{
    "familiar.config.json"
}

/// What the search for a project's settings file does at a path: read the file there, read
/// the settings file of the folder there, go on with the folder above, or give up.
#[derive(Debug, PartialEq, Eq, Structural)]
pub enum SettingsStep {
    ReadThis,
    ReadInFolder,
    GoUp,
    NotFound,
}

/// The step the search takes at a path: a file is read when it is the settings file; a
/// folder is read when it holds the settings file; otherwise the search goes up while there
/// is a folder above.
pub open spec fn settings_step(
    is_file: bool,
    file_name: Option<Seq<char>>,
    folder_has_settings: bool,
    has_parent: bool,
) -> SettingsStep {
    if is_file && file_name == Some(settings_file_name()) {
        SettingsStep::ReadThis
    } else if !is_file && folder_has_settings {
        SettingsStep::ReadInFolder
    } else if has_parent {
        SettingsStep::GoUp
    } else {
        SettingsStep::NotFound
    }
}

/// The step the search for the settings file takes at a path that is a file (`is_file`,
/// named `file_name`) or a folder (holding the settings file when `folder_has_settings`),
/// with a folder above when `has_parent`.
pub fn settings_search_step(
    is_file: bool,
    file_name: Option<&str>,
    folder_has_settings: bool,
    has_parent: bool,
) -> (r: SettingsStep)
    requires
        is_file ==> file_name is Some,
    ensures
        r == settings_step(
            is_file,
            match file_name {
                Some(n) => Some(n@),
                None => None,
            },
            folder_has_settings,
            has_parent,
        ),
{
    let is_settings = match file_name {
        Some(n) => text_eq(n, settings_file()),
        None => false,
    };
    if is_file && is_settings {
        SettingsStep::ReadThis
    } else if !is_file && folder_has_settings {
        SettingsStep::ReadInFolder
    } else if has_parent {
        SettingsStep::GoUp
    } else {
        SettingsStep::NotFound
    }
}

/// The settings of a rulebook project, as its configuration file gives them.
#[derive(Debug)]
pub struct RulebookSettings {
    name: String,
    version: String,
    ruleset: RulesetInfo,
    cover: Option<String>,
    description: Option<String>,
    authors: Option<Vec<String>>,
    includes: Option<Vec<String>>,
}

/// The content of a `RulebookSettings`.
pub struct SettingsModel {
    pub name: Seq<char>,
    pub version: Seq<char>,
    pub ruleset: RulesetModel,
    pub cover: Option<Seq<char>>,
    pub description: Option<Seq<char>>,
    pub authors: Option<Seq<Seq<char>>>,
    pub includes: Option<Seq<Seq<char>>>,
}

pub open spec fn texts_option_view(o: Option<Vec<String>>) -> Option<Seq<Seq<char>>> {
    match o {
        Some(v) => Some(views_of(v@)),
        None => None,
    }
}

impl View for RulebookSettings {
    type V = SettingsModel;

    closed spec fn view(&self) -> SettingsModel {
        SettingsModel {
            name: self.name@,
            version: self.version@,
            ruleset: self.ruleset@,
            cover: text_option_view(self.cover),
            description: text_option_view(self.description),
            authors: texts_option_view(self.authors),
            includes: texts_option_view(self.includes),
        }
    }
}

/// The file patterns a build runs when the settings name none.
pub open spec fn default_includes() -> Seq<Seq<char>> {
    seq!["**/*.lua"@]
}

/// The name of the file a rulebook is built into: its name in lower case with spaces as
/// `-`, then `-`, its version and `.rulebook`.
pub open spec fn pak_file_name_of(s: SettingsModel) -> Seq<char> {
    dashed(lowercased(s.name)) + "-"@ + s.version + ".rulebook"@
}

/// The file a rulebook is built into is named by its lower-cased name, with no space left
/// in it, then `-`, the version and `.rulebook`.
pub proof fn law_pak_file_name_has_no_space_in_name(s: SettingsModel)
    ensures
        pak_file_name_of(s).len() == lowercased(s.name).len() + s.version.len() + 10,
        forall|i: int| 0 <= i < lowercased(s.name).len() ==> #[trigger] pak_file_name_of(s)[i] != ' ',
        pak_file_name_of(s).skip(lowercased(s.name).len() as int) == "-"@ + s.version + ".rulebook"@,
{
    reveal_strlit("-");
    reveal_strlit(".rulebook");
    let d = dashed(lowercased(s.name));
    crate::common::text::law_dashed_replaces_every_space(lowercased(s.name));
    let f = pak_file_name_of(s);
    assert forall|i: int| 0 <= i < lowercased(s.name).len() implies #[trigger] f[i] != ' ' by {
        assert(f[i] == d[i]);
        if d[i] == ' ' {
            assert(d.contains(' '));
        }
    }
    assert(f.skip(d.len() as int) =~= "-"@ + s.version + ".rulebook"@);
}

fn copy_texts_option(o: &Option<Vec<String>>) -> (r: Option<Vec<String>>)
    ensures
        texts_option_view(r) == texts_option_view(*o),
{
    match o {
        Some(v) => {
            let c = copy_texts(v);
            proof {
                assert(views_of(c@) =~= crate::common::meta::string_views(c@));
                assert(views_of(v@) =~= crate::common::meta::string_views(v@));
            }
            Some(c)
        },
        None => None,
    }
}

impl RulebookSettings {
    pub fn new(
        name: String,
        version: String,
        ruleset: RulesetInfo,
        cover: Option<String>,
        description: Option<String>,
        authors: Option<Vec<String>>,
        includes: Option<Vec<String>>,
    ) -> (r: RulebookSettings)
        ensures
            r@ == (SettingsModel {
                name: name@,
                version: version@,
                ruleset: ruleset@,
                cover: text_option_view(cover),
                description: text_option_view(description),
                authors: texts_option_view(authors),
                includes: texts_option_view(includes),
            }),
    {
        RulebookSettings { name, version, ruleset, cover, description, authors, includes }
    }

    /// The rulebook's identifier, derived from `name|version`.
    pub fn uuid(&self) -> (r: u128)
        ensures
            r == uuid_v5_x500(rulebook_key(self@.name, self@.version)),
    {
        let key = key_of(self.name.as_str(), self.version.as_str());
        name_based_id(key.as_str())
    }

    pub fn ruleset(&self) -> (r: &RulesetInfo)
        ensures
            r@ == self@.ruleset,
    {
        &self.ruleset
    }

    pub fn name(&self) -> (r: &str)
        ensures
            r@ == self@.name,
    {
        self.name.as_str()
    }

    pub fn version(&self) -> (r: &str)
        ensures
            r@ == self@.version,
    {
        self.version.as_str()
    }

    pub fn cover(&self) -> (r: Option<&String>)
        ensures
            match r {
                Some(s) => self@.cover == Some(s@),
                None => self@.cover is None,
            },
    {
        match &self.cover {
            Some(s) => Some(s),
            None => None,
        }
    }

    pub fn description(&self) -> (r: Option<&String>)
        ensures
            match r {
                Some(s) => self@.description == Some(s@),
                None => self@.description is None,
            },
    {
        match &self.description {
            Some(s) => Some(s),
            None => None,
        }
    }

    pub fn authors(&self) -> (r: Option<&Vec<String>>)
        ensures
            match r {
                Some(v) => self@.authors == Some(views_of(v@)),
                None => self@.authors is None,
            },
    {
        match &self.authors {
            Some(v) => Some(v),
            None => None,
        }
    }

    pub fn includes(&self) -> (r: Option<&Vec<String>>)
        ensures
            match r {
                Some(v) => self@.includes == Some(views_of(v@)),
                None => self@.includes is None,
            },
    {
        match &self.includes {
            Some(v) => Some(v),
            None => None,
        }
    }

    /// Takes the file patterns to build out of the settings: those they name, or
    /// `**/*.lua` when they name none.
    pub fn take_includes(&mut self) -> (r: Vec<String>)
        ensures
            views_of(r@) == match old(self)@.includes {
                Some(v) => v,
                None => default_includes(),
            },
            final(self)@ == (SettingsModel { includes: None, ..old(self)@ }),
    {
        let taken = self.includes.take();
        match taken {
            Some(v) => v,
            None => {
                let mut v = Vec::new();
                v.push("**/*.lua".to_owned());
                proof {
                    reveal_strlit("**/*.lua");
                    assert(views_of(v@) =~= default_includes());
                }
                v
            },
        }
    }

    /// The name of the file the rulebook is built into.
    pub fn pak_file_name(&self) -> (r: String)
        ensures
            r@ == pak_file_name_of(self@),
    {
        let lower = to_lowercase(self.name.as_str());
        let mut r = replace_spaces(lower.as_str());
        r.append("-");
        r.append(self.version.as_str());
        r.append(".rulebook");
        proof {
            reveal_strlit("-");
            reveal_strlit(".rulebook");
        }
        r
    }

    /// The name of the cover asset: the rulebook's name followed by ` Cover`.
    pub fn cover_asset_name(&self) -> (r: String)
        ensures
            r@ == self@.name + " Cover"@,
    {
        let mut r = self.name.clone();
        r.append(" Cover");
        proof {
            reveal_strlit(" Cover");
        }
        r
    }

    /// The description the built file carries: the settings' description, or nothing.
    pub fn pak_description(&self) -> (r: String)
        ensures
            r@ == match self@.description {
                Some(d) => d,
                None => Seq::empty(),
            },
    {
        match &self.description {
            Some(d) => d.clone(),
            None => String::new(),
        }
    }

    /// The author line the built file carries: the authors joined with `, `.
    pub fn pak_authors(&self) -> (r: String)
        ensures
            r@ == match self@.authors {
                Some(a) => joined(a, ", "@),
                None => Seq::empty(),
            },
    {
        proof {
            reveal_strlit(", ");
        }
        match &self.authors {
            Some(a) => join_texts(a, ", "),
            None => String::new(),
        }
    }
}

impl Clone for RulebookSettings {
    fn clone(&self) -> (r: Self)
        ensures
            r@ == self@,
    {
        RulebookSettings {
            name: self.name.clone(),
            version: self.version.clone(),
            ruleset: self.ruleset.clone(),
            cover: copy_text_option(&self.cover),
            description: copy_text_option(&self.description),
            authors: copy_texts_option(&self.authors),
            includes: copy_texts_option(&self.includes),
        }
    }
}

//==============================================================================================
//        RulebookMeta
//==============================================================================================

/// What a built rulebook carries about itself: its ruleset, the rulebooks it builds on and
/// its cover.
#[derive(Debug)]
pub struct RulebookMeta {
    pub ruleset: RulesetInfo,
    pub deps: Vec<RulebookDependency>,
    pub cover: Option<Asset>,
}

impl RulebookMeta {
    /// The meta of a rulebook of `ruleset` with the cover `cover`, building on no other.
    pub fn new(ruleset: RulesetInfo, cover: Option<Asset>) -> (r: RulebookMeta)
        ensures
            r.ruleset@ == ruleset@,
            r.deps@.len() == 0,
            r.cover == cover,
    {
        RulebookMeta { ruleset, deps: Vec::new(), cover }
    }
}

impl Default for RulebookMeta {
    fn default() -> (r: Self)
        ensures
            r.ruleset@ == (RulesetModel { title: Seq::empty(), short: None }),
            r.deps@.len() == 0,
            r.cover is None,
    {
        RulebookMeta { ruleset: RulesetInfo::default(), deps: Vec::new(), cover: None }
    }
}

} // verus!
