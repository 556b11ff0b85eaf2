use vstd::prelude::*;

use crate::common::ids::{name_based_id, uuid_v5_x500};
use crate::common::text::{after_char, before_char, ends_with_char, split_once_at, strip_last_char};
use crate::error::FreError;

verus! {

//==============================================================================================
//        RulebookDependency
//==============================================================================================

/// A rulebook that another one builds on, named `rulebook@version`, with a `?` at the end
/// when it is optional. Its identifier is derived from `rulebook|version`.
#[derive(Debug)]
pub struct RulebookDependency {
    rulebook: String,
    version: String,
    uuid: u128,
    optional: bool,
}

/// The content of a `RulebookDependency`.
pub struct DependencyModel {
    pub rulebook: Seq<char>,
    pub version: Seq<char>,
    pub uuid: u128,
    pub optional: bool,
}

impl View for RulebookDependency {
    type V = DependencyModel;

    closed spec fn view(&self) -> DependencyModel {
        DependencyModel {
            rulebook: self.rulebook@,
            version: self.version@,
            uuid: self.uuid,
            optional: self.optional,
        }
    }
}

/// The name from which a rulebook's identifier is derived.
pub open spec fn rulebook_key(rulebook: Seq<char>, version: Seq<char>) -> Seq<char> {
    rulebook + "|"@ + version
}

/// The text of a dependency without its optional marker.
pub open spec fn dependency_body(s: Seq<char>) -> Seq<char> {
    if ends_with_char(s, '?') {
        s.drop_last()
    } else {
        s
    }
}

/// What a dependency string names, or `None` when it has no `@`.
pub open spec fn parse_dependency(s: Seq<char>) -> Option<DependencyModel> {
    let body = dependency_body(s);
    match after_char(body, '@') {
        None => None,
        Some(rest) => {
            let rulebook = before_char(body, '@');
            let version = before_char(rest, '@');
            Some(
                DependencyModel {
                    rulebook,
                    version,
                    uuid: uuid_v5_x500(rulebook_key(rulebook, version)),
                    optional: ends_with_char(s, '?'),
                },
            )
        },
    }
}

/// The message for a dependency string without a version.
pub open spec fn missing_version_message(s: Seq<char>) -> Seq<char> {
    "Missing version. This should be the format: `"@ + before_char(dependency_body(s), '@')
        + "@(version)`"@
}

pub fn key_of(rulebook: &str, version: &str) -> (r: String)
    ensures
        r@ == rulebook_key(rulebook@, version@),
{
    let mut key = rulebook.to_owned();
    key.append("|");
    key.append(version);
    proof {
        reveal_strlit("|");
    }
    key
}

impl RulebookDependency {
    pub fn new(rulebook: String, version: String) -> (r: RulebookDependency)
        ensures
            r@ == (DependencyModel {
                rulebook: rulebook@,
                version: version@,
                uuid: uuid_v5_x500(rulebook_key(rulebook@, version@)),
                optional: false,
            }),
    {
        let key = key_of(rulebook.as_str(), version.as_str());
        let uuid = name_based_id(key.as_str());
        RulebookDependency { rulebook, version, uuid, optional: false }
    }

    /// Reads `rulebook@version`, optionally followed by `?`. Anything after a second `@`
    /// is left out.
    pub fn parse(value: &str) -> (r: Result<RulebookDependency, FreError>)
        ensures
            match parse_dependency(value@) {
                Some(d) => r is Ok && r->Ok_0@ == d,
                None => r is Err && (r->Err_0 matches FreError::InvalidDepencyString(m)
                    && m@ == missing_version_message(value@)),
            },
    {
        let (optional, body) = strip_last_char(value, '?');
        let (rulebook, rest) = split_once_at(body, '@');
        match rest {
            None => {
                let mut message = "Missing version. This should be the format: `".to_owned();
                message.append(rulebook);
                message.append("@(version)`");
                proof {
                    reveal_strlit("Missing version. This should be the format: `");
                    reveal_strlit("@(version)`");
                }
                Err(FreError::InvalidDepencyString(message))
            },
            Some(rest) => {
                let (version, _) = split_once_at(rest, '@');
                let key = key_of(rulebook, version);
                let uuid = name_based_id(key.as_str());
                Ok(
                    RulebookDependency {
                        rulebook: rulebook.to_owned(),
                        version: version.to_owned(),
                        uuid,
                        optional,
                    },
                )
            },
        }
    }

    /// A dependency made of the parts it was stored as.
    pub fn from_parts(rulebook: String, version: String, uuid: u128, optional: bool) -> (r: RulebookDependency)
        ensures
            r@ == (DependencyModel { rulebook: rulebook@, version: version@, uuid, optional }),
    {
        RulebookDependency { rulebook, version, uuid, optional }
    }

    pub fn rulebook(&self) -> (r: &str)
        ensures
            r@ == self@.rulebook,
    {
        self.rulebook.as_str()
    }

    pub fn version(&self) -> (r: &str)
        ensures
            r@ == self@.version,
    {
        self.version.as_str()
    }

    pub fn uuid(&self) -> (r: u128)
        ensures
            r == self@.uuid,
    {
        self.uuid
    }

    pub fn is_optional(&self) -> (r: bool)
        ensures
            r == self@.optional,
    {
        self.optional
    }
}

//==============================================================================================
//        Dependency Reference
//==============================================================================================

/// A rulebook named by its title and identifier.
#[derive(Debug)]
pub struct DependencyRef {
    pub rulebook: String,
    pub uuid: u128,
}

} // verus!

verus! {

/// Reading `rulebook@version` gives the dependency that `new(rulebook, version)` makes,
/// when neither part holds an `@` and the version does not end with `?`.
pub proof fn law_parse_reads_what_new_makes(rulebook: Seq<char>, version: Seq<char>)
    requires
        !rulebook.contains('@'),
        !version.contains('@'),
        !ends_with_char(version, '?'),
    ensures
        parse_dependency(rulebook + "@"@ + version) == Some(
            DependencyModel {
                rulebook,
                version,
                uuid: uuid_v5_x500(rulebook_key(rulebook, version)),
                optional: false,
            },
        ),
{
    reveal_strlit("@");
    assert("@"@ =~= seq!['@']);
    let s = rulebook + "@"@ + version;
    assert(!ends_with_char(s, '?')) by {
        if version.len() == 0 {
            assert(s.last() == '@');
        } else {
            assert(s.last() == version.last());
        }
    }
    lemma_parts_around_at(rulebook, version, s);
}

/// Reading `rulebook@version?` gives the same dependency, marked optional.
pub proof fn law_parse_reads_optional(rulebook: Seq<char>, version: Seq<char>)
    requires
        !rulebook.contains('@'),
        !version.contains('@'),
        !ends_with_char(version, '?'),
    ensures
        parse_dependency(rulebook + "@"@ + version + "?"@) == Some(
            DependencyModel {
                rulebook,
                version,
                uuid: uuid_v5_x500(rulebook_key(rulebook, version)),
                optional: true,
            },
        ),
{
    reveal_strlit("@");
    reveal_strlit("?");
    assert("@"@ =~= seq!['@']);
    let s = rulebook + "@"@ + version;
    let t = s + "?"@;
    assert(ends_with_char(t, '?'));
    assert(t.drop_last() =~= s);
    lemma_parts_around_at(rulebook, version, s);
}

proof fn lemma_parts_around_at(rulebook: Seq<char>, version: Seq<char>, s: Seq<char>)
    requires
        !rulebook.contains('@'),
        !version.contains('@'),
        s == rulebook + "@"@ + version,
    ensures
        after_char(s, '@') == Some(version),
        before_char(s, '@') == rulebook,
        before_char(version, '@') == version,
{
    reveal_strlit("@");
    assert("@"@ =~= seq!['@']);
    let k = rulebook.len() as int;
    assert(s[k] == '@');
    assert forall|j: int| 0 <= j < k implies s[j] != '@' by {
        assert(s[j] == rulebook[j]);
        if s[j] == '@' {
            assert(rulebook.contains('@'));
        }
    }
    assert(crate::common::text::is_first_char(s, '@', k));
    crate::common::text::lemma_first_char_unique(s, '@', k);
    assert(s.subrange(0, k) =~= rulebook);
    assert(s.subrange(k + 1, s.len() as int) =~= version);
}

} // verus!
