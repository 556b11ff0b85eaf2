use vstd::prelude::*;

use crate::common::ids::{random_id, uuid_hyphenated, uuid_to_string};
use crate::stat::statblock::index_pairs;
use crate::stat::value::{IndexModel, IndexValue};

verus! {

//==============================================================================================
//        Item Meta
//==============================================================================================

/// What every rulebook item carries: its name, description, identifier, kind and tags.
#[derive(Debug, PartialEq)]
pub struct ItemMeta {
    name: String,
    desc: String,
    uuid: u128,
    kind: String,
    tags: Vec<String>,
}

/// The content of an `ItemMeta`. Tags are kept in the order they were first added.
pub struct MetaModel {
    pub name: Seq<char>,
    pub desc: Seq<char>,
    pub uuid: u128,
    pub kind: Seq<char>,
    pub tags: Seq<Seq<char>>,
}

pub open spec fn string_views(v: Seq<String>) -> Seq<Seq<char>> {
    v.map_values(|s: String| s@)
}

/// No tag occurs twice.
pub open spec fn distinct_tags(tags: Seq<Seq<char>>) -> bool {
    forall|i: int, j: int| 0 <= i < j < tags.len() ==> tags[i] != tags[j]
}

/// `tags` with `t` added, unless it is there already.
pub open spec fn add_tag(tags: Seq<Seq<char>>, t: Seq<char>) -> Seq<Seq<char>> {
    if tags.contains(t) {
        tags
    } else {
        tags.push(t)
    }
}

/// `tags` with each of `new` added in turn.
pub open spec fn add_tag_list(tags: Seq<Seq<char>>, new: Seq<Seq<char>>) -> Seq<Seq<char>>
    decreases new.len(),
{
    if new.len() == 0 {
        tags
    } else {
        add_tag(add_tag_list(tags, new.drop_last()), new.last())
    }
}

impl View for ItemMeta {
    type V = MetaModel;

    closed spec fn view(&self) -> MetaModel {
        MetaModel {
            name: self.name@,
            desc: self.desc@,
            uuid: self.uuid,
            kind: self.kind@,
            tags: string_views(self.tags@),
        }
    }
}

/// The index entries of an item's meta: its name, description, kind, identifier and tags.
pub open spec fn meta_index(m: MetaModel) -> Seq<(Seq<char>, IndexModel)> {
    seq![
        ("name"@, IndexModel::String(m.name)),
        ("desc"@, IndexModel::String(m.desc)),
        ("type"@, IndexModel::String(m.kind)),
        ("uuid"@, IndexModel::String(uuid_hyphenated(m.uuid))),
        ("tags"@, IndexModel::Array(m.tags.map_values(|t: Seq<char>| IndexModel::String(t)))),
    ]
}

impl ItemMeta {
    /// A new meta with a fresh random identifier, no description and no tags.
    pub fn new(name: &str, kind: &str) -> (r: ItemMeta)
        ensures
            r@.name == name@,
            r@.kind == kind@,
            r@.desc == Seq::<char>::empty(),
            r@.tags == Seq::<Seq<char>>::empty(),
    {
        let r = ItemMeta {
            name: name.to_owned(),
            desc: String::new(),
            uuid: random_id(),
            kind: kind.to_owned(),
            tags: Vec::new(),
        };
        proof {
            assert(string_views(r.tags@) =~= Seq::<Seq<char>>::empty());
        }
        r
    }

    /// A meta made of the parts it was stored as; each tag is kept once.
    pub fn from_parts(name: String, desc: String, uuid: u128, kind: String, tags: Vec<String>) -> (r: ItemMeta)
        ensures
            r@.name == name@,
            r@.desc == desc@,
            r@.uuid == uuid,
            r@.kind == kind@,
            r@.tags == add_tag_list(Seq::empty(), string_views(tags@)),
    {
        let mut r = ItemMeta { name, desc, uuid, kind, tags: Vec::new() };
        proof {
            assert(string_views(r.tags@) =~= Seq::<Seq<char>>::empty());
        }
        r.add_tags(tags);
        r
    }

    pub fn uuid(&self) -> (r: u128)
        ensures
            r == self@.uuid,
    {
        self.uuid
    }

    pub fn name(&self) -> (r: &str)
        ensures
            r@ == self@.name,
    {
        self.name.as_str()
    }

    pub fn desc(&self) -> (r: &str)
        ensures
            r@ == self@.desc,
    {
        self.desc.as_str()
    }

    pub fn kind(&self) -> (r: &str)
        ensures
            r@ == self@.kind,
    {
        self.kind.as_str()
    }

    /// The tags, in the order they were first added.
    pub fn tags(&self) -> (r: &Vec<String>)
        ensures
            string_views(r@) == self@.tags,
    {
        &self.tags
    }

    pub fn has_tag(&self, tag: &str) -> (r: bool)
        ensures
            r == self@.tags.contains(tag@),
    {
        let owned = tag.to_owned();
        let mut i: usize = 0;
        while i < self.tags.len()
            invariant
                0 <= i <= self.tags@.len(),
                owned@ == tag@,
                forall|j: int| 0 <= j < i ==> self.tags@[j]@ != tag@,
            decreases self.tags@.len() - i,
        {
            if self.tags[i] == owned {
                proof {
                    assert(string_views(self.tags@)[i as int] == tag@);
                }
                return true;
            }
            i = i + 1;
        }
        proof {
            if string_views(self.tags@).contains(tag@) {
                let j = choose|j: int|
                    0 <= j < string_views(self.tags@).len() && string_views(self.tags@)[j] == tag@;
                assert(self.tags@[j]@ == tag@);
            }
        }
        false
    }

    fn add_one_tag(&mut self, tag: String)
        ensures
            final(self)@ == (MetaModel { tags: add_tag(old(self)@.tags, tag@), ..old(self)@ }),
    {
        if !self.has_tag(tag.as_str()) {
            let ghost before = self.tags@;
            self.tags.push(tag);
            proof {
                assert(string_views(self.tags@) =~= string_views(before).push(tag@));
            }
        }
    }

    /// Adds each of `tags` that is not there yet.
    pub fn add_tags(&mut self, tags: Vec<String>)
        ensures
            final(self)@ == (MetaModel {
                tags: add_tag_list(old(self)@.tags, string_views(tags@)),
                ..old(self)@
            }),
    {
        let mut i: usize = 0;
        while i < tags.len()
            invariant
                0 <= i <= tags@.len(),
                self@ == (MetaModel {
                    tags: add_tag_list(old(self)@.tags, string_views(tags@.take(i as int))),
                    ..old(self)@
                }),
            decreases tags@.len() - i,
        {
            proof {
                assert(string_views(tags@.take(i + 1)).drop_last() =~= string_views(tags@.take(i as int)));
            }
            self.add_one_tag(tags[i].clone());
            i = i + 1;
        }
        proof {
            assert(tags@.take(tags@.len() as int) =~= tags@);
        }
    }

    /// Replaces the tags by `tags`, each kept once.
    pub fn set_tags(&mut self, tags: Vec<String>)
        ensures
            final(self)@ == (MetaModel {
                tags: add_tag_list(Seq::empty(), string_views(tags@)),
                ..old(self)@
            }),
    {
        self.clear_tags();
        self.add_tags(tags);
    }

    pub fn clear_tags(&mut self)
        ensures
            final(self)@ == (MetaModel { tags: Seq::empty(), ..old(self)@ }),
    {
        self.tags = Vec::new();
        proof {
            assert(string_views(self.tags@) =~= Seq::<Seq<char>>::empty());
        }
    }

    pub fn set_desc(&mut self, desc: String)
        ensures
            final(self)@ == (MetaModel { desc: desc@, ..old(self)@ }),
    {
        self.desc = desc;
    }

    /// Adds the index entries of the meta: name, description, kind, identifier and tags.
    pub fn get_indices(&self, indices: &mut Vec<(String, IndexValue)>)
        ensures
            index_pairs(final(indices)@) == index_pairs(old(indices)@) + meta_index(self@),
    {
        let ghost start = indices@;
        let mut tags: Vec<IndexValue> = Vec::new();
        let mut i: usize = 0;
        while i < self.tags.len()
            invariant
                0 <= i <= self.tags@.len(),
                tags@.len() == i,
                forall|j: int| 0 <= j < i ==> #[trigger] tags@[j] == IndexValue::String(self.tags@[j]),
            decreases self.tags@.len() - i,
        {
            tags.push(IndexValue::String(self.tags[i].clone()));
            i = i + 1;
        }
        indices.push(("name".to_owned(), IndexValue::String(self.name.clone())));
        indices.push(("desc".to_owned(), IndexValue::String(self.desc.clone())));
        indices.push(("type".to_owned(), IndexValue::String(self.kind.clone())));
        indices.push(("uuid".to_owned(), IndexValue::String(uuid_to_string(self.uuid))));
        indices.push(("tags".to_owned(), IndexValue::Array(tags)));
        proof {
            reveal_strlit("name");
            reveal_strlit("desc");
            reveal_strlit("type");
            reveal_strlit("uuid");
            reveal_strlit("tags");
            let tm = crate::stat::value::index_models(tags@);
            lemma_index_strings(tags@, self.tags@);
            assert(tm =~= self@.tags.map_values(|t: Seq<char>| IndexModel::String(t)));
            assert(index_pairs(indices@) =~= index_pairs(start) + meta_index(self@));
        }
    }
}

/// The index forms of a list of index strings are the strings themselves.
pub proof fn lemma_index_strings(v: Seq<IndexValue>, s: Seq<String>)
    requires
        v.len() == s.len(),
        forall|j: int| 0 <= j < v.len() ==> #[trigger] v[j] == IndexValue::String(s[j]),
    ensures
        crate::stat::value::index_models(v) == string_views(s).map_values(
            |t: Seq<char>| IndexModel::String(t),
        ),
    decreases v.len(),
{
    let f = |t: Seq<char>| IndexModel::String(t);
    if v.len() > 0 {
        lemma_index_strings(v.drop_last(), s.drop_last());
        assert(string_views(s.drop_last()).map_values(f) =~= string_views(s).map_values(f).drop_last());
        assert(v.last() == IndexValue::String(s.last()));
        assert(crate::stat::value::index_models(v) == crate::stat::value::index_models(v.drop_last()).push(
            crate::stat::value::index_model(v.last()),
        ));
    }
    assert(crate::stat::value::index_models(v) =~= string_views(s).map_values(
        |t: Seq<char>| IndexModel::String(t),
    ));
}

/// Adding tags never makes one occur twice.
pub proof fn law_tags_stay_distinct(tags: Seq<Seq<char>>, new: Seq<Seq<char>>)
    requires
        distinct_tags(tags),
    ensures
        distinct_tags(add_tag_list(tags, new)),
    decreases new.len(),
{
    if new.len() > 0 {
        law_tags_stay_distinct(tags, new.drop_last());
        let before = add_tag_list(tags, new.drop_last());
        if !before.contains(new.last()) {
            let after = before.push(new.last());
            assert forall|i: int, j: int| 0 <= i < j < after.len() implies after[i] != after[j] by {
                if j == before.len() {
                    assert(before[i] != new.last());
                }
            }
        }
    }
}

/// After adding tags, each of them is there, and so is every tag that was there before.
pub proof fn law_added_tags_are_present(tags: Seq<Seq<char>>, new: Seq<Seq<char>>, t: Seq<char>)
    ensures
        add_tag_list(tags, new).contains(t) <==> (tags.contains(t) || new.contains(t)),
    decreases new.len(),
{
    if new.len() > 0 {
        law_added_tags_are_present(tags, new.drop_last(), t);
        let before = add_tag_list(tags, new.drop_last());
        if new.contains(t) && !new.drop_last().contains(t) {
            let k = choose|k: int| 0 <= k < new.len() && new[k] == t;
            if k < new.len() - 1 {
                assert(new.drop_last()[k] == t);
            }
        }
        if new.drop_last().contains(t) {
            let k = choose|k: int| 0 <= k < new.drop_last().len() && new.drop_last()[k] == t;
            assert(new[k] == t);
        }
        if !before.contains(new.last()) {
            if before.push(new.last()).contains(t) && t != new.last() {
                let k = choose|k: int| 0 <= k < before.push(new.last()).len() && before.push(new.last())[k] == t;
                assert(before[k] == t);
            }
            if before.contains(t) {
                let k = choose|k: int| 0 <= k < before.len() && before[k] == t;
                assert(before.push(new.last())[k] == t);
            }
            assert(before.push(new.last())[before.len() as int] == new.last());
        }
    }
}

/// A copy of a list of texts.
pub fn copy_texts(v: &Vec<String>) -> (r: Vec<String>)
    ensures
        string_views(r@) == string_views(v@),
{
    let mut r: Vec<String> = Vec::new();
    let mut i: usize = 0;
    while i < v.len()
        invariant
            0 <= i <= v@.len(),
            r@.len() == i,
            forall|j: int| 0 <= j < i ==> #[trigger] r@[j]@ == v@[j]@,
        decreases v@.len() - i,
    {
        r.push(v[i].clone());
        i = i + 1;
    }
    proof {
        assert(string_views(r@) =~= string_views(v@));
    }
    r
}

impl Clone for ItemMeta {
    fn clone(&self) -> (r: Self)
        ensures
            r@ == self@,
    {
        ItemMeta {
            name: self.name.clone(),
            desc: self.desc.clone(),
            uuid: self.uuid,
            kind: self.kind.clone(),
            tags: copy_texts(&self.tags),
        }
    }
}

impl Default for ItemMeta {
    fn default() -> (r: Self)
        ensures
            r@ == (MetaModel {
                name: Seq::empty(),
                desc: Seq::empty(),
                uuid: 0,
                kind: Seq::empty(),
                tags: Seq::empty(),
            }),
    {
        let r = ItemMeta {
            name: String::new(),
            desc: String::new(),
            uuid: 0,
            kind: String::new(),
            tags: Vec::new(),
        };
        proof {
            assert(string_views(r.tags@) =~= Seq::<Seq<char>>::empty());
        }
        r
    }
}

//==============================================================================================
//        HasItemMeta trait
//==============================================================================================

/// An item that carries an `ItemMeta`.
pub trait HasItemMeta {
    spec fn meta_view(&self) -> MetaModel;

    fn get_meta(&self) -> (r: &ItemMeta)
        ensures
            r@ == self.meta_view(),
    ;

    fn get_meta_mut(&mut self) -> (r: &mut ItemMeta)
        ensures
            r@ == old(self).meta_view(),
            final(self).meta_view() == final(r)@,
    ;
}

} // verus!
