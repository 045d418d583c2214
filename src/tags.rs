//! User-defined tags and their assignment to assets.

use vstd::prelude::*;
use vstd::string::*;
use crate::text::str_eq;

verus! {

/// A tag that can be assigned to assets.
#[derive(Debug, Clone)]
pub struct Tag {
    pub id: String,
    pub name: String,
    pub color: String,
}

impl Tag {
    /// A field-by-field copy.
    pub fn copy(&self) -> (r: Tag)
        ensures
            r == *self,
    {
        Tag { id: self.id.clone(), name: self.name.clone(), color: self.color.clone() }
    }
}

/// The tag ids assigned to one asset.
#[derive(Debug, Clone)]
pub struct AssetTags {
    pub asset_path: String,
    pub tag_ids: Vec<String>,
}

/// All tags and their assignments.
#[derive(Debug, Clone)]
pub struct TagsData {
    pub tags: Vec<Tag>,
    /// One entry per asset path.
    pub asset_tags: Vec<AssetTags>,
}

/// Relies on `uuid::Uuid::new_v4`: a random identifier, written in its
/// hyphenated form of 36 characters.
#[verifier::external_body]
fn new_tag_id() -> (r: String)
    ensures
        r@.len() == 36,
{
    uuid::Uuid::new_v4().to_string()
}

/// `s` without the tags whose id is `id`.
pub open spec fn tags_without(s: Seq<Tag>, id: Seq<char>) -> Seq<Tag>
    decreases s.len(),
{
    if s.len() == 0 {
        seq![]
    } else if s.last().id@ == id {
        tags_without(s.drop_last(), id)
    } else {
        tags_without(s.drop_last(), id).push(s.last())
    }
}

/// `s` without the strings whose characters are `id`.
pub open spec fn strings_without(s: Seq<String>, id: Seq<char>) -> Seq<String>
    decreases s.len(),
{
    if s.len() == 0 {
        seq![]
    } else if s.last()@ == id {
        strings_without(s.drop_last(), id)
    } else {
        strings_without(s.drop_last(), id).push(s.last())
    }
}

/// Index of the first tag with id `id`.
pub open spec fn tag_index(s: Seq<Tag>, id: Seq<char>) -> Option<int> {
    if exists|i: int| 0 <= i < s.len() && #[trigger] s[i].id@ == id {
        Some(choose|i: int| 0 <= i < s.len() && #[trigger] s[i].id@ == id && forall|j: int| 0 <= j < i ==> s[j].id@ != id)
    } else {
        None
    }
}

/// Index of the entry of asset `p`.
pub open spec fn entry_index(s: Seq<AssetTags>, p: Seq<char>) -> Option<int> {
    if exists|i: int| 0 <= i < s.len() && #[trigger] s[i].asset_path@ == p {
        Some(choose|i: int| 0 <= i < s.len() && #[trigger] s[i].asset_path@ == p)
    } else {
        None
    }
}

/// Whether `s` holds a string whose characters are `id`.
pub open spec fn has_id(s: Seq<String>, id: Seq<char>) -> bool {
    exists|i: int| 0 <= i < s.len() && #[trigger] s[i]@ == id
}

fn remove_tags(v: &Vec<Tag>, id: &str) -> (r: Vec<Tag>)
    ensures
        r@ == tags_without(v@, id@),
{
    let mut r: Vec<Tag> = Vec::new();
    let mut i: usize = 0;
    while i < v.len()
        invariant
            0 <= i <= v.len(),
            r@ == tags_without(v@.subrange(0, i as int), id@),
        decreases v.len() - i,
    {
        assert(v@.subrange(0, i + 1).drop_last() =~= v@.subrange(0, i as int));
        if !str_eq(v[i].id.as_str(), id) {
            r.push(v[i].copy());
        }
        i = i + 1;
    }
    assert(v@.subrange(0, i as int) =~= v@);
    r
}

fn remove_strings(v: &Vec<String>, id: &str) -> (r: Vec<String>)
    ensures
        r@ == strings_without(v@, id@),
{
    let mut r: Vec<String> = Vec::new();
    let mut i: usize = 0;
    while i < v.len()
        invariant
            0 <= i <= v.len(),
            r@ == strings_without(v@.subrange(0, i as int), id@),
        decreases v.len() - i,
    {
        assert(v@.subrange(0, i + 1).drop_last() =~= v@.subrange(0, i as int));
        if !str_eq(v[i].as_str(), id) {
            r.push(v[i].clone());
        }
        i = i + 1;
    }
    assert(v@.subrange(0, i as int) =~= v@);
    r
}

fn contains_string(v: &Vec<String>, id: &str) -> (r: bool)
    ensures
        r == has_id(v@, id@),
{
    let mut i: usize = 0;
    while i < v.len()
        invariant
            0 <= i <= v.len(),
            forall|j: int| 0 <= j < i ==> v@[j]@ != id@,
        decreases v.len() - i,
    {
        if str_eq(v[i].as_str(), id) {
            return true;
        }
        i = i + 1;
    }
    false
}

impl TagsData {
    /// Each asset path has at most one entry.
    pub open spec fn wf(&self) -> bool {
        forall|a: int, b: int|
            0 <= a < b < self.asset_tags@.len() ==> self.asset_tags@[a].asset_path@
                != self.asset_tags@[b].asset_path@
    }

    /// No tags and no assignments.
    pub fn new() -> (r: TagsData)
        ensures
            r.wf(),
            r.tags@.len() == 0,
            r.asset_tags@.len() == 0,
    {
        TagsData { tags: Vec::new(), asset_tags: Vec::new() }
    }

    fn find_tag(&self, tag_id: &str) -> (r: Option<usize>)
        ensures
            r.is_some() == tag_index(self.tags@, tag_id@).is_some(),
            r.is_some() ==> r.unwrap() as int == tag_index(self.tags@, tag_id@).unwrap(),
            r.is_some() ==> r.unwrap() < self.tags@.len(),
    {
        let mut i: usize = 0;
        while i < self.tags.len()
            invariant
                0 <= i <= self.tags.len(),
                forall|j: int| 0 <= j < i ==> self.tags@[j].id@ != tag_id@,
            decreases self.tags.len() - i,
        {
            if str_eq(self.tags[i].id.as_str(), tag_id) {
                let ghost s = self.tags@;
                assert(0 <= i < s.len() && s[i as int].id@ == tag_id@ && forall|j: int|
                    0 <= j < i ==> s[j].id@ != tag_id@);
                let ghost k = tag_index(s, tag_id@).unwrap();
                assert(k == i as int) by {
                    if k < i {
                        assert(s[k].id@ != tag_id@);
                    }
                    if k > i {
                        assert(s[i as int].id@ != tag_id@);
                    }
                }
                return Some(i);
            }
            i = i + 1;
        }
        None
    }

    fn find_entry(&self, asset_path: &str) -> (r: Option<usize>)
        requires
            self.wf(),
        ensures
            r.is_some() == entry_index(self.asset_tags@, asset_path@).is_some(),
            r.is_some() ==> r.unwrap() as int == entry_index(self.asset_tags@, asset_path@).unwrap(),
            r.is_some() ==> r.unwrap() < self.asset_tags@.len(),
    {
        let mut i: usize = 0;
        while i < self.asset_tags.len()
            invariant
                0 <= i <= self.asset_tags.len(),
                self.wf(),
                forall|j: int| 0 <= j < i ==> self.asset_tags@[j].asset_path@ != asset_path@,
            decreases self.asset_tags.len() - i,
        {
            if str_eq(self.asset_tags[i].asset_path.as_str(), asset_path) {
                let ghost s = self.asset_tags@;
                assert(s[i as int].asset_path@ == asset_path@);
                let ghost k = entry_index(s, asset_path@).unwrap();
                assert(k == i as int) by {
                    if k != i {
                        assert(s[k].asset_path@ == asset_path@);
                    }
                }
                return Some(i);
            }
            i = i + 1;
        }
        None
    }

    /// Creates a tag with a fresh random id.
    pub fn create_tag(&mut self, name: String, color: String) -> (r: Tag)
        requires
            old(self).wf(),
        ensures
            final(self).wf(),
            r.name == name,
            r.color == color,
            r.id@.len() == 36,
            final(self).tags@ == old(self).tags@.push(r),
            final(self).asset_tags@ == old(self).asset_tags@,
    {
        let id = new_tag_id();
        let tag = Tag { id, name, color };
        let r = tag.copy();
        self.tags.push(tag);
        r
    }

    /// Deletes a tag and removes it from every asset.
    pub fn delete_tag(&mut self, tag_id: &str)
        requires
            old(self).wf(),
        ensures
            final(self).wf(),
            final(self).tags@ == tags_without(old(self).tags@, tag_id@),
            final(self).asset_tags@.len() == old(self).asset_tags@.len(),
            forall|i: int|
                0 <= i < old(self).asset_tags@.len() ==> {
                    &&& (#[trigger] final(self).asset_tags@[i]).asset_path
                        == old(self).asset_tags@[i].asset_path
                    &&& final(self).asset_tags@[i].tag_ids@ == strings_without(
                        old(self).asset_tags@[i].tag_ids@,
                        tag_id@,
                    )
                },
    {
        self.tags = remove_tags(&self.tags, tag_id);
        let mut i: usize = 0;
        let ghost before = self.asset_tags@;
        while i < self.asset_tags.len()
            invariant
                0 <= i <= self.asset_tags@.len(),
                self.asset_tags@.len() == before.len(),
                self.tags@ == tags_without(old(self).tags@, tag_id@),
                before == old(self).asset_tags@,
                forall|j: int|
                    0 <= j < before.len() ==> (#[trigger] self.asset_tags@[j]).asset_path
                        == before[j].asset_path,
                forall|j: int|
                    0 <= j < i ==> (#[trigger] self.asset_tags@[j]).tag_ids@ == strings_without(
                        before[j].tag_ids@,
                        tag_id@,
                    ),
                forall|j: int| i <= j < before.len() ==> (#[trigger] self.asset_tags@[j]) == before[j],
            decreases self.asset_tags.len() - i,
        {
            let kept = remove_strings(&self.asset_tags[i].tag_ids, tag_id);
            let entry = AssetTags { asset_path: self.asset_tags[i].asset_path.clone(), tag_ids: kept };
            self.asset_tags.set(i, entry);
            i = i + 1;
        }
        proof {
            assert forall|a: int, b: int| 0 <= a < b < self.asset_tags@.len() implies self.asset_tags@[a].asset_path@
                != self.asset_tags@[b].asset_path@ by {
                assert(self.asset_tags@[a].asset_path == before[a].asset_path);
                assert(self.asset_tags@[b].asset_path == before[b].asset_path);
            }
        }
    }

    /// Renames or recolors the first tag with id `tag_id`, returning its new
    /// value; `None` if there is no such tag.
    pub fn update_tag(&mut self, tag_id: &str, name: Option<String>, color: Option<String>) -> (r: Option<Tag>)
        ensures
            final(self).asset_tags@ == old(self).asset_tags@,
            match tag_index(old(self).tags@, tag_id@) {
                None => r.is_none() && final(self).tags@ == old(self).tags@,
                Some(i) => {
                    let t = old(self).tags@[i];
                    let u = Tag {
                        id: t.id,
                        name: if name.is_some() { name.unwrap() } else { t.name },
                        color: if color.is_some() { color.unwrap() } else { t.color },
                    };
                    r == Some(u) && final(self).tags@ == old(self).tags@.update(i, u)
                },
            },
    {
        match self.find_tag(tag_id) {
            Some(i) => {
                let t = &self.tags[i];
                let new_name = match name {
                    Some(n) => n,
                    None => t.name.clone(),
                };
                let new_color = match color {
                    Some(c) => c,
                    None => t.color.clone(),
                };
                let u = Tag { id: t.id.clone(), name: new_name, color: new_color };
                let r = u.copy();
                self.tags.set(i, u);
                Some(r)
            },
            None => None,
        }
    }

    /// Assigns an existing tag to an asset, once.
    pub fn add_tag_to_asset(&mut self, asset_path: &str, tag_id: &str)
        requires
            old(self).wf(),
        ensures
            final(self).wf(),
            final(self).tags@ == old(self).tags@,
            tag_index(old(self).tags@, tag_id@).is_none() ==> final(self).asset_tags@ == old(self).asset_tags@,
            tag_index(old(self).tags@, tag_id@).is_some() ==> {
                let e = entry_index(final(self).asset_tags@, asset_path@);
                &&& e.is_some()
                &&& has_id(final(self).asset_tags@[e.unwrap()].tag_ids@, tag_id@)
                &&& match entry_index(old(self).asset_tags@, asset_path@) {
                    Some(k) => {
                        &&& final(self).asset_tags@.len() == old(self).asset_tags@.len()
                        &&& e.unwrap() == k
                        &&& final(self).asset_tags@[k].asset_path == old(self).asset_tags@[k].asset_path
                        &&& if has_id(old(self).asset_tags@[k].tag_ids@, tag_id@) {
                            final(self).asset_tags@[k].tag_ids@ == old(self).asset_tags@[k].tag_ids@
                        } else {
                            &&& final(self).asset_tags@[k].tag_ids@.drop_last() == old(self).asset_tags@[k].tag_ids@
                            &&& final(self).asset_tags@[k].tag_ids@.last()@ == tag_id@
                        }
                        &&& forall|j: int| 0 <= j < old(self).asset_tags@.len() && j != k ==> final(self).asset_tags@[j] == old(self).asset_tags@[j]
                    },
                    None => {
                        &&& final(self).asset_tags@.len() == old(self).asset_tags@.len() + 1
                        &&& final(self).asset_tags@.drop_last() == old(self).asset_tags@
                        &&& final(self).asset_tags@.last().asset_path@ == asset_path@
                        &&& final(self).asset_tags@.last().tag_ids@.len() == 1
                        &&& final(self).asset_tags@.last().tag_ids@[0]@ == tag_id@
                    },
                }
            },
    {
        if self.find_tag(tag_id).is_none() {
            return;
        }
        let ghost old_tags = self.asset_tags@;
        match self.find_entry(asset_path) {
            Some(k) => {
                if !contains_string(&self.asset_tags[k].tag_ids, tag_id) {
                    let mut ids = self.asset_tags[k].tag_ids.clone();
                    assert(ids@ =~= self.asset_tags@[k as int].tag_ids@);
                    ids.push(String::from_str(tag_id));
                    assert(ids@.drop_last() =~= old_tags[k as int].tag_ids@);
                    let entry = AssetTags { asset_path: self.asset_tags[k].asset_path.clone(), tag_ids: ids };
                    self.asset_tags.set(k, entry);
                    proof {
                        let s = self.asset_tags@;
                        assert(s[k as int].tag_ids@.last()@ == tag_id@);
                        assert(has_id(s[k as int].tag_ids@, tag_id@));
                        assert forall|a: int, b: int| 0 <= a < b < s.len() implies s[a].asset_path@ != s[b].asset_path@ by {
                            assert(s[a].asset_path == old_tags[a].asset_path);
                            assert(s[b].asset_path == old_tags[b].asset_path);
                        }
                        assert(s[k as int].asset_path@ == asset_path@);
                        let e = entry_index(s, asset_path@).unwrap();
                        if e != k {
                            assert(s[e].asset_path@ == asset_path@);
                        }
                    }
                }
            },
            None => {
                let mut ids: Vec<String> = Vec::new();
                ids.push(String::from_str(tag_id));
                self.asset_tags.push(AssetTags { asset_path: String::from_str(asset_path), tag_ids: ids });
                proof {
                    let s = self.asset_tags@;
                    let n = old_tags.len() as int;
                    assert(has_id(s[n].tag_ids@, tag_id@)) by {
                        assert(s[n].tag_ids@[0]@ == tag_id@);
                    }
                    assert forall|a: int, b: int| 0 <= a < b < s.len() implies s[a].asset_path@ != s[b].asset_path@ by {
                        if b == n {
                            assert(s[a] == old_tags[a]);
                            assert(old_tags[a].asset_path@ != asset_path@);
                        } else {
                            assert(s[a] == old_tags[a] && s[b] == old_tags[b]);
                        }
                    }
                    assert(s[n].asset_path@ == asset_path@);
                    let e = entry_index(s, asset_path@).unwrap();
                    if e != n {
                        assert(s[e].asset_path@ == asset_path@);
                    }
                    assert(s.drop_last() =~= old_tags);
                }
            },
        }
    }

    /// Removes a tag from an asset.
    pub fn remove_tag_from_asset(&mut self, asset_path: &str, tag_id: &str)
        requires
            old(self).wf(),
        ensures
            final(self).wf(),
            final(self).tags@ == old(self).tags@,
            final(self).asset_tags@.len() == old(self).asset_tags@.len(),
            match entry_index(old(self).asset_tags@, asset_path@) {
                None => final(self).asset_tags@ == old(self).asset_tags@,
                Some(k) => {
                    &&& final(self).asset_tags@[k].asset_path == old(self).asset_tags@[k].asset_path
                    &&& final(self).asset_tags@[k].tag_ids@ == strings_without(old(self).asset_tags@[k].tag_ids@, tag_id@)
                    &&& forall|j: int| 0 <= j < old(self).asset_tags@.len() && j != k ==> final(self).asset_tags@[j] == old(self).asset_tags@[j]
                },
            },
    {
        let ghost old_tags = self.asset_tags@;
        if let Some(k) = self.find_entry(asset_path) {
            let kept = remove_strings(&self.asset_tags[k].tag_ids, tag_id);
            let entry = AssetTags { asset_path: self.asset_tags[k].asset_path.clone(), tag_ids: kept };
            self.asset_tags.set(k, entry);
            proof {
                let s = self.asset_tags@;
                assert forall|a: int, b: int| 0 <= a < b < s.len() implies s[a].asset_path@ != s[b].asset_path@ by {
                    assert(s[a].asset_path == old_tags[a].asset_path);
                    assert(s[b].asset_path == old_tags[b].asset_path);
                }
            }
        }
    }

    /// The tags assigned to an asset, in assignment order; ids without a tag
    /// are skipped.
    pub fn get_asset_tags(&self, asset_path: &str) -> (r: Vec<Tag>)
        requires
            self.wf(),
        ensures
            match entry_index(self.asset_tags@, asset_path@) {
                None => r@.len() == 0,
                Some(k) => r@ == resolved(self.tags@, self.asset_tags@[k].tag_ids@),
            },
    {
        match self.find_entry(asset_path) {
            None => Vec::new(),
            Some(k) => {
                let ids = &self.asset_tags[k].tag_ids;
                let mut r: Vec<Tag> = Vec::new();
                let mut i: usize = 0;
                while i < ids.len()
                    invariant
                        0 <= i <= ids.len(),
                        r@ == resolved(self.tags@, ids@.subrange(0, i as int)),
                    decreases ids.len() - i,
                {
                    assert(ids@.subrange(0, i + 1).drop_last() =~= ids@.subrange(0, i as int));
                    if let Some(t) = self.find_tag(ids[i].as_str()) {
                        r.push(self.tags[t].copy());
                    }
                    i = i + 1;
                }
                assert(ids@.subrange(0, i as int) =~= ids@);
                r
            },
        }
    }

    /// The assets that carry a tag, in entry order.
    pub fn get_assets_with_tag(&self, tag_id: &str) -> (r: Vec<String>)
        ensures
            r@ == carriers(self.asset_tags@, tag_id@),
    {
        let mut r: Vec<String> = Vec::new();
        let mut i: usize = 0;
        while i < self.asset_tags.len()
            invariant
                0 <= i <= self.asset_tags.len(),
                r@ == carriers(self.asset_tags@.subrange(0, i as int), tag_id@),
            decreases self.asset_tags.len() - i,
        {
            assert(self.asset_tags@.subrange(0, i + 1).drop_last() =~= self.asset_tags@.subrange(0, i as int));
            if contains_string(&self.asset_tags[i].tag_ids, tag_id) {
                r.push(self.asset_tags[i].asset_path.clone());
            }
            i = i + 1;
        }
        assert(self.asset_tags@.subrange(0, i as int) =~= self.asset_tags@);
        r
    }
}

/// The tags that the ids name, in order; ids without a tag are skipped.
pub open spec fn resolved(tags: Seq<Tag>, ids: Seq<String>) -> Seq<Tag>
    decreases ids.len(),
{
    if ids.len() == 0 {
        seq![]
    } else {
        let prev = resolved(tags, ids.drop_last());
        match tag_index(tags, ids.last()@) {
            Some(i) => prev.push(tags[i]),
            None => prev,
        }
    }
}

/// The paths of the entries that carry `id`, in order.
pub open spec fn carriers(s: Seq<AssetTags>, id: Seq<char>) -> Seq<String>
    decreases s.len(),
{
    if s.len() == 0 {
        seq![]
    } else if has_id(s.last().tag_ids@, id) {
        carriers(s.drop_last(), id).push(s.last().asset_path)
    } else {
        carriers(s.drop_last(), id)
    }
}

impl Default for TagsData {
    fn default() -> (r: TagsData)
        ensures
            r.wf(),
            r.tags@.len() == 0,
            r.asset_tags@.len() == 0,
    {
        TagsData::new()
    }
}

} // verus!
