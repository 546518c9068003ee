//! The life of a tag: created on first use, found again by its normalized name,
//! renamed or merged into another, and collected once nothing refers to it.
//! The rules are stated over a snapshot of the tag table and of the associations
//! between posts and tags.

use crate::error::SameyError;
use crate::tags::normalize_tokens;
use crate::text::{lowercase, views};
use vstd::prelude::*;

verus! {

/// An association between a post and a tag.
#[derive(Clone, Copy, Debug, PartialEq, Eq, Structural, Hash)]
pub struct TagLink {
    pub post_id: i32,
    pub tag_id: i32,
}

/// What the rules read of a tag.
pub struct TagFacts {
    pub id: int,
    pub name: Seq<char>,
    pub normalized_name: Seq<char>,
}

/// A row of the tag table.
#[derive(Debug, Clone, PartialEq, Eq)]
pub struct TagRecord {
    pub id: i32,
    /// The name as it was first written.
    pub name: String,
    /// The name in lowercase, by which the tag is found.
    pub normalized_name: String,
}

impl View for TagRecord {
    type V = TagFacts;

    open spec fn view(&self) -> TagFacts {
        TagFacts { id: self.id as int, name: self.name@, normalized_name: self.normalized_name@ }
    }
}

impl TagRecord {
    /// A copy of the row.
    pub fn duplicate(&self) -> (copy: TagRecord)
        ensures
            copy@ == self@,
    {
        TagRecord {
            id: self.id,
            name: self.name.clone(),
            normalized_name: self.normalized_name.clone(),
        }
    }
}

/// The facts of a sequence of rows.
pub open spec fn facts_of(rows: Seq<TagRecord>) -> Seq<TagFacts> {
    Seq::new(rows.len(), |i: int| rows[i]@)
}

/// Whether some association in `links` refers to the tag.
pub open spec fn in_use(links: Set<TagLink>, tag_id: int) -> bool {
    exists|link: TagLink| #[trigger] links.contains(link) && link.tag_id == tag_id
}

/// The tags of `tags` that some association refers to, in order.
pub open spec fn tags_in_use(tags: Seq<TagFacts>, links: Set<TagLink>) -> Seq<TagFacts>
    decreases tags.len(),
{
    if tags.len() == 0 {
        Seq::empty()
    } else if in_use(links, tags.last().id) {
        tags_in_use(tags.drop_last(), links).push(tags.last())
    } else {
        tags_in_use(tags.drop_last(), links)
    }
}

/// The associations after the tag `from` was merged into the tag `into`: those of
/// other tags stay, and every post that carried `from` carries `into`, once.
/// A tag merged into itself keeps what it has.
pub open spec fn merged_links(links: Set<TagLink>, from: i32, into: i32) -> Set<TagLink> {
    Set::new(
        |link: TagLink|
            (link.tag_id != from && links.contains(link)) || (link.tag_id == into
                && links.contains(TagLink { post_id: link.post_id, tag_id: from })),
    )
}

/// What becomes of one association when the tag `from` is merged into `into`:
/// it stays, or moves to `into`, or goes because the post carries `into` already.
pub open spec fn moved_link(link: TagLink, links: Set<TagLink>, from: i32, into: i32) -> Option<
    TagLink,
> {
    if link.tag_id != from || from == into {
        Some(link)
    } else if !links.contains(TagLink { post_id: link.post_id, tag_id: into }) {
        Some(TagLink { post_id: link.post_id, tag_id: into })
    } else {
        None
    }
}

/// Whether the association of this post with this tag is among `links`.
pub fn link_among(links: &Vec<TagLink>, post_id: i32, tag_id: i32) -> (found: bool)
    ensures
        found == links@.to_set().contains(TagLink { post_id, tag_id }),
{
    let ghost wanted = TagLink { post_id, tag_id };
    let mut i: usize = 0;
    while i < links.len()
        invariant
            i <= links.len(),
            wanted == (TagLink { post_id, tag_id }),
            forall|k: int| 0 <= k < i ==> links[k] != wanted,
        decreases links.len() - i,
    {
        let link = links[i];
        if link.post_id == post_id && link.tag_id == tag_id {
            assert(links@.to_set().contains(link));
            return true;
        }
        i += 1;
    }
    assert(!links@.contains(wanted));
    false
}

/// Rewrites the associations for a merge of the tag `from` into the tag `into`.
pub fn merge_links(links: &Vec<TagLink>, from: i32, into: i32) -> (out: Vec<TagLink>)
    requires
        links@.no_duplicates(),
    ensures
        out@.no_duplicates(),
        out@.to_set() == merged_links(links@.to_set(), from, into),
{
    let ghost all = links@.to_set();
    let mut out: Vec<TagLink> = Vec::new();
    let mut i: usize = 0;
    while i < links.len()
        invariant
            i <= links.len(),
            all == links@.to_set(),
            links@.no_duplicates(),
            out@.no_duplicates(),
            forall|link: TagLink| #[trigger]
                out@.contains(link) <==> exists|k: int|
                    0 <= k < i && moved_link(#[trigger] links[k], all, from, into) == Some(link),
        decreases links.len() - i,
    {
        let link = links[i];
        let ghost before = out@;
        assert(all.contains(link));
        let made: Option<TagLink> = if link.tag_id != from || from == into {
            Some(link)
        } else if !link_among(links, link.post_id, into) {
            Some(TagLink { post_id: link.post_id, tag_id: into })
        } else {
            None
        };
        assert(made == moved_link(link, all, from, into));
        match made {
            Some(new_link) => {
                proof {
                    if before.contains(new_link) {
                        let k = choose|k: int|
                            0 <= k < i && moved_link(#[trigger] links[k], all, from, into) == Some(
                                new_link,
                            );
                        assert(all.contains(links[k]));
                        assert(links[k] == links[i as int]);
                    }
                }
                out.push(new_link);
                proof {
                    assert forall|l: TagLink| #[trigger]
                        out@.contains(l) <==> exists|k: int|
                            0 <= k < i + 1 && moved_link(#[trigger] links[k], all, from, into)
                                == Some(l) by {
                        if out@.contains(l) {
                            let m = choose|m: int| 0 <= m < out@.len() && out@[m] == l;
                            if m < before.len() {
                                assert(before[m] == l);
                                assert(before.contains(l));
                            } else {
                                assert(moved_link(links[i as int], all, from, into) == Some(l));
                            }
                        }
                        if exists|k: int|
                            0 <= k < i + 1 && moved_link(#[trigger] links[k], all, from, into)
                                == Some(l) {
                            let k = choose|k: int|
                                0 <= k < i + 1 && moved_link(#[trigger] links[k], all, from, into)
                                    == Some(l);
                            if k < i {
                                assert(before.contains(l));
                                let m = choose|m: int| 0 <= m < before.len() && before[m] == l;
                                assert(out@[m] == l);
                            } else {
                                assert(out@[out@.len() - 1] == l);
                            }
                        }
                    }
                }
            },
            None => {
                proof {
                    assert forall|l: TagLink| #[trigger]
                        out@.contains(l) <==> exists|k: int|
                            0 <= k < i + 1 && moved_link(#[trigger] links[k], all, from, into)
                                == Some(l) by {
                        if exists|k: int|
                            0 <= k < i + 1 && moved_link(#[trigger] links[k], all, from, into)
                                == Some(l) {
                            let k = choose|k: int|
                                0 <= k < i + 1 && moved_link(#[trigger] links[k], all, from, into)
                                    == Some(l);
                            assert(k < i);
                        }
                    }
                }
            },
        }
        i += 1;
    }
    proof {
        let wanted = merged_links(all, from, into);
        assert forall|l: TagLink| out@.to_set().contains(l) <==> wanted.contains(l) by {
            if out@.contains(l) {
                let k = choose|k: int|
                    0 <= k < links.len() && moved_link(#[trigger] links[k], all, from, into)
                        == Some(l);
                assert(all.contains(links[k]));
            }
            if wanted.contains(l) {
                if l.tag_id != from && all.contains(l) {
                    let k = choose|k: int| 0 <= k < links.len() && links[k] == l;
                    assert(moved_link(links[k], all, from, into) == Some(l));
                } else {
                    let source = TagLink { post_id: l.post_id, tag_id: from };
                    assert(all.contains(source));
                    if all.contains(l) {
                        let k = choose|k: int| 0 <= k < links.len() && links[k] == l;
                        assert(moved_link(links[k], all, from, into) == Some(l));
                    } else {
                        let k = choose|k: int| 0 <= k < links.len() && links[k] == source;
                        assert(moved_link(links[k], all, from, into) == Some(l));
                    }
                }
            }
        }
        assert(out@.to_set() =~= wanted);
    }
    out
}

/// The tags of `tags` whose normalized name is one of `names`, in order.
pub open spec fn tags_named(tags: Seq<TagFacts>, names: Set<Seq<char>>) -> Seq<TagFacts>
    decreases tags.len(),
{
    if tags.len() == 0 {
        Seq::empty()
    } else if names.contains(tags.last().normalized_name) {
        tags_named(tags.drop_last(), names).push(tags.last())
    } else {
        tags_named(tags.drop_last(), names)
    }
}

/// The associations after the tags of a post were replaced by the tags with the
/// identifiers `tag_ids`: those of other posts stay.
pub open spec fn replaced_links(links: Set<TagLink>, post_id: i32, tag_ids: Set<i32>) -> Set<
    TagLink,
> {
    Set::new(
        |link: TagLink|
            if link.post_id == post_id {
                tag_ids.contains(link.tag_id)
            } else {
                links.contains(link)
            },
    )
}

/// Whether a tag of `rows` goes by the normalized name.
pub open spec fn goes_by(rows: Seq<TagFacts>, normalized_name: Seq<char>) -> bool {
    exists|k: int| 0 <= k < rows.len() && (#[trigger] rows[k]).normalized_name == normalized_name
}

/// The table after an upsert of the names `raw`, whose normalized forms are
/// `normalized`: the requests are taken in turn, and each whose normalized form no
/// tag goes by yet adds a tag at the end, under the next identifier.
pub open spec fn upserted_rows(
    rows: Seq<TagFacts>,
    next_id: int,
    raw: Seq<Seq<char>>,
    normalized: Seq<Seq<char>>,
) -> Seq<TagFacts>
    decreases raw.len(),
{
    if raw.len() == 0 || normalized.len() != raw.len() {
        rows
    } else {
        let before = upserted_rows(rows, next_id, raw.drop_last(), normalized.drop_last());
        if goes_by(before, normalized.last()) {
            before
        } else {
            before.push(
                TagFacts {
                    id: next_id + (before.len() - rows.len()),
                    name: raw.last(),
                    normalized_name: normalized.last(),
                },
            )
        }
    }
}

/// Whether `row` is a tag that one of the first `count` requests created: it has
/// the name and the normalized name of the request, and no tag of `before` went by
/// that normalized name.
pub open spec fn created_for(
    row: TagRecord,
    before: &TagStore,
    raw: Seq<Seq<char>>,
    normalized: Seq<Seq<char>>,
    count: int,
) -> bool {
    exists|i: int|
        0 <= i < count && row.name@ == raw[i] && row.normalized_name@ == #[trigger] normalized[i]
            && before.position_of(normalized[i]) is None
}

/// The identifiers of a sequence of rows.
pub open spec fn ids_of(rows: Seq<TagRecord>) -> Set<i32> {
    Set::new(|id: i32| exists|k: int| 0 <= k < rows.len() && (#[trigger] rows[k]).id == id)
}

/// What an edit of a tag comes to.
#[derive(Debug, Clone, PartialEq, Eq)]
pub enum TagEdit {
    /// Another tag goes by the new name: move the associations of `from` to `into`
    /// where the post does not carry `into` yet, then delete `from`.
    Merge { from: i32, into: i32 },
    /// The new name is free, or is the tag's own in another spelling: the tag keeps
    /// its identifier and its associations and gets the name.
    Rename { id: i32, name: String, normalized_name: String },
}

/// Decides what the edit of a tag comes to, from the tag found under the old
/// normalized name and the tag found under the new one. Without the first there is
/// nothing to edit; where the second is another tag, the first is merged into it;
/// where there is no second, or it is the first itself, the tag is renamed.
pub fn plan_tag_edit(
    old_tag: Option<&TagRecord>,
    existing: Option<&TagRecord>,
    new_name: &str,
    new_normalized: String,
) -> (plan: Result<TagEdit, SameyError>)
    ensures
        match old_tag {
            None => plan matches Err(SameyError::NotFound),
            Some(old_tag) => if existing matches Some(existing) && existing.id != old_tag.id {
                plan matches Ok(TagEdit::Merge { from, into }) && from == old_tag.id && into
                    == existing->0.id
            } else {
                plan matches Ok(TagEdit::Rename { id, name, normalized_name }) && id == old_tag.id
                    && name@ == new_name@ && normalized_name@ == new_normalized@
            },
        },
{
    let old_tag = match old_tag {
        Some(old_tag) => old_tag,
        None => {
            return Err(SameyError::NotFound);
        },
    };
    match existing {
        Some(existing) => {
            if existing.id != old_tag.id {
                return Ok(TagEdit::Merge { from: old_tag.id, into: existing.id });
            }
        },
        None => {},
    }
    let mut name = String::new();
    crate::text::push_chars(&mut name, new_name);
    assert(name@ =~= new_name@);
    Ok(TagEdit::Rename { id: old_tag.id, name, normalized_name: new_normalized })
}

/// A snapshot of the tag table and of the associations.
#[derive(Debug, Clone, PartialEq, Eq)]
pub struct TagStore {
    pub tags: Vec<TagRecord>,
    pub links: Vec<TagLink>,
    /// The identifier that the next new tag gets.
    pub next_id: i32,
}

impl TagStore {
    /// The tags, in table order.
    pub open spec fn facts(&self) -> Seq<TagFacts> {
        facts_of(self.tags@)
    }

    /// The associations.
    pub open spec fn link_set(&self) -> Set<TagLink> {
        self.links@.to_set()
    }

    /// Identifiers and normalized names are unique, a post carries a tag at most
    /// once, and identifiers that were handed out are not handed out again.
    pub open spec fn wf(&self) -> bool {
        &&& forall|i: int, j: int|
            0 <= i < j < self.tags.len() ==> self.tags[i].id != self.tags[j].id
        &&& forall|i: int, j: int|
            0 <= i < j < self.tags.len() ==> self.tags[i].normalized_name@
                != self.tags[j].normalized_name@
        &&& forall|i: int| 0 <= i < self.tags.len() ==> self.tags[i].id < self.next_id
        &&& self.links@.no_duplicates()
    }

    /// Where the tag with this normalized name stands in the table, if there is one.
    pub open spec fn position_of(&self, normalized_name: Seq<char>) -> Option<int> {
        if exists|i: int|
            0 <= i < self.tags.len() && self.tags[i].normalized_name@ == normalized_name {
            Some(
                choose|i: int|
                    0 <= i < self.tags.len() && self.tags[i].normalized_name@ == normalized_name,
            )
        } else {
            None
        }
    }

    /// An empty snapshot.
    pub fn new() -> (store: TagStore)
        ensures
            store.wf(),
            store.tags.len() == 0,
            store.links.len() == 0,
            store.next_id == 1,
    {
        TagStore { tags: Vec::new(), links: Vec::new(), next_id: 1 }
    }

    /// Finds the tag with this normalized name.
    pub fn find(&self, normalized_name: &String) -> (found: Option<usize>)
        requires
            self.wf(),
        ensures
            match found {
                Some(i) => self.position_of(normalized_name@) == Some(i as int) && i
                    < self.tags.len() && self.tags[i as int].normalized_name@ == normalized_name@,
                None => self.position_of(normalized_name@) is None,
            },
    {
        let mut i: usize = 0;
        while i < self.tags.len()
            invariant
                i <= self.tags.len(),
                self.wf(),
                forall|k: int| 0 <= k < i ==> self.tags[k].normalized_name@ != normalized_name@,
            decreases self.tags.len() - i,
        {
            if self.tags[i].normalized_name == *normalized_name {
                proof {
                    let j = choose|j: int|
                        0 <= j < self.tags.len() && self.tags[j].normalized_name@
                            == normalized_name@;
                    if j < i {
                        assert(self.tags[j].normalized_name@ != self.tags[i as int].normalized_name@);
                    } else if j > i {
                        assert(self.tags[i as int].normalized_name@ != self.tags[j].normalized_name@);
                    }
                }
                return Some(i);
            }
            i += 1;
        }
        None
    }

    /// Whether the post carries the tag.
    pub fn has_link(&self, post_id: i32, tag_id: i32) -> (found: bool)
        ensures
            found == self.link_set().contains(TagLink { post_id, tag_id }),
    {
        link_among(&self.links, post_id, tag_id)
    }

    /// Whether any post carries the tag.
    pub fn tag_in_use(&self, tag_id: i32) -> (used: bool)
        ensures
            used == in_use(self.link_set(), tag_id as int),
    {
        let mut i: usize = 0;
        while i < self.links.len()
            invariant
                i <= self.links.len(),
                forall|k: int| 0 <= k < i ==> self.links[k].tag_id != tag_id,
            decreases self.links.len() - i,
        {
            if self.links[i].tag_id == tag_id {
                assert(self.link_set().contains(self.links@[i as int]));
                return true;
            }
            i += 1;
        }
        assert forall|link: TagLink| #[trigger] self.link_set().contains(link) implies link.tag_id
            != tag_id by {
            let k = choose|k: int| 0 <= k < self.links.len() && self.links@[k] == link;
        }
        false
    }

    /// Associates a post with a tag, unless it is so already.
    pub fn link(&mut self, post_id: i32, tag_id: i32)
        requires
            old(self).wf(),
        ensures
            final(self).wf(),
            final(self).tags == old(self).tags,
            final(self).next_id == old(self).next_id,
            final(self).link_set() == old(self).link_set().insert(TagLink { post_id, tag_id }),
    {
        let ghost before = self.links@;
        let added = TagLink { post_id, tag_id };
        if !self.has_link(post_id, tag_id) {
            self.links.push(added);
            proof {
                before.lemma_push_to_set_commute(added);
            }
        } else {
            assert(before.to_set().insert(added) == before.to_set());
        }
    }

    /// Removes the association between a post and a tag, if there is one.
    pub fn unlink(&mut self, post_id: i32, tag_id: i32)
        requires
            old(self).wf(),
        ensures
            final(self).wf(),
            final(self).tags == old(self).tags,
            final(self).next_id == old(self).next_id,
            final(self).link_set() == old(self).link_set().remove(TagLink { post_id, tag_id }),
    {
        let ghost before = self.links@;
        let gone = TagLink { post_id, tag_id };
        let mut i: usize = 0;
        while i < self.links.len()
            invariant
                i <= self.links.len(),
                *self == *old(self),
                self.wf(),
                self.links@ == before,
                gone == (TagLink { post_id, tag_id }),
                forall|k: int| 0 <= k < i ==> before[k] != gone,
            decreases self.links.len() - i,
        {
            let link = self.links[i];
            if link.post_id == post_id && link.tag_id == tag_id {
                self.links.remove(i);
                proof {
                    let after = self.links@;
                    assert(after == before.remove(i as int));
                    assert(before[i as int] == gone);
                    assert forall|a: int, b: int| 0 <= a < b < after.len() implies after[a]
                        != after[b] by {
                        let a0 = if a < i { a } else { a + 1 };
                        let b0 = if b < i { b } else { b + 1 };
                        assert(after[a] == before[a0] && after[b] == before[b0]);
                    }
                    assert forall|link: TagLink| after.to_set().contains(link)
                        <==> before.to_set().remove(gone).contains(link) by {
                        if after.contains(link) {
                            let k = choose|k: int| 0 <= k < after.len() && after[k] == link;
                            let k0 = if k < i { k } else { k + 1 };
                            assert(before[k0] == link);
                        }
                        if before.contains(link) && link != gone {
                            let k = choose|k: int| 0 <= k < before.len() && before[k] == link;
                            let k1 = if k < i { k } else { k - 1 };
                            assert(after[k1] == link);
                        }
                    }
                    assert(after.to_set() =~= before.to_set().remove(gone));
                }
                return ;
            }
            i += 1;
        }
        assert(!before.to_set().contains(gone)) by {
            if before.contains(gone) {
                let k = choose|k: int| 0 <= k < before.len() && before[k] == gone;
            }
        }
        assert(before.to_set().remove(gone) =~= before.to_set());
    }

    /// Deletes every tag that no post carries, and says how many those were. A tag
    /// that a post carries stays, and so does every association.
    pub fn garbage_collect_tags(&mut self) -> (removed: usize)
        requires
            old(self).wf(),
        ensures
            final(self).wf(),
            final(self).facts() == tags_in_use(old(self).facts(), old(self).link_set()),
            final(self).links == old(self).links,
            final(self).next_id == old(self).next_id,
            removed == old(self).tags.len() - final(self).tags.len(),
    {
        let ghost all = self.facts();
        let ghost links = self.link_set();
        let ghost rows = self.tags@;
        let mut kept: Vec<TagRecord> = Vec::new();
        // where each kept row stood before
        let ghost mut origin: Seq<int> = Seq::empty();
        let mut i: usize = 0;
        assert(all.take(0) == Seq::<TagFacts>::empty());
        assert(facts_of(kept@) == tags_in_use(all.take(0), links));
        while i < self.tags.len()
            invariant
                i <= self.tags.len(),
                self.tags@ == rows,
                all == facts_of(rows),
                links == self.link_set(),
                facts_of(kept@) == tags_in_use(all.take(i as int), links),
                kept.len() <= i,
                origin.len() == kept.len(),
                forall|k: int| 0 <= k < kept.len() ==> 0 <= #[trigger] origin[k] < i && kept[k]@
                    == rows[origin[k]]@,
                forall|a: int, b: int| 0 <= a < b < kept.len() ==> origin[a] < origin[b],
            decreases self.tags.len() - i,
        {
            proof {
                assert(all.take(i + 1).drop_last() == all.take(i as int));
                assert(all.take(i + 1).last() == rows[i as int]@);
            }
            if self.tag_in_use(self.tags[i].id) {
                let row = self.tags[i].duplicate();
                proof {
                    assert(facts_of(kept@.push(row)) == facts_of(kept@).push(row@));
                    origin = origin.push(i as int);
                }
                kept.push(row);
            }
            i += 1;
        }
        assert(all.take(rows.len() as int) == all);
        let removed = self.tags.len() - kept.len();
        proof {
            assert forall|a: int, b: int| 0 <= a < b < kept.len() implies kept[a].id != kept[b].id
                && kept[a].normalized_name@ != kept[b].normalized_name@ by {
                assert(kept[a]@ == rows[origin[a]]@);
                assert(kept[b]@ == rows[origin[b]]@);
                assert(origin[a] < origin[b]);
            }
            assert forall|k: int| 0 <= k < kept.len() implies kept[k].id < self.next_id by {
                assert(kept[k]@ == rows[origin[k]]@);
            }
        }
        self.tags = kept;
        removed
    }

    /// The table after the tag at `position` was deleted.
    pub open spec fn without_tag(&self, position: int) -> Seq<TagFacts> {
        self.facts().remove(position)
    }

    /// The table after the tag at `position` got a new name.
    pub open spec fn with_renamed_tag(
        &self,
        position: int,
        name: Seq<char>,
        normalized_name: Seq<char>,
    ) -> Seq<TagFacts> {
        self.facts().update(
            position,
            TagFacts { id: self.facts()[position].id, name, normalized_name },
        )
    }

    /// What the edit of the tag at `from` makes of the snapshot `before`, given the
    /// new name and its normalized form: where another tag goes by the normalized
    /// form, the tag at `from` is gone and its associations are merged into the
    /// other's; else the tag has the new name and nothing else has changed.
    pub open spec fn edited(
        &self,
        before: &TagStore,
        from: int,
        new_name: Seq<char>,
        new_normalized: Seq<char>,
    ) -> bool {
        match before.position_of(new_normalized) {
            Some(into) => if into != from {
                self.facts() == before.without_tag(from) && self.link_set() == merged_links(
                    before.link_set(),
                    before.tags[from].id,
                    before.tags[into].id,
                )
            } else {
                self.facts() == before.with_renamed_tag(from, new_name, new_normalized)
                    && self.link_set() == before.link_set()
            },
            None => self.facts() == before.with_renamed_tag(from, new_name, new_normalized)
                && self.link_set() == before.link_set(),
        }
    }

    /// Renames the tag with the normalized name `old_normalized` to `new_name`, whose
    /// normalized form is `new_normalized`. Where another tag has that normalized
    /// name already, the old tag is merged into it and deleted. Where the name is
    /// free, or is the tag's own in another spelling, the tag is renamed and keeps
    /// its associations.
    pub fn rename_or_merge_to(
        &mut self,
        old_normalized: &String,
        new_name: &str,
        new_normalized: String,
    ) -> (done: Result<(), SameyError>)
        requires
            old(self).wf(),
        ensures
            final(self).wf(),
            final(self).next_id == old(self).next_id,
            match old(self).position_of(old_normalized@) {
                None => done == Err::<(), SameyError>(SameyError::NotFound) && final(self).facts()
                    == old(self).facts() && final(self).link_set() == old(self).link_set(),
                Some(from) => done.is_ok() && final(self).edited(
                    old(self),
                    from,
                    new_name@,
                    new_normalized@,
                ),
            },
    {
        let ghost rows = self.tags@;
        let from = match self.find(old_normalized) {
            Some(from) => from,
            None => {
                return Err(SameyError::NotFound);
            },
        };
        let other = match self.find(&new_normalized) {
            Some(into) => if into != from {
                Some(into)
            } else {
                None
            },
            None => None,
        };
        match other {
            Some(into) => {
                let from_id = self.tags[from].id;
                let into_id = self.tags[into].id;
                let links = merge_links(&self.links, from_id, into_id);
                self.links = links;
                self.tags.remove(from);
                proof {
                    let after = self.tags@;
                    assert(after == rows.remove(from as int));
                    assert(facts_of(after) =~= facts_of(rows).remove(from as int));
                    assert forall|a: int, b: int| 0 <= a < b < after.len() implies after[a].id
                        != after[b].id && after[a].normalized_name@ != after[b].normalized_name@ by {
                        let a0 = if a < from { a } else { a + 1 };
                        let b0 = if b < from { b } else { b + 1 };
                        assert(after[a] == rows[a0] && after[b] == rows[b0]);
                    }
                    assert forall|k: int| 0 <= k < after.len() implies after[k].id
                        < self.next_id by {
                        let k0 = if k < from { k } else { k + 1 };
                        assert(after[k] == rows[k0]);
                    }
                }
            },
            None => {
                let id = self.tags[from].id;
                let mut name = String::new();
                crate::text::push_chars(&mut name, new_name);
                assert(name@ =~= new_name@);
                let ghost target = new_normalized@;
                self.tags.set(from, TagRecord { id, name, normalized_name: new_normalized });
                proof {
                    let after = self.tags@;
                    assert(facts_of(after) =~= facts_of(rows).update(
                        from as int,
                        TagFacts { id: id as int, name: new_name@, normalized_name: target },
                    ));
                    assert forall|k: int| 0 <= k < rows.len() && k != from implies rows[k].normalized_name@
                        != target by {
                        if rows[k].normalized_name@ == target {
                            assert(old(self).position_of(target) is Some);
                            let found = old(self).position_of(target)->0;
                            assert(found == from);
                            if k < from {
                                assert(rows[k].normalized_name@ != rows[from as int].normalized_name@);
                            } else {
                                assert(rows[from as int].normalized_name@ != rows[k].normalized_name@);
                            }
                        }
                    }
                    assert forall|a: int, b: int| 0 <= a < b < after.len() implies after[a].id
                        != after[b].id && after[a].normalized_name@ != after[b].normalized_name@ by {
                        assert(after[a].id == rows[a].id && after[b].id == rows[b].id);
                        if a != from {
                            assert(after[a] == rows[a]);
                        }
                        if b != from {
                            assert(after[b] == rows[b]);
                        }
                    }
                    assert forall|k: int| 0 <= k < after.len() implies after[k].id
                        < self.next_id by {
                        assert(after[k].id == rows[k].id);
                    }
                }
            },
        }
        Ok(())
    }

    /// Renames the tag with the normalized name `old_normalized` to `new_name`, or
    /// merges it into another tag that goes by that name already, whatever its
    /// case. A change of case alone is a rename.
    pub fn rename_or_merge_tag(&mut self, old_normalized: &String, new_name: &str) -> (done: Result<
        (),
        SameyError,
    >)
        requires
            old(self).wf(),
        ensures
            final(self).wf(),
            final(self).next_id == old(self).next_id,
            match old(self).position_of(old_normalized@) {
                None => done == Err::<(), SameyError>(SameyError::NotFound) && final(self).facts()
                    == old(self).facts() && final(self).link_set() == old(self).link_set(),
                Some(from) => done.is_ok() && final(self).edited(
                    old(self),
                    from,
                    new_name@,
                    lowercase(new_name@),
                ),
            },
    {
        let new_normalized = new_name.to_lowercase();
        self.rename_or_merge_to(old_normalized, new_name, new_normalized)
    }

    /// What an upsert of the names `raw`, whose normalized forms are `normalized`,
    /// makes of the table `before`: the tags that were there stay as they were, each
    /// name whose normalized form was missing has a new tag at the end, under the
    /// name as one of the requests wrote it, and the associations are untouched.
    pub open spec fn upserted(
        &self,
        before: &TagStore,
        raw: Seq<Seq<char>>,
        normalized: Seq<Seq<char>>,
    ) -> bool {
        self.links == before.links && self.tags_upserted(before, raw, normalized)
    }

    /// What an upsert makes of the tag table alone.
    pub open spec fn tags_upserted(
        &self,
        before: &TagStore,
        raw: Seq<Seq<char>>,
        normalized: Seq<Seq<char>>,
    ) -> bool {
        &&& self.tags.len() >= before.tags.len()
        &&& self.next_id == before.next_id + (self.tags.len() - before.tags.len())
        &&& self.facts().take(before.tags.len() as int) == before.facts()
        &&& forall|k: int|
            before.tags.len() <= k < self.tags.len() ==> created_for(
                #[trigger] self.tags@[k],
                before,
                raw,
                normalized,
                raw.len() as int,
            )
        &&& forall|i: int|
            0 <= i < normalized.len() ==> self.position_of(#[trigger] normalized[i]) is Some
    }

    /// Creates a tag for each of the names `raw` whose normalized form, given in
    /// `normalized` at the same index, is not in the table yet, and resolves the
    /// tags that go by any of the normalized names. A name that is there already
    /// is no error.
    pub fn upsert_normalized(&mut self, raw: &Vec<String>, normalized: &Vec<String>) -> (resolved:
        Vec<TagRecord>)
        requires
            old(self).wf(),
            raw.len() == normalized.len(),
            old(self).next_id + raw.len() <= i32::MAX,
        ensures
            final(self).wf(),
            final(self).facts() == upserted_rows(
                old(self).facts(),
                old(self).next_id as int,
                views(raw@),
                views(normalized@),
            ),
            final(self).upserted(old(self), views(raw@), views(normalized@)),
            facts_of(resolved@) == tags_named(final(self).facts(), views(normalized@).to_set()),
    {
        let ghost before = *self;
        let ghost raws = views(raw@);
        let ghost norms = views(normalized@);
        let base = self.tags.len();
        let mut i: usize = 0;
        assert(self.facts().take(base as int) == before.facts());
        assert(raws.take(0).len() == 0);
        while i < raw.len()
            invariant
                i <= raw.len() == normalized.len(),
                raws == views(raw@),
                norms == views(normalized@),
                self.facts() == upserted_rows(
                    before.facts(),
                    before.next_id as int,
                    raws.take(i as int),
                    norms.take(i as int),
                ),
                before.wf(),
                base == before.tags.len(),
                before.next_id + raw.len() <= i32::MAX,
                self.wf(),
                self.links == before.links,
                base <= self.tags.len() <= base + i,
                self.next_id == before.next_id + (self.tags.len() - base),
                self.facts().take(base as int) == before.facts(),
                forall|k: int|
                    base <= k < self.tags.len() ==> created_for(
                        #[trigger] self.tags@[k],
                        &before,
                        raws,
                        norms,
                        i as int,
                    ),
                forall|j: int| 0 <= j < i ==> self.position_of(#[trigger] norms[j]) is Some,
            decreases raw.len() - i,
        {
            let ghost held = *self;
            proof {
                assert(raws.take(i + 1).drop_last() == raws.take(i as int));
                assert(norms.take(i + 1).drop_last() == norms.take(i as int));
                assert(raws.take(i + 1).last() == raws[i as int]);
                assert(norms.take(i + 1).last() == norms[i as int]);
                assert(goes_by(held.facts(), norms[i as int]) == (held.position_of(
                    norms[i as int],
                ) is Some)) by {
                    if goes_by(held.facts(), norms[i as int]) {
                        let k = choose|k: int|
                            0 <= k < held.facts().len() && (#[trigger] held.facts()[k]).normalized_name
                                == norms[i as int];
                        assert(held.tags[k].normalized_name@ == norms[i as int]);
                    }
                    if held.position_of(norms[i as int]) is Some {
                        let k = held.position_of(norms[i as int])->0;
                        assert(held.facts()[k].normalized_name == norms[i as int]);
                    }
                }
            }
            if self.find(&normalized[i]).is_none() {
                let row = TagRecord {
                    id: self.next_id,
                    name: raw[i].clone(),
                    normalized_name: normalized[i].clone(),
                };
                self.tags.push(row);
                self.next_id = self.next_id + 1;
                proof {
                    let rows = self.tags@;
                    let last = rows.len() - 1;
                    assert(rows[last].normalized_name@ == norms[i as int]);
                    assert(rows[last].name@ == raws[i as int]);
                    assert(self.facts() =~= held.facts().push(
                        TagFacts {
                            id: before.next_id + (held.facts().len() - before.facts().len()),
                            name: raws[i as int],
                            normalized_name: norms[i as int],
                        },
                    ));
                    assert forall|k: int| 0 <= k < last implies rows[k] == held.tags[k] by {}
                    assert forall|k: int| 0 <= k < last implies rows[k].normalized_name@
                        != norms[i as int] by {
                        if rows[k].normalized_name@ == norms[i as int] {
                            assert(held.tags[k].normalized_name@ == norms[i as int]);
                            assert(held.position_of(norms[i as int]) is Some);
                        }
                    }
                    assert(before.position_of(norms[i as int]) is None) by {
                        if before.position_of(norms[i as int]) is Some {
                            let m = before.position_of(norms[i as int])->0;
                            assert(before.facts()[m] == held.facts().take(base as int)[m]);
                            assert(held.tags[m].normalized_name@ == norms[i as int]);
                        }
                    }
                    assert(self.facts().take(base as int) =~= held.facts().take(base as int));
                    assert forall|k: int| base <= k < rows.len() implies created_for(
                        #[trigger] rows[k],
                        &before,
                        raws,
                        norms,
                        i + 1,
                    ) by {
                        if k < last {
                            assert(created_for(held.tags@[k], &before, raws, norms, i as int));
                            let j = choose|j: int|
                                0 <= j < i && rows[k].name@ == raws[j] && rows[k].normalized_name@
                                    == #[trigger] norms[j] && before.position_of(norms[j]) is None;
                            assert(rows[k].normalized_name@ == norms[j]);
                        } else {
                            assert(rows[k].normalized_name@ == norms[i as int]);
                        }
                    }
                    assert forall|j: int| 0 <= j < i + 1 implies self.position_of(
                        #[trigger] norms[j],
                    ) is Some by {
                        if j < i {
                            let m = held.position_of(norms[j])->0;
                            assert(rows[m].normalized_name@ == norms[j]);
                        } else {
                            assert(rows[last].normalized_name@ == norms[j]);
                        }
                    }
                }
            } else {
                proof {
                    let rows = self.tags@;
                    assert forall|k: int| base <= k < rows.len() implies created_for(
                        #[trigger] rows[k],
                        &before,
                        raws,
                        norms,
                        i + 1,
                    ) by {
                        assert(created_for(held.tags@[k], &before, raws, norms, i as int));
                        let j = choose|j: int|
                            0 <= j < i && rows[k].name@ == raws[j] && rows[k].normalized_name@
                                == #[trigger] norms[j] && before.position_of(norms[j]) is None;
                        assert(rows[k].normalized_name@ == norms[j]);
                    }
                    assert forall|j: int| 0 <= j < i + 1 implies self.position_of(
                        #[trigger] norms[j],
                    ) is Some by {}
                }
            }
            i += 1;
        }
        assert(raws.take(raw.len() as int) == raws);
        assert(norms.take(raw.len() as int) == norms);
        self.resolve(normalized)
    }

    /// The tags that go by any of the normalized names, in table order.
    pub fn resolve(&self, normalized: &Vec<String>) -> (resolved: Vec<TagRecord>)
        ensures
            facts_of(resolved@) == tags_named(self.facts(), views(normalized@).to_set()),
    {
        let ghost all = self.facts();
        let ghost names = views(normalized@).to_set();
        let mut resolved: Vec<TagRecord> = Vec::new();
        let mut i: usize = 0;
        assert(all.take(0) == Seq::<TagFacts>::empty());
        assert(facts_of(resolved@) == tags_named(all.take(0), names));
        while i < self.tags.len()
            invariant
                i <= self.tags.len(),
                all == self.facts(),
                names == views(normalized@).to_set(),
                facts_of(resolved@) == tags_named(all.take(i as int), names),
            decreases self.tags.len() - i,
        {
            proof {
                assert(all.take(i + 1).drop_last() == all.take(i as int));
                assert(all.take(i + 1).last() == self.tags[i as int]@);
            }
            if crate::tags::contains_name(normalized, &self.tags[i].normalized_name) {
                let row = self.tags[i].duplicate();
                assert(facts_of(resolved@.push(row)) == facts_of(resolved@).push(row@));
                resolved.push(row);
            }
            i += 1;
        }
        assert(all.take(self.tags.len() as int) == all);
        resolved
    }

    /// Creates a tag for each of the names that is new, whatever its case, and
    /// resolves the tags that go by any of the names.
    pub fn upsert_tags(&mut self, raw_names: &Vec<String>) -> (resolved: Vec<TagRecord>)
        requires
            old(self).wf(),
            old(self).next_id + raw_names.len() <= i32::MAX,
        ensures
            final(self).wf(),
            final(self).facts() == upserted_rows(
                old(self).facts(),
                old(self).next_id as int,
                views(raw_names@),
                crate::tags::normalized(views(raw_names@)),
            ),
            final(self).upserted(
                old(self),
                views(raw_names@),
                crate::tags::normalized(views(raw_names@)),
            ),
            facts_of(resolved@) == tags_named(
                final(self).facts(),
                crate::tags::normalized(views(raw_names@)).to_set(),
            ),
    {
        let normalized = normalize_tokens(raw_names);
        assert(views(normalized@).len() == normalized.len());
        assert(crate::tags::normalized(views(raw_names@)).len() == raw_names.len());
        self.upsert_normalized(raw_names, &normalized)
    }

    /// Removes every association of a post.
    pub fn unlink_post(&mut self, post_id: i32)
        requires
            old(self).wf(),
        ensures
            final(self).wf(),
            final(self).tags == old(self).tags,
            final(self).next_id == old(self).next_id,
            final(self).link_set() == replaced_links(old(self).link_set(), post_id, Set::empty()),
    {
        let ghost before = self.links@;
        let mut kept: Vec<TagLink> = Vec::new();
        let ghost mut origin: Seq<int> = Seq::empty();
        let mut i: usize = 0;
        while i < self.links.len()
            invariant
                i <= self.links.len(),
                *self == *old(self),
                before == self.links@,
                origin.len() == kept.len(),
                forall|k: int|
                    0 <= k < kept.len() ==> 0 <= #[trigger] origin[k] < i && kept[k]
                        == before[origin[k]] && kept[k].post_id != post_id,
                forall|a: int, b: int| 0 <= a < b < kept.len() ==> origin[a] < origin[b],
                forall|k: int|
                    0 <= k < i && (#[trigger] before[k]).post_id != post_id ==> kept@.contains(
                        before[k],
                    ),
            decreases self.links.len() - i,
        {
            let link = self.links[i];
            let ghost held = kept@;
            if link.post_id != post_id {
                kept.push(link);
                proof {
                    origin = origin.push(i as int);
                    assert(kept@[kept.len() - 1] == link);
                    assert forall|k: int|
                        0 <= k < i + 1 && (#[trigger] before[k]).post_id
                            != post_id implies kept@.contains(before[k]) by {
                        if k < i {
                            let m = choose|m: int| 0 <= m < held.len() && held[m] == before[k];
                            assert(kept@[m] == before[k]);
                        }
                    }
                }
            }
            i += 1;
        }
        proof {
            assert forall|a: int, b: int| 0 <= a < b < kept.len() implies kept[a] != kept[b] by {
                assert(kept[a] == before[origin[a]] && kept[b] == before[origin[b]]);
                assert(origin[a] < origin[b]);
            }
            let wanted = replaced_links(before.to_set(), post_id, Set::empty());
            assert forall|link: TagLink| kept@.to_set().contains(link) <==> wanted.contains(
                link,
            ) by {
                if kept@.contains(link) {
                    let m = choose|m: int| 0 <= m < kept.len() && kept[m] == link;
                    assert(link == before[origin[m]]);
                }
                if wanted.contains(link) {
                    let k = choose|k: int| 0 <= k < before.len() && before[k] == link;
                }
            }
            assert(kept@.to_set() =~= wanted);
        }
        self.links = kept;
    }

    /// Replaces the tags of a post by the tags that go by the given names, creating
    /// those that are new, and resolves them.
    pub fn set_post_tags(&mut self, post_id: i32, raw_names: &Vec<String>) -> (resolved: Vec<
        TagRecord,
    >)
        requires
            old(self).wf(),
            old(self).next_id + raw_names.len() <= i32::MAX,
        ensures
            final(self).wf(),
            facts_of(resolved@) == tags_named(
                final(self).facts(),
                crate::tags::normalized(views(raw_names@)).to_set(),
            ),
            final(self).link_set() == replaced_links(
                old(self).link_set(),
                post_id,
                ids_of(resolved@),
            ),
            final(self).facts() == upserted_rows(
                old(self).facts(),
                old(self).next_id as int,
                views(raw_names@),
                crate::tags::normalized(views(raw_names@)),
            ),
            final(self).tags_upserted(
                old(self),
                views(raw_names@),
                crate::tags::normalized(views(raw_names@)),
            ),
    {
        let ghost start = self.link_set();
        self.unlink_post(post_id);
        let ghost cleared = *self;
        let resolved = self.upsert_tags(raw_names);
        let ghost upserted = *self;
        proof {
            assert(upserted.upserted(
                &cleared,
                views(raw_names@),
                crate::tags::normalized(views(raw_names@)),
            ));
        }
        let mut i: usize = 0;
        assert(self.link_set() =~= replaced_links(start, post_id, ids_of(resolved@.take(0))));
        while i < resolved.len()
            invariant
                i <= resolved.len(),
                self.wf(),
                self.tags == upserted.tags,
                self.next_id == upserted.next_id,
                self.link_set() == replaced_links(start, post_id, ids_of(resolved@.take(i as int))),
            decreases resolved.len() - i,
        {
            let ghost held = self.link_set();
            self.link(post_id, resolved[i].id);
            proof {
                let seen = resolved@.take(i as int);
                let next = resolved@.take(i + 1);
                let id = resolved@[i as int].id;
                assert(next[i as int].id == id);
                assert forall|x: i32| ids_of(next).contains(x) <==> (ids_of(seen).contains(x) || x
                    == id) by {
                    if ids_of(seen).contains(x) {
                        let k = choose|k: int| 0 <= k < seen.len() && (#[trigger] seen[k]).id == x;
                        assert(next[k].id == x);
                    }
                    if ids_of(next).contains(x) {
                        let k = choose|k: int| 0 <= k < next.len() && (#[trigger] next[k]).id == x;
                        if k < i {
                            assert(seen[k].id == x);
                        }
                    }
                }
                assert(self.link_set() =~= replaced_links(start, post_id, ids_of(next)));
            }
            i += 1;
        }
        assert(resolved@.take(resolved.len() as int) == resolved@);
        proof {
            let before = old(self);
            let raw = views(raw_names@);
            let normalized = crate::tags::normalized(views(raw_names@));
            assert(cleared.tags == before.tags);
            assert forall|n: Seq<char>| cleared.position_of(n) == before.position_of(n) by {}
            assert forall|k: int| before.tags.len() <= k < self.tags.len() implies created_for(
                #[trigger] self.tags@[k],
                before,
                raw,
                normalized,
                raw.len() as int,
            ) by {
                assert(created_for(upserted.tags@[k], &cleared, raw, normalized, raw.len() as int));
                let i = choose|i: int|
                    0 <= i < raw.len() && self.tags@[k].name@ == raw[i]
                        && self.tags@[k].normalized_name@ == #[trigger] normalized[i]
                        && cleared.position_of(normalized[i]) is None;
                assert(before.position_of(normalized[i]) is None);
            }
            assert forall|i: int| 0 <= i < normalized.len() implies self.position_of(
                #[trigger] normalized[i],
            ) is Some by {
                assert(upserted.position_of(normalized[i]) is Some);
            }
        }
        resolved
    }
}

/// A tag merged into itself keeps every association, and so does every other tag.
pub proof fn lemma_merge_into_itself(links: Set<TagLink>, tag: i32)
    ensures
        merged_links(links, tag, tag) == links,
{
    assert(merged_links(links, tag, tag) =~= links);
}

/// After a merge of one tag into another, no association refers to the merged
/// tag, every post that carried it carries the other, and nothing else has
/// changed: the other tag is carried by the posts that carried either, and what
/// refers to a third tag is as it was.
pub proof fn lemma_merge_moves_every_association(links: Set<TagLink>, from: i32, into: i32)
    requires
        from != into,
    ensures
        !in_use(merged_links(links, from, into), from as int),
        forall|post_id: i32| #[trigger]
            links.contains(TagLink { post_id, tag_id: from }) ==> merged_links(
                links,
                from,
                into,
            ).contains(TagLink { post_id, tag_id: into }),
        forall|post_id: i32| #[trigger]
            merged_links(links, from, into).contains(TagLink { post_id, tag_id: into }) <==> (
            links.contains(TagLink { post_id, tag_id: into }) || links.contains(
                TagLink { post_id, tag_id: from },
            )),
        forall|link: TagLink|
            link.tag_id != from && link.tag_id != into ==> (#[trigger] merged_links(
                links,
                from,
                into,
            ).contains(link) <==> links.contains(link)),
{
}

/// Collection deletes exactly the tags that nothing refers to: a tag is in the
/// table afterwards if and only if it was there before and some post carries it.
pub proof fn lemma_collection_keeps_tags_in_use(tags: Seq<TagFacts>, links: Set<TagLink>)
    ensures
        forall|tag: TagFacts|
            #![trigger tags_in_use(tags, links).contains(tag)]
            #![trigger tags.contains(tag)]
            tags_in_use(tags, links).contains(tag) <==> tags.contains(tag) && in_use(
                links,
                tag.id,
            ),
    decreases tags.len(),
{
    let kept = tags_in_use(tags, links);
    if tags.len() > 0 {
        let init = tags.drop_last();
        let last = tags.last();
        lemma_collection_keeps_tags_in_use(init, links);
        let kept_init = tags_in_use(init, links);
        assert forall|tag: TagFacts| kept.contains(tag) <==> tags.contains(tag) && in_use(
            links,
            tag.id,
        ) by {
            if kept.contains(tag) {
                let k = choose|k: int| 0 <= k < kept.len() && kept[k] == tag;
                if k < kept_init.len() {
                    assert(kept_init[k] == tag);
                    assert(kept_init.contains(tag));
                    let m = choose|m: int| 0 <= m < init.len() && init[m] == tag;
                    assert(tags[m] == tag);
                } else {
                    assert(tag == last);
                    assert(tags[tags.len() - 1] == tag);
                }
            }
            if tags.contains(tag) && in_use(links, tag.id) {
                let m = choose|m: int| 0 <= m < tags.len() && tags[m] == tag;
                if m < init.len() {
                    assert(init[m] == tag);
                    assert(init.contains(tag));
                    let k = choose|k: int| 0 <= k < kept_init.len() && kept_init[k] == tag;
                    assert(kept[k] == tag);
                } else {
                    assert(kept[kept.len() - 1] == tag);
                }
            }
        }
    }
}

} // verus!
