//! User configuration: tags attached to entries by their id.

use vstd::prelude::*;
use crate::assoc::{assoc_map, find_key, last_key_at, lemma_assoc_absent, lemma_assoc_last, lemma_assoc_move_last};
use crate::text::{clone_strings, contains_str, dedup, dedup_strings, lemma_dedup_each_once, lemma_push_each_once, views};

verus! {

/// User configuration.
pub struct Config {
    /// Modification time of the configuration, in seconds since the epoch.
    pub mtime: u64,
    /// Tags of each entry, by entry id; a later pair for an id overrides an earlier one.
    pub tags: Vec<(String, Vec<String>)>,
}

/// The map from entry id to tags that a list of pairs describes, a later
/// pair overriding an earlier one for the same id.
pub open spec fn tag_map(tags: Seq<(String, Vec<String>)>) -> Map<Seq<char>, Seq<Seq<char>>> {
    assoc_map(tags, |v: Vec<String>| views(v@))
}

impl View for Config {
    type V = Map<Seq<char>, Seq<Seq<char>>>;

    open spec fn view(&self) -> Map<Seq<char>, Seq<Seq<char>>> {
        tag_map(self.tags@)
    }
}

/// The tags of entry `id` in the map `m`, none if it has no pair.
pub open spec fn tags_in(m: Map<Seq<char>, Seq<Seq<char>>>, id: Seq<char>) -> Seq<Seq<char>> {
    if m.contains_key(id) {
        m[id]
    } else {
        Seq::empty()
    }
}

/// The tags after adding `tag` to those of `id` (nothing changes when it is there).
pub open spec fn with_tag(m: Map<Seq<char>, Seq<Seq<char>>>, id: Seq<char>, tag: Seq<char>) -> Map<Seq<char>, Seq<Seq<char>>> {
    if tags_in(m, id).contains(tag) {
        m
    } else {
        m.insert(id, tags_in(m, id).push(tag))
    }
}

/// After adding a tag to an id, the id carries the tag, the tags of other
/// ids are unchanged, and adding it again changes nothing.
pub proof fn lemma_with_tag(m: Map<Seq<char>, Seq<Seq<char>>>, id: Seq<char>, tag: Seq<char>, other: Seq<char>)
    requires
        other != id,
    ensures
        tags_in(with_tag(m, id, tag), id).contains(tag),
        tags_in(with_tag(m, id, tag), other) == tags_in(m, other),
        with_tag(with_tag(m, id, tag), id, tag) == with_tag(m, id, tag),
{
    if !tags_in(m, id).contains(tag) {
        let t = tags_in(m, id).push(tag);
        assert(t[t.len() - 1] == tag);
    }
}

/// Whether the tags of every id hold each tag once.
pub open spec fn tags_each_once(m: Map<Seq<char>, Seq<Seq<char>>>) -> bool {
    forall|id: Seq<char>| #[trigger] m.contains_key(id) ==> m[id].no_duplicates()
}

/// Adding a tag keeps every id's tags free of repeats.
pub proof fn lemma_with_tag_each_once(m: Map<Seq<char>, Seq<Seq<char>>>, id: Seq<char>, tag: Seq<char>)
    requires
        tags_each_once(m),
    ensures
        tags_each_once(with_tag(m, id, tag)),
{
    if !tags_in(m, id).contains(tag) {
        lemma_push_each_once(tags_in(m, id), tag);
    }
}

/// A list of pairs whose tag lists are free of repeats describes tags free of repeats.
proof fn lemma_tag_map_each_once(s: Seq<(String, Vec<String>)>)
    requires
        forall|i: int| 0 <= i < s.len() ==> views(#[trigger] s[i].1@).no_duplicates(),
    ensures
        tags_each_once(tag_map(s)),
    decreases s.len(),
{
    if s.len() > 0 {
        lemma_tag_map_each_once(s.drop_last());
        assert(views(s[s.len() - 1].1@).no_duplicates());
    }
}

impl Config {
    /// Whether the tags of every entry hold each tag once.
    pub open spec fn well_formed(self) -> bool {
        tags_each_once(self@)
    }

    /// An empty configuration.
    pub fn new() -> (c: Config)
        ensures
            c@ == Map::<Seq<char>, Seq<Seq<char>>>::empty(),
            c.mtime == 0,
            c.well_formed(),
    {
        Config { mtime: 0, tags: Vec::new() }
    }

    /// The configuration modified at `mtime` with the tags `tags` (by entry
    /// id), each tag of an id kept once, in the order of its first occurrence.
    pub fn from_tags(mtime: u64, tags: Vec<(String, Vec<String>)>) -> (c: Config)
        ensures
            c.mtime == mtime,
            c.tags@.len() == tags@.len(),
            forall|i: int| 0 <= i < tags@.len() ==> (#[trigger] c.tags@[i]).0@ == tags@[i].0@
                && views(c.tags@[i].1@) == dedup(views(tags@[i].1@)),
            c.well_formed(),
    {
        let mut out: Vec<(String, Vec<String>)> = Vec::new();
        let mut rest = tags;
        let ghost all = rest@;
        let mut i: usize = 0;
        assert(all.len() == rest.len());
        while rest.len() > 0
            invariant
                all.len() <= usize::MAX,
                i + rest@.len() == all.len(),
                rest@ == all.subrange(i as int, all.len() as int),
                out@.len() == i,
                forall|k: int| 0 <= k < i ==> (#[trigger] out@[k]).0@ == all[k].0@
                    && views(out@[k].1@) == dedup(views(all[k].1@)),
            decreases rest@.len(),
        {
            let (id, list) = rest.remove(0);
            proof {
                assert(all[i as int] == (id, list));
            }
            out.push((id, dedup_strings(list)));
            i += 1;
            assert(rest@ =~= all.subrange(i as int, all.len() as int));
        }
        proof {
            assert forall|k: int| 0 <= k < out@.len() implies views(#[trigger] out@[k].1@).no_duplicates() by {
                lemma_dedup_each_once(views(all[k].1@));
            }
            lemma_tag_map_each_once(out@);
        }
        Config { mtime, tags: out }
    }

    /// Index of the pair that decides the tags of `id`, if any.
    fn find(&self, id: &str) -> (r: Option<usize>)
        ensures
            match r {
                Some(i) => last_key_at(self.tags@, id@, i as int)
                    && self@.contains_key(id@) && self@[id@] == views(self.tags@[i as int].1@),
                None => !self@.contains_key(id@),
            },
    {
        let r = find_key(&self.tags, id);
        proof {
            match r {
                Some(i) => lemma_assoc_last(self.tags@, |v: Vec<String>| views(v@), id@, i as int),
                None => lemma_assoc_absent(self.tags@, |v: Vec<String>| views(v@), id@),
            }
        }
        r
    }

    /// The tags of entry `id`, none if the configuration has none for it.
    pub fn tags_of(&self, id: &str) -> (r: Vec<String>)
        ensures
            views(r@) == tags_in(self@, id@),
    {
        match self.find(id) {
            Some(i) => clone_strings(&self.tags[i].1),
            None => {
                let r: Vec<String> = Vec::new();
                assert(views(r@) =~= Seq::<Seq<char>>::empty());
                r
            }
        }
    }

    /// Adds `tag` to the tags of entry `id`; returns whether anything changed,
    /// i.e. whether the configuration has to be saved.
    pub fn add_tag(&mut self, id: &str, tag: &str) -> (changed: bool)
        ensures
            changed == !tags_in(old(self)@, id@).contains(tag@),
            final(self)@ == with_tag(old(self)@, id@, tag@),
            final(self).mtime == old(self).mtime,
            old(self).well_formed() ==> final(self).well_formed(),
    {
        proof {
            if old(self).well_formed() {
                lemma_with_tag_each_once(old(self)@, id@, tag@);
            }
        }
        match self.find(id) {
            Some(i) => {
                if contains_str(&self.tags[i].1, tag) {
                    false
                } else {
                    let ghost old_tags = self.tags@;
                    let (key, mut v) = self.tags.remove(i);
                    let ghost old_v = v;
                    let t = String::from_str(tag);
                    proof {
                        crate::text::lemma_views_push(v@, t);
                    }
                    v.push(t);
                    self.tags.push((key, v));
                    proof {
                        lemma_assoc_move_last(old_tags, |v: Vec<String>| views(v@), i as int, v);
                        assert(self.tags@ == old_tags.remove(i as int).push((old_tags[i as int].0, v)));
                    }
                    true
                }
            },
            None => {
                let mut v: Vec<String> = Vec::new();
                v.push(String::from_str(tag));
                let ghost old_tags = self.tags@;
                self.tags.push((String::from_str(id), v));
                assert(self.tags@.drop_last() =~= old_tags);
                assert(views(v@) =~= Seq::<Seq<char>>::empty().push(tag@));
                true
            },
        }
    }
}

} // verus!
