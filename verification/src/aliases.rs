//! Model aliases: a map from alias to model, kept in the order of its aliases.

use crate::text;
use crate::text::{
    lemma_text_less_irreflexive, lemma_text_less_total, lemma_text_less_transitive, text_less,
    text_view, texts,
};
use vstd::prelude::*;

verus! {

/// A map from alias to model. Its entries stand in the order of their aliases,
/// and no alias occurs twice.
#[derive(Debug)]
pub struct ModelAliases {
    entries: Vec<(String, String)>,
}

/// Whether the aliases of some entries ascend.
spec fn ascends(entries: Seq<(String, String)>) -> bool {
    forall|i: int, j: int|
        #![trigger entries[i], entries[j]]
        0 <= i < j < entries.len() ==> text_less(entries[i].0@, entries[j].0@)
}

/// Whether some entry has the alias `key`.
spec fn has_alias(entries: Seq<(String, String)>, key: Seq<char>) -> bool {
    exists|i: int| 0 <= i < entries.len() && #[trigger] entries[i].0@ == key
}

/// The map that some entries make.
spec fn as_map(entries: Seq<(String, String)>) -> Map<Seq<char>, Seq<char>> {
    Map::new(
        |key: Seq<char>| has_alias(entries, key),
        |key: Seq<char>|
            {
                let i = choose|i: int| 0 <= i < entries.len() && #[trigger] entries[i].0@ == key;
                entries[i].1@
            },
    )
}

/// Whether a sequence of texts ascends strictly.
pub open spec fn strictly_ascending(keys: Seq<Seq<char>>) -> bool {
    forall|i: int, j: int|
        #![trigger keys[i], keys[j]]
        0 <= i < j < keys.len() ==> text_less(keys[i], keys[j])
}

/// An ascending entry list maps each of its aliases to the model beside it.
proof fn lemma_lookup(entries: Seq<(String, String)>, i: int)
    requires
        ascends(entries),
        0 <= i < entries.len(),
    ensures
        as_map(entries).contains_key(entries[i].0@),
        as_map(entries)[entries[i].0@] == entries[i].1@,
{
    let key = entries[i].0@;
    assert(has_alias(entries, key));
    let k = choose|k: int| 0 <= k < entries.len() && #[trigger] entries[k].0@ == key;
    lemma_text_less_irreflexive(key);
    if k < i {
        assert(text_less(entries[k].0@, entries[i].0@));
    } else if i < k {
        assert(text_less(entries[i].0@, entries[k].0@));
    }
}

impl View for ModelAliases {
    type V = Map<Seq<char>, Seq<char>>;

    closed spec fn view(&self) -> Map<Seq<char>, Seq<char>> {
        as_map(self.entries@)
    }
}

impl ModelAliases {
    #[verifier::type_invariant]
    spec fn ordered(self) -> bool {
        ascends(self.entries@)
    }

    /// A map without aliases.
    pub fn new() -> (r: ModelAliases)
        ensures
            r@ == Map::<Seq<char>, Seq<char>>::empty(),
    {
        let entries: Vec<(String, String)> = Vec::new();
        assert(as_map(entries@) =~= Map::<Seq<char>, Seq<char>>::empty());
        ModelAliases { entries }
    }

    /// The index of the first entry whose alias is not before `key`.
    fn slot(&self, key: &str) -> (r: usize)
        ensures
            r <= self.entries@.len(),
            forall|i: int|
                0 <= i < r ==> text_less((#[trigger] self.entries@[i]).0@, key@),
            r < self.entries@.len() ==> !text_less(self.entries@[r as int].0@, key@),
    {
        let mut i: usize = 0;
        while i < self.entries.len() && text::less(self.entries[i].0.as_str(), key)
            invariant
                0 <= i <= self.entries@.len(),
                forall|j: int|
                    0 <= j < i ==> text_less((#[trigger] self.entries@[j]).0@, key@),
            decreases self.entries@.len() - i,
        {
            i = i + 1;
        }
        i
    }

    /// The model of an alias.
    pub fn get(&self, key: &str) -> (r: Option<String>)
        ensures
            text_view(r) == if self@.contains_key(key@) {
                Some(self@[key@])
            } else {
                None
            },
    {
        proof {
            use_type_invariant(self);
        }
        let at: usize = self.slot(key);
        if at < self.entries.len() && text::same(self.entries[at].0.as_str(), key) {
            proof {
                lemma_lookup(self.entries@, at as int);
            }
            return Some(self.entries[at].1.clone());
        }
        proof {
            if has_alias(self.entries@, key@) {
                let k = choose|k: int|
                    0 <= k < self.entries@.len() && #[trigger] self.entries@[k].0@ == key@;
                lemma_text_less_irreflexive(key@);
                if k > at {
                    assert(text_less(self.entries@[at as int].0@, self.entries@[k].0@));
                }
                assert(false);
            }
        }
        None
    }

    /// Maps an alias to a model, in place of any model that it had.
    pub fn insert(&mut self, key: String, model: String)
        ensures
            final(self)@ == old(self)@.insert(key@, model@),
    {
        proof {
            use_type_invariant(&*self);
        }
        let at: usize = self.slot(key.as_str());
        let mut entries: Vec<(String, String)> = Vec::new();
        std::mem::swap(&mut entries, &mut self.entries);
        let ghost before = entries@;
        let ghost name = key@;
        let ghost target = model@;
        let replaces = at < entries.len() && text::same(entries[at].0.as_str(), key.as_str());
        if replaces {
            entries.set(at, (key, model));
        } else {
            entries.insert(at, (key, model));
        }
        proof {
            lemma_insert(before, entries@, at as int, replaces, name, target);
        }
        self.entries = entries;
    }

    /// Maps an alias to a model unless it has one.
    pub fn insert_if_absent(&mut self, key: &str, model: &str)
        ensures
            final(self)@ == if old(self)@.contains_key(key@) {
                old(self)@
            } else {
                old(self)@.insert(key@, model@)
            },
    {
        if self.get(key).is_none() {
            self.insert(key.to_owned(), model.to_owned());
        }
    }

    /// The aliases, in ascending order.
    pub fn keys(&self) -> (r: Vec<String>)
        ensures
            strictly_ascending(texts(r@)),
            forall|key: Seq<char>| texts(r@).contains(key) <==> self@.contains_key(key),
    {
        proof {
            use_type_invariant(self);
        }
        let mut out: Vec<String> = Vec::new();
        let mut i: usize = 0;
        while i < self.entries.len()
            invariant
                0 <= i <= self.entries@.len(),
                out@.len() == i,
                forall|j: int| 0 <= j < i ==> (#[trigger] out@[j])@ == self.entries@[j].0@,
            decreases self.entries@.len() - i,
        {
            out.push(self.entries[i].0.clone());
            i = i + 1;
        }
        proof {
            let keys = texts(out@);
            assert forall|i: int, j: int|
                #![trigger keys[i], keys[j]]
                0 <= i < j < keys.len() implies text_less(keys[i], keys[j]) by {
                assert(keys[i] == self.entries@[i].0@);
                assert(keys[j] == self.entries@[j].0@);
            }
            assert forall|key: Seq<char>| keys.contains(key) <==> self@.contains_key(key) by {
                if keys.contains(key) {
                    let i = keys.index_of(key);
                    assert(self.entries@[i].0@ == key);
                }
                if has_alias(self.entries@, key) {
                    let i = choose|i: int|
                        0 <= i < self.entries@.len() && #[trigger] self.entries@[i].0@ == key;
                    assert(keys[i] == key);
                }
            }
        }
        out
    }
}

/// Setting or inserting an entry at its slot inserts it into the map, and keeps
/// the order.
proof fn lemma_insert(
    before: Seq<(String, String)>,
    after: Seq<(String, String)>,
    at: int,
    replaces: bool,
    key: Seq<char>,
    model: Seq<char>,
)
    requires
        ascends(before),
        0 <= at <= before.len(),
        0 <= at < after.len(),
        forall|i: int| 0 <= i < at ==> text_less((#[trigger] before[i]).0@, key),
        at < before.len() ==> !text_less(before[at].0@, key),
        replaces == (at < before.len() && before[at].0@ == key),
        after[at].0@ == key,
        after[at].1@ == model,
        after == if replaces {
            before.update(at, after[at])
        } else {
            before.insert(at, after[at])
        },
    ensures
        ascends(after),
        as_map(after) == as_map(before).insert(key, model),
{
    let shift: int = if replaces {
        0
    } else {
        1
    };
    assert forall|j: int| at <= j < before.len() && (j > at || !replaces) implies text_less(
        key,
        (#[trigger] before[j]).0@,
    ) by {
        lemma_text_less_total(before[at].0@, key);
        if j > at {
            assert(text_less(before[at].0@, before[j].0@));
            if text_less(key, before[at].0@) {
                lemma_text_less_transitive(key, before[at].0@, before[j].0@);
            }
        }
    }
    assert forall|i: int, j: int|
        #![trigger after[i], after[j]]
        0 <= i < j < after.len() implies text_less(after[i].0@, after[j].0@) by {
        if i < at && j < at {
            assert(after[i] == before[i] && after[j] == before[j]);
        } else if i < at && j > at {
            assert(after[i] == before[i] && after[j] == before[j - shift]);
        } else if i > at {
            assert(after[i] == before[i - shift] && after[j] == before[j - shift]);
        } else if i == at {
            assert(after[j] == before[j - shift]);
        } else {
            assert(after[i] == before[i]);
        }
    }
    let target = as_map(before).insert(key, model);
    assert forall|k: Seq<char>| as_map(after).contains_key(k) == target.contains_key(k) by {
        if has_alias(after, k) {
            let i = choose|i: int| 0 <= i < after.len() && #[trigger] after[i].0@ == k;
            if i < at {
                assert(before[i].0@ == k);
            } else if i > at {
                assert(before[i - shift].0@ == k);
            }
        }
        if has_alias(before, k) {
            let i = choose|i: int| 0 <= i < before.len() && #[trigger] before[i].0@ == k;
            if i < at {
                assert(after[i].0@ == k);
            } else if i == at && replaces {
                assert(after[at].0@ == k);
            } else {
                assert(after[i + shift].0@ == k);
            }
        }
        if k == key {
            assert(after[at].0@ == k);
        }
    }
    assert forall|k: Seq<char>| #[trigger] as_map(after).contains_key(k) implies as_map(after)[k]
        == target[k] by {
        let i = choose|i: int| 0 <= i < after.len() && #[trigger] after[i].0@ == k;
        lemma_lookup(after, i);
        if i < at {
            lemma_lookup(before, i);
            lemma_text_less_irreflexive(key);
        } else if i > at {
            assert(after[i] == before[i - shift]);
            lemma_lookup(before, i - shift);
            lemma_text_less_irreflexive(key);
        }
    }
    assert(as_map(after) =~= target);
}

impl Clone for ModelAliases {
    fn clone(&self) -> (r: ModelAliases)
        ensures
            r@ == self@,
    {
        proof {
            use_type_invariant(self);
        }
        let mut entries: Vec<(String, String)> = Vec::new();
        let mut i: usize = 0;
        while i < self.entries.len()
            invariant
                0 <= i <= self.entries@.len(),
                entries@ == self.entries@.take(i as int),
            decreases self.entries@.len() - i,
        {
            let entry = (self.entries[i].0.clone(), self.entries[i].1.clone());
            entries.push(entry);
            assert(entries@ =~= self.entries@.take(i + 1));
            i = i + 1;
        }
        assert(entries@ =~= self.entries@);
        ModelAliases { entries }
    }
}

/// Aliases in ascending order stand one after the other in the order of texts, none twice.
pub proof fn law_ascending_aliases(keys: Seq<Seq<char>>, i: int, j: int)
    requires
        strictly_ascending(keys),
        0 <= i < j < keys.len(),
    ensures
        text_less(keys[i], keys[j]),
        !text_less(keys[j], keys[i]),
        keys[i] != keys[j],
{
    lemma_text_less_irreflexive(keys[i]);
    if text_less(keys[j], keys[i]) {
        lemma_text_less_transitive(keys[i], keys[j], keys[i]);
    }
}

} // verus!
