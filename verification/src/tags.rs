//! The tags of an MP4 file: keys with their values, in the order in which
//! they were first set.

use vstd::prelude::*;
use crate::text::str_eq;
use crate::value::{MP4TagValue, ValueView};

verus! {

/// Keys with their values as plain data, in order.
pub type TagsView = Seq<(Seq<char>, ValueView)>;

/// The position of the first entry with the given key, or the number of
/// entries when no entry has it.
pub open spec fn index_of(tags: TagsView, key: Seq<char>) -> int
    decreases tags.len(),
{
    if tags.len() == 0 {
        0
    } else if tags[0].0 == key {
        0
    } else {
        1 + index_of(tags.skip(1), key)
    }
}

/// True when no key occurs twice.
pub open spec fn distinct_keys(tags: TagsView) -> bool {
    forall|i: int, j: int| 0 <= i < j < tags.len() ==> tags[i].0 != tags[j].0
}

/// The entries without those that have the given key.
pub open spec fn without_key(tags: TagsView, key: Seq<char>) -> TagsView {
    tags.filter(other_key(key))
}

/// The test that an entry has another key than `key`.
pub open spec fn other_key(key: Seq<char>) -> spec_fn((Seq<char>, ValueView)) -> bool {
    |entry: (Seq<char>, ValueView)| entry.0 != key
}

/// The entries after `value` was set for `key`: in the place of the first
/// entry with that key, or at the end when there is none.
pub open spec fn with_value(tags: TagsView, key: Seq<char>, value: ValueView) -> TagsView {
    let i = index_of(tags, key);
    if i < tags.len() {
        tags.update(i, (key, value))
    } else {
        tags.push((key, value))
    }
}

/// `index_of` finds the first entry with the key: none before it has the key,
/// and the entry found has it.
pub proof fn lemma_index_of(tags: TagsView, key: Seq<char>)
    ensures
        0 <= index_of(tags, key) <= tags.len(),
        index_of(tags, key) < tags.len() ==> tags[index_of(tags, key)].0 == key,
        forall|i: int| 0 <= i < index_of(tags, key) ==> (#[trigger] tags[i]).0 != key,
    decreases tags.len(),
{
    if tags.len() > 0 && tags[0].0 != key {
        lemma_index_of(tags.skip(1), key);
        assert forall|i: int| 0 <= i < index_of(tags, key) implies (#[trigger] tags[i]).0
            != key by {
            if i > 0 {
                assert(tags[i] == tags.skip(1)[i - 1]);
            }
        }
    }
}

/// The position of the first entry with the key is the only position before
/// which no entry has the key and at which one has.
pub proof fn lemma_index_of_is(tags: TagsView, key: Seq<char>, k: int)
    requires
        0 <= k <= tags.len(),
        forall|i: int| 0 <= i < k ==> (#[trigger] tags[i]).0 != key,
        k < tags.len() ==> tags[k].0 == key,
    ensures
        index_of(tags, key) == k,
{
    lemma_index_of(tags, key);
    let r = index_of(tags, key);
    if r < k {
        assert(tags[r].0 != key);
    } else if k < r {
        assert(tags[k].0 != key);
    }
}

/// Setting a value keeps the keys distinct.
pub proof fn lemma_with_value_distinct(tags: TagsView, key: Seq<char>, value: ValueView)
    requires
        distinct_keys(tags),
    ensures
        distinct_keys(with_value(tags, key, value)),
{
    lemma_index_of(tags, key);
    let i = index_of(tags, key);
    let after = with_value(tags, key, value);
    if i >= tags.len() {
        assert forall|a: int, b: int| 0 <= a < b < after.len() implies after[a].0
            != after[b].0 by {
            if b == tags.len() {
                assert(tags[a].0 != key);
            }
        }
    }
}

/// The tags of one file.
#[derive(Debug, Clone)]
pub struct MP4Tags {
    pub items: Vec<(String, MP4TagValue)>,
}

impl View for MP4Tags {
    type V = TagsView;

    open spec fn view(&self) -> TagsView {
        self.items@.map_values(|entry: (String, MP4TagValue)| (entry.0@, entry.1@))
    }
}

impl MP4Tags {
    /// No tags.
    pub fn new() -> (result: MP4Tags)
        ensures
            result@ == Seq::<(Seq<char>, ValueView)>::empty(),
            result.wf(),
    {
        let result = MP4Tags { items: Vec::new() };
        assert(result@ =~= Seq::<(Seq<char>, ValueView)>::empty());
        result
    }

    /// No key occurs twice.
    pub open spec fn wf(&self) -> bool {
        distinct_keys(self@)
    }

    /// The position of the first entry with the given key, or the number of
    /// entries when there is none.
    pub fn position(&self, key: &str) -> (result: usize)
        ensures
            result == index_of(self@, key@),
            result <= self.items@.len(),
    {
        let mut i: usize = 0;
        while i < self.items.len()
            invariant
                i <= self.items@.len(),
                forall|j: int| 0 <= j < i ==> (#[trigger] self@[j]).0 != key@,
            decreases self.items@.len() - i,
        {
            if str_eq(self.items[i].0.as_str(), key) {
                proof {
                    lemma_index_of_is(self@, key@, i as int);
                }
                return i;
            }
            i += 1;
        }
        proof {
            lemma_index_of_is(self@, key@, i as int);
        }
        i
    }

    /// The number of entries.
    pub fn len(&self) -> (result: usize)
        ensures
            result == self@.len(),
    {
        self.items.len()
    }

    /// The keys, in order.
    pub fn keys(&self) -> (result: Vec<String>)
        ensures
            result@.len() == self@.len(),
            forall|i: int| 0 <= i < result@.len() ==> (#[trigger] result@[i])@ == self@[i].0,
    {
        let mut out: Vec<String> = Vec::new();
        let mut i: usize = 0;
        while i < self.items.len()
            invariant
                i <= self.items@.len(),
                out@.len() == i,
                forall|j: int| 0 <= j < i ==> (#[trigger] out@[j])@ == self@[j].0,
            decreases self.items@.len() - i,
        {
            out.push(self.items[i].0.clone());
            i += 1;
        }
        out
    }

    /// The value of the first entry with the given key.
    pub fn get(&self, key: &str) -> (result: Option<&MP4TagValue>)
        ensures
            result is Some <==> index_of(self@, key@) < self@.len(),
            result matches Some(v) ==> *v == self.items@[index_of(self@, key@)].1 && v@
                == self@[index_of(self@, key@)].1,
    {
        let i = self.position(key);
        if i < self.items.len() {
            Some(&self.items[i].1)
        } else {
            None
        }
    }

    /// Tells whether an entry has the given key.
    pub fn contains_key(&self, key: &str) -> (result: bool)
        ensures
            result == (index_of(self@, key@) < self@.len()),
            result == (exists|i: int| 0 <= i < self@.len() && (#[trigger] self@[i]).0 == key@),
    {
        let i = self.position(key);
        proof {
            lemma_index_of(self@, key@);
        }
        i < self.items.len()
    }

    /// Sets the value for a key: in place where the key has an entry, as a
    /// new last entry otherwise.
    pub fn set(&mut self, key: &str, value: MP4TagValue)
        ensures
            final(self)@ == with_value(old(self)@, key@, value@),
            old(self).wf() ==> final(self).wf(),
    {
        let i = self.position(key);
        let ghost before = self@;
        proof {
            lemma_index_of(before, key@);
            if distinct_keys(before) {
                lemma_with_value_distinct(before, key@, value@);
            }
        }
        if i < self.items.len() {
            let k = self.items[i].0.clone();
            self.items.set(i, (k, value));
            assert(self@ =~= with_value(before, key@, value@));
        } else {
            self.items.push((key.to_owned(), value));
            assert(self@ =~= with_value(before, key@, value@));
        }
    }

    /// Removes every entry with the given key.
    pub fn delete(&mut self, key: &str)
        ensures
            final(self)@ == without_key(old(self)@, key@),
            index_of(final(self)@, key@) == final(self)@.len(),
            old(self).wf() ==> final(self).wf(),
    {
        let ghost before = self@;
        let mut i: usize = 0;
        proof {
            assert(before.skip(0) =~= before);
            assert(self@.take(0) + without_key(before, key@) =~= without_key(before, key@));
        }
        while i < self.items.len()
            invariant
                i <= self.items@.len(),
                forall|j: int| 0 <= j < i ==> (#[trigger] self@[j]).0 != key@,
                self@.take(i as int) + without_key(self@.skip(i as int), key@) == without_key(
                    before,
                    key@,
                ),
            decreases self.items@.len() - i,
        {
            let ghost now = self@;
            let ghost rest = now.skip(i as int);
            proof {
                lemma_filter_step(rest, key@);
            }
            if str_eq(self.items[i].0.as_str(), key) {
                self.items.remove(i);
                proof {
                    assert(self@ =~= now.remove(i as int));
                    assert(self@.take(i as int) =~= now.take(i as int));
                    assert(self@.skip(i as int) =~= rest.skip(1));
                }
            } else {
                proof {
                    assert(now.take(i + 1) =~= now.take(i as int).push(rest[0]));
                    assert(now.skip(i + 1) =~= rest.skip(1));
                    assert(now.take(i + 1) + without_key(rest.skip(1), key@) =~= now.take(
                        i as int,
                    ) + without_key(rest, key@));
                }
                i += 1;
            }
        }
        proof {
            let rest = self@.skip(i as int);
            assert(rest.len() == 0);
            assert(without_key(rest, key@) =~= rest) by {
                reveal(Seq::filter);
            }
            assert(self@.take(i as int) + rest =~= self@);
            lemma_index_of_is(self@, key@, self@.len() as int);
            lemma_filter_is_subsequence(before, key@);
        }
    }

    /// The first entry with the given key, for changing its value in place.
    pub fn get_mut(&mut self, key: &str) -> (result: Option<&mut MP4TagValue>)
        ensures
            result is Some <==> index_of(old(self)@, key@) < old(self)@.len(),
            result matches Some(v) ==> *v == old(self).items@[index_of(old(self)@, key@)].1
                && final(self).items@ == old(self).items@.update(
                index_of(old(self)@, key@),
                (old(self).items@[index_of(old(self)@, key@)].0, *final(v)),
            ),
            result is None ==> final(self).items@ == old(self).items@,
    {
        let i = self.position(key);
        if i < self.items.len() {
            Some(&mut self.items[i].1)
        } else {
            None
        }
    }
}

/// Filtering looks at the first entry and then at the others.
pub proof fn lemma_filter_step(tags: TagsView, key: Seq<char>)
    requires
        tags.len() > 0,
    ensures
        without_key(tags, key) == if tags[0].0 != key {
            seq![tags[0]] + without_key(tags.skip(1), key)
        } else {
            without_key(tags.skip(1), key)
        },
{
    assert(tags =~= seq![tags[0]] + tags.skip(1));
    tags.skip(1).lemma_filter_prepend(tags[0], other_key(key));
    assert(Seq::<(Seq<char>, ValueView)>::empty() + without_key(tags.skip(1), key)
        =~= without_key(tags.skip(1), key));
}

/// Removing a key keeps the keys distinct, and brings in no entry.
pub proof fn lemma_filter_is_subsequence(tags: TagsView, key: Seq<char>)
    ensures
        distinct_keys(tags) ==> distinct_keys(without_key(tags, key)),
        forall|i: int|
            0 <= i < without_key(tags, key).len() ==> tags.contains(
                #[trigger] without_key(tags, key)[i],
            ),
    decreases tags.len(),
{
    let out = without_key(tags, key);
    if tags.len() > 0 {
        lemma_filter_step(tags, key);
        let rest = tags.skip(1);
        if distinct_keys(tags) {
            assert forall|i: int, j: int| 0 <= i < j < rest.len() implies rest[i].0
                != rest[j].0 by {
                assert(rest[i] == tags[i + 1] && rest[j] == tags[j + 1]);
            }
        }
        lemma_filter_is_subsequence(rest, key);
        let sub = without_key(rest, key);
        assert forall|i: int| 0 <= i < sub.len() implies tags.contains(#[trigger] sub[i])
            && (distinct_keys(tags) ==> sub[i].0 != tags[0].0) by {
            assert(rest.contains(sub[i]));
            let k = choose|k: int| 0 <= k < rest.len() && rest[k] == sub[i];
            assert(tags[k + 1] == sub[i]);
        }
        if tags[0].0 != key {
            assert(out =~= seq![tags[0]] + sub);
            assert forall|i: int| 0 <= i < out.len() implies tags.contains(#[trigger] out[i]) by {
                if i == 0 {
                    assert(tags[0] == out[0]);
                } else {
                    assert(out[i] == sub[i - 1]);
                }
            }
            if distinct_keys(tags) {
                assert forall|i: int, j: int| 0 <= i < j < out.len() implies out[i].0
                    != out[j].0 by {
                    assert(out[j] == sub[j - 1]);
                    if i > 0 {
                        assert(out[i] == sub[i - 1]);
                    }
                }
            }
        }
    } else {
        assert(out.len() == 0) by {
            reveal(Seq::filter);
        }
    }
}

} // verus!
