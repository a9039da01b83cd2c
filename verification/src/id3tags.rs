//! The records of an ID3v2 tag and the container that holds them by key.

use vstd::prelude::*;
use vstd::slice::slice_subrange;
use crate::text::str_eq;

verus! {

/// One decoded frame.
#[derive(Debug, Clone)]
pub enum Frame {
    /// A text frame with one or more values.
    Text { id: String, encoding: u8, text: Vec<String> },
    /// A user-defined text frame, told apart by its description.
    UserText { description: String, encoding: u8, text: Vec<String> },
    /// A link.
    Url { id: String, url: String },
    /// A user-defined link, told apart by its description.
    UserUrl { description: String, url: String },
    /// A comment, told apart by language and description.
    Comment { language: String, description: String, text: String },
    /// Lyrics, told apart by language and description.
    Lyrics { language: String, description: String, text: String },
    /// An embedded picture.
    Picture { mime: String, picture_type: u8, description: String, data: Vec<u8> },
    /// A rating, told apart by the e-mail address of who gave it.
    Popularimeter { email: String, rating: u8, count: u64 },
    /// A frame kept as bytes.
    Binary { id: String, data: Vec<u8> },
    /// A list of people with their roles.
    PairedText { id: String, people: Vec<(String, String)> },
}

impl Frame {
    /// The key under which a tag holds the frame: the frame id, followed for
    /// the kinds that may occur several times by what tells them apart.
    pub open spec fn key(&self) -> Seq<char> {
        match *self {
            Frame::Text { id, .. } => id@,
            Frame::UserText { description, .. } => "TXXX:"@ + description@,
            Frame::Url { id, .. } => id@,
            Frame::UserUrl { description, .. } => "WXXX:"@ + description@,
            Frame::Comment { language, description, .. } => "COMM:"@ + description@ + ":"@
                + language@,
            Frame::Lyrics { language, description, .. } => "USLT:"@ + description@ + ":"@
                + language@,
            Frame::Picture { .. } => "APIC"@,
            Frame::Popularimeter { email, .. } => "POPM:"@ + email@,
            Frame::Binary { id, .. } => id@,
            Frame::PairedText { id, .. } => id@,
        }
    }

    /// Writes the key of the frame.
    pub fn hash_key(&self) -> (result: String)
        ensures
            result@ == self.key(),
    {
        match self {
            Frame::Text { id, .. } => id.clone(),
            Frame::UserText { description, .. } => String::from_str("TXXX:").concat(
                description.as_str(),
            ),
            Frame::Url { id, .. } => id.clone(),
            Frame::UserUrl { description, .. } => String::from_str("WXXX:").concat(
                description.as_str(),
            ),
            Frame::Comment { language, description, .. } => {
                let mut key = String::from_str("COMM:");
                key.append(description.as_str());
                key.append(":");
                key.append(language.as_str());
                key
            },
            Frame::Lyrics { language, description, .. } => {
                let mut key = String::from_str("USLT:");
                key.append(description.as_str());
                key.append(":");
                key.append(language.as_str());
                key
            },
            Frame::Picture { .. } => String::from_str("APIC"),
            Frame::Popularimeter { email, .. } => String::from_str("POPM:").concat(
                email.as_str(),
            ),
            Frame::Binary { id, .. } => id.clone(),
            Frame::PairedText { id, .. } => id.clone(),
        }
    }
}

/// A record that is decoded only when it is asked for.
#[derive(Debug, Clone)]
pub enum LazyFrame {
    /// The record, decoded.
    Decoded(Frame),
    /// The frame with the given id, whose content is the bytes from `start`
    /// to `end` of the tag's buffer, not yet decoded.
    Raw { id: String, start: usize, end: usize },
}

impl LazyFrame {
    /// The bytes of a record that is not decoded yet, out of the buffer of
    /// its tag; nothing for a decoded record and for a range that does not
    /// lie in the buffer.
    pub fn raw_bytes<'a>(&self, buffer: &'a [u8]) -> (result: Option<&'a [u8]>)
        ensures
            match *self {
                LazyFrame::Raw { start, end, .. } => if start <= end <= buffer@.len() {
                    result matches Some(bytes) && bytes@ == buffer@.subrange(
                        start as int,
                        end as int,
                    )
                } else {
                    result is None
                },
                LazyFrame::Decoded(_) => result is None,
            },
    {
        match self {
            LazyFrame::Raw { start, end, .. } => {
                if *start <= *end && *end <= buffer.len() {
                    Some(slice_subrange(buffer, *start, *end))
                } else {
                    None
                }
            },
            LazyFrame::Decoded(_) => None,
        }
    }

    /// Keeps the decoded form of a record in its place. A record that is
    /// decoded already stays as it is: a record changes once at most.
    pub fn settle(&mut self, frame: Frame)
        ensures
            *final(self) == match *old(self) {
                LazyFrame::Raw { .. } => LazyFrame::Decoded(frame),
                LazyFrame::Decoded(f) => LazyFrame::Decoded(f),
            },
    {
        match self {
            LazyFrame::Raw { .. } => {
                *self = LazyFrame::Decoded(frame);
            },
            LazyFrame::Decoded(_) => {},
        }
    }
}

/// The entries of a tag: keys with their records, in order.
pub type Entries = Seq<(String, Vec<LazyFrame>)>;

/// The position of the first entry with the given key, or the number of
/// entries when no entry has it.
pub open spec fn entry_of(entries: Entries, key: Seq<char>) -> int
    decreases entries.len(),
{
    if entries.len() == 0 {
        0
    } else if entries[0].0@ == key {
        0
    } else {
        1 + entry_of(entries.skip(1), key)
    }
}

/// True when no key occurs twice.
pub open spec fn unique_keys(entries: Entries) -> bool {
    forall|i: int, j: int| 0 <= i < j < entries.len() ==> entries[i].0@ != entries[j].0@
}

/// `entry_of` finds the first entry with the key.
pub proof fn lemma_entry_of(entries: Entries, key: Seq<char>)
    ensures
        0 <= entry_of(entries, key) <= entries.len(),
        entry_of(entries, key) < entries.len() ==> entries[entry_of(entries, key)].0@ == key,
        forall|i: int| 0 <= i < entry_of(entries, key) ==> (#[trigger] entries[i]).0@ != key,
    decreases entries.len(),
{
    if entries.len() > 0 && entries[0].0@ != key {
        lemma_entry_of(entries.skip(1), key);
        assert forall|i: int| 0 <= i < entry_of(entries, key) implies (#[trigger] entries[i]).0@
            != key by {
            if i > 0 {
                assert(entries[i] == entries.skip(1)[i - 1]);
            }
        }
    }
}

/// The position before which no entry has the key, and at which one has it
/// or the entries end, is what `entry_of` gives.
pub proof fn lemma_entry_of_is(entries: Entries, key: Seq<char>, k: int)
    requires
        0 <= k <= entries.len(),
        forall|i: int| 0 <= i < k ==> (#[trigger] entries[i]).0@ != key,
        k < entries.len() ==> entries[k].0@ == key,
    ensures
        entry_of(entries, key) == k,
{
    lemma_entry_of(entries, key);
    let r = entry_of(entries, key);
    if r < k {
        assert(entries[r].0@ != key);
    } else if k < r {
        assert(entries[k].0@ != key);
    }
}

/// The records of an ID3v2 tag, by key, in the order in which the keys came.
#[derive(Debug, Clone)]
pub struct ID3Tags {
    pub items: Vec<(String, Vec<LazyFrame>)>,
}

impl ID3Tags {
    /// No key occurs twice.
    pub open spec fn wf(&self) -> bool {
        unique_keys(self.items@)
    }

    /// An empty tag.
    pub fn new() -> (result: ID3Tags)
        ensures
            result.items@.len() == 0,
            result.wf(),
    {
        ID3Tags { items: Vec::new() }
    }

    /// The position of the first entry with the given key, or the number of
    /// entries when there is none.
    pub fn position(&self, key: &str) -> (result: usize)
        ensures
            result == entry_of(self.items@, key@),
            result <= self.items@.len(),
    {
        let mut i: usize = 0;
        while i < self.items.len()
            invariant
                i <= self.items@.len(),
                forall|j: int| 0 <= j < i ==> (#[trigger] self.items@[j]).0@ != key@,
            decreases self.items@.len() - i,
        {
            if str_eq(self.items[i].0.as_str(), key) {
                proof {
                    lemma_entry_of_is(self.items@, key@, i as int);
                }
                return i;
            }
            i += 1;
        }
        proof {
            lemma_entry_of_is(self.items@, key@, i as int);
        }
        i
    }

    /// The number of keys.
    pub fn len(&self) -> (result: usize)
        ensures
            result == self.items@.len(),
    {
        self.items.len()
    }

    /// The keys, in order.
    pub fn keys(&self) -> (result: Vec<String>)
        ensures
            result@.len() == self.items@.len(),
            forall|i: int| 0 <= i < result@.len() ==> (#[trigger] result@[i])@ == self.items@[i].0@,
    {
        let mut out: Vec<String> = Vec::new();
        let mut i: usize = 0;
        while i < self.items.len()
            invariant
                i <= self.items@.len(),
                out@.len() == i,
                forall|j: int| 0 <= j < i ==> (#[trigger] out@[j])@ == self.items@[j].0@,
            decreases self.items@.len() - i,
        {
            out.push(self.items[i].0.clone());
            i += 1;
        }
        out
    }

    /// The records of a key; none where the tag has no such key.
    pub fn get_all(&self, key: &str) -> (result: &[LazyFrame])
        ensures
            result@ == if entry_of(self.items@, key@) < self.items@.len() {
                self.items@[entry_of(self.items@, key@)].1@
            } else {
                Seq::empty()
            },
    {
        let i = self.position(key);
        if i < self.items.len() {
            self.items[i].1.as_slice()
        } else {
            let none: &[LazyFrame] = &[];
            assert(none@ =~= Seq::<LazyFrame>::empty());
            none
        }
    }

    /// The first record of a key.
    pub fn get(&self, key: &str) -> (result: Option<&LazyFrame>)
        ensures
            result == if entry_of(self.items@, key@) < self.items@.len() && self.items@[entry_of(
                self.items@,
                key@,
            )].1@.len() > 0 {
                Some(&self.items@[entry_of(self.items@, key@)].1@[0])
            } else {
                None
            },
    {
        let i = self.position(key);
        if i < self.items.len() && self.items[i].1.len() > 0 {
            Some(&self.items[i].1[0])
        } else {
            None
        }
    }

    /// Takes in a frame read from a tag. The first frame of a key wins: a
    /// frame whose key the tag has already is dropped. Tells whether the
    /// frame was taken in.
    pub fn add(&mut self, frame: Frame) -> (result: bool)
        ensures
            result == (entry_of(old(self).items@, frame.key()) >= old(self).items@.len()),
            !result ==> final(self).items@ == old(self).items@,
            result ==> final(self).items@.len() == old(self).items@.len() + 1
                && final(self).items@.drop_last() == old(self).items@
                && final(self).items@.last().0@ == frame.key()
                && final(self).items@.last().1@ == seq![LazyFrame::Decoded(frame)],
            old(self).wf() ==> final(self).wf(),
    {
        let key = frame.hash_key();
        let i = self.position(key.as_str());
        proof {
            lemma_entry_of(self.items@, key@);
        }
        if i < self.items.len() {
            false
        } else {
            let ghost before = self.items@;
            let mut records: Vec<LazyFrame> = Vec::new();
            records.push(LazyFrame::Decoded(frame));
            self.items.push((key, records));
            assert(self.items@.drop_last() =~= before);
            true
        }
    }

    /// Sets the record of a key: in the place of the records that the key
    /// has, or as a new last entry.
    pub fn set(&mut self, key: &str, record: LazyFrame)
        ensures
            final(self).items@.len() == if entry_of(old(self).items@, key@) < old(self).items@.len() {
                old(self).items@.len()
            } else {
                old(self).items@.len() + 1
            },
            forall|i: int|
                0 <= i < old(self).items@.len() && i != entry_of(old(self).items@, key@)
                    ==> #[trigger] final(self).items@[i] == old(self).items@[i],
            final(self).items@[entry_of(old(self).items@, key@)].0@ == key@,
            final(self).items@[entry_of(old(self).items@, key@)].1@ == seq![record],
            old(self).wf() ==> final(self).wf(),
    {
        let i = self.position(key);
        proof {
            lemma_entry_of(self.items@, key@);
        }
        let mut records: Vec<LazyFrame> = Vec::new();
        records.push(record);
        if i < self.items.len() {
            let k = self.items[i].0.clone();
            self.items.set(i, (k, records));
        } else {
            self.items.push((key.to_owned(), records));
        }
    }

    /// Removes the entry of a key, if the tag has one. Tells whether it had.
    pub fn delete(&mut self, key: &str) -> (result: bool)
        ensures
            result == (entry_of(old(self).items@, key@) < old(self).items@.len()),
            result ==> final(self).items@ == old(self).items@.remove(
                entry_of(old(self).items@, key@),
            ),
            !result ==> final(self).items@ == old(self).items@,
            old(self).wf() ==> final(self).wf() && entry_of(final(self).items@, key@) == final(self).items@.len(),
    {
        let i = self.position(key);
        proof {
            lemma_entry_of(self.items@, key@);
        }
        if i < self.items.len() {
            let ghost before = self.items@;
            self.items.remove(i);
            proof {
                if unique_keys(before) {
                    assert forall|a: int| 0 <= a < self.items@.len() implies (
                    #[trigger] self.items@[a]).0@ != key@ by {
                        if a < i {
                            assert(self.items@[a] == before[a]);
                        } else {
                            assert(self.items@[a] == before[a + 1]);
                        }
                    }
                    lemma_entry_of_is(self.items@, key@, self.items@.len() as int);
                }
            }
            true
        } else {
            false
        }
    }
}

} // verus!
