//! The item store: the directory that pairs each candidate name with an
//! optional image payload and an optional caption sidecar.
//!
//! The navigator reads and writes the store only through [`Store::read`] and
//! [`Store::write`], whose contracts match the storage layer it is meant to
//! run against: a missing image file reads as an empty payload, a missing
//! sidecar as an empty caption, and a caption write replaces the sidecar
//! wholesale.  The process around the library mirrors a real directory into a
//! `Store` and carries writes back out.

use vstd::prelude::*;

use crate::item::{decode_of, loaded_item, ItemView};

verus! {

/// Model of one candidate's files: the image payload and the caption sidecar,
/// either of which may be absent.
pub struct EntryView {
    /// The candidate's base name.
    pub name: Seq<char>,
    /// The raw image payload, if an image file exists.
    pub image: Option<Seq<u8>>,
    /// The caption text, if a sidecar file exists.
    pub caption: Option<Seq<char>>,
}

/// Model of the item store.
pub struct StoreView {
    /// The entries, one per name.
    pub entries: Seq<EntryView>,
}

impl StoreView {
    /// The first entry named `name` at index `i` or later.
    pub open spec fn find_from(self, name: Seq<char>, i: int) -> Option<EntryView>
        decreases self.entries.len() - i,
    {
        if i < 0 || i >= self.entries.len() {
            None
        } else if self.entries[i].name == name {
            Some(self.entries[i])
        } else {
            self.find_from(name, i + 1)
        }
    }

    /// The entry named `name`, if any.
    pub open spec fn find(self, name: Seq<char>) -> Option<EntryView> {
        self.find_from(name, 0)
    }

    /// Whether any entry is named `name`.
    pub open spec fn contains_name(self, name: Seq<char>) -> bool {
        self.find(name) is Some
    }

    /// The image payload stored under `name`; a missing entry or missing
    /// image file reads as an empty payload.
    pub open spec fn image_of(self, name: Seq<char>) -> Seq<u8> {
        match self.find(name) {
            Some(e) => match e.image {
                Some(b) => b,
                None => Seq::<u8>::empty(),
            },
            None => Seq::<u8>::empty(),
        }
    }

    /// The caption stored under `name`; a missing entry or missing sidecar
    /// reads as an empty caption.
    pub open spec fn caption_of(self, name: Seq<char>) -> Seq<char> {
        match self.find(name) {
            Some(e) => match e.caption {
                Some(c) => c,
                None => Seq::<char>::empty(),
            },
            None => Seq::<char>::empty(),
        }
    }

    /// Entry names are unique, as file names in one directory are.
    pub open spec fn wf(self) -> bool {
        forall|i: int, j: int|
            #![trigger self.entries[i].name, self.entries[j].name]
            0 <= i < j < self.entries.len() ==> self.entries[i].name != self.entries[j].name
    }
}

/// A candidate is loadable exactly when its stored payload decodes.
pub open spec fn loadable(store: StoreView, name: Seq<char>) -> bool {
    decode_of(store.image_of(name)) is Some
}

/// The item that loading candidate `name` from `store` yields.
/// Meaningful only when the candidate is loadable.
pub open spec fn item_of(store: StoreView, name: Seq<char>) -> ItemView {
    loaded_item(name, store.caption_of(name), store.image_of(name))
}

/// How a store looks after a caption write: the sidecar under `name` holds
/// `caption` wholesale, and nothing else — in particular no image payload —
/// has changed.
pub open spec fn wrote(pre: StoreView, post: StoreView, name: Seq<char>, caption: Seq<char>) -> bool {
    &&& post.wf()
    &&& post.contains_name(name)
    &&& post.caption_of(name) == caption
    &&& forall|n: Seq<char>| n != name ==> #[trigger] post.caption_of(n) == pre.caption_of(n)
    &&& forall|n: Seq<char>| #[trigger] post.image_of(n) == pre.image_of(n)
    &&& forall|n: Seq<char>| n != name ==> (#[trigger] post.contains_name(n) == pre.contains_name(n))
}

/// One candidate's files as held in memory.
pub struct StoreEntry {
    name: String,
    image: Option<Vec<u8>>,
    caption: Option<String>,
}

impl View for StoreEntry {
    type V = EntryView;

    closed spec fn view(&self) -> EntryView {
        EntryView {
            name: self.name@,
            image: match self.image {
                Some(b) => Some(b@),
                None => None,
            },
            caption: match self.caption {
                Some(c) => Some(c@),
                None => None,
            },
        }
    }
}

/// The in-memory item store the navigator runs against.
pub struct Store {
    entries: Vec<StoreEntry>,
}

impl View for Store {
    type V = StoreView;

    closed spec fn view(&self) -> StoreView {
        StoreView { entries: self.entries@.map_values(|e: StoreEntry| e@) }
    }
}

/// If no entry at `j` or later is named `name`, every such entry's name
/// differs from `name`.
proof fn lemma_not_found(s: StoreView, name: Seq<char>, j: int)
    requires
        0 <= j,
        s.find_from(name, j) is None,
    ensures
        forall|k: int| j <= k < s.entries.len() ==> s.entries[k].name != name,
    decreases s.entries.len() - j,
{
    if j < s.entries.len() {
        lemma_not_found(s, name, j + 1);
    }
}

/// If every entry at `j` or later has a name other than `name`, no lookup of
/// `name` from `j` finds anything.
proof fn lemma_all_differ_not_found(s: StoreView, name: Seq<char>, j: int)
    requires
        0 <= j,
        forall|k: int| j <= k < s.entries.len() ==> s.entries[k].name != name,
    ensures
        s.find_from(name, j) is None,
    decreases s.entries.len() - j,
{
    if j < s.entries.len() {
        lemma_all_differ_not_found(s, name, j + 1);
    }
}

/// How `find_from` behaves on a store extended by one entry at the end.
proof fn lemma_find_push(s: StoreView, e: EntryView, name: Seq<char>, j: int)
    requires
        0 <= j <= s.entries.len(),
    ensures
        ({
            let s2 = StoreView { entries: s.entries.push(e) };
            s2.find_from(name, j) == match s.find_from(name, j) {
                Some(x) => Some(x),
                None => if e.name == name {
                    Some(e)
                } else {
                    None
                },
            }
        }),
    decreases s.entries.len() - j,
{
    let s2 = StoreView { entries: s.entries.push(e) };
    if j < s.entries.len() {
        assert(s2.entries[j] == s.entries[j]);
        lemma_find_push(s, e, name, j + 1);
    } else {
        assert(s2.entries[j] == e);
        assert(s.find_from(name, j) is None);
        assert(s2.find_from(name, j + 1) is None);
    }
}

/// Replacing the caption of the entry at `i` leaves every lookup under a
/// different name unchanged.
proof fn lemma_find_other_names(s: StoreView, s2: StoreView, i: int, n: Seq<char>, j: int)
    requires
        0 <= i < s.entries.len(),
        s2.entries.len() == s.entries.len(),
        forall|k: int| 0 <= k < s.entries.len() && k != i ==> s2.entries[k] == s.entries[k],
        s2.entries[i].name == s.entries[i].name,
        n != s.entries[i].name,
        0 <= j,
    ensures
        s2.find_from(n, j) == s.find_from(n, j),
    decreases s.entries.len() - j,
{
    if j < s.entries.len() {
        lemma_find_other_names(s, s2, i, n, j + 1);
    }
}

/// When the first entry named like the one at `i` is the one at `i` itself,
/// lookups of that name land on `i`, before and after its caption changes.
proof fn lemma_find_first_at(s: StoreView, s2: StoreView, i: int, j: int)
    requires
        0 <= i < s.entries.len(),
        s2.entries.len() == s.entries.len(),
        forall|k: int| 0 <= k < s.entries.len() && k != i ==> s2.entries[k] == s.entries[k],
        s2.entries[i].name == s.entries[i].name,
        0 <= j <= i,
        forall|k: int| j <= k < i ==> s.entries[k].name != s.entries[i].name,
    ensures
        s.find_from(s.entries[i].name, j) == Some(s.entries[i]),
        s2.find_from(s.entries[i].name, j) == Some(s2.entries[i]),
    decreases s.entries.len() - j,
{
    if j < i {
        lemma_find_first_at(s, s2, i, j + 1);
    }
}

impl Store {
    /// A store with no entries at all.
    pub fn new() -> (r: Store)
        ensures
            r@.wf(),
            r@.entries.len() == 0,
    {
        let r = Store { entries: Vec::new() };
        proof {
            assert(r@.entries =~= Seq::<EntryView>::empty());
        }
        r
    }

    /// Adds the files of a candidate not yet present: its image payload, if
    /// an image file exists, and its caption sidecar, if one exists.
    pub fn add_entry(&mut self, name: String, image: Option<Vec<u8>>, caption: Option<String>)
        requires
            old(self)@.wf(),
            !old(self)@.contains_name(name@),
        ensures
            final(self)@.wf(),
            final(self)@.contains_name(name@),
            final(self)@.image_of(name@) == (match image {
                Some(b) => b@,
                None => Seq::<u8>::empty(),
            }),
            final(self)@.caption_of(name@) == (match caption {
                Some(c) => c@,
                None => Seq::<char>::empty(),
            }),
            forall|n: Seq<char>| n != name@ ==> #[trigger] final(self)@.image_of(n) == old(self)@.image_of(n),
            forall|n: Seq<char>| n != name@ ==> #[trigger] final(self)@.caption_of(n) == old(self)@.caption_of(n),
            forall|n: Seq<char>| n != name@ ==> (#[trigger] final(self)@.contains_name(n) == old(self)@.contains_name(n)),
    {
        let ghost pre = self@;
        let entry = StoreEntry { name, image, caption };
        let ghost e = entry@;
        self.entries.push(entry);
        proof {
            assert(self@.entries =~= pre.entries.push(e));
            lemma_not_found(pre, e.name, 0);
            assert forall|n: Seq<char>| true implies #[trigger] self@.find(n) == (match pre.find(n) {
                Some(x) => Some(x),
                None => if e.name == n {
                    Some(e)
                } else {
                    None
                },
            }) by {
                lemma_find_push(pre, e, n, 0);
            }
            assert forall|i: int, j: int| 0 <= i < j < self@.entries.len() implies self@.entries[i].name
                != self@.entries[j].name by {
                if j == pre.entries.len() {
                    assert(self@.entries[i] == pre.entries[i]);
                }
            }
        }
    }

    /// Reads a candidate's files: the image payload, empty when no image file
    /// exists, and the caption, empty when no sidecar exists.
    pub fn read(&self, name: &String) -> (r: (Vec<u8>, String))
        ensures
            r.0@ == self@.image_of(name@),
            r.1@ == self@.caption_of(name@),
    {
        let n = self.entries.len();
        let mut i: usize = 0;
        while i < n
            invariant
                n == self.entries.len(),
                0 <= i <= n,
                self@.find(name@) == self@.find_from(name@, i as int),
            decreases n - i,
        {
            proof {
                assert(self@.entries[i as int] == self.entries@[i as int]@);
            }
            if self.entries[i].name == *name {
                let img = match &self.entries[i].image {
                    Some(b) => vstd::slice::slice_to_vec(b.as_slice()),
                    None => Vec::new(),
                };
                let cap = match &self.entries[i].caption {
                    Some(c) => c.clone(),
                    None => String::new(),
                };
                proof {
                    assert(self@.find(name@) == Some(self@.entries[i as int]));
                }
                return (img, cap);
            }
            i += 1;
        }
        (Vec::new(), String::new())
    }

    /// Writes `caption` as the sidecar of `name` wholesale, creating the
    /// sidecar when the candidate has none — even when no image file exists.
    pub fn write(&mut self, name: &String, caption: &String)
        requires
            old(self)@.wf(),
        ensures
            wrote(old(self)@, final(self)@, name@, caption@),
    {
        let ghost pre = self@;
        let n = self.entries.len();
        let mut i: usize = 0;
        while i < n
            invariant
                n == self.entries.len(),
                0 <= i <= n,
                self@ == pre,
                pre == old(self)@,
                pre.wf(),
                forall|k: int| 0 <= k < i ==> pre.entries[k].name != name@,
            decreases n - i,
        {
            proof {
                assert(pre.entries[i as int] == self.entries@[i as int]@);
            }
            if self.entries[i].name == *name {
                let mut e = self.entries.remove(i);
                e.caption = Some(caption.clone());
                let ghost e2 = e@;
                self.entries.insert(i, e);
                proof {
                    let post = self@;
                    assert(post.entries =~= pre.entries.update(i as int, e2));
                    lemma_find_first_at(pre, post, i as int, 0);
                    assert(post.caption_of(name@) == caption@);
                    assert(post.image_of(name@) == pre.image_of(name@));
                    assert forall|m: Seq<char>| m != name@ implies #[trigger] post.find(m) == pre.find(m) by {
                        lemma_find_other_names(pre, post, i as int, m, 0);
                    }
                    assert forall|m: Seq<char>| true implies #[trigger] post.image_of(m) == pre.image_of(m) by {
                        if m != name@ {
                            assert(post.find(m) == pre.find(m));
                        }
                    }
                    assert forall|a: int, b: int|
                        0 <= a < b < post.entries.len() implies post.entries[a].name
                        != post.entries[b].name by {
                        assert(post.entries[a].name == pre.entries[a].name);
                        assert(post.entries[b].name == pre.entries[b].name);
                        assert(pre.entries[a].name != pre.entries[b].name);
                    }
                }
                return;
            }
            i += 1;
        }
        proof {
            lemma_all_differ_not_found(pre, name@, 0);
        }
        let entry = StoreEntry { name: name.clone(), image: None, caption: Some(caption.clone()) };
        let ghost e = entry@;
        self.entries.push(entry);
        proof {
            let post = self@;
            assert(post.entries =~= pre.entries.push(e));
            assert forall|m: Seq<char>| true implies #[trigger] post.find(m) == (match pre.find(m) {
                Some(x) => Some(x),
                None => if e.name == m {
                    Some(e)
                } else {
                    None
                },
            }) by {
                lemma_find_push(pre, e, m, 0);
            }
            assert forall|a: int, b: int| 0 <= a < b < post.entries.len() implies post.entries[a].name
                != post.entries[b].name by {
                if b == pre.entries.len() {
                    assert(post.entries[a] == pre.entries[a]);
                }
            }
        }
    }
}

} // verus!
