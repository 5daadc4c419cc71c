//! The secret store: sections, each an ordered list of key/value entries.
//! Section names are unique, and so are the keys within a section. Sections
//! and entries keep the order in which they were first added.
use crate::cipher::{decrypt_result, decrypt_string, encrypt_string, is_sealing, KEY_BYTES, MAX_PLAINTEXT};
use crate::error::BunkeysError;
use vstd::prelude::*;

verus! {

/// One key/value entry of a section.
#[derive(Debug, Default)]
pub struct Entry {
    pub key: String,
    pub value: String,
}

/// A named list of entries.
#[derive(Debug, Default)]
pub struct Section {
    pub name: String,
    pub entries: Vec<Entry>,
}

pub type EntryView = (Seq<char>, Seq<char>);

pub type SectionView = (Seq<char>, Seq<EntryView>);

impl View for Entry {
    type V = EntryView;

    open spec fn view(&self) -> EntryView {
        (self.key@, self.value@)
    }
}

impl View for Section {
    type V = SectionView;

    open spec fn view(&self) -> SectionView {
        (self.name@, entry_views(self.entries@))
    }
}

/// The values of a list of entries.
pub open spec fn entry_views(v: Seq<Entry>) -> Seq<EntryView> {
    v.map_values(|e: Entry| e@)
}

/// The values of a list of sections.
pub open spec fn section_views(v: Seq<Section>) -> Seq<SectionView> {
    v.map_values(|s: Section| s@)
}

/// `k` is the first component of some pair of `s`.
pub open spec fn has_key<V>(s: Seq<(Seq<char>, V)>, k: Seq<char>) -> bool {
    exists|i: int| 0 <= i < s.len() && #[trigger] s[i].0 == k
}

/// The position of the pair whose first component is `k`.
pub open spec fn key_index<V>(s: Seq<(Seq<char>, V)>, k: Seq<char>) -> int {
    choose|i: int| 0 <= i < s.len() && #[trigger] s[i].0 == k
}

/// No two pairs of `s` share their first component.
pub open spec fn unique_keys<V>(s: Seq<(Seq<char>, V)>) -> bool {
    forall|i: int, j: int| 0 <= i < s.len() && 0 <= j < s.len() && i != j ==> #[trigger] s[i].0 != #[trigger] s[j].0
}

/// Section names are unique, and keys are unique within each section.
pub open spec fn well_formed(st: Seq<SectionView>) -> bool {
    &&& unique_keys(st)
    &&& forall|i: int| 0 <= i < st.len() ==> unique_keys(#[trigger] st[i].1)
}

/// `entries` with `key` set to `value`: replaced in place, or appended.
pub open spec fn set_entry(entries: Seq<EntryView>, key: Seq<char>, value: Seq<char>) -> Seq<EntryView> {
    if has_key(entries, key) {
        entries.update(key_index(entries, key), (key, value))
    } else {
        entries.push((key, value))
    }
}

/// `entries` without the entry of `key`.
pub open spec fn remove_key(entries: Seq<EntryView>, key: Seq<char>) -> Seq<EntryView> {
    if has_key(entries, key) {
        entries.remove(key_index(entries, key))
    } else {
        entries
    }
}

/// The store with `key` of `section` set to `value`; a missing section is appended.
pub open spec fn store_set(st: Seq<SectionView>, section: Seq<char>, key: Seq<char>, value: Seq<char>) -> Seq<SectionView> {
    if has_key(st, section) {
        let i = key_index(st, section);
        st.update(i, (section, set_entry(st[i].1, key, value)))
    } else {
        st.push((section, seq![(key, value)]))
    }
}

/// The store with `section` empty: its entries cleared, or appended empty.
pub open spec fn store_add_section(st: Seq<SectionView>, section: Seq<char>) -> Seq<SectionView> {
    if has_key(st, section) {
        st.update(key_index(st, section), (section, seq![]))
    } else {
        st.push((section, seq![]))
    }
}

/// The store without `section`.
pub open spec fn store_remove_section(st: Seq<SectionView>, section: Seq<char>) -> Seq<SectionView> {
    if has_key(st, section) {
        st.remove(key_index(st, section))
    } else {
        st
    }
}

/// The store without `key` in `section`; a missing section is appended empty.
pub open spec fn store_remove_entry(st: Seq<SectionView>, section: Seq<char>, key: Seq<char>) -> Seq<SectionView> {
    if has_key(st, section) {
        let i = key_index(st, section);
        st.update(i, (section, remove_key(st[i].1, key)))
    } else {
        st.push((section, seq![]))
    }
}

/// The value of `key` in `section`, if both are there.
pub open spec fn store_get(st: Seq<SectionView>, section: Seq<char>, key: Seq<char>) -> Option<Seq<char>> {
    if has_key(st, section) {
        let es = st[key_index(st, section)].1;
        if has_key(es, key) {
            Some(es[key_index(es, key)].1)
        } else {
            None
        }
    } else {
        None
    }
}

/// The store that a list of sections describes: each section, in order,
/// replaces any earlier one of its name, and later keys overwrite earlier ones.
pub open spec fn store_from(secs: Seq<SectionView>) -> Seq<SectionView>
    decreases secs.len(),
{
    if secs.len() == 0 {
        seq![]
    } else {
        let s = secs.last();
        fill_section(store_add_section(store_from(secs.drop_last()), s.0), s.0, s.1, s.1.len())
    }
}

/// `st` with the first `n` entries of `entries` set in `section`.
pub open spec fn fill_section(st: Seq<SectionView>, section: Seq<char>, entries: Seq<EntryView>, n: nat) -> Seq<SectionView>
    decreases n,
{
    if n == 0 {
        st
    } else {
        let e = entries[n - 1];
        store_set(fill_section(st, section, entries, (n - 1) as nat), section, e.0, e.1)
    }
}

/// The secret store.
#[derive(Debug)]
pub struct Store {
    sections: Vec<Section>,
}

impl View for Store {
    type V = Seq<SectionView>;

    closed spec fn view(&self) -> Seq<SectionView> {
        section_views(self.sections@)
    }
}

fn copy_string(s: &String) -> (r: String)
    ensures
        r@ == s@,
{
    s.clone()
}

fn copy_entry(e: &Entry) -> (r: Entry)
    ensures
        r@ == e@,
{
    Entry { key: copy_string(&e.key), value: copy_string(&e.value) }
}

fn copy_section(s: &Section) -> (r: Section)
    ensures
        r@ == s@,
{
    let mut entries: Vec<Entry> = Vec::new();
    let mut i: usize = 0;
    while i < s.entries.len()
        invariant
            i <= s.entries.len(),
            entry_views(entries@) == entry_views(s.entries@).take(i as int),
        decreases s.entries.len() - i,
    {
        let e = copy_entry(&s.entries[i]);
        let ghost prev = entries@;
        entries.push(e);
        proof {
            assert(entry_views(entries@) =~= entry_views(prev).push(e@));
            assert(entry_views(entries@) =~= entry_views(s.entries@).take(i + 1));
        }
        i = i + 1;
    }
    proof {
        assert(entry_views(s.entries@).take(s.entries@.len() as int) =~= entry_views(s.entries@));
    }
    Section { name: copy_string(&s.name), entries }
}

/// The position of the section named `name`.
fn find_section(sections: &Vec<Section>, name: &String) -> (r: Option<usize>)
    requires
        unique_keys(section_views(sections@)),
    ensures
        r is Some <==> has_key(section_views(sections@), name@),
        r matches Some(i) ==> i == key_index(section_views(sections@), name@) && i < sections@.len(),
{
    let ghost st = section_views(sections@);
    let mut i: usize = 0;
    while i < sections.len()
        invariant
            i <= sections.len(),
            st == section_views(sections@),
            unique_keys(st),
            forall|k: int| 0 <= k < i ==> #[trigger] st[k].0 != name@,
        decreases sections.len() - i,
    {
        if sections[i].name == *name {
            proof {
                assert(st[i as int].0 == name@);
                let c = key_index(st, name@);
                assert(0 <= c < st.len() && st[c].0 == name@);
            }
            return Some(i);
        }
        i = i + 1;
    }
    None
}

/// The position of the entry keyed `key`.
fn find_entry(entries: &Vec<Entry>, key: &String) -> (r: Option<usize>)
    requires
        unique_keys(entry_views(entries@)),
    ensures
        r is Some <==> has_key(entry_views(entries@), key@),
        r matches Some(i) ==> i == key_index(entry_views(entries@), key@) && i < entries@.len(),
{
    let ghost es = entry_views(entries@);
    let mut i: usize = 0;
    while i < entries.len()
        invariant
            i <= entries.len(),
            es == entry_views(entries@),
            unique_keys(es),
            forall|k: int| 0 <= k < i ==> #[trigger] es[k].0 != key@,
        decreases entries.len() - i,
    {
        if entries[i].key == *key {
            proof {
                assert(es[i as int].0 == key@);
                let c = key_index(es, key@);
                assert(0 <= c < es.len() && es[c].0 == key@);
            }
            return Some(i);
        }
        i = i + 1;
    }
    None
}

/// The section names of a store, in order.
pub open spec fn names(st: Seq<SectionView>) -> Seq<Seq<char>> {
    st.map_values(|s: SectionView| s.0)
}

/// The keys of a list of entries, in order.
pub open spec fn keys(es: Seq<EntryView>) -> Seq<Seq<char>> {
    es.map_values(|e: EntryView| e.0)
}

/// The character sequences of a list of borrowed strings.
pub open spec fn ref_views(v: Seq<&String>) -> Seq<Seq<char>> {
    v.map_values(|s: &String| s@)
}

proof fn lemma_set_entry_unique(es: Seq<EntryView>, key: Seq<char>, value: Seq<char>)
    requires
        unique_keys(es),
    ensures
        unique_keys(set_entry(es, key, value)),
{
    if has_key(es, key) {
        let i = key_index(es, key);
        assert(0 <= i < es.len() && es[i].0 == key);
    }
}

proof fn lemma_remove_key_unique(es: Seq<EntryView>, key: Seq<char>)
    requires
        unique_keys(es),
    ensures
        unique_keys(remove_key(es, key)),
{
    if has_key(es, key) {
        let i = key_index(es, key);
        let r = es.remove(i);
        assert forall|a: int, b: int| 0 <= a < r.len() && 0 <= b < r.len() && a != b implies #[trigger] r[a].0 != #[trigger] r[b].0 by {
            let a1 = if a < i { a } else { a + 1 };
            let b1 = if b < i { b } else { b + 1 };
            assert(r[a] == es[a1] && r[b] == es[b1]);
        }
    }
}

impl Store {
    /// Section names are unique, and keys are unique within each section.
    pub closed spec fn wf(&self) -> bool {
        well_formed(self@)
    }

    /// An empty store.
    pub fn new() -> (r: Store)
        ensures
            r@ == Seq::<SectionView>::empty(),
            r.wf(),
    {
        let r = Store { sections: Vec::new() };
        assert(r@ =~= Seq::<SectionView>::empty());
        r
    }

    /// The section names, in order.
    pub fn list_sections(&self) -> (r: Vec<&String>)
        ensures
            ref_views(r@) == names(self@),
    {
        let mut r: Vec<&String> = Vec::new();
        let mut i: usize = 0;
        while i < self.sections.len()
            invariant
                i <= self.sections.len(),
                ref_views(r@) == names(self@).take(i as int),
            decreases self.sections.len() - i,
        {
            let ghost prev = r@;
            r.push(&self.sections[i].name);
            proof {
                assert(ref_views(r@) =~= ref_views(prev).push(self.sections@[i as int].name@));
                assert(names(self@)[i as int] == self.sections@[i as int].name@);
                assert(ref_views(r@) =~= names(self@).take(i + 1));
            }
            i = i + 1;
        }
        proof {
            assert(names(self@).take(self.sections.len() as int) =~= names(self@));
        }
        r
    }

    /// The entry keys of `section`, in order; none if there is no such section.
    pub fn list_entries(&self, section: &str) -> (r: Vec<&String>)
        requires
            self.wf(),
        ensures
            ref_views(r@) == (if has_key(self@, section@) {
                keys(self@[key_index(self@, section@)].1)
            } else {
                seq![]
            }),
    {
        let name = section.to_owned();
        let mut r: Vec<&String> = Vec::new();
        match find_section(&self.sections, &name) {
            Some(i) => {
                let entries = &self.sections[i].entries;
                let ghost ks = keys(self@[i as int].1);
                let mut j: usize = 0;
                while j < entries.len()
                    invariant
                        j <= entries.len(),
                        i < self.sections.len(),
                        entries == &self.sections@[i as int].entries,
                        ks == keys(self@[i as int].1),
                        ref_views(r@) == ks.take(j as int),
                    decreases entries.len() - j,
                {
                    let ghost prev = r@;
                    r.push(&entries[j].key);
                    proof {
                        assert(ref_views(r@) =~= ref_views(prev).push(entries@[j as int].key@));
                        assert(ks[j as int] == entries@[j as int].key@);
                        assert(ref_views(r@) =~= ks.take(j + 1));
                    }
                    j = j + 1;
                }
                proof {
                    assert(ks.take(entries.len() as int) =~= ks);
                }
            },
            None => {
                assert(ref_views(r@) =~= seq![]);
            },
        }
        r
    }

    /// The value of `key` in `section`.
    pub fn get(&self, section: &String, key: &String) -> (r: Option<&String>)
        requires
            self.wf(),
        ensures
            match r {
                Some(v) => store_get(self@, section@, key@) == Some(v@),
                None => store_get(self@, section@, key@) is None,
            },
    {
        match find_section(&self.sections, section) {
            Some(i) => {
                proof {
                    assert(unique_keys(self@[i as int].1));
                }
                match find_entry(&self.sections[i].entries, key) {
                    Some(j) => Some(&self.sections[i].entries[j].value),
                    None => None,
                }
            },
            None => None,
        }
    }

    /// Set `key` of `section` to `value`, creating the section or the entry at
    /// the end where it is missing.
    pub fn set(&mut self, section: &str, key: &str, value: String)
        requires
            old(self).wf(),
        ensures
            final(self).wf(),
            final(self)@ == store_set(old(self)@, section@, key@, value@),
    {
        let name = section.to_owned();
        let k = key.to_owned();
        match find_section(&self.sections, &name) {
            Some(i) => {
                let ghost st = self@;
                let mut sec = self.sections.remove(i);
                proof {
                    assert(unique_keys(st[i as int].1));
                    assert(sec@ == st[i as int]);
                }
                match find_entry(&sec.entries, &k) {
                    Some(j) => {
                        let ghost es = entry_views(sec.entries@);
                        let mut e = sec.entries.remove(j);
                        e.value = value;
                        sec.entries.insert(j, e);
                        proof {
                            assert(entry_views(sec.entries@) =~= es.update(j as int, (key@, value@)));
                        }
                    },
                    None => {
                        let ghost es = entry_views(sec.entries@);
                        sec.entries.push(Entry { key: k, value });
                        proof {
                            assert(entry_views(sec.entries@) =~= es.push((key@, value@)));
                        }
                    },
                }
                proof {
                    lemma_set_entry_unique(st[i as int].1, key@, value@);
                }
                self.sections.insert(i, sec);
                proof {
                    assert(self@ =~= store_set(st, section@, key@, value@));
                }
            },
            None => {
                let ghost st = self@;
                let mut entries: Vec<Entry> = Vec::new();
                entries.push(Entry { key: k, value });
                self.sections.push(Section { name, entries });
                proof {
                    assert(entry_views(entries@) =~= seq![(key@, value@)]);
                    assert(self@ =~= st.push((section@, seq![(key@, value@)])));
                    assert(unique_keys(seq![(key@, value@)]));
                }
            },
        }
    }

    /// Add an empty section named `section`; an existing one of that name is
    /// emptied.
    pub fn add_section(&mut self, section: String)
        requires
            old(self).wf(),
        ensures
            final(self).wf(),
            final(self)@ == store_add_section(old(self)@, section@),
    {
        let ghost st = self@;
        match find_section(&self.sections, &section) {
            Some(i) => {
                let empty: Vec<Entry> = Vec::new();
                proof {
                    assert(entry_views(empty@) =~= seq![]);
                }
                self.sections.remove(i);
                self.sections.insert(i, Section { name: section, entries: empty });
                proof {
                    assert(self@ =~= st.update(i as int, (section@, seq![])));
                }
            },
            None => {
                let empty: Vec<Entry> = Vec::new();
                proof {
                    assert(entry_views(empty@) =~= seq![]);
                }
                self.sections.push(Section { name: section, entries: empty });
                proof {
                    assert(self@ =~= st.push((section@, seq![])));
                }
            },
        }
        proof {
            assert(unique_keys(Seq::<EntryView>::empty()));
        }
    }

    /// Remove the section named `section`, if there is one.
    pub fn remove_section(&mut self, section: &str)
        requires
            old(self).wf(),
        ensures
            final(self).wf(),
            final(self)@ == store_remove_section(old(self)@, section@),
    {
        let ghost st = self@;
        let name = section.to_owned();
        match find_section(&self.sections, &name) {
            Some(i) => {
                self.sections.remove(i);
                proof {
                    assert(self@ =~= st.remove(i as int));
                    let r = self@;
                    assert forall|a: int, b: int| 0 <= a < r.len() && 0 <= b < r.len() && a != b implies #[trigger] r[a].0 != #[trigger] r[b].0 by {
                        let a1 = if a < i { a } else { a + 1 };
                        let b1 = if b < i { b } else { b + 1 };
                        assert(r[a] == st[a1] && r[b] == st[b1]);
                    }
                    assert forall|a: int| 0 <= a < r.len() implies unique_keys(#[trigger] r[a].1) by {
                        let a1 = if a < i { a } else { a + 1 };
                        assert(r[a] == st[a1]);
                    }
                }
            },
            None => {},
        }
    }

    /// Remove the entry `entry` of `section`; a missing section is created empty.
    pub fn remove_entry(&mut self, section: &str, entry: &str)
        requires
            old(self).wf(),
        ensures
            final(self).wf(),
            final(self)@ == store_remove_entry(old(self)@, section@, entry@),
    {
        let name = section.to_owned();
        let k = entry.to_owned();
        let ghost st = self@;
        match find_section(&self.sections, &name) {
            Some(i) => {
                let mut sec = self.sections.remove(i);
                proof {
                    assert(unique_keys(st[i as int].1));
                    assert(sec@ == st[i as int]);
                }
                match find_entry(&sec.entries, &k) {
                    Some(j) => {
                        let ghost es = entry_views(sec.entries@);
                        sec.entries.remove(j);
                        proof {
                            assert(entry_views(sec.entries@) =~= es.remove(j as int));
                        }
                    },
                    None => {},
                }
                proof {
                    lemma_remove_key_unique(st[i as int].1, entry@);
                }
                self.sections.insert(i, sec);
                proof {
                    assert(self@ =~= store_remove_entry(st, section@, entry@));
                }
            },
            None => {
                let empty: Vec<Entry> = Vec::new();
                proof {
                    assert(entry_views(empty@) =~= seq![]);
                }
                self.sections.push(Section { name, entries: empty });
                proof {
                    assert(self@ =~= st.push((section@, seq![])));
                    assert(unique_keys(Seq::<EntryView>::empty()));
                }
            },
        }
    }

    /// The sections of the store, in order, as a list.
    pub fn to_sections(&self) -> (r: Vec<Section>)
        ensures
            section_views(r@) == self@,
    {
        let mut r: Vec<Section> = Vec::new();
        let mut i: usize = 0;
        while i < self.sections.len()
            invariant
                i <= self.sections.len(),
                section_views(r@) == self@.take(i as int),
            decreases self.sections.len() - i,
        {
            let sec = copy_section(&self.sections[i]);
            let ghost prev = r@;
            r.push(sec);
            proof {
                assert(section_views(r@) =~= section_views(prev).push(sec@));
                assert(section_views(r@) =~= self@.take(i + 1));
            }
            i = i + 1;
        }
        proof {
            assert(self@.take(self.sections.len() as int) =~= self@);
        }
        r
    }

    /// The store that a list of sections describes; see `store_from`.
    pub fn from_sections(sections: &Vec<Section>) -> (r: Store)
        ensures
            r.wf(),
            r@ == store_from(section_views(sections@)),
    {
        let ghost secs = section_views(sections@);
        let mut store = Store::new();
        let mut i: usize = 0;
        while i < sections.len()
            invariant
                i <= sections.len(),
                secs == section_views(sections@),
                store.wf(),
                store@ == store_from(secs.take(i as int)),
            decreases sections.len() - i,
        {
            let sec = &sections[i];
            proof {
                assert(secs.take(i + 1).drop_last() =~= secs.take(i as int));
                assert(secs.take(i + 1).last() == sec@);
            }
            let ghost base = store_add_section(store@, sec.name@);
            store.add_section(copy_string(&sec.name));
            let mut j: usize = 0;
            while j < sec.entries.len()
                invariant
                    j <= sec.entries.len(),
                    store.wf(),
                    store@ == fill_section(base, sec.name@, entry_views(sec.entries@), j as nat),
                decreases sec.entries.len() - j,
            {
                let e = &sec.entries[j];
                store.set(sec.name.as_str(), e.key.as_str(), copy_string(&e.value));
                proof {
                    assert(entry_views(sec.entries@)[j as int] == e@);
                }
                j = j + 1;
            }
            i = i + 1;
        }
        proof {
            assert(secs.take(sections.len() as int) =~= secs);
        }
        store
    }
}

/// `blob` is what saving `payload` produces: the payload itself without a
/// key, or a sealing of it under the key.
pub open spec fn is_saved_payload(key: Option<Seq<u8>>, payload: Seq<u8>, blob: Seq<u8>) -> bool {
    match key {
        None => blob == payload,
        Some(k) => is_sealing(k, payload, blob),
    }
}

/// What loading `data` gives: the data itself without a key, or its decryption.
pub open spec fn open_result(key: Option<Seq<u8>>, data: Seq<u8>) -> Result<Seq<u8>, BunkeysError> {
    match key {
        None => Ok(data),
        Some(k) => decrypt_result(k, data),
    }
}

/// The bytes of an optional key.
pub open spec fn key_view(key: Option<Vec<u8>>) -> Option<Seq<u8>> {
    match key {
        None => None,
        Some(k) => Some(k@),
    }
}

impl Store {
    /// The bytes that saving writes for a serialized store: encrypted under
    /// `key` where there is one, as they are otherwise.
    pub fn seal_payload(key: Option<Vec<u8>>, payload: Vec<u8>) -> (r: Result<Vec<u8>, BunkeysError>)
        ensures
            r is Ok <==> match key {
                None => true,
                Some(k) => k@.len() == KEY_BYTES && payload@.len() <= MAX_PLAINTEXT,
            },
            r matches Ok(b) ==> is_saved_payload(key_view(key), payload@, b@),
            r matches Err(e) ==> (e == BunkeysError::InvalidKeyLength || e == BunkeysError::EncryptionFailed),
    {
        match key {
            None => Ok(payload),
            Some(k) => encrypt_string(k, payload),
        }
    }

    /// The serialized store that loaded bytes hold: decrypted under `key`
    /// where there is one, as they are otherwise.
    pub fn open_payload(key: Option<Vec<u8>>, data: Vec<u8>) -> (r: Result<Vec<u8>, BunkeysError>)
        ensures
            match r {
                Ok(p) => open_result(key_view(key), data@) == Ok::<Seq<u8>, BunkeysError>(p@),
                Err(e) => open_result(key_view(key), data@) == Err::<Seq<u8>, BunkeysError>(e),
            },
    {
        match key {
            None => Ok(data),
            Some(k) => decrypt_string(k, data),
        }
    }
}

/// Opening what saving produced, with the same key, gives back the payload.
pub proof fn lemma_open_saved_payload(key: Option<Seq<u8>>, payload: Seq<u8>, blob: Seq<u8>)
    requires
        key matches Some(k) ==> k.len() == KEY_BYTES,
        is_saved_payload(key, payload, blob),
    ensures
        open_result(key, blob) == Ok::<Seq<u8>, BunkeysError>(payload),
{
}

/// In a sequence with unique first components, the pair at `i` is the one
/// that `key_index` finds for its key.
proof fn lemma_key_index_unique<V>(s: Seq<(Seq<char>, V)>, i: int)
    requires
        unique_keys(s),
        0 <= i < s.len(),
    ensures
        has_key(s, s[i].0),
        key_index(s, s[i].0) == i,
{
    assert(s[i].0 == s[i].0);
    let j = key_index(s, s[i].0);
    assert(0 <= j < s.len() && s[j].0 == s[i].0);
}

/// Setting the entries of a new last section one by one, keys all distinct,
/// appends them in order.
proof fn lemma_fill_new_section(base: Seq<SectionView>, name: Seq<char>, es: Seq<EntryView>, k: nat)
    requires
        unique_keys(base.push((name, seq![]))),
        unique_keys(es),
        k <= es.len(),
    ensures
        fill_section(base.push((name, seq![])), name, es, k) == base.push((name, es.take(k as int))),
    decreases k,
{
    let i = base.len() as int;
    if k == 0 {
        assert(es.take(0) =~= Seq::<EntryView>::empty());
    } else {
        let k1 = (k - 1) as nat;
        lemma_fill_new_section(base, name, es, k1);
        let t = base.push((name, es.take(k1 as int)));
        assert forall|a: int, b: int| 0 <= a < t.len() && 0 <= b < t.len() && a != b implies #[trigger] t[a].0 != #[trigger] t[b].0 by {
            let u = base.push((name, seq![]));
            assert(t[a].0 == u[a].0 && t[b].0 == u[b].0);
        }
        lemma_key_index_unique(t, i);
        assert(t[i].0 == name);
        let e = es[k1 as int];
        let prev = es.take(k1 as int);
        assert(!has_key(prev, e.0)) by {
            if has_key(prev, e.0) {
                let j = key_index(prev, e.0);
                assert(0 <= j < prev.len() && prev[j].0 == e.0);
                assert(es[j].0 == es[k1 as int].0);
            }
        }
        assert(prev.push((e.0, e.1)) =~= es.take(k as int));
        assert(store_set(t, name, e.0, e.1) =~= base.push((name, es.take(k as int))));
    }
}

/// Rebuilding a well-formed store from its own sections gives it back.
pub proof fn lemma_store_from_own_sections(st: Seq<SectionView>)
    requires
        well_formed(st),
    ensures
        store_from(st) == st,
    decreases st.len(),
{
    if st.len() > 0 {
        let prev = st.drop_last();
        let last = st.last();
        let i = prev.len() as int;
        assert(well_formed(prev)) by {
            assert forall|a: int| 0 <= a < prev.len() implies unique_keys(#[trigger] prev[a].1) by {
                assert(prev[a] == st[a]);
            }
            assert forall|a: int, b: int| 0 <= a < prev.len() && 0 <= b < prev.len() && a != b implies #[trigger] prev[a].0 != #[trigger] prev[b].0 by {
                assert(prev[a] == st[a] && prev[b] == st[b]);
            }
        }
        lemma_store_from_own_sections(prev);
        assert(!has_key(prev, last.0)) by {
            if has_key(prev, last.0) {
                let j = key_index(prev, last.0);
                assert(0 <= j < prev.len() && prev[j].0 == last.0);
                assert(st[j].0 == st[i].0);
            }
        }
        let base = prev.push((last.0, seq![]));
        assert(unique_keys(base)) by {
            assert forall|a: int, b: int| 0 <= a < base.len() && 0 <= b < base.len() && a != b implies #[trigger] base[a].0 != #[trigger] base[b].0 by {
                assert(base[a].0 == st[a].0 && base[b].0 == st[b].0);
            }
        }
        assert(unique_keys(last.1)) by {
            assert(last == st[i]);
        }
        lemma_fill_new_section(prev, last.0, last.1, last.1.len());
        assert(last.1.take(last.1.len() as int) =~= last.1);
        assert(prev.push((last.0, last.1)) =~= st);
    }
}

} // verus!
