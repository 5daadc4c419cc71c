//! The store editor. It shows, for each section, its header, its entries and
//! an "Add Entry" line, and ends with an "Add Section" line. Every line takes
//! two positions of a flat index: on an entry, the even one selects its key and
//! the odd one its value. Keys move the selection, delete, create and rename
//! sections and entries, and edit text in place.
use crate::app_data::AppData;
use crate::store::{entry_views, section_views, Entry, Section, SectionView};
use crate::text_input::TextInput;
use vstd::prelude::*;

verus! {

/// The line of the editor that a flat index selects.
#[derive(Debug, Clone, Copy, PartialEq, Eq, Structural)]
pub enum EditStoreSelection {
    Section(usize),
    EntryKey(usize, usize),
    EntryValue(usize, usize),
    AddEntry(usize),
    AddSection,
}

/// The editor's state: the flat index of the selection, whether a line is
/// being edited, whether that line was just created, and the edit field.
#[derive(Debug, Clone, PartialEq, Default)]
pub struct EditStoreState {
    pub flattened_index: usize,
    pub is_editing: bool,
    pub was_created: bool,
    pub input: TextInput,
}

/// The positions that a section takes: header, entries, "Add Entry".
pub open spec fn section_span(s: SectionView) -> nat {
    2 + 2 * s.1.len() + 2
}

/// The positions that the first `n` sections take.
pub open spec fn sections_span(secs: Seq<SectionView>, n: nat) -> nat
    decreases n,
{
    if n == 0 {
        0
    } else {
        sections_span(secs, (n - 1) as nat) + section_span(secs[n - 1])
    }
}

/// The number of positions of the editor, the final "Add Section" line included.
pub open spec fn flat_len(secs: Seq<SectionView>) -> nat {
    sections_span(secs, secs.len()) + 2
}

/// The line that flat index `idx` selects, looking from section `si` on,
/// where section `si` starts at position `base`.
pub open spec fn select_from(secs: Seq<SectionView>, si: nat, base: nat, idx: nat) -> EditStoreSelection
    decreases secs.len() - si,
{
    if si >= secs.len() {
        EditStoreSelection::AddSection
    } else {
        let n = secs[si as int].1.len();
        if idx < base + 2 {
            EditStoreSelection::Section(si as usize)
        } else if idx < base + 2 + 2 * n {
            let off = (idx - base - 2) as nat;
            if off % 2 == 0 {
                EditStoreSelection::EntryKey(si as usize, (off / 2) as usize)
            } else {
                EditStoreSelection::EntryValue(si as usize, (off / 2) as usize)
            }
        } else if idx < base + 2 + 2 * n + 2 {
            EditStoreSelection::AddEntry(si as usize)
        } else {
            select_from(secs, si + 1, base + section_span(secs[si as int]), idx)
        }
    }
}

impl EditStoreSelection {
    /// The text of the selected name, key or value; empty for the "Add" lines.
    pub fn get_text(&self, data: &AppData) -> (r: String)
        requires
            match *self {
                EditStoreSelection::Section(si) => si < data.sections@.len(),
                EditStoreSelection::EntryKey(si, ei) => si < data.sections@.len() && ei
                    < data.sections@[si as int].entries@.len(),
                EditStoreSelection::EntryValue(si, ei) => si < data.sections@.len() && ei
                    < data.sections@[si as int].entries@.len(),
                _ => true,
            },
        ensures
            r@ == match *self {
                EditStoreSelection::Section(si) => data.sections@[si as int].name@,
                EditStoreSelection::EntryKey(si, ei) => data.sections@[si as int].entries@[ei as int].key@,
                EditStoreSelection::EntryValue(si, ei) => data.sections@[si as int].entries@[ei as int].value@,
                _ => Seq::<char>::empty(),
            },
    {
        match self {
            EditStoreSelection::Section(si) => data.sections[*si].name.clone(),
            EditStoreSelection::EntryKey(si, ei) => data.sections[*si].entries[*ei].key.clone(),
            EditStoreSelection::EntryValue(si, ei) => data.sections[*si].entries[*ei].value.clone(),
            _ => String::new(),
        }
    }
}

impl EditStoreState {
    /// The number of positions of the editor.
    pub fn flattened_len(&self, data: &AppData) -> (r: usize)
        requires
            flat_len(section_views(data.sections@)) <= usize::MAX,
        ensures
            r == flat_len(section_views(data.sections@)),
    {
        let ghost secs = section_views(data.sections@);
        let mut total: usize = 0;
        let mut i: usize = 0;
        while i < data.sections.len()
            invariant
                i <= data.sections.len(),
                secs == section_views(data.sections@),
                flat_len(secs) <= usize::MAX,
                total == sections_span(secs, i as nat),
            decreases data.sections.len() - i,
        {
            proof {
                lemma_span_monotone(secs, (i + 1) as nat, secs.len());
                assert(secs[i as int].1.len() == data.sections@[i as int].entries@.len());
            }
            total = total + 2 + 2 * data.sections[i].entries.len() + 2;
            i = i + 1;
        }
        total + 2
    }

    /// The line that the flat index selects.
    pub fn get_selected_item(&self, data: &AppData) -> (r: EditStoreSelection)
        requires
            flat_len(section_views(data.sections@)) <= usize::MAX,
        ensures
            r == select_from(section_views(data.sections@), 0, 0, self.flattened_index as nat),
    {
        let ghost secs = section_views(data.sections@);
        let idx = self.flattened_index;
        let mut base: usize = 0;
        let mut si: usize = 0;
        while si < data.sections.len()
            invariant
                si <= data.sections.len(),
                secs == section_views(data.sections@),
                flat_len(secs) <= usize::MAX,
                base == sections_span(secs, si as nat),
                idx == self.flattened_index,
                select_from(secs, 0, 0, idx as nat) == select_from(secs, si as nat, base as nat, idx as nat),
            decreases data.sections.len() - si,
        {
            proof {
                lemma_span_monotone(secs, (si + 1) as nat, secs.len());
                assert(secs[si as int].1.len() == data.sections@[si as int].entries@.len());
            }
            let n = data.sections[si].entries.len();
            if idx < base + 2 {
                return EditStoreSelection::Section(si);
            } else if idx < base + 2 + 2 * n {
                let off = idx - base - 2;
                if off % 2 == 0 {
                    return EditStoreSelection::EntryKey(si, off / 2);
                } else {
                    return EditStoreSelection::EntryValue(si, off / 2);
                }
            } else if idx < base + 2 + 2 * n + 2 {
                return EditStoreSelection::AddEntry(si);
            }
            base = base + 2 + 2 * n + 2;
            si = si + 1;
        }
        EditStoreSelection::AddSection
    }
}

proof fn lemma_span_monotone(secs: Seq<SectionView>, a: nat, b: nat)
    requires
        a <= b <= secs.len(),
    ensures
        sections_span(secs, a) <= sections_span(secs, b),
    decreases b - a,
{
    if a < b {
        lemma_span_monotone(secs, a, (b - 1) as nat);
    }
}

/// The selection that `select_from` gives names a line that exists.
pub proof fn lemma_select_in_bounds(secs: Seq<SectionView>, si: nat, base: nat, idx: nat)
    requires
        si <= secs.len(),
        secs.len() <= usize::MAX,
        forall|k: int| 0 <= k < secs.len() ==> #[trigger] secs[k].1.len() <= usize::MAX,
    ensures
        match select_from(secs, si, base, idx) {
            EditStoreSelection::Section(s) => s < secs.len(),
            EditStoreSelection::EntryKey(s, e) => s < secs.len() && e < secs[s as int].1.len(),
            EditStoreSelection::EntryValue(s, e) => s < secs.len() && e < secs[s as int].1.len(),
            EditStoreSelection::AddEntry(s) => s < secs.len(),
            EditStoreSelection::AddSection => true,
        },
    decreases secs.len() - si,
{
    if si < secs.len() {
        let n = secs[si as int].1.len();
        if idx >= base + 2 && idx < base + 2 + 2 * n {
            let off = (idx - base - 2) as nat;
            assert(off / 2 < n);
        }
        lemma_select_in_bounds(secs, si + 1, base + section_span(secs[si as int]), idx);
    }
}

/// A key press in the editor.
#[derive(Debug, Clone, Copy, PartialEq, Eq, Structural)]
pub enum EditKey {
    Up,
    Down,
    Left,
    Right,
    Backspace,
    Enter,
    Esc,
    Char(char),
    Other,
}

/// The editor state as values: flat index, editing, just created, edit field.
pub type EditView = (int, bool, bool, (Seq<char>, int));

/// The values of an editor state.
pub open spec fn edit_view(s: EditStoreState) -> EditView {
    (s.flattened_index as int, s.is_editing, s.was_created, s.input@)
}

/// The index after deleting the selected line: two positions back, if it can.
pub open spec fn index_after_delete(idx: int) -> int {
    if idx >= 2 {
        idx - 2
    } else {
        idx
    }
}

/// The sections after the selected line is deleted: a section, an entry, or
/// (on a value) the value, or the entry where the value is already empty.
pub open spec fn sections_after_delete(secs: Seq<SectionView>, sel: EditStoreSelection) -> Seq<
    SectionView,
> {
    match sel {
        EditStoreSelection::Section(si) => secs.remove(si as int),
        EditStoreSelection::EntryKey(si, ei) => secs.update(
            si as int,
            (secs[si as int].0, secs[si as int].1.remove(ei as int)),
        ),
        EditStoreSelection::EntryValue(si, ei) => if secs[si as int].1[ei as int].1.len() == 0 {
            secs.update(si as int, (secs[si as int].0, secs[si as int].1.remove(ei as int)))
        } else {
            secs.update(
                si as int,
                (
                    secs[si as int].0,
                    secs[si as int].1.update(ei as int, (secs[si as int].1[ei as int].0, seq![])),
                ),
            )
        },
        _ => secs,
    }
}

/// Deleting the selected line removes it (rather than emptying a value).
pub open spec fn delete_removes(secs: Seq<SectionView>, sel: EditStoreSelection) -> bool {
    match sel {
        EditStoreSelection::Section(_) => true,
        EditStoreSelection::EntryKey(_, _) => true,
        EditStoreSelection::EntryValue(si, ei) => secs[si as int].1[ei as int].1.len() == 0,
        _ => false,
    }
}

/// Another section than `si` is named `name`.
pub open spec fn section_name_taken(secs: Seq<SectionView>, si: int, name: Seq<char>) -> bool {
    exists|j: int| 0 <= j < secs.len() && j != si && #[trigger] secs[j].0 == name
}

/// Another entry of section `si` than `ei` is keyed `name`.
pub open spec fn entry_key_taken(secs: Seq<SectionView>, si: int, ei: int, name: Seq<char>) -> bool {
    exists|j: int| 0 <= j < secs[si].1.len() && j != ei && #[trigger] secs[si].1[j].0 == name
}

/// Saving the edited text into the selected line would clash with another name.
pub open spec fn edit_clashes(secs: Seq<SectionView>, sel: EditStoreSelection, text: Seq<char>) -> bool {
    match sel {
        EditStoreSelection::Section(si) => section_name_taken(secs, si as int, text),
        EditStoreSelection::EntryKey(si, ei) => entry_key_taken(secs, si as int, ei as int, text),
        _ => false,
    }
}

/// The sections after the edited text is saved into the selected line.
pub open spec fn sections_after_save(secs: Seq<SectionView>, sel: EditStoreSelection, text: Seq<char>) -> Seq<SectionView> {
    match sel {
        EditStoreSelection::Section(si) => secs.update(si as int, (text, secs[si as int].1)),
        EditStoreSelection::EntryKey(si, ei) => secs.update(
            si as int,
            (secs[si as int].0, secs[si as int].1.update(ei as int, (text, secs[si as int].1[ei as int].1))),
        ),
        EditStoreSelection::EntryValue(si, ei) => secs.update(
            si as int,
            (secs[si as int].0, secs[si as int].1.update(ei as int, (secs[si as int].1[ei as int].0, text))),
        ),
        _ => secs,
    }
}

/// The sections after a key press.
pub open spec fn next_sections(secs: Seq<SectionView>, st: EditView, key: EditKey) -> Seq<SectionView> {
    let sel = select_from(secs, 0, 0, st.0 as nat);
    if !st.1 {
        match key {
            EditKey::Backspace => sections_after_delete(secs, sel),
            EditKey::Enter => match sel {
                EditStoreSelection::AddSection => secs.push((seq![], seq![])),
                EditStoreSelection::AddEntry(si) => secs.update(
                    si as int,
                    (secs[si as int].0, secs[si as int].1.push((seq![], seq![]))),
                ),
                _ => secs,
            },
            _ => secs,
        }
    } else {
        match key {
            EditKey::Enter => if edit_clashes(secs, sel, st.3.0) {
                secs
            } else {
                sections_after_save(secs, sel, st.3.0)
            },
            EditKey::Esc => if st.2 {
                sections_after_delete(secs, sel)
            } else {
                secs
            },
            _ => secs,
        }
    }
}

/// The editor state after a key press; `None` where the editor is left.
pub open spec fn next_view(secs: Seq<SectionView>, st: EditView, key: EditKey) -> Option<EditView> {
    let sel = select_from(secs, 0, 0, st.0 as nat);
    let idx = st.0;
    let max = flat_len(secs) as int;
    if !st.1 {
        match key {
            EditKey::Esc => None,
            EditKey::Up => Some((if idx <= 1 { max - 2 + idx } else { idx - 2 }, st.1, st.2, st.3)),
            EditKey::Down => Some(((idx + 2) % max, st.1, st.2, st.3)),
            EditKey::Left => Some((if idx % 2 == 1 { idx - 1 } else { idx }, st.1, st.2, st.3)),
            EditKey::Right => Some((if idx % 2 == 0 { idx + 1 } else { idx }, st.1, st.2, st.3)),
            EditKey::Backspace => Some((
                if delete_removes(secs, sel) { index_after_delete(idx) } else { idx },
                st.1,
                st.2,
                st.3,
            )),
            EditKey::Enter => match sel {
                EditStoreSelection::AddSection => Some((
                    max + 4 - 6 + idx % 2,
                    true,
                    true,
                    (seq![], 0),
                )),
                EditStoreSelection::AddEntry(_) => Some((idx - idx % 2, true, true, (seq![], 0))),
                EditStoreSelection::Section(si) => Some((idx, true, false, (secs[si as int].0, secs[si as int].0.len() as int))),
                EditStoreSelection::EntryKey(si, ei) => Some((idx, true, false, (secs[si as int].1[ei as int].0, secs[si as int].1[ei as int].0.len() as int))),
                EditStoreSelection::EntryValue(si, ei) => Some((idx, true, false, (secs[si as int].1[ei as int].1, secs[si as int].1[ei as int].1.len() as int))),
            },
            _ => Some(st),
        }
    } else {
        let t = st.3.0;
        let c = st.3.1;
        match key {
            EditKey::Char(ch) => Some((idx, st.1, st.2, (t.take(c) + seq![ch] + t.skip(c), c + 1))),
            EditKey::Left => Some((idx, st.1, st.2, (t, if c > 0 { c - 1 } else { c }))),
            EditKey::Right => Some((idx, st.1, st.2, (t, if c < t.len() { c + 1 } else { c }))),
            EditKey::Backspace => Some((idx, st.1, st.2, if c > 0 { (t.remove(c - 1), c - 1) } else { st.3 })),
            EditKey::Enter => if edit_clashes(secs, sel, t) {
                Some(st)
            } else {
                Some((idx, false, st.2, st.3))
            },
            EditKey::Esc => if st.2 {
                Some((if delete_removes(secs, sel) { index_after_delete(idx) } else { idx }, false, st.2, st.3))
            } else {
                Some((idx, false, st.2, st.3))
            },
            _ => Some(st),
        }
    }
}

/// Every name, key and value is shorter than `usize::MAX` characters, as any
/// string in memory is.
pub open spec fn texts_fit(secs: Seq<SectionView>) -> bool {
    forall|i: int|
        0 <= i < secs.len() ==> #[trigger] secs[i].0.len() < usize::MAX && forall|j: int|
            0 <= j < secs[i].1.len() ==> #[trigger] secs[i].1[j].0.len() < usize::MAX
                && secs[i].1[j].1.len() < usize::MAX
}

/// `a`, then `b`, then `c`.
fn message3(a: &str, b: &String, c: &str) -> (r: String)
    ensures
        r@ == a@ + b@ + c@,
{
    let mut s = a.to_owned();
    s.append(b.as_str());
    s.append(c);
    s
}

/// The per-section entry counts of `secs` fit in `usize`.
pub open spec fn lengths_fit(secs: Seq<SectionView>) -> bool {
    secs.len() <= usize::MAX && forall|k: int| 0 <= k < secs.len() ==> #[trigger] secs[k].1.len() <= usize::MAX
}

proof fn lemma_lengths_fit(sections: Seq<Section>)
    requires
        sections.len() <= usize::MAX,
        forall|k: int| 0 <= k < sections.len() ==> #[trigger] sections[k].entries@.len() <= usize::MAX,
    ensures
        lengths_fit(section_views(sections)),
{
    let secs = section_views(sections);
    assert forall|k: int| 0 <= k < secs.len() implies #[trigger] secs[k].1.len() <= usize::MAX by {
        assert(secs[k].1.len() == sections[k].entries@.len());
    }
}

/// Delete the selected line, or empty the selected value; tell whether a line went.
fn delete_line(data: &mut AppData, sel: EditStoreSelection) -> (removed: bool)
    requires
        match sel {
            EditStoreSelection::Section(si) => si < old(data).sections@.len(),
            EditStoreSelection::EntryKey(si, ei) => si < old(data).sections@.len() && ei < old(data).sections@[si as int].entries@.len(),
            EditStoreSelection::EntryValue(si, ei) => si < old(data).sections@.len() && ei < old(data).sections@[si as int].entries@.len(),
            _ => true,
        },
    ensures
        section_views(final(data).sections@) == sections_after_delete(section_views(old(data).sections@), sel),
        removed == delete_removes(section_views(old(data).sections@), sel),
        final(data).store_key == old(data).store_key,
        final(data).store_path == old(data).store_path,
{
    let ghost secs = section_views(data.sections@);
    match sel {
        EditStoreSelection::Section(si) => {
            data.message = Some(message3("Deleted section '", &data.sections[si].name, "'."));
            data.sections.remove(si);
            proof {
                assert(section_views(data.sections@) =~= secs.remove(si as int));
            }
            true
        },
        EditStoreSelection::EntryKey(si, ei) => {
            data.message = Some(message3("Deleted entry '", &data.sections[si].entries[ei].key, "'."));
            let mut sec = data.sections.remove(si);
            let ghost es = entry_views(sec.entries@);
            sec.entries.remove(ei);
            proof {
                assert(entry_views(sec.entries@) =~= es.remove(ei as int));
            }
            data.sections.insert(si, sec);
            proof {
                assert(section_views(data.sections@) =~= sections_after_delete(secs, sel));
            }
            true
        },
        EditStoreSelection::EntryValue(si, ei) => {
            let mut sec = data.sections.remove(si);
            let ghost es = entry_views(sec.entries@);
            assert(es[ei as int] == sec.entries@[ei as int]@);
            if sec.entries[ei].value.as_str().is_empty() {
                data.message = Some(message3("Deleted entry '", &sec.entries[ei].key, "'."));
                sec.entries.remove(ei);
                proof {
                    assert(entry_views(sec.entries@) =~= es.remove(ei as int));
                }
                data.sections.insert(si, sec);
                proof {
                    assert(section_views(data.sections@) =~= sections_after_delete(secs, sel));
                }
                true
            } else {
                data.message = Some(message3("Emptied entry '", &sec.entries[ei].key, "'."));
                let mut e = sec.entries.remove(ei);
                e.value = String::new();
                sec.entries.insert(ei, e);
                proof {
                    assert(entry_views(sec.entries@) =~= es.update(ei as int, (es[ei as int].0, seq![])));
                }
                data.sections.insert(si, sec);
                proof {
                    assert(section_views(data.sections@) =~= sections_after_delete(secs, sel));
                }
                false
            }
        },
        _ => false,
    }
}

/// Whether another section than `si` is named `name`.
fn section_taken(sections: &Vec<Section>, si: usize, name: &String) -> (r: bool)
    ensures
        r == section_name_taken(section_views(sections@), si as int, name@),
{
    let ghost secs = section_views(sections@);
    let mut j: usize = 0;
    while j < sections.len()
        invariant
            j <= sections.len(),
            secs == section_views(sections@),
            forall|k: int| 0 <= k < j && k != si ==> #[trigger] secs[k].0 != name@,
        decreases sections.len() - j,
    {
        if j != si && sections[j].name == *name {
            assert(secs[j as int].0 == name@);
            return true;
        }
        j = j + 1;
    }
    false
}

/// Whether another entry than `ei` is keyed `name`.
fn entry_taken(entries: &Vec<Entry>, ei: usize, name: &String) -> (r: bool)
    ensures
        r == (exists|j: int| 0 <= j < entries@.len() && j != ei && #[trigger] entry_views(entries@)[j].0 == name@),
{
    let ghost es = entry_views(entries@);
    let mut j: usize = 0;
    while j < entries.len()
        invariant
            j <= entries.len(),
            es == entry_views(entries@),
            forall|k: int| 0 <= k < j && k != ei ==> #[trigger] es[k].0 != name@,
        decreases entries.len() - j,
    {
        if j != ei && entries[j].key == *name {
            assert(es[j as int].0 == name@);
            return true;
        }
        j = j + 1;
    }
    false
}

impl EditStoreState {
    fn with_view(&self, idx: usize, editing: bool, created: bool) -> (r: Self)
        ensures
            edit_view(r) == (idx as int, editing, created, self.input@),
            r.input.wf() == self.input.wf(),
    {
        Self { flattened_index: idx, is_editing: editing, was_created: created, input: self.input.copy() }
    }

    /// The editor after a key press, with the sections changed as the key
    /// asks; `None` where the key leaves the editor.
    pub fn handle_key(&self, data: &mut AppData, key: EditKey) -> (r: Option<EditStoreState>)
        requires
            self.input.wf(),
            self.input@.0.len() < usize::MAX,
            self.flattened_index + 2 <= usize::MAX,
            flat_len(section_views(old(data).sections@)) + 4 <= usize::MAX,
            texts_fit(section_views(old(data).sections@)),
        ensures
            section_views(final(data).sections@) == next_sections(section_views(old(data).sections@), edit_view(*self), key),
            match r {
                None => next_view(section_views(old(data).sections@), edit_view(*self), key) is None,
                Some(s) => next_view(section_views(old(data).sections@), edit_view(*self), key) == Some(edit_view(s)) && s.input.wf(),
            },
            final(data).store_key == old(data).store_key,
            final(data).store_path == old(data).store_path,
    {
        let ghost secs = section_views(data.sections@);
        let ghost st = edit_view(*self);
        let idx = self.flattened_index;
        let max_index = self.flattened_len(data);
        let selected = self.get_selected_item(data);
        proof {
            assert forall|k: int| 0 <= k < data.sections@.len() implies #[trigger] data.sections@[k].entries@.len() <= usize::MAX by {
                assert(data.sections@[k].entries@.len() == data.sections@[k].entries.len());
            }
            assert(data.sections@.len() == data.sections.len());
            lemma_lengths_fit(data.sections@);
            lemma_select_in_bounds(secs, 0, 0, idx as nat);
            assert(max_index >= 2);
            match selected {
                EditStoreSelection::EntryKey(si, ei) => {
                    assert(secs[si as int].1.len() == data.sections@[si as int].entries@.len());
                },
                EditStoreSelection::EntryValue(si, ei) => {
                    assert(secs[si as int].1.len() == data.sections@[si as int].entries@.len());
                },
                _ => {},
            }
        }
        if !self.is_editing {
            match key {
                EditKey::Esc => None,
                EditKey::Up => {
                    let i = if idx <= 1 { max_index - 2 + idx } else { idx - 2 };
                    Some(self.with_view(i, false, self.was_created))
                },
                EditKey::Down => Some(self.with_view((idx + 2) % max_index, false, self.was_created)),
                EditKey::Left => {
                    let i = if idx % 2 == 1 { idx - 1 } else { idx };
                    Some(self.with_view(i, false, self.was_created))
                },
                EditKey::Right => {
                    let i = if idx % 2 == 0 { idx + 1 } else { idx };
                    Some(self.with_view(i, false, self.was_created))
                },
                EditKey::Backspace => {
                    let removed = delete_line(data, selected);
                    let i = if removed && idx >= 2 { idx - 2 } else { idx };
                    Some(self.with_view(i, false, self.was_created))
                },
                EditKey::Enter => {
                    match selected {
                        EditStoreSelection::AddSection => {
                            let empty: Vec<Entry> = Vec::new();
                            proof {
                                assert(entry_views(empty@) =~= seq![]);
                            }
                            data.sections.push(Section { name: String::new(), entries: empty });
                            proof {
                                assert(section_views(data.sections@) =~= secs.push((seq![], seq![])));
                            }
                            data.message = Some("Section created. Please type in its name".to_owned());
                            Some(Self { flattened_index: max_index - 2 + idx % 2, is_editing: true, was_created: true, input: TextInput::new(String::new()) })
                        },
                        EditStoreSelection::AddEntry(si) => {
                            let mut sec = data.sections.remove(si);
                            let ghost es = entry_views(sec.entries@);
                            sec.entries.push(Entry { key: String::new(), value: String::new() });
                            proof {
                                assert(entry_views(sec.entries@) =~= es.push((seq![], seq![])));
                            }
                            data.sections.insert(si, sec);
                            proof {
                                assert(section_views(data.sections@) =~= next_sections(secs, st, key));
                            }
                            data.message = Some("Entry created. Please type in its name".to_owned());
                            Some(Self { flattened_index: idx - idx % 2, is_editing: true, was_created: true, input: TextInput::new(String::new()) })
                        },
                        EditStoreSelection::Section(si) => {
                            data.message = Some(message3("Renaming section '", &data.sections[si].name, "'."));
                            let text = selected.get_text(data);
                            proof {
                                assert(secs[si as int].0 == data.sections@[si as int].name@);
                            }
                            Some(Self { flattened_index: idx, is_editing: true, was_created: false, input: TextInput::new(text) })
                        },
                        EditStoreSelection::EntryKey(si, ei) => {
                            data.message = Some(message3("Renaming entry '", &data.sections[si].entries[ei].key, "'."));
                            let text = selected.get_text(data);
                            proof {
                                assert(secs[si as int].1 == entry_views(data.sections@[si as int].entries@));
                                assert(secs[si as int].1[ei as int] == data.sections@[si as int].entries@[ei as int]@);
                                assert(secs[si as int].0.len() < usize::MAX);
                                assert(secs[si as int].1[ei as int].0.len() < usize::MAX);
                            }
                            Some(Self { flattened_index: idx, is_editing: true, was_created: false, input: TextInput::new(text) })
                        },
                        EditStoreSelection::EntryValue(si, ei) => {
                            data.message = Some(message3("Editing entry '", &data.sections[si].entries[ei].key, "'."));
                            let text = selected.get_text(data);
                            proof {
                                assert(secs[si as int].1 == entry_views(data.sections@[si as int].entries@));
                                assert(secs[si as int].1[ei as int] == data.sections@[si as int].entries@[ei as int]@);
                                assert(secs[si as int].0.len() < usize::MAX);
                                assert(secs[si as int].1[ei as int].0.len() < usize::MAX);
                            }
                            Some(Self { flattened_index: idx, is_editing: true, was_created: false, input: TextInput::new(text) })
                        },
                    }
                },
                _ => Some(self.with_view(idx, false, self.was_created)),
            }
        } else {
            match key {
                EditKey::Char(c) => Some(Self { flattened_index: idx, is_editing: true, was_created: self.was_created, input: self.input.with_insert_char(c) }),
                EditKey::Left => Some(Self { flattened_index: idx, is_editing: true, was_created: self.was_created, input: self.input.with_move_left() }),
                EditKey::Right => Some(Self { flattened_index: idx, is_editing: true, was_created: self.was_created, input: self.input.with_move_right() }),
                EditKey::Backspace => Some(Self { flattened_index: idx, is_editing: true, was_created: self.was_created, input: self.input.with_delete_char() }),
                EditKey::Enter => {
                    let text = self.input.get_text();
                    match selected {
                        EditStoreSelection::Section(si) => {
                            if section_taken(&data.sections, si, text) {
                                data.error = Some(message3("Section with name '", text, "' already exists."));
                                return Some(self.with_view(idx, true, self.was_created));
                            }
                            let mut sec = data.sections.remove(si);
                            sec.name = text.clone();
                            data.sections.insert(si, sec);
                            proof {
                                assert(section_views(data.sections@) =~= sections_after_save(secs, selected, text@));
                            }
                            data.message = Some(message3("Section '", text, "' successfully renamed."));
                        },
                        EditStoreSelection::EntryKey(si, ei) => {
                            if entry_taken(&data.sections[si].entries, ei, text) {
                                proof {
                                    assert(entry_views(data.sections@[si as int].entries@) == secs[si as int].1);
                                }
                                data.error = Some(message3("Entry with name '", text, "' already exists."));
                                return Some(self.with_view(idx, true, self.was_created));
                            }
                            proof {
                                assert(entry_views(data.sections@[si as int].entries@) == secs[si as int].1);
                            }
                            let mut sec = data.sections.remove(si);
                            let ghost es = entry_views(sec.entries@);
                            let mut e = sec.entries.remove(ei);
                            e.key = text.clone();
                            sec.entries.insert(ei, e);
                            proof {
                                assert(entry_views(sec.entries@) =~= es.update(ei as int, (text@, es[ei as int].1)));
                            }
                            data.sections.insert(si, sec);
                            proof {
                                assert(section_views(data.sections@) =~= sections_after_save(secs, selected, text@));
                            }
                            data.message = Some(message3("Entry '", text, "' successfully renamed."));
                        },
                        EditStoreSelection::EntryValue(si, ei) => {
                            let mut sec = data.sections.remove(si);
                            let ghost es = entry_views(sec.entries@);
                            let mut e = sec.entries.remove(ei);
                            e.value = text.clone();
                            data.message = Some(message3("Entry '", &e.key, "' successfully updated."));
                            sec.entries.insert(ei, e);
                            proof {
                                assert(entry_views(sec.entries@) =~= es.update(ei as int, (es[ei as int].0, text@)));
                            }
                            data.sections.insert(si, sec);
                            proof {
                                assert(section_views(data.sections@) =~= sections_after_save(secs, selected, text@));
                            }
                        },
                        _ => {},
                    }
                    Some(self.with_view(idx, false, self.was_created))
                },
                EditKey::Esc => {
                    if self.was_created {
                        let removed = delete_line(data, selected);
                        let i = if removed && idx >= 2 { idx - 2 } else { idx };
                        Some(self.with_view(i, false, true))
                    } else {
                        Some(self.with_view(idx, false, false))
                    }
                },
                _ => Some(self.with_view(idx, true, self.was_created)),
            }
        }
    }
}

} // verus!
