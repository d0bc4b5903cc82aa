//! The state of the dialogs and what their buttons do to the documents.
//! Drawing them is the host's part.

use crate::editor::{recorded, EditorTab, TabId, TabView};
use crate::host::{accepts, byte_len, find_tab, fits, position_of};
use crate::search::{find_next, is_next_match, line_offset, line_start, replace_all, replaced_all, stands_at};
use crate::text::{chars_of, replace_range, same_text, spliced};
use vstd::prelude::*;
use vstd::string::StringSliceAdditionalSpecFns;

verus! {

/// The find and replace dialog.
#[derive(Default)]
pub struct FindDialog {
    pub open: bool,
    pub query: String,
    pub replace_with: String,
    pub match_case: bool,
    pub replace_mode: bool,
}

/// A tab after every occurrence of `query` in its text gave way to
/// `with`. Where that changes nothing, or the query is empty, the tab
/// stays as it is and its history too.
pub open spec fn all_replaced(tab: TabView, query: Seq<char>, with: Seq<char>) -> TabView {
    let content = replaced_all(tab.content, query, with);
    if query.len() == 0 || content == tab.content {
        tab
    } else {
        TabView {
            content,
            is_dirty: true,
            undo: recorded(tab.undo, tab.content),
            redo: Seq::empty(),
            ..tab
        }
    }
}

/// Whether the bytes from `start` up to `end` of `content` are a
/// selection that reads `query` and that `with` can take the place of.
pub open spec fn selects(content: Seq<char>, start: usize, end: usize, query: Seq<char>, with: Seq<char>) -> bool {
    &&& query.len() > 0
    &&& start < byte_len(content)
    &&& fits(content, start, end, with)
    &&& vstd::utf8::encode_utf8(content).subrange(start as int, end as int)
        == vstd::utf8::encode_utf8(query)
}

/// The smaller and the larger of the two ends of a cursor range.
pub open spec fn ordered(range: (usize, usize)) -> (usize, usize) {
    if range.0 <= range.1 {
        range
    } else {
        (range.1, range.0)
    }
}

/// A tab after the selection `range`, if it reads `query`, gave way to
/// `with`, and the offset at which the cursor then stands.
pub open spec fn selection_replaced(tab: TabView, range: (usize, usize), query: Seq<char>, with: Seq<char>) -> (
    TabView,
    Option<usize>,
) {
    let (start, end) = ordered(range);
    if selects(tab.content, start, end, query, with) {
        (
            TabView {
                content: spliced(tab.content, start as int, end as int, with),
                is_dirty: true,
                undo: recorded(tab.undo, tab.content),
                redo: Seq::empty(),
                scroll_to_cursor: true,
                ..tab
            },
            Some((start + byte_len(with)) as usize),
        )
    } else {
        (tab, None)
    }
}

impl FindDialog {
    /// Replaces every occurrence of the query in the tab's text.
    pub fn perform_replace_all(&self, tab: &mut EditorTab)
        ensures
            final(tab)@ == all_replaced(old(tab)@, self.query@, self.replace_with@),
    {
        if self.query.as_str().unicode_len() > 0 {
            let new_content = replace_all(
                tab.content.as_str(),
                self.query.as_str(),
                self.replace_with.as_str(),
            );
            if !same_text(new_content.as_str(), tab.content.as_str()) {
                let previous = tab.content.clone();
                tab.push_undo(previous);
                tab.content = new_content;
                tab.is_dirty = true;
            }
        }
    }

    /// Replaces the selection `range` if it reads the query. Returns where
    /// the cursor stands afterwards, if the text changed. The search then
    /// goes on to the next match in either case.
    pub fn perform_replace(&self, tab: &mut EditorTab, range: (usize, usize)) -> (cursor: Option<usize>)
        ensures
            (final(tab)@, cursor) == selection_replaced(
                old(tab)@,
                range,
                self.query@,
                self.replace_with@,
            ),
    {
        let (start, end) = if range.0 <= range.1 {
            range
        } else {
            (range.1, range.0)
        };
        let query = self.query.as_str().as_bytes();
        let len = tab.content.as_str().as_bytes().len();
        if query.len() == 0 || start >= len || !accepts(
            tab.content.as_str(),
            start,
            end,
            self.replace_with.as_str(),
        ) {
            proof {
                lemma_empty_bytes(self.query@);
            }
            return None;
        }
        proof {
            lemma_empty_bytes(self.query@);
        }
        if end - start != query.len() || !stands_at(tab.content.as_str().as_bytes(), query, start) {
            return None;
        }
        let previous = tab.content.clone();
        tab.push_undo(previous);
        replace_range(&mut tab.content, start, end, self.replace_with.as_str());
        tab.is_dirty = true;
        tab.scroll_to_cursor = true;
        Some(start + self.replace_with.as_str().as_bytes().len())
    }

    /// Where the search goes next in `content` when the cursor stands
    /// at byte offset `cursor`: the match to select.
    pub fn perform_find_next(&self, content: &str, cursor: usize) -> (found: Option<(usize, usize)>)
        ensures
            is_next_match(
                content.spec_bytes(),
                vstd::utf8::encode_utf8(self.query@),
                cursor,
                found,
            ),
    {
        find_next(content, self.query.as_str(), cursor)
    }
}

/// A text is empty just where its UTF-8 form is.
pub proof fn lemma_empty_bytes(text: Seq<char>)
    ensures
        (vstd::utf8::encode_utf8(text).len() == 0) == (text.len() == 0),
{
    broadcast use vstd::utf8::encode_utf8_decode_utf8;

    if vstd::utf8::encode_utf8(text).len() == 0 {
        assert(vstd::utf8::encode_utf8(text) =~= Seq::<u8>::empty());
        assert(vstd::utf8::decode_utf8(Seq::<u8>::empty()) =~= Seq::<char>::empty());
    }
    if text.len() == 0 {
        assert(text =~= Seq::<char>::empty());
        assert(vstd::utf8::encode_utf8(Seq::<char>::empty()) =~= Seq::<u8>::empty());
    }
}

/// Whether a character is a decimal digit.
pub open spec fn is_digit(c: char) -> bool {
    '0' <= c <= '9'
}

/// The number that a run of decimal digits stands for.
pub open spec fn digits_value(digits: Seq<char>) -> int
    decreases digits.len(),
{
    if digits.len() == 0 {
        0
    } else {
        digits_value(digits.drop_last()) * 10 + (digits.last() as u32 - '0' as u32)
    }
}

/// A text without the plus sign that may stand at its head.
pub open spec fn without_sign(text: Seq<char>) -> Seq<char> {
    if text.len() > 0 && text[0] == '+' {
        text.skip(1)
    } else {
        text
    }
}

/// Whether a text holds decimal digits and nothing else.
pub open spec fn all_digits(digits: Seq<char>) -> bool {
    forall|i: int| 0 <= i < digits.len() ==> is_digit(#[trigger] digits[i])
}

/// The line number that a text stands for: decimal digits, at least
/// one, with at most a plus sign before them, and a value that a
/// machine word can hold. Anything else stands for no number.
pub open spec fn line_number(text: Seq<char>) -> Option<usize> {
    let digits = without_sign(text);
    if digits.len() > 0 && all_digits(digits) && digits_value(digits) <= usize::MAX {
        Some(digits_value(digits) as usize)
    } else {
        None
    }
}

/// The value of a run of digits never gets smaller as the run grows.
proof fn lemma_digits_grow(digits: Seq<char>, upto: int)
    requires
        0 <= upto <= digits.len(),
        forall|i: int| 0 <= i < digits.len() ==> is_digit(#[trigger] digits[i]),
    ensures
        0 <= digits_value(digits.subrange(0, upto)) <= digits_value(digits),
    decreases digits.len() - upto,
{
    lemma_digits_nonnegative(digits.subrange(0, upto));
    if upto < digits.len() {
        lemma_digits_grow(digits, upto + 1);
        let longer = digits.subrange(0, upto + 1);
        assert(longer.drop_last() =~= digits.subrange(0, upto));
        lemma_digits_nonnegative(digits.subrange(0, upto));
    } else {
        assert(digits.subrange(0, upto) =~= digits);
    }
}

/// A run of digits stands for no negative number.
proof fn lemma_digits_nonnegative(digits: Seq<char>)
    requires
        forall|i: int| 0 <= i < digits.len() ==> is_digit(#[trigger] digits[i]),
    ensures
        0 <= digits_value(digits),
    decreases digits.len(),
{
    if digits.len() > 0 {
        assert(is_digit(digits[digits.len() - 1]));
        lemma_digits_nonnegative(digits.drop_last());
    }
}

/// Reads a line number.
pub fn parse_line_number(text: &str) -> (number: Option<usize>)
    ensures
        number == line_number(text@),
{
    let chars = chars_of(text);
    let n = chars.len();
    let first: usize = if n > 0 && chars[0] == '+' {
        1
    } else {
        0
    };
    let ghost digits = chars@.skip(first as int);
    proof {
        assert(chars@.skip(0) =~= chars@);
        assert(digits == without_sign(text@));
    }
    if first == n {
        return None;
    }
    let mut value: usize = 0;
    let mut i: usize = first;
    while i < n
        invariant
            first <= i <= n,
            n == chars.len(),
            chars@ == text@,
            digits == chars@.skip(first as int),
            digits == without_sign(text@),
            forall|k: int| 0 <= k < i - first ==> is_digit(#[trigger] digits[k]),
            value == digits_value(digits.subrange(0, i - first)),
        decreases n - i,
    {
        let c = chars[i];
        proof {
            assert(digits[i - first] == c);
        }
        if c < '0' || c > '9' {
            proof {
                assert(!is_digit(digits[i - first]));
                assert(line_number(text@) is None);
            }
            return None;
        }
        let digit = (c as u32 - '0' as u32) as usize;
        let ghost longer = digits.subrange(0, i - first + 1);
        proof {
            assert(longer.drop_last() =~= digits.subrange(0, i - first));
            assert(longer.last() == c);
        }
        let next = match value.checked_mul(10) {
            Some(tens) => tens.checked_add(digit),
            None => None,
        };
        match next {
            Some(v) => {
                value = v;
            },
            None => {
                proof {
                    assert(digits_value(longer) == value * 10 + digit);
                    assert(digits_value(longer) > usize::MAX);
                    if all_digits(digits) {
                        lemma_digits_grow(digits, i - first + 1);
                    }
                    assert(line_number(text@) is None);
                }
                return None;
            },
        }
        i += 1;
    }
    proof {
        assert(digits.subrange(0, n - first) =~= digits);
    }
    Some(value)
}

/// The dialog that takes the cursor to a line.
#[derive(Default)]
pub struct GotoLineDialog {
    pub open: bool,
    pub line_str: String,
}

impl GotoLineDialog {
    /// The byte offset in `content` to which the cursor goes for what
    /// the dialog holds, or nothing where that is no line number.
    pub fn target_offset(&self, content: &str) -> (offset: Option<usize>)
        ensures
            offset == match line_number(self.line_str@) {
                Some(line) => Some(line_start(content.spec_bytes(), line as int) as usize),
                None => None,
            },
    {
        match parse_line_number(self.line_str.as_str()) {
            Some(line) => Some(line_offset(content, line)),
            None => None,
        }
    }
}

/// The identity of the tab that has the focus once the tab at place
/// `index` is gone: the one that had it, or the last tab left where the
/// focus was on the tab that went.
pub open spec fn focus_without(tabs: Seq<EditorTab>, active: Option<TabId>, index: int) -> Option<
    TabId,
> {
    let left = tabs.remove(index);
    if active == Some(tabs[index].id) {
        if left.len() > 0 {
            Some(left.last().id)
        } else {
            None
        }
    } else {
        active
    }
}

/// Takes the tab at place `index` away and moves the focus if it was
/// on that tab.
pub fn remove_tab(tabs: &mut Vec<EditorTab>, active_tab_id: &mut Option<TabId>, index: usize)
    requires
        index < old(tabs).len(),
    ensures
        final(tabs)@ == old(tabs)@.remove(index as int),
        *final(active_tab_id) == focus_without(old(tabs)@, *old(active_tab_id), index as int),
{
    let gone = tabs.remove(index);
    let had_focus = match *active_tab_id {
        Some(id) => id == gone.id,
        None => false,
    };
    if had_focus {
        *active_tab_id = if tabs.len() > 0 {
            Some(tabs[tabs.len() - 1].id)
        } else {
            None
        };
    }
}

/// The dialog that asks whether a changed document is to be saved
/// before its tab, or the whole editor, closes.
#[derive(Default)]
pub struct CloseConfirmationDialog {
    pub open: bool,
    pub tab_id: Option<TabId>,
    pub closing_app: bool,
}

/// How a request to close a tab ended.
#[derive(Clone, Copy, Debug, PartialEq, Eq, Structural)]
pub enum CloseOutcome {
    /// No tab has this identity.
    NotOpen,
    /// The document has changes: the dialog asks first.
    Asking,
    /// The tab is gone.
    Closed,
}

/// Closes the tab with identity `id`. A tab whose document has unsaved
/// changes stays, and the dialog opens to ask about it.
pub fn close_tab(
    tabs: &mut Vec<EditorTab>,
    active_tab_id: &mut Option<TabId>,
    confirmation: &mut CloseConfirmationDialog,
    id: TabId,
) -> (outcome: CloseOutcome)
    ensures
        ({
            let at = position_of(old(tabs)@, id);
            if at >= old(tabs)@.len() {
                &&& outcome == CloseOutcome::NotOpen
                &&& *final(tabs) == *old(tabs)
                &&& *final(active_tab_id) == *old(active_tab_id)
                &&& *final(confirmation) == *old(confirmation)
            } else if old(tabs)@[at].is_dirty {
                &&& outcome == CloseOutcome::Asking
                &&& *final(tabs) == *old(tabs)
                &&& *final(active_tab_id) == *old(active_tab_id)
                &&& *final(confirmation) == (CloseConfirmationDialog {
                    open: true,
                    tab_id: Some(id),
                    closing_app: false,
                })
            } else {
                &&& outcome == CloseOutcome::Closed
                &&& final(tabs)@ == old(tabs)@.remove(at)
                &&& *final(active_tab_id) == focus_without(old(tabs)@, *old(active_tab_id), at)
                &&& *final(confirmation) == *old(confirmation)
            }
        }),
{
    match find_tab(tabs.as_slice(), id) {
        Some(index) => {
            if tabs[index].is_dirty {
                confirmation.open = true;
                confirmation.tab_id = Some(id);
                confirmation.closing_app = false;
                CloseOutcome::Asking
            } else {
                remove_tab(tabs, active_tab_id, index);
                CloseOutcome::Closed
            }
        },
        None => CloseOutcome::NotOpen,
    }
}

/// The place of the first tab whose document has unsaved changes, or
/// the number of tabs where none has.
pub open spec fn first_dirty(tabs: Seq<EditorTab>) -> int
    decreases tabs.len(),
{
    if tabs.len() == 0 {
        0
    } else if tabs[0].is_dirty {
        0
    } else {
        1 + first_dirty(tabs.drop_first())
    }
}

/// The button that the user pressed in the dialog.
#[derive(Clone, Copy, Debug, PartialEq, Eq, Structural)]
pub enum CloseChoice {
    Cancel,
    No,
    Yes,
}

/// The place of the tab that the dialog asks about: the tab that is to
/// close, or, while the editor closes, the first with unsaved changes.
pub open spec fn asked_about(dialog: CloseConfirmationDialog, tabs: Seq<EditorTab>) -> Option<int> {
    let at = match dialog.tab_id {
        Some(id) => position_of(tabs, id),
        None => if dialog.closing_app {
            first_dirty(tabs)
        } else {
            tabs.len() as int
        },
    };
    if at < tabs.len() {
        Some(at)
    } else {
        None
    }
}

/// The dialog, the tabs and the focus after the user answered the
/// question about the tab at place `index`. `save_ok` says whether
/// saving went well; it is looked at for `Yes` only.
pub open spec fn answered(
    dialog: CloseConfirmationDialog,
    tabs: Seq<EditorTab>,
    active: Option<TabId>,
    index: int,
    choice: CloseChoice,
    save_ok: bool,
) -> (CloseConfirmationDialog, Seq<EditorTab>, Option<TabId>) {
    let closed = (
        CloseConfirmationDialog { open: false, tab_id: None, ..dialog },
        tabs.remove(index),
        focus_without(tabs, active, index),
    );
    match choice {
        CloseChoice::Cancel => (
            CloseConfirmationDialog { open: false, closing_app: false, ..dialog },
            tabs,
            active,
        ),
        CloseChoice::No => if dialog.closing_app {
            (dialog, tabs.update(index, EditorTab { is_dirty: false, ..tabs[index] }), active)
        } else {
            closed
        },
        CloseChoice::Yes => if save_ok && !tabs[index].is_dirty && !dialog.closing_app {
            closed
        } else {
            (dialog, tabs, active)
        },
    }
}

impl CloseConfirmationDialog {
    /// The place of the tab that the dialog asks about, if there is one.
    pub fn tab_to_ask(&self, tabs: &[EditorTab]) -> (place: Option<usize>)
        ensures
            match place {
                Some(i) => asked_about(*self, tabs@) == Some(i as int),
                None => asked_about(*self, tabs@) is None,
            },
    {
        match self.tab_id {
            Some(id) => find_tab(tabs, id),
            None => {
                if !self.closing_app {
                    return None;
                }
                let mut i: usize = 0;
                proof {
                    assert(tabs@.skip(0) =~= tabs@);
                }
                while i < tabs.len()
                    invariant
                        i <= tabs.len(),
                        self.tab_id is None,
                        self.closing_app,
                        first_dirty(tabs@) == i + first_dirty(tabs@.skip(i as int)),
                    decreases tabs.len() - i,
                {
                    proof {
                        assert(tabs@.skip(i as int)[0] == tabs@[i as int]);
                        assert(tabs@.skip(i as int).drop_first() =~= tabs@.skip(i + 1));
                    }
                    if tabs[i].is_dirty {
                        proof {
                            assert(first_dirty(tabs@.skip(i as int)) == 0);
                        }
                        return Some(i);
                    }
                    i += 1;
                }
                None
            },
        }
    }

    /// Carries out the user's answer to the question about the tab at
    /// place `index`. The host saves the document before it hands in a
    /// `Yes`, and says in `save_ok` whether that went well.
    pub fn answer(
        &mut self,
        tabs: &mut Vec<EditorTab>,
        active_tab_id: &mut Option<TabId>,
        index: usize,
        choice: CloseChoice,
        save_ok: bool,
    )
        requires
            index < old(tabs).len(),
        ensures
            (*final(self), final(tabs)@, *final(active_tab_id)) == answered(
                *old(self),
                old(tabs)@,
                *old(active_tab_id),
                index as int,
                choice,
                save_ok,
            ),
    {
        let close = match choice {
            CloseChoice::Cancel => {
                self.open = false;
                self.closing_app = false;
                false
            },
            CloseChoice::No => {
                if self.closing_app {
                    // The document is given up: the dialog does not ask about it again.
                    tabs[index].is_dirty = false;
                    proof {
                        assert(tabs@ =~= old(tabs)@.update(
                            index as int,
                            EditorTab { is_dirty: false, ..old(tabs)@[index as int] },
                        ));
                    }
                    false
                } else {
                    true
                }
            },
            CloseChoice::Yes => save_ok && !tabs[index].is_dirty && !self.closing_app,
        };
        if close {
            remove_tab(tabs, active_tab_id, index);
            self.open = false;
            self.tab_id = None;
        }
    }

    /// Closes the dialog when there is no tab left to ask about.
    /// Returns whether the editor is to close now.
    pub fn nothing_to_ask(&mut self) -> (close_editor: bool)
        ensures
            close_editor == old(self).closing_app,
            *final(self) == (CloseConfirmationDialog { open: false, tab_id: None, ..*old(self) }),
    {
        self.open = false;
        self.tab_id = None;
        self.closing_app
    }
}

} // verus!
