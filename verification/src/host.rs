//! What the host does around the plugins: it shows them the active
//! document and carries out what they ask for.

use crate::editor::{recorded, EditorTab, TabId, TabView};
use crate::sdk::{ActionView, ContextView, EditorContext, PluginAction};
use crate::text::{is_stretch, replace_range, same_text, spliced, texts};
use vstd::prelude::*;
use vstd::string::StringSliceAdditionalSpecFns;

verus! {

/// The place of the first tab with this identity, or the number of tabs
/// where none has it.
pub open spec fn position_of(tabs: Seq<EditorTab>, id: TabId) -> int
    decreases tabs.len(),
{
    if tabs.len() == 0 {
        0
    } else if tabs[0].id == id {
        0
    } else {
        1 + position_of(tabs.drop_first(), id)
    }
}

/// `position_of` points at the first tab with the identity, if any.
pub proof fn lemma_position_of(tabs: Seq<EditorTab>, id: TabId)
    ensures
        0 <= position_of(tabs, id) <= tabs.len(),
        position_of(tabs, id) < tabs.len() ==> tabs[position_of(tabs, id)].id == id,
        forall|k: int| 0 <= k < position_of(tabs, id) ==> (#[trigger] tabs[k]).id != id,
    decreases tabs.len(),
{
    if tabs.len() > 0 && tabs[0].id != id {
        let rest = tabs.drop_first();
        lemma_position_of(rest, id);
        assert forall|k: int| 0 <= k < position_of(tabs, id) implies (#[trigger] tabs[k]).id
            != id by {
            if k > 0 {
                assert(rest[k - 1] == tabs[k]);
            }
        }
    }
}

/// The place of the first tab with this identity.
pub fn find_tab(tabs: &[EditorTab], id: TabId) -> (place: Option<usize>)
    ensures
        match place {
            Some(i) => i == position_of(tabs@, id) && i < tabs.len(),
            None => position_of(tabs@, id) == tabs.len(),
        },
{
    let mut i: usize = 0;
    proof {
        assert(tabs@.skip(0) =~= tabs@);
    }
    while i < tabs.len()
        invariant
            i <= tabs.len(),
            position_of(tabs@, id) == i + position_of(tabs@.skip(i as int), id),
        decreases tabs.len() - i,
    {
        proof {
            assert(tabs@.skip(i as int)[0] == tabs@[i as int]);
            assert(tabs@.skip(i as int).drop_first() =~= tabs@.skip(i + 1));
        }
        if tabs[i].id == id {
            return Some(i);
        }
        i += 1;
    }
    None
}

/// What plugins are shown while the tab with identity `active` has the
/// focus: its text and cursor range, or an empty document where no tab
/// has that identity.
pub open spec fn context_of(tabs: Seq<EditorTab>, active: Option<TabId>) -> ContextView {
    match active {
        Some(id) if position_of(tabs, id) < tabs.len() => ContextView {
            content: tabs[position_of(tabs, id)]@.content,
            selection: tabs[position_of(tabs, id)].cursor_range,
        },
        _ => ContextView { content: Seq::empty(), selection: None },
    }
}

/// Builds what plugins are shown of the active document. The result
/// borrows the text; nothing that a plugin does with it reaches the
/// document.
pub fn get_ed_ctx<'a>(tabs: &'a [EditorTab], active_tab_id: Option<TabId>) -> (ed: EditorContext<'a>)
    ensures
        ed@ == context_of(tabs@, active_tab_id),
{
    let place = match active_tab_id {
        Some(id) => find_tab(tabs, id),
        None => None,
    };
    match place {
        Some(i) => EditorContext { content: tabs[i].content.as_str(), selection: tabs[i].cursor_range },
        None => {
            proof {
                reveal_strlit("");
                assert(""@ =~= Seq::<char>::empty());
            }
            EditorContext { content: "", selection: None }
        },
    }
}

/// The stretch of text that a replacement of the selection goes to:
/// what the text widget reports, else the cursor range that the tab
/// remembers, else the very beginning; the smaller offset comes first.
pub open spec fn target_range(tab: EditorTab, reported: Option<(usize, usize)>) -> (usize, usize) {
    let (a, b) = match reported {
        Some(range) => range,
        None => match tab.cursor_range {
            Some(range) => range,
            None => (0usize, 0usize),
        },
    };
    if a <= b {
        (a, b)
    } else {
        (b, a)
    }
}

/// The number of bytes that a text takes in UTF-8.
pub open spec fn byte_len(text: Seq<char>) -> int {
    vstd::utf8::encode_utf8(text).len() as int
}

/// Whether `incoming` can take the place of the bytes from `start` up
/// to `end` of `content`: the stretch lies within the text, between
/// characters, and the offset after the new text can still be written down.
pub open spec fn fits(content: Seq<char>, start: usize, end: usize, incoming: Seq<char>) -> bool {
    &&& is_stretch(content, start as int, end as int)
    &&& start + byte_len(incoming) <= usize::MAX
}

/// Whether `incoming` can take the place of the bytes from `start` up
/// to `end` of `content`.
pub fn accepts(content: &str, start: usize, end: usize, incoming: &str) -> (r: bool)
    ensures
        r == fits(content@, start, end, incoming@),
{
    let len = content.as_bytes().len();
    let more = incoming.as_bytes().len();
    start <= end && end <= len && content.is_char_boundary(start) && content.is_char_boundary(end)
        && more <= usize::MAX - start
}

/// A tab after `action` was carried out on it, and the offset at which
/// the cursor then stands, if the action moved it.
pub open spec fn carried_out(tab: EditorTab, action: ActionView, reported: Option<(usize, usize)>) -> (
    TabView,
    Option<usize>,
) {
    let (start, end) = target_range(tab, reported);
    match action {
        ActionView::Nothing => (tab@, None),
        ActionView::ReplaceAll(text) => (
            TabView {
                content: text,
                is_dirty: true,
                undo: recorded(tab@.undo, tab@.content),
                redo: Seq::empty(),
                ..tab@
            },
            None,
        ),
        ActionView::ReplaceSelection(text) => {
            let cursor = (start + byte_len(text)) as usize;
            (
                TabView {
                    content: spliced(tab@.content, start as int, end as int, text),
                    is_dirty: true,
                    undo: recorded(tab@.undo, tab@.content),
                    redo: Seq::empty(),
                    cursor_range: Some((cursor, cursor)),
                    ..tab@
                },
                Some(cursor),
            )
        },
    }
}

/// Whether `action` can be carried out on `tab`: a replacement of the
/// selection needs a stretch that lies within the text.
pub open spec fn can_carry_out(tab: EditorTab, action: ActionView, reported: Option<(usize, usize)>) -> bool {
    action matches ActionView::ReplaceSelection(text) ==> fits(
        tab@.content,
        target_range(tab, reported).0,
        target_range(tab, reported).1,
        text,
    )
}

/// The stretch of text that a replacement of the selection goes to.
pub fn selection_target(tab: &EditorTab, reported: Option<(usize, usize)>) -> (range: (usize, usize))
    ensures
        range == target_range(*tab, reported),
{
    let (a, b) = match reported {
        Some(range) => range,
        None => match tab.cursor_range {
            Some(range) => range,
            None => (0, 0),
        },
    };
    if a <= b {
        (a, b)
    } else {
        (b, a)
    }
}

/// Carries out on the active tab what a plugin asked for. The text as
/// it was goes to the undo history, and the tab counts as changed.
/// `reported` is the cursor range that the text widget holds, if it
/// holds one. Returns where the cursor stands afterwards, if it moved.
pub fn handle_plugin_action(
    tab: &mut EditorTab,
    action: PluginAction,
    reported: Option<(usize, usize)>,
) -> (cursor: Option<usize>)
    requires
        can_carry_out(*old(tab), action@, reported),
    ensures
        (final(tab)@, cursor) == carried_out(*old(tab), action@, reported),
        action@ is Nothing ==> *final(tab) == *old(tab),
{
    match action {
        PluginAction::Nothing => None,
        PluginAction::ReplaceAll(new_text) => {
            let previous = tab.content.clone();
            tab.push_undo(previous);
            tab.content = new_text;
            tab.is_dirty = true;
            None
        },
        PluginAction::ReplaceSelection(new_text) => {
            let (start, end) = selection_target(tab, reported);
            let previous = tab.content.clone();
            tab.push_undo(previous);
            replace_range(&mut tab.content, start, end, new_text.as_str());
            tab.is_dirty = true;
            let new_idx = start + new_text.as_str().as_bytes().len();
            tab.cursor_range = Some((new_idx, new_idx));
            Some(new_idx)
        },
    }
}

/// Checks that `action` can be carried out on `tab`, and carries it out
/// only then. Returns whether it did, and where the cursor stands
/// afterwards, if it moved.
pub fn try_plugin_action(
    tab: &mut EditorTab,
    action: PluginAction,
    reported: Option<(usize, usize)>,
) -> (done: (bool, Option<usize>))
    ensures
        done.0 == can_carry_out(*old(tab), action@, reported),
        done.0 ==> (final(tab)@, done.1) == carried_out(*old(tab), action@, reported),
        !done.0 ==> *final(tab) == *old(tab) && done.1 is None,
{
    let acceptable = match &action {
        PluginAction::ReplaceSelection(new_text) => {
            let (start, end) = selection_target(tab, reported);
            accepts(tab.content.as_str(), start, end, new_text.as_str())
        },
        _ => true,
    };
    if acceptable {
        (true, handle_plugin_action(tab, action, reported))
    } else {
        (false, None)
    }
}

/// The place of the first entry of a list that holds this text, or the
/// length of the list where none does.
pub open spec fn place_of(list: Seq<Seq<char>>, text: Seq<char>) -> int
    decreases list.len(),
{
    if list.len() == 0 {
        0
    } else if list[0] == text {
        0
    } else {
        1 + place_of(list.drop_first(), text)
    }
}

/// The most paths that the list of recently used files keeps.
pub const RECENT_LIMIT: usize = 8;

/// A list of recently used paths after `path` was used: it comes first,
/// its earlier entry is gone, and at most `RECENT_LIMIT` paths stay.
pub open spec fn recent_after(recent: Seq<Seq<char>>, path: Seq<char>) -> Seq<Seq<char>> {
    let at = place_of(recent, path);
    let rest = if at < recent.len() {
        recent.remove(at)
    } else {
        recent
    };
    let all = seq![path] + rest;
    if all.len() > RECENT_LIMIT {
        all.subrange(0, RECENT_LIMIT as int)
    } else {
        all
    }
}

/// The place of the first entry of a list that holds this text.
pub fn find_text(list: &Vec<String>, text: &str) -> (place: Option<usize>)
    ensures
        match place {
            Some(i) => i == place_of(texts(list@), text@) && i < list.len(),
            None => place_of(texts(list@), text@) == list.len(),
        },
{
    let ghost all = texts(list@);
    let mut i: usize = 0;
    proof {
        assert(all.skip(0) =~= all);
    }
    while i < list.len()
        invariant
            i <= list.len(),
            all == texts(list@),
            place_of(all, text@) == i + place_of(all.skip(i as int), text@),
        decreases list.len() - i,
    {
        proof {
            assert(all.skip(i as int)[0] == all[i as int]);
            assert(all.skip(i as int).drop_first() =~= all.skip(i + 1));
        }
        if same_text(list[i].as_str(), text) {
            return Some(i);
        }
        i += 1;
    }
    None
}

/// Notes that the file at `path` was used: it moves to the front of the
/// list of recently used files.
pub fn add_to_recent(recent: &mut Vec<String>, path: String)
    ensures
        texts(final(recent)@) == recent_after(texts(old(recent)@), path@),
{
    let ghost before = texts(recent@);
    match find_text(recent, path.as_str()) {
        Some(at) => {
            recent.remove(at);
            proof {
                assert(texts(recent@) =~= before.remove(at as int));
            }
        },
        None => {},
    }
    let ghost rest = texts(recent@);
    recent.insert(0, path);
    proof {
        assert(texts(recent@) =~= seq![path@] + rest);
    }
    let ghost all = texts(recent@);
    recent.truncate(RECENT_LIMIT);
    proof {
        assert(texts(recent@) =~= if all.len() > RECENT_LIMIT {
            all.subrange(0, RECENT_LIMIT as int)
        } else {
            all
        });
    }
}

} // verus!
