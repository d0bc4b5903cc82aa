//! The document model: one open document per tab, with its undo history.

use crate::text::{chars_of, decode_lossy, lossy_text, push_char, texts};
use vstd::prelude::*;
use vstd::string::StringExecFns;

verus! {

/// How the lines of a document end on disk.
#[derive(Clone, Copy, Debug, PartialEq, Eq, Structural)]
pub enum LineEnding {
    Crlf,
    Lf,
    Cr,
}

impl LineEnding {
    /// The characters that end a line.
    pub open spec fn terminator(self) -> Seq<char> {
        match self {
            LineEnding::Crlf => seq!['\r', '\n'],
            LineEnding::Lf => seq!['\n'],
            LineEnding::Cr => seq!['\r'],
        }
    }

    /// The line ending that new documents get: CRLF on Windows, LF elsewhere.
    pub fn native(windows: bool) -> (r: LineEnding)
        ensures
            r == if windows {
                LineEnding::Crlf
            } else {
                LineEnding::Lf
            },
    {
        if windows {
            LineEnding::Crlf
        } else {
            LineEnding::Lf
        }
    }

    /// The characters that end a line, as text.
    pub fn as_str(&self) -> (s: &'static str)
        ensures
            s@ == self.terminator(),
    {
        proof {
            reveal_strlit("\r\n");
            reveal_strlit("\n");
            reveal_strlit("\r");
        }
        match self {
            LineEnding::Crlf => {
                let s = "\r\n";
                assert(s@ =~= seq!['\r', '\n']);
                s
            },
            LineEnding::Lf => {
                let s = "\n";
                assert(s@ =~= seq!['\n']);
                s
            },
            LineEnding::Cr => {
                let s = "\r";
                assert(s@ =~= seq!['\r']);
                s
            },
        }
    }

    /// The name under which the status bar offers this line ending.
    pub fn name(&self) -> (s: &'static str)
        ensures
            s@ == match self {
                LineEnding::Crlf => "Windows (CRLF)"@,
                LineEnding::Lf => "Unix (LF)"@,
                LineEnding::Cr => "Mac (CR)"@,
            },
    {
        match self {
            LineEnding::Crlf => "Windows (CRLF)",
            LineEnding::Lf => "Unix (LF)",
            LineEnding::Cr => "Mac (CR)",
        }
    }
}

/// Whether a carriage return is followed at once by a line feed
/// somewhere in a text.
pub open spec fn has_crlf(text: Seq<char>) -> bool {
    exists|i: int| 0 <= i < text.len() - 1 && #[trigger] text[i] == '\r' && text[i + 1] == '\n'
}

/// The line ending that a text read from disk is taken to use: CRLF
/// where it holds such a pair, else CR where it holds a carriage return,
/// else LF.
pub open spec fn detected(text: Seq<char>) -> LineEnding {
    if has_crlf(text) {
        LineEnding::Crlf
    } else if text.contains('\r') {
        LineEnding::Cr
    } else {
        LineEnding::Lf
    }
}

/// A text as the editor holds it: every CRLF pair, and every carriage
/// return left beside those, became one line feed.
pub open spec fn normalized(text: Seq<char>) -> Seq<char>
    decreases text.len(),
{
    if text.len() == 0 {
        Seq::empty()
    } else if text[0] == '\r' && text.len() > 1 && text[1] == '\n' {
        seq!['\n'] + normalized(text.skip(2))
    } else if text[0] == '\r' {
        seq!['\n'] + normalized(text.skip(1))
    } else {
        seq![text[0]] + normalized(text.skip(1))
    }
}

/// A text as it goes to disk: every line feed became `ending`.
pub open spec fn terminated(text: Seq<char>, ending: Seq<char>) -> Seq<char>
    decreases text.len(),
{
    if text.len() == 0 {
        Seq::empty()
    } else if text[0] == '\n' {
        ending + terminated(text.skip(1), ending)
    } else {
        seq![text[0]] + terminated(text.skip(1), ending)
    }
}

/// The line ending that a text read from disk is taken to use.
pub fn detect_line_ending(text: &str) -> (ending: LineEnding)
    ensures
        ending == detected(text@),
{
    let chars = chars_of(text);
    let n = chars.len();
    let mut seen_cr = false;
    let mut i: usize = 0;
    while i < n
        invariant
            i <= n,
            n == chars.len(),
            chars@ == text@,
            seen_cr == chars@.subrange(0, i as int).contains('\r'),
            forall|k: int|
                0 <= k < i && k < n - 1 ==> !(#[trigger] chars@[k] == '\r' && chars@[k + 1] == '\n'),
        decreases n - i,
    {
        if chars[i] == '\r' {
            if i + 1 < n && chars[i + 1] == '\n' {
                proof {
                    assert(text@[i as int] == '\r' && text@[i + 1] == '\n');
                }
                return LineEnding::Crlf;
            }
            seen_cr = true;
        }
        proof {
            let before = chars@.subrange(0, i as int);
            let after = chars@.subrange(0, i + 1);
            assert(after =~= before.push(chars@[i as int]));
            if before.contains('\r') {
                let k = choose|k: int| 0 <= k < before.len() && before[k] == '\r';
                assert(after[k] == '\r');
            }
            if chars@[i as int] == '\r' {
                assert(after[i as int] == '\r');
            }
            if after.contains('\r') && chars@[i as int] != '\r' {
                let k = choose|k: int| 0 <= k < after.len() && after[k] == '\r';
                assert(before[k] == '\r');
            }
        }
        i += 1;
    }
    proof {
        assert(chars@.subrange(0, n as int) =~= chars@);
        assert(!has_crlf(text@));
    }
    if seen_cr {
        LineEnding::Cr
    } else {
        LineEnding::Lf
    }
}

/// A text as the editor holds it, with line feeds alone between lines.
pub fn normalize_line_endings(text: &str) -> (out: String)
    ensures
        out@ == normalized(text@),
{
    let chars = chars_of(text);
    let n = chars.len();
    let mut out = String::new();
    let mut i: usize = 0;
    proof {
        assert(chars@.skip(0) =~= chars@);
        assert(out@ + normalized(chars@) =~= normalized(chars@));
    }
    while i < n
        invariant
            i <= n,
            n == chars.len(),
            chars@ == text@,
            normalized(text@) == out@ + normalized(chars@.skip(i as int)),
        decreases n - i,
    {
        let ghost rest = chars@.skip(i as int);
        let ghost done = out@;
        proof {
            assert(rest[0] == chars@[i as int]);
        }
        if chars[i] == '\r' {
            push_char(&mut out, '\n');
            if i + 1 < n && chars[i + 1] == '\n' {
                proof {
                    assert(rest[1] == chars@[i + 1]);
                    assert(rest.skip(2) =~= chars@.skip(i + 2));
                    assert(done + (seq!['\n'] + normalized(rest.skip(2))) =~= done.push('\n')
                        + normalized(rest.skip(2)));
                }
                i += 2;
            } else {
                proof {
                    if rest.len() > 1 {
                        assert(rest[1] == chars@[i + 1]);
                    }
                    assert(rest.skip(1) =~= chars@.skip(i + 1));
                    assert(done + (seq!['\n'] + normalized(rest.skip(1))) =~= done.push('\n')
                        + normalized(rest.skip(1)));
                }
                i += 1;
            }
        } else {
            push_char(&mut out, chars[i]);
            proof {
                assert(rest.skip(1) =~= chars@.skip(i + 1));
                assert(done + (seq![rest[0]] + normalized(rest.skip(1))) =~= done.push(rest[0])
                    + normalized(rest.skip(1)));
            }
            i += 1;
        }
    }
    proof {
        assert(chars@.skip(n as int) =~= Seq::<char>::empty());
        assert(out@ + Seq::<char>::empty() =~= out@);
    }
    out
}

/// A text as it goes to disk, with `ending` at the end of each line.
pub fn with_line_ending(text: &str, ending: LineEnding) -> (out: String)
    ensures
        out@ == terminated(text@, ending.terminator()),
{
    let chars = chars_of(text);
    let n = chars.len();
    let mut out = String::new();
    let mut i: usize = 0;
    proof {
        assert(chars@.skip(0) =~= chars@);
        assert(out@ + terminated(chars@, ending.terminator()) =~= terminated(
            chars@,
            ending.terminator(),
        ));
    }
    while i < n
        invariant
            i <= n,
            n == chars.len(),
            chars@ == text@,
            terminated(text@, ending.terminator()) == out@ + terminated(
                chars@.skip(i as int),
                ending.terminator(),
            ),
        decreases n - i,
    {
        let ghost rest = chars@.skip(i as int);
        let ghost done = out@;
        let ghost tail = terminated(rest.skip(1), ending.terminator());
        proof {
            assert(rest[0] == chars@[i as int]);
            assert(rest.skip(1) =~= chars@.skip(i + 1));
        }
        if chars[i] == '\n' {
            out.append(ending.as_str());
            proof {
                assert(done + (ending.terminator() + tail) =~= (done + ending.terminator()) + tail);
            }
        } else {
            push_char(&mut out, chars[i]);
            proof {
                assert(done + (seq![rest[0]] + tail) =~= done.push(rest[0]) + tail);
            }
        }
        i += 1;
    }
    proof {
        assert(chars@.skip(n as int) =~= Seq::<char>::empty());
        assert(out@ + Seq::<char>::empty() =~= out@);
    }
    out
}

/// The identity of a tab for as long as the editor runs.
#[derive(Clone, Copy, Debug, PartialEq, Eq, Hash, Structural)]
pub struct TabId(pub usize);

/// Where tab identities come from: a counter that starts at one.
pub struct TabIdSource {
    next: usize,
}

impl TabIdSource {
    /// The number that the next identity will carry.
    pub closed spec fn upcoming(&self) -> usize {
        self.next
    }

    /// A source that has handed out nothing yet.
    pub fn new() -> (source: TabIdSource)
        ensures
            source.upcoming() == 1,
    {
        TabIdSource { next: 1 }
    }
}

/// The number that follows `n` in a source, which starts over after the
/// largest one.
pub open spec fn following(n: usize) -> usize {
    if n == usize::MAX {
        0
    } else {
        (n + 1) as usize
    }
}

/// Hands out the next tab identity.
pub fn next_tab_id(source: &mut TabIdSource) -> (id: TabId)
    ensures
        id.0 == old(source).upcoming(),
        final(source).upcoming() == following(old(source).upcoming()),
{
    let n = source.next;
    source.next = if n == usize::MAX {
        0
    } else {
        n + 1
    };
    TabId(n)
}

/// Where a document lives on disk, as the host resolved it: the whole
/// path and, where the path has one that is valid text, its last component.
#[derive(Clone, Debug)]
pub struct DocumentPath {
    pub location: String,
    pub file_name: Option<String>,
}

/// A `DocumentPath` with its texts as sequences of characters.
pub struct PathView {
    pub location: Seq<char>,
    pub file_name: Option<Seq<char>>,
}

impl View for DocumentPath {
    type V = PathView;

    open spec fn view(&self) -> PathView {
        PathView {
            location: self.location@,
            file_name: match self.file_name {
                Some(name) => Some(name@),
                None => None,
            },
        }
    }
}

/// The view of a path that may not be there.
pub open spec fn path_view(path: Option<DocumentPath>) -> Option<PathView> {
    match path {
        Some(p) => Some(p@),
        None => None,
    }
}

/// The most entries that an undo history keeps.
pub const UNDO_LIMIT: usize = 100;

/// One open document.
#[derive(Clone, Debug)]
pub struct EditorTab {
    pub id: TabId,
    pub title: String,
    pub content: String,
    pub path: Option<DocumentPath>,
    pub is_dirty: bool,
    pub undo_stack: Vec<String>,
    pub redo_stack: Vec<String>,
    pub line_ending: LineEnding,
    pub scroll_to_cursor: bool,
    pub cursor_range: Option<(usize, usize)>,
}

/// An `EditorTab` with its texts as sequences of characters.
pub struct TabView {
    pub id: TabId,
    pub title: Seq<char>,
    pub content: Seq<char>,
    pub path: Option<PathView>,
    pub is_dirty: bool,
    pub undo: Seq<Seq<char>>,
    pub redo: Seq<Seq<char>>,
    pub line_ending: LineEnding,
    pub scroll_to_cursor: bool,
    pub cursor_range: Option<(usize, usize)>,
}

impl View for EditorTab {
    type V = TabView;

    open spec fn view(&self) -> TabView {
        TabView {
            id: self.id,
            title: self.title@,
            content: self.content@,
            path: path_view(self.path),
            is_dirty: self.is_dirty,
            undo: texts(self.undo_stack@),
            redo: texts(self.redo_stack@),
            line_ending: self.line_ending,
            scroll_to_cursor: self.scroll_to_cursor,
            cursor_range: self.cursor_range,
        }
    }
}

/// The title of a tab whose document has this file name, if any.
pub open spec fn title_of(file_name: Option<Seq<char>>) -> Seq<char> {
    match file_name {
        Some(name) => name,
        None => "Untitled"@,
    }
}

/// The title of a tab whose document lives at this path, if anywhere.
pub open spec fn title_at(path: Option<PathView>) -> Seq<char> {
    match path {
        Some(p) => title_of(p.file_name),
        None => title_of(None),
    }
}

/// An undo history after `content` was recorded: the new entry comes
/// last, and the oldest one leaves where the history would pass the limit.
pub open spec fn recorded(undo: Seq<Seq<char>>, content: Seq<char>) -> Seq<Seq<char>> {
    let all = undo.push(content);
    if all.len() > UNDO_LIMIT {
        all.remove(0)
    } else {
        all
    }
}

/// A tab after one step back in its history.
pub open spec fn undone(tab: TabView) -> TabView {
    if tab.undo.len() > 0 {
        TabView {
            content: tab.undo.last(),
            undo: tab.undo.drop_last(),
            redo: tab.redo.push(tab.content),
            is_dirty: true,
            ..tab
        }
    } else {
        tab
    }
}

/// A tab after one step forward in its history.
pub open spec fn redone(tab: TabView) -> TabView {
    if tab.redo.len() > 0 {
        TabView {
            content: tab.redo.last(),
            redo: tab.redo.drop_last(),
            undo: tab.undo.push(tab.content),
            is_dirty: true,
            ..tab
        }
    } else {
        tab
    }
}

/// The tab that shows a document read from disk: `raw` is what the file
/// held. The tab notes the line ending that the file used and holds the
/// text with line feeds alone.
pub open spec fn opened(id: TabId, path: PathView, raw: Seq<char>) -> TabView {
    TabView {
        id,
        title: title_of(path.file_name),
        content: normalized(raw),
        path: Some(path),
        is_dirty: false,
        undo: Seq::empty(),
        redo: Seq::empty(),
        line_ending: detected(raw),
        scroll_to_cursor: false,
        cursor_range: None,
    }
}

/// A text without carriage returns is held as it is.
pub proof fn lemma_normalized_without_cr(text: Seq<char>)
    requires
        !text.contains('\r'),
    ensures
        normalized(text) == text,
    decreases text.len(),
{
    if text.len() > 0 {
        assert(text[0] != '\r');
        assert forall|k: int| 0 <= k < text.skip(1).len() implies text.skip(1)[k] != '\r' by {
            assert(text[k + 1] != '\r');
        }
        lemma_normalized_without_cr(text.skip(1));
        assert(seq![text[0]] + text.skip(1) =~= text);
    }
}

/// A text that the editor holds has no carriage return left: it can be
/// held again without change.
pub proof fn lemma_normalized_has_no_cr(text: Seq<char>)
    ensures
        !normalized(text).contains('\r'),
        normalized(normalized(text)) == normalized(text),
    decreases text.len(),
{
    if text.len() > 0 {
        let rest = if text[0] == '\r' && text.len() > 1 && text[1] == '\n' {
            text.skip(2)
        } else {
            text.skip(1)
        };
        lemma_normalized_has_no_cr(rest);
        let out = normalized(text);
        assert(out[0] != '\r');
        assert forall|k: int| 0 <= k < out.len() implies out[k] != '\r' by {
            if k > 0 {
                assert(out[k] == normalized(rest)[k - 1]);
            }
        }
    }
    lemma_normalized_without_cr(normalized(text));
}

/// With line feeds as the ending, a text goes to disk as it is.
pub proof fn lemma_terminated_by_line_feed(text: Seq<char>)
    ensures
        terminated(text, seq!['\n']) == text,
    decreases text.len(),
{
    if text.len() > 0 {
        lemma_terminated_by_line_feed(text.skip(1));
        assert(seq![text[0]] + text.skip(1) =~= text);
    }
}

/// Why a document could not be saved.
#[derive(Debug)]
pub enum SaveError<E> {
    /// The document has no path yet.
    NoPath,
    /// Writing the file failed.
    Write(E),
}

fn title_for(path: &Option<DocumentPath>) -> (title: String)
    ensures
        title@ == title_at(path_view(*path)),
{
    match path {
        Some(p) => match &p.file_name {
            Some(name) => name.clone(),
            None => "Untitled".to_owned(),
        },
        None => "Untitled".to_owned(),
    }
}

/// Whether `write` can answer `answer` when it is handed the path of
/// `tab` and the text of `tab` as it goes to disk.
pub open spec fn written<E, F: FnOnce(&DocumentPath, &str) -> Result<(), E>>(
    tab: EditorTab,
    write: F,
    answer: Result<(), E>,
) -> bool {
    exists|text: &str|
        {
            &&& #[trigger] call_ensures(write, (&tab.path->0, text), answer)
            &&& text@ == terminated(tab@.content, tab.line_ending.terminator())
        }
}

impl EditorTab {
    /// A clean tab that shows `content`, titled after the file name of
    /// `path`, or "Untitled" without one.
    pub fn new(
        ids: &mut TabIdSource,
        path: Option<DocumentPath>,
        content: String,
        line_ending: LineEnding,
    ) -> (tab: EditorTab)
        ensures
            final(ids).upcoming() == following(old(ids).upcoming()),
            tab@ == (TabView {
                id: TabId(old(ids).upcoming()),
                title: title_at(path_view(path)),
                content: content@,
                path: path_view(path),
                is_dirty: false,
                undo: Seq::empty(),
                redo: Seq::empty(),
                line_ending: line_ending,
                scroll_to_cursor: false,
                cursor_range: None,
            }),
    {
        let title = title_for(&path);
        let tab = EditorTab {
            id: next_tab_id(ids),
            title,
            content,
            path,
            is_dirty: false,
            undo_stack: Vec::new(),
            redo_stack: Vec::new(),
            line_ending,
            scroll_to_cursor: false,
            cursor_range: None,
        };
        proof {
            assert(tab@.undo =~= Seq::empty());
            assert(tab@.redo =~= Seq::empty());
        }
        tab
    }

    /// A clean tab for a document whose file held `raw`.
    pub fn from_text(ids: &mut TabIdSource, path: DocumentPath, raw: String) -> (tab: EditorTab)
        ensures
            final(ids).upcoming() == following(old(ids).upcoming()),
            tab@ == opened(TabId(old(ids).upcoming()), path@, raw@),
    {
        let line_ending = detect_line_ending(raw.as_str());
        let content = match line_ending {
            LineEnding::Lf => {
                proof {
                    lemma_normalized_without_cr(raw@);
                }
                raw
            },
            _ => normalize_line_endings(raw.as_str()),
        };
        EditorTab::new(ids, Some(path), content, line_ending)
    }

    /// Opens the document at `path`: `read` fetches the bytes of the
    /// file, which are taken for UTF-8 as far as they are. Where `read`
    /// fails, its error is handed on and no identity is used up.
    pub fn from_file<E, F: FnOnce(&DocumentPath) -> Result<Vec<u8>, E>>(
        ids: &mut TabIdSource,
        path: DocumentPath,
        read: F,
    ) -> (result: Result<EditorTab, E>)
        requires
            call_requires(read, (&path,)),
        ensures
            match result {
                Ok(tab) => exists|bytes: Vec<u8>|
                    {
                        &&& #[trigger] call_ensures(read, (&path,), Ok::<Vec<u8>, E>(bytes))
                        &&& tab@ == opened(TabId(old(ids).upcoming()), path@, lossy_text(bytes@))
                        &&& final(ids).upcoming() == following(old(ids).upcoming())
                    },
                Err(e) => call_ensures(read, (&path,), Err::<Vec<u8>, E>(e)) && final(ids).upcoming()
                    == old(ids).upcoming(),
            },
    {
        match read(&path) {
            Ok(bytes) => {
                let raw = decode_lossy(bytes.as_slice());
                Ok(EditorTab::from_text(ids, path, raw))
            },
            Err(e) => Err(e),
        }
    }

    /// The text of the document as it goes to disk.
    pub fn text_on_disk(&self) -> (text: String)
        ensures
            text@ == terminated(self@.content, self.line_ending.terminator()),
    {
        match self.line_ending {
            LineEnding::Lf => {
                proof {
                    lemma_terminated_by_line_feed(self@.content);
                }
                self.content.clone()
            },
            _ => with_line_ending(self.content.as_str(), self.line_ending),
        }
    }

    /// Saves the document: `write` puts the text, with the tab's line
    /// ending, into the file at the tab's path. The tab counts as clean
    /// once that went well. Without a path nothing is written.
    pub fn save<E, F: FnOnce(&DocumentPath, &str) -> Result<(), E>>(&mut self, write: F) -> (result:
        Result<(), SaveError<E>>)
        requires
            forall|path: &DocumentPath, text: &str| call_requires(write, (path, text)),
        ensures
            match result {
                Ok(()) => {
                    &&& old(self).path is Some
                    &&& written(*old(self), write, Ok::<(), E>(()))
                    &&& final(self)@ == (TabView { is_dirty: false, ..old(self)@ })
                },
                Err(SaveError::NoPath) => old(self).path is None && *final(self) == *old(self),
                Err(SaveError::Write(e)) => {
                    &&& old(self).path is Some
                    &&& written(*old(self), write, Err::<(), E>(e))
                    &&& *final(self) == *old(self)
                },
            },
    {
        match &self.path {
            Some(path) => {
                let text = self.text_on_disk();
                let slice = text.as_str();
                let answer = write(path, slice);
                proof {
                    assert(call_ensures(write, (&old(self).path->0, slice), answer));
                    assert(written(*old(self), write, answer));
                }
                match answer {
                    Ok(done) => {
                        proof {
                            assert(answer == Ok::<(), E>(()));
                        }
                        self.is_dirty = false;
                        Ok(done)
                    },
                    Err(e) => Err(SaveError::Write(e)),
                }
            },
            None => Err(SaveError::NoPath),
        }
    }

    /// Moves the document to `path` and titles the tab after it.
    pub fn set_path(&mut self, path: DocumentPath)
        ensures
            final(self)@ == (TabView {
                title: title_of(path@.file_name),
                path: Some(path@),
                ..old(self)@
            }),
    {
        let path = Some(path);
        self.title = title_for(&path);
        self.path = path;
    }

    /// Records `content` as the state to come back to, and forgets what
    /// had been undone.
    pub fn push_undo(&mut self, content: String)
        ensures
            final(self)@ == (TabView {
                undo: recorded(old(self)@.undo, content@),
                redo: Seq::empty(),
                ..old(self)@
            }),
    {
        self.undo_stack.push(content);
        self.redo_stack.clear();
        if self.undo_stack.len() > UNDO_LIMIT {
            self.undo_stack.remove(0);
        }
        proof {
            assert(self@.undo =~= recorded(old(self)@.undo, content@));
            assert(self@.redo =~= Seq::empty());
        }
    }

    /// Goes one step back in the history, if there is one.
    pub fn undo(&mut self)
        ensures
            final(self)@ == undone(old(self)@),
    {
        match self.undo_stack.pop() {
            Some(prev) => {
                self.redo_stack.push(self.content.clone());
                self.content = prev;
                self.is_dirty = true;
                proof {
                    assert(self@.undo =~= old(self)@.undo.drop_last());
                    assert(self@.redo =~= old(self)@.redo.push(old(self)@.content));
                }
            },
            None => {
                proof {
                    assert(self@.undo =~= old(self)@.undo);
                }
            },
        }
    }

    /// Goes one step forward in the history, if there is one.
    pub fn redo(&mut self)
        ensures
            final(self)@ == redone(old(self)@),
    {
        match self.redo_stack.pop() {
            Some(next) => {
                self.undo_stack.push(self.content.clone());
                self.content = next;
                self.is_dirty = true;
                proof {
                    assert(self@.redo =~= old(self)@.redo.drop_last());
                    assert(self@.undo =~= old(self)@.undo.push(old(self)@.content));
                }
            },
            None => {
                proof {
                    assert(self@.redo =~= old(self)@.redo);
                }
            },
        }
    }

    /// Whether there is a state to go back to.
    pub fn can_undo(&self) -> (r: bool)
        ensures
            r == (self@.undo.len() > 0),
    {
        !self.undo_stack.is_empty()
    }

    /// Whether there is an undone state to go forward to.
    pub fn can_redo(&self) -> (r: bool)
        ensures
            r == (self@.redo.len() > 0),
    {
        !self.redo_stack.is_empty()
    }
}

/// A step back followed by a step forward brings the text and both
/// histories back; the tab only counts as changed.
pub proof fn lemma_redo_reverts_undo(tab: TabView)
    requires
        tab.undo.len() > 0,
    ensures
        redone(undone(tab)) == (TabView { is_dirty: true, ..tab }),
{
    let u = undone(tab);
    assert(u.redo.last() == tab.content);
    assert(u.redo.drop_last() =~= tab.redo);
    assert(u.undo.push(u.content) =~= tab.undo);
}

/// A step forward followed by a step back brings the text and both
/// histories back; the tab only counts as changed.
pub proof fn lemma_undo_reverts_redo(tab: TabView)
    requires
        tab.redo.len() > 0,
    ensures
        undone(redone(tab)) == (TabView { is_dirty: true, ..tab }),
{
    let r = redone(tab);
    assert(r.undo.last() == tab.content);
    assert(r.undo.drop_last() =~= tab.undo);
    assert(r.redo.push(r.content) =~= tab.redo);
}

/// A history that is within the limit stays within it when a state is
/// recorded.
pub proof fn lemma_recorded_within_limit(undo: Seq<Seq<char>>, content: Seq<char>)
    requires
        undo.len() <= UNDO_LIMIT,
    ensures
        recorded(undo, content).len() <= UNDO_LIMIT,
        recorded(undo, content).last() == content,
{
}

} // verus!
