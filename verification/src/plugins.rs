//! What the bundled plugins work out once one of their menu entries
//! was picked: which text they take, and what they ask the host for.
//! Drawing the entries is the host's part.

use crate::sdk::{ActionView, ContextView, EditorContext, PluginAction};
use crate::text::is_stretch;
use base64::Engine;
use vstd::prelude::*;
use vstd::string::StringSliceAdditionalSpecFns;

verus! {

broadcast use {
    vstd::utf8::encode_utf8_valid_utf8,
    vstd::utf8::encode_utf8_decode_utf8,
    vstd::utf8::valid_utf8_split,
    vstd::utf8::is_char_boundary_start_end_of_seq,
};

/// The text between byte offsets `start` and `end` of `content`.
pub open spec fn stretch(content: Seq<char>, start: int, end: int) -> Seq<char> {
    vstd::utf8::decode_utf8(vstd::utf8::encode_utf8(content).subrange(start, end))
}

/// A place between two characters of a text is also one in every part
/// of the text, cut off between two characters, that reaches up to it.
proof fn lemma_boundary_in_prefix(bytes: Seq<u8>, start: int, end: int)
    requires
        vstd::utf8::valid_utf8(bytes),
        0 <= start <= end <= bytes.len(),
        vstd::utf8::is_char_boundary(bytes, start),
        vstd::utf8::is_char_boundary(bytes, end),
    ensures
        vstd::utf8::valid_utf8(bytes.subrange(0, end)),
        vstd::utf8::is_char_boundary(bytes.subrange(0, end), start),
{
    let head = bytes.subrange(0, end);
    if start < end {
        vstd::utf8::is_char_boundary_iff_not_is_continuation_byte(bytes, start);
        vstd::utf8::is_char_boundary_iff_not_is_continuation_byte(head, start);
        assert(head[start] == bytes[start]);
    } else {
        assert(head.len() == end);
    }
}

/// The part of `content` between byte offsets `start` and `end`, or
/// nothing where they do not mark off a stretch between characters.
pub fn selected_text<'a>(content: &'a str, start: usize, end: usize) -> (part: Option<&'a str>)
    ensures
        match part {
            Some(text) => {
                &&& is_stretch(content@, start as int, end as int)
                &&& text@ == stretch(content@, start as int, end as int)
                &&& text.spec_bytes() == content.spec_bytes().subrange(start as int, end as int)
            },
            None => !is_stretch(content@, start as int, end as int),
        },
{
    let len = content.as_bytes().len();
    if start > end || end > len || !content.is_char_boundary(start) || !content.is_char_boundary(
        end,
    ) {
        return None;
    }
    proof {
        lemma_boundary_in_prefix(content.spec_bytes(), start as int, end as int);
    }
    let (head, _) = content.split_at(end);
    let (_, part) = head.split_at(start);
    proof {
        assert(part.spec_bytes() =~= content.spec_bytes().subrange(start as int, end as int));
        assert(vstd::utf8::decode_utf8(part.spec_bytes()) == part@);
    }
    Some(part)
}

/// The text that a plugin works on.
pub enum Target<'a> {
    /// The selected part of the document.
    Selection(&'a str),
    /// The whole document.
    Whole(&'a str),
    /// Nothing.
    Nothing,
}

/// A `Target` with its text as a sequence of characters.
pub enum TargetView {
    Selection(Seq<char>),
    Whole(Seq<char>),
    Nothing,
}

impl<'a> View for Target<'a> {
    type V = TargetView;

    open spec fn view(&self) -> TargetView {
        match self {
            Target::Selection(text) => TargetView::Selection(text@),
            Target::Whole(text) => TargetView::Whole(text@),
            Target::Nothing => TargetView::Nothing,
        }
    }
}

/// The text that a plugin works on when it is shown `ed`: a selection
/// that is not empty, if its offsets mark off a stretch of the text, and
/// nothing if they do not; else the whole document, which must hold
/// something unless `even_empty` is set.
pub open spec fn target_of(ed: ContextView, even_empty: bool) -> TargetView {
    match ed.selection {
        Some((start, end)) if start != end => if is_stretch(ed.content, start as int, end as int) {
            TargetView::Selection(stretch(ed.content, start as int, end as int))
        } else {
            TargetView::Nothing
        },
        _ => if even_empty || ed.content.len() > 0 {
            TargetView::Whole(ed.content)
        } else {
            TargetView::Nothing
        },
    }
}

/// Picks the text that a plugin works on.
pub fn pick_target<'a>(ed: &EditorContext<'a>, even_empty: bool) -> (target: Target<'a>)
    ensures
        target@ == target_of(ed@, even_empty),
        match text_of_target(target@) {
            Some(text) => vstd::utf8::encode_utf8(text).len() <= vstd::utf8::encode_utf8(
                ed@.content,
            ).len(),
            None => true,
        },
{
    let whole = if even_empty || !ed.content.is_empty() {
        Target::Whole(ed.content)
    } else {
        Target::Nothing
    };
    match ed.selection {
        Some((start, end)) => {
            if start != end {
                match selected_text(ed.content, start, end) {
                    Some(text) => Target::Selection(text),
                    None => Target::Nothing,
                }
            } else {
                whole
            }
        },
        None => whole,
    }
}

/// What a plugin asks for once it has worked `target` over: `result`
/// in place of what it took, or nothing where the work came to nothing.
pub open spec fn request_of(target: TargetView, result: Option<Seq<char>>) -> ActionView {
    match (target, result) {
        (TargetView::Selection(_), Some(text)) => ActionView::ReplaceSelection(text),
        (TargetView::Whole(_), Some(text)) => ActionView::ReplaceAll(text),
        _ => ActionView::Nothing,
    }
}

/// The view of a text that may not be there.
pub open spec fn text_view(text: Option<String>) -> Option<Seq<char>> {
    match text {
        Some(t) => Some(t@),
        None => None,
    }
}

/// Turns the outcome of a plugin's work on `target` into what the
/// plugin asks the host for.
pub fn request(target: &Target, result: Option<String>) -> (action: PluginAction)
    ensures
        action@ == request_of(target@, text_view(result)),
{
    match result {
        Some(text) => match target {
            Target::Selection(_) => PluginAction::ReplaceSelection(text),
            Target::Whole(_) => PluginAction::ReplaceAll(text),
            Target::Nothing => PluginAction::Nothing,
        },
        None => PluginAction::Nothing,
    }
}

/// The text of a target, if it has one.
pub open spec fn text_of_target(target: TargetView) -> Option<Seq<char>> {
    match target {
        TargetView::Selection(text) => Some(text),
        TargetView::Whole(text) => Some(text),
        TargetView::Nothing => None,
    }
}

/// What the standard Base64 engine of the `base64` crate, with
/// padding, makes of a text in UTF-8.
pub uninterp spec fn base64_of(text: Seq<char>) -> Seq<char>;

/// What the standard Base64 engine of the `base64` crate, with
/// padding, reads out of a text, or nothing where it rejects the text.
pub uninterp spec fn base64_read(text: Seq<char>) -> Option<Seq<u8>>;

/// What `str::trim` leaves of a text.
pub uninterp spec fn trimmed(text: Seq<char>) -> Seq<char>;

/// The errors of the `base64` crate's decoder.
#[verifier::external_type_specification]
#[verifier::external_body]
pub struct ExDecodeError(base64::DecodeError);

/// Whether a text of this many bytes is short enough for its Base64
/// form, which takes four bytes for every three, to fit into one
/// allocation.
pub open spec fn encodable(bytes: int) -> bool {
    (bytes / 3) * 4 + 4 <= isize::MAX
}

/// A text that is no longer than one that can be encoded can be
/// encoded too.
pub proof fn lemma_shorter_is_encodable(shorter: int, longer: int)
    requires
        0 <= shorter <= longer,
        encodable(longer),
    ensures
        encodable(shorter),
{
}

/// Encodes the bytes of a text with `Engine::encode` of the engine
/// `general_purpose::STANDARD`. That function works the length of
/// its result out first and panics where a machine word cannot hold
/// it, and it allocates the result at once, which panics past the
/// largest allocation; a text that long is not accepted here. The
/// contract gives the result a name and claims nothing more of it.
#[verifier::external_body]
fn encode_standard(text: &str) -> (encoded: String)
    requires
        encodable(text.spec_bytes().len() as int),
    ensures
        encoded@ == base64_of(text@),
{
    base64::engine::general_purpose::STANDARD.encode(text)
}

/// Decodes a text with `Engine::decode` of the engine
/// `general_purpose::STANDARD`, which hands back the bytes or says
/// why the text is no Base64. The contract gives the bytes a name and
/// says that an error comes just where there are none.
#[verifier::external_body]
fn decode_standard(text: &str) -> (decoded: Result<Vec<u8>, base64::DecodeError>)
    ensures
        match decoded {
            Ok(bytes) => base64_read(text@) == Some(bytes@),
            Err(_) => base64_read(text@) is None,
        },
{
    base64::engine::general_purpose::STANDARD.decode(text)
}

/// Cuts the white space off both ends of a text with `str::trim`. The
/// contract gives the result a name and claims nothing more of it.
#[verifier::external_body]
fn trim(text: &str) -> (rest: &str)
    ensures
        rest@ == trimmed(text@),
{
    text.trim()
}

/// Reads bytes as text with `String::from_utf8`, which succeeds just
/// where the bytes are valid UTF-8 and then holds the characters that
/// they encode.
#[verifier::external_body]
fn text_from_utf8(bytes: Vec<u8>) -> (text: Option<String>)
    ensures
        match text {
            Some(t) => vstd::utf8::valid_utf8(bytes@) && t@ == vstd::utf8::decode_utf8(bytes@),
            None => !vstd::utf8::valid_utf8(bytes@),
        },
{
    String::from_utf8(bytes).ok()
}

/// The text that a Base64 text stands for: its white space at both
/// ends does not count, and the bytes that it holds must be UTF-8.
pub open spec fn base64_text(text: Seq<char>) -> Option<Seq<char>> {
    match base64_read(trimmed(text)) {
        Some(bytes) => if vstd::utf8::valid_utf8(bytes) {
            Some(vstd::utf8::decode_utf8(bytes))
        } else {
            None
        },
        None => None,
    }
}

/// The text that decoded bytes stand for, if they came out at all.
pub fn decoded_text(decoded: Result<Vec<u8>, base64::DecodeError>) -> (text: Option<String>)
    ensures
        match decoded {
            Ok(bytes) => text_view(text) == if vstd::utf8::valid_utf8(bytes@) {
                Some(vstd::utf8::decode_utf8(bytes@))
            } else {
                None
            },
            Err(_) => text is None,
        },
{
    match decoded {
        Ok(bytes) => text_from_utf8(bytes),
        Err(_) => None,
    }
}

/// The text that a Base64 text stands for.
pub fn base64_decode(text: &str) -> (decoded: Option<String>)
    ensures
        text_view(decoded) == base64_text(text@),
{
    decoded_text(decode_standard(trim(text)))
}

/// What the Base64 plugin asks for when its entry "encode" was picked:
/// the Base64 form of the selection in place of the selection, or that
/// of the document in place of the document, or nothing where there is
/// no text to encode. The document must be short enough to be encoded.
pub fn base64_encode_action(ed: &EditorContext) -> (action: PluginAction)
    requires
        encodable(ed.content.spec_bytes().len() as int),
    ensures
        action@ == request_of(
            target_of(ed@, false),
            match text_of_target(target_of(ed@, false)) {
                Some(text) => Some(base64_of(text)),
                None => None,
            },
        ),
{
    let target = pick_target(ed, false);
    proof {
        if let Some(text) = text_of_target(target@) {
            lemma_shorter_is_encodable(
                vstd::utf8::encode_utf8(text).len() as int,
                ed.content.spec_bytes().len() as int,
            );
        }
    }
    let encoded = match &target {
        Target::Selection(text) => Some(encode_standard(text)),
        Target::Whole(text) => Some(encode_standard(text)),
        Target::Nothing => None,
    };
    request(&target, encoded)
}

/// What the Base64 plugin asks for when its entry "decode" was picked:
/// the text that the selection, or else the document, stands for in
/// its place, or nothing where that is no Base64 of a text.
pub fn base64_decode_action(ed: &EditorContext) -> (action: PluginAction)
    ensures
        action@ == request_of(
            target_of(ed@, false),
            match text_of_target(target_of(ed@, false)) {
                Some(text) => base64_text(text),
                None => None,
            },
        ),
{
    let target = pick_target(ed, false);
    let decoded = match &target {
        Target::Selection(text) => base64_decode(text),
        Target::Whole(text) => base64_decode(text),
        Target::Nothing => None,
    };
    request(&target, decoded)
}

/// A JSON document as the `serde_json` crate holds it.
#[verifier::external_type_specification]
#[verifier::external_body]
pub struct ExValue(serde_json::Value);

/// The errors of the `serde_json` crate.
#[verifier::external_type_specification]
#[verifier::external_body]
pub struct ExJsonError(serde_json::Error);

/// What a JSON document holds, written out with indentation as
/// `serde_json::to_string_pretty` writes it, or nothing where that
/// function cannot write the document.
pub uninterp spec fn json_text(document: serde_json::Value) -> Option<Seq<char>>;

/// What `serde_json::from_str` reads out of a text, as `json_text`
/// writes the document out, or nothing where it takes the text for no
/// JSON document.
pub uninterp spec fn json_indented(text: Seq<char>) -> Option<Seq<char>>;

/// Reads a JSON document with `serde_json::from_str`, which hands back
/// the document that the whole text stands for, or says why the text
/// is none. What it reads depends on the text alone; the contract gives
/// the document, by what it holds, a name, and says that an error comes
/// just where there is none.
#[verifier::external_body]
fn parse_json(text: &str) -> (parsed: Result<serde_json::Value, serde_json::Error>)
    ensures
        match parsed {
            Ok(document) => json_indented(text@) == json_text(document),
            Err(_) => json_indented(text@) is None,
        },
{
    serde_json::from_str::<serde_json::Value>(text)
}

/// Writes a JSON document out with `serde_json::to_string_pretty`.
/// What it writes depends on the document alone; the contract gives the
/// text a name, and says that an error comes just where there is none.
#[verifier::external_body]
fn pretty_json(value: &serde_json::Value) -> (written: Result<String, serde_json::Error>)
    ensures
        match written {
            Ok(text) => json_text(*value) == Some(text@),
            Err(_) => json_text(*value) is None,
        },
{
    serde_json::to_string_pretty(value)
}

/// The text of a document that was written out, if it was.
pub fn written_text(written: Result<String, serde_json::Error>) -> (text: Option<String>)
    ensures
        match written {
            Ok(t) => text_view(text) == Some(t@),
            Err(_) => text is None,
        },
{
    match written {
        Ok(pretty) => Some(pretty),
        Err(_) => None,
    }
}

/// The indented form of a JSON text, or nothing where the text is no
/// JSON or cannot be written out again.
pub fn format_json(text: &str) -> (formatted: Option<String>)
    ensures
        text_view(formatted) == json_indented(text@),
{
    match parse_json(text) {
        Ok(value) => written_text(pretty_json(&value)),
        Err(_) => None,
    }
}

/// What the JSON plugin asks for when its entry "format" was picked:
/// the indented form of the selection in place of the selection, or
/// that of the document in place of the document, or nothing where the
/// text that it takes is no JSON. An empty document is taken too, and
/// is no JSON.
pub fn json_format_action(ed: &EditorContext) -> (action: PluginAction)
    ensures
        action@ == request_of(
            target_of(ed@, true),
            match text_of_target(target_of(ed@, true)) {
                Some(text) => json_indented(text),
                None => None,
            },
        ),
{
    let target = pick_target(ed, true);
    let formatted = match &target {
        Target::Selection(text) => format_json(text),
        Target::Whole(text) => format_json(text),
        Target::Nothing => None,
    };
    request(&target, formatted)
}

} // verus!
