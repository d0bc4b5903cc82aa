//! Which entries of the plugin directory are plugin libraries, and which
//! of them a scan has still to load.

use crate::text::{chars_of, same_text, text_of};
use vstd::prelude::*;

verus! {

/// What `str::to_lowercase` makes of a text.
pub uninterp spec fn lowercased(text: Seq<char>) -> Seq<char>;

/// The lowercase form of a text, from `str::to_lowercase`. That function
/// maps each character by the Unicode rules, whatever the locale; the
/// contract gives its result a name and claims nothing more of it.
#[verifier::external_body]
pub(crate) fn lowercase(text: &str) -> (lowered: String)
    ensures
        lowered@ == lowercased(text@),
{
    text.to_lowercase()
}

/// The place of the last dot in a file name, or -1 where it has none.
pub open spec fn last_dot(name: Seq<char>) -> int
    decreases name.len(),
{
    if name.len() == 0 {
        -1
    } else if name.last() == '.' {
        name.len() - 1
    } else {
        last_dot(name.drop_last())
    }
}

/// The extension of a file name: what follows its last dot. A name
/// without a dot has none, nor has one whose only dot comes first, nor
/// the name `..`.
pub open spec fn extension(name: Seq<char>) -> Option<Seq<char>> {
    let dot = last_dot(name);
    if dot <= 0 || (name.len() == 2 && name[0] == '.' && name[1] == '.') {
        None
    } else {
        Some(name.subrange(dot + 1, name.len() as int))
    }
}

/// The platforms that the host runs on, as far as they name their
/// dynamic libraries differently.
#[derive(Clone, Copy, Debug, PartialEq, Eq, Structural)]
pub enum Platform {
    /// Libraries end in `.dll`.
    Windows,
    /// Libraries end in `.dylib`.
    MacOs,
    /// Every other platform: libraries end in `.so`.
    Unix,
}

impl Platform {
    /// The extension that dynamic libraries carry on this platform.
    pub open spec fn library_extension(self) -> Seq<char> {
        match self {
            Platform::Windows => "dll"@,
            Platform::MacOs => "dylib"@,
            Platform::Unix => "so"@,
        }
    }

    /// The extension that dynamic libraries carry on this platform.
    pub fn extension(&self) -> (ext: &'static str)
        ensures
            ext@ == self.library_extension(),
    {
        match self {
            Platform::Windows => "dll",
            Platform::MacOs => "dylib",
            Platform::Unix => "so",
        }
    }
}

/// No two platforms share an extension: what is a library on one is
/// none on another.
pub proof fn lemma_extensions_differ(here: Platform, there: Platform)
    requires
        here != there,
    ensures
        !is_library_extension(there.library_extension(), here),
{
    reveal_strlit("dll");
    reveal_strlit("dylib");
    reveal_strlit("so");
    assert("dll"@.len() == 3 && "dylib"@.len() == 5 && "so"@.len() == 2);
}

/// Whether an extension, already in lowercase, is the one that dynamic
/// libraries carry on `platform`.
pub open spec fn is_library_extension(lowered: Seq<char>, platform: Platform) -> bool {
    lowered == platform.library_extension()
}

/// Whether a file of this name is taken for a plugin library on
/// `platform`: it has an extension which, in lowercase, is the one that
/// dynamic libraries carry there.
pub open spec fn is_library_name(name: Seq<char>, platform: Platform) -> bool {
    match extension(name) {
        Some(ext) => is_library_extension(lowercased(ext), platform),
        None => false,
    }
}

/// Where `last_dot` points there is a dot, and none comes after it.
pub proof fn lemma_last_dot(name: Seq<char>)
    ensures
        -1 <= last_dot(name) < name.len(),
        last_dot(name) >= 0 ==> name[last_dot(name)] == '.',
        forall|i: int| last_dot(name) < i < name.len() ==> name[i] != '.',
    decreases name.len(),
{
    if name.len() > 0 && name.last() != '.' {
        lemma_last_dot(name.drop_last());
        assert forall|i: int| last_dot(name) < i < name.len() implies name[i] != '.' by {
            if i < name.len() - 1 {
                assert(name.drop_last()[i] == name[i]);
            }
        }
    }
}

/// The place just after the last dot of a name, or 0 where it has none.
fn after_last_dot(chars: &[char]) -> (place: usize)
    ensures
        place == last_dot(chars@) + 1,
        place <= chars.len(),
{
    let n = chars.len();
    let mut i: usize = n;
    proof {
        assert(chars@.subrange(0, n as int) =~= chars@);
    }
    while i > 0 && chars[i - 1] != '.'
        invariant
            i <= n,
            n == chars.len(),
            last_dot(chars@) == last_dot(chars@.subrange(0, i as int)),
        decreases i,
    {
        proof {
            assert(chars@.subrange(0, i as int).drop_last() =~= chars@.subrange(0, i - 1));
        }
        i -= 1;
    }
    proof {
        if i > 0 {
            assert(chars@.subrange(0, i as int).last() == '.');
        }
    }
    i
}

/// The extension of a file name, if it has one.
pub fn extension_of(name: &str) -> (ext: Option<String>)
    ensures
        match ext {
            Some(e) => extension(name@) == Some(e@),
            None => extension(name@) is None,
        },
{
    let chars = chars_of(name);
    let n = chars.len();
    let start = after_last_dot(chars.as_slice());
    if start <= 1 {
        return None;
    }
    if n == 2 && chars[0] == '.' && chars[1] == '.' {
        return None;
    }
    let (_, tail) = chars.as_slice().split_at(start);
    let ext = text_of(tail);
    proof {
        assert(tail@ =~= name@.subrange(start as int, n as int));
    }
    Some(ext)
}

/// Whether an extension, already in lowercase, is the one that dynamic
/// libraries carry on `platform`.
pub fn matches_library_extension(lowered: &str, platform: Platform) -> (r: bool)
    ensures
        r == is_library_extension(lowered@, platform),
{
    same_text(lowered, platform.extension())
}

/// Whether a file of this name is taken for a plugin library on
/// `platform`.
pub fn is_plugin_library(name: &str, platform: Platform) -> (r: bool)
    ensures
        r == is_library_name(name@, platform),
{
    match extension_of(name) {
        Some(ext) => {
            let lowered = lowercase(ext.as_str());
            matches_library_extension(lowered.as_str(), platform)
        },
        None => false,
    }
}

/// Whether `name` is among the names already seen.
pub open spec fn seen_before(seen: Seq<Seq<char>>, name: Seq<char>) -> bool {
    seen.contains(name)
}

/// The entries of a listing that a scan tries to load, in listing
/// order: those named like a plugin library of the platform whose name
/// was not seen before, neither in an earlier scan nor earlier in this
/// listing.
pub open spec fn admitted(seen: Seq<Seq<char>>, listing: Seq<String>, platform: Platform) -> Seq<String>
    decreases listing.len(),
{
    if listing.len() == 0 {
        Seq::empty()
    } else if is_library_name(listing[0]@, platform) && !seen_before(seen, listing[0]@) {
        seq![listing[0]] + admitted(seen.push(listing[0]@), listing.drop_first(), platform)
    } else {
        admitted(seen, listing.drop_first(), platform)
    }
}

/// The names seen once a scan has gone through a listing: those seen
/// before, then the names of the admitted entries.
pub open spec fn seen_after(seen: Seq<Seq<char>>, listing: Seq<String>, platform: Platform) -> Seq<Seq<char>>
    decreases listing.len(),
{
    if listing.len() == 0 {
        seen
    } else if is_library_name(listing[0]@, platform) && !seen_before(seen, listing[0]@) {
        seen_after(seen.push(listing[0]@), listing.drop_first(), platform)
    } else {
        seen_after(seen, listing.drop_first(), platform)
    }
}

/// A scan adds to the names seen exactly the names of the entries that
/// it admits, in order.
pub proof fn lemma_seen_after(seen: Seq<Seq<char>>, listing: Seq<String>, platform: Platform)
    ensures
        seen_after(seen, listing, platform) == seen + admitted(seen, listing, platform).map_values(|s: String| s@),
    decreases listing.len(),
{
    let names = |s: String| s@;
    if listing.len() == 0 {
        assert(seen + admitted(seen, listing, platform).map_values(names) =~= seen);
    } else if is_library_name(listing[0]@, platform) && !seen_before(seen, listing[0]@) {
        let next = seen.push(listing[0]@);
        let rest = admitted(next, listing.drop_first(), platform);
        lemma_seen_after(next, listing.drop_first(), platform);
        assert((seq![listing[0]] + rest).map_values(names) =~= seq![listing[0]@]
            + rest.map_values(names));
        assert(next + rest.map_values(names) =~= seen + (seq![listing[0]@] + rest.map_values(
            names,
        )));
    } else {
        lemma_seen_after(seen, listing.drop_first(), platform);
    }
}

/// Every entry that a scan admits is named like a plugin library and
/// was not seen before the scan.
pub proof fn lemma_admitted_is_new(seen: Seq<Seq<char>>, listing: Seq<String>, i: int, platform: Platform)
    requires
        0 <= i < admitted(seen, listing, platform).len(),
    ensures
        is_library_name(admitted(seen, listing, platform)[i]@, platform),
        !seen_before(seen, admitted(seen, listing, platform)[i]@),
    decreases listing.len(),
{
    let rest = listing.drop_first();
    if is_library_name(listing[0]@, platform) && !seen_before(seen, listing[0]@) {
        let next = seen.push(listing[0]@);
        if i > 0 {
            lemma_admitted_is_new(next, rest, i - 1, platform);
            let name = admitted(next, rest, platform)[i - 1]@;
            assert(admitted(seen, listing, platform)[i]@ == name);
            if seen_before(seen, name) {
                let k = choose|k: int| 0 <= k < seen.len() && seen[k] == name;
                assert(next[k] == name);
            }
        }
    } else {
        lemma_admitted_is_new(seen, rest, i, platform);
    }
}

/// No two entries that a scan admits have the same name: no file is
/// tried twice.
pub proof fn lemma_admitted_once(seen: Seq<Seq<char>>, listing: Seq<String>, i: int, j: int, platform: Platform)
    requires
        0 <= i < j < admitted(seen, listing, platform).len(),
    ensures
        admitted(seen, listing, platform)[i]@ != admitted(seen, listing, platform)[j]@,
    decreases listing.len(),
{
    let rest = listing.drop_first();
    if is_library_name(listing[0]@, platform) && !seen_before(seen, listing[0]@) {
        let next = seen.push(listing[0]@);
        assert(admitted(seen, listing, platform)[j] == admitted(next, rest, platform)[j - 1]);
        if i == 0 {
            lemma_admitted_is_new(next, rest, j - 1, platform);
            assert(next[next.len() - 1] == listing[0]@);
        } else {
            assert(admitted(seen, listing, platform)[i] == admitted(next, rest, platform)[i - 1]);
            lemma_admitted_once(next, rest, i - 1, j - 1, platform);
        }
    } else {
        lemma_admitted_once(seen, rest, i, j, platform);
    }
}

/// Where no name was noted twice before a scan, none is after it.
pub proof fn lemma_seen_once(seen: Seq<Seq<char>>, listing: Seq<String>, platform: Platform)
    requires
        seen.no_duplicates(),
    ensures
        seen_after(seen, listing, platform).no_duplicates(),
    decreases listing.len(),
{
    if listing.len() == 0 {
    } else if is_library_name(listing[0]@, platform) && !seen_before(seen, listing[0]@) {
        let next = seen.push(listing[0]@);
        assert forall|i: int, j: int| 0 <= i < next.len() && 0 <= j < next.len() && i != j implies next[i]
            != next[j] by {
            if i < seen.len() && j < seen.len() {
            } else if i < seen.len() {
                assert(seen[i] != listing[0]@);
            } else {
                assert(seen[j] != listing[0]@);
            }
        }
        lemma_seen_once(next, listing.drop_first(), platform);
    } else {
        lemma_seen_once(seen, listing.drop_first(), platform);
    }
}

/// What was seen before a scan is still seen after it.
pub proof fn lemma_seen_stays(seen: Seq<Seq<char>>, listing: Seq<String>, name: Seq<char>, platform: Platform)
    requires
        seen_before(seen, name),
    ensures
        seen_before(seen_after(seen, listing, platform), name),
    decreases listing.len(),
{
    if listing.len() == 0 {
    } else if is_library_name(listing[0]@, platform) && !seen_before(seen, listing[0]@) {
        let next = seen.push(listing[0]@);
        let k = choose|k: int| 0 <= k < seen.len() && seen[k] == name;
        assert(next[k] == name);
        lemma_seen_stays(next, listing.drop_first(), name, platform);
    } else {
        lemma_seen_stays(seen, listing.drop_first(), name, platform);
    }
}

/// After a scan, every entry of the listing that is named like a plugin
/// library counts as seen.
pub proof fn lemma_scan_sees_all(seen: Seq<Seq<char>>, listing: Seq<String>, i: int, platform: Platform)
    requires
        0 <= i < listing.len(),
        is_library_name(listing[i]@, platform),
    ensures
        seen_before(seen_after(seen, listing, platform), listing[i]@),
    decreases listing.len(),
{
    let rest = listing.drop_first();
    if is_library_name(listing[0]@, platform) && !seen_before(seen, listing[0]@) {
        let next = seen.push(listing[0]@);
        assert(next[next.len() - 1] == listing[0]@);
        if i == 0 {
            lemma_seen_stays(next, rest, listing[0]@, platform);
        } else {
            assert(rest[i - 1] == listing[i]);
            lemma_scan_sees_all(next, rest, i - 1, platform);
        }
    } else {
        if i == 0 {
            lemma_seen_stays(seen, rest, listing[0]@, platform);
        } else {
            assert(rest[i - 1] == listing[i]);
            lemma_scan_sees_all(seen, rest, i - 1, platform);
        }
    }
}

/// A scan admits nothing from a listing whose library names were all
/// seen before.
pub proof fn lemma_nothing_new(seen: Seq<Seq<char>>, listing: Seq<String>, platform: Platform)
    requires
        forall|i: int|
            0 <= i < listing.len() && is_library_name(#[trigger] listing[i]@, platform) ==> seen_before(
                seen,
                listing[i]@,
            ),
    ensures
        admitted(seen, listing, platform) == Seq::<String>::empty(),
        seen_after(seen, listing, platform) == seen,
    decreases listing.len(),
{
    if listing.len() > 0 {
        let rest = listing.drop_first();
        assert forall|i: int| 0 <= i < rest.len() && is_library_name(
            #[trigger] rest[i]@,
            platform,
        ) implies seen_before(seen, rest[i]@) by {
            assert(rest[i] == listing[i + 1]);
        }
        lemma_nothing_new(seen, rest, platform);
    }
}

/// A second scan of the same listing admits nothing: what the first
/// scan tried is not tried again.
pub proof fn lemma_rescan_admits_nothing(seen: Seq<Seq<char>>, listing: Seq<String>, platform: Platform)
    ensures
        admitted(seen_after(seen, listing, platform), listing, platform) == Seq::<String>::empty(),
        seen_after(seen_after(seen, listing, platform), listing, platform) == seen_after(seen, listing, platform),
{
    assert forall|i: int| 0 <= i < listing.len() && is_library_name(
        #[trigger] listing[i]@,
        platform,
    ) implies seen_before(seen_after(seen, listing, platform), listing[i]@) by {
        lemma_scan_sees_all(seen, listing, i, platform);
    }
    lemma_nothing_new(seen_after(seen, listing, platform), listing, platform);
}

} // verus!
