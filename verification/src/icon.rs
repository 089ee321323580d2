//! Icons of applications, taken from their desktop entries.
//!
//! A desktop entry is a file whose name, without its extension, is the
//! application id, and which may declare the name of an icon. An application
//! without an entry, or with one that declares no icon or cannot be parsed,
//! gets a fixed icon.
use vstd::prelude::*;
use freedesktop_desktop_entry::DesktopEntry;

verus! {

/// One desktop entry file, as a mathematical value.
pub struct DesktopFileView {
    pub stem: Seq<char>,
    pub path: Seq<char>,
}

/// One desktop entry file: where it lies, and its name without the extension.
#[derive(Debug, Clone, PartialEq, Eq)]
pub struct DesktopFile {
    pub stem: String,
    pub path: String,
}

impl View for DesktopFile {
    type V = DesktopFileView;

    open spec fn view(&self) -> DesktopFileView {
        DesktopFileView { stem: self.stem@, path: self.path@ }
    }
}

/// The entry files of a list, as mathematical values.
pub open spec fn file_views(v: Seq<DesktopFile>) -> Seq<DesktopFileView> {
    Seq::new(v.len(), |i: int| v[i]@)
}

/// The icon that the desktop entry with this path and these contents
/// declares, as the parser of `freedesktop_desktop_entry` reads it; `None`
/// where the contents do not parse or declare no icon.
pub uninterp spec fn desktop_entry_icon(path: Seq<char>, data: Seq<char>) -> Option<Seq<char>>;

/// The icon of an application without one of its own.
pub open spec fn default_icon() -> Seq<char> {
    "application-x-executable"@
}

/// The view of an optional text.
pub open spec fn text_view(t: Option<String>) -> Option<Seq<char>> {
    match t {
        Some(s) => Some(s@),
        None => None,
    }
}

/// The icon to show, given what the entry declares.
pub open spec fn icon_from(declared: Option<Seq<char>>) -> Seq<char> {
    match declared {
        Some(icon) => icon,
        None => default_icon(),
    }
}

/// The icon to show for an entry, given its path and what reading it gave:
/// its contents, or nothing where it could not be read.
pub open spec fn resolved_icon(path: Seq<char>, contents: Option<Seq<char>>) -> Seq<char> {
    match contents {
        Some(data) => icon_from(desktop_entry_icon(path, data)),
        None => default_icon(),
    }
}

/// The first entry of the list whose stem is the application id.
pub open spec fn is_entry_for(entries: Seq<DesktopFileView>, app_id: Seq<char>, i: int) -> bool {
    &&& 0 <= i < entries.len()
    &&& entries[i].stem == app_id
    &&& forall|j: int| 0 <= j < i ==> (#[trigger] entries[j]).stem != app_id
}

/// The list has no entry for the application id.
pub open spec fn has_no_entry(entries: Seq<DesktopFileView>, app_id: Seq<char>) -> bool {
    forall|j: int| 0 <= j < entries.len() ==> (#[trigger] entries[j]).stem != app_id
}

/// The path of the first entry of the list whose stem is the application id.
pub open spec fn entry_path(entries: Seq<DesktopFileView>, app_id: Seq<char>) -> Option<Seq<char>>
    decreases entries.len(),
{
    if entries.len() == 0 {
        None
    } else if entries[0].stem == app_id {
        Some(entries[0].path)
    } else {
        entry_path(entries.drop_first(), app_id)
    }
}

/// [`entry_path`] is the path of the first entry for the application id, and
/// `None` where there is none.
pub proof fn lemma_entry_path(entries: Seq<DesktopFileView>, app_id: Seq<char>)
    ensures
        forall|i: int|
            is_entry_for(entries, app_id, i) ==> entry_path(entries, app_id) == Some(
                entries[i].path,
            ),
        has_no_entry(entries, app_id) ==> entry_path(entries, app_id) is None,
    decreases entries.len(),
{
    if entries.len() > 0 {
        let rest = entries.drop_first();
        lemma_entry_path(rest, app_id);
        assert forall|i: int| is_entry_for(entries, app_id, i) implies entry_path(entries, app_id)
            == Some(entries[i].path) by {
            if entries[0].stem != app_id {
                assert(i > 0);
                assert(rest[i - 1] == entries[i]);
                assert forall|j: int|
                    0 <= j < i - 1 implies (#[trigger] rest[j]).stem != app_id by {
                    assert(rest[j] == entries[j + 1]);
                }
                assert(is_entry_for(rest, app_id, i - 1));
            } else {
                if i > 0 {
                    assert(entries[0].stem != app_id);
                }
            }
        }
        if has_no_entry(entries, app_id) {
            assert(entries[0].stem != app_id);
            assert forall|j: int|
                0 <= j < rest.len() implies (#[trigger] rest[j]).stem != app_id by {
                assert(rest[j] == entries[j + 1]);
            }
        }
    }
}

/// `DesktopEntry::from_str` without a locale filter, then
/// `DesktopEntry::icon`: parses the contents of the entry file at `path` and
/// returns the value of the key `Icon` in its group `Desktop Entry`. The
/// result depends on the two texts alone.
#[verifier::external_body]
fn decode_icon(path: &str, data: &str) -> (icon: Option<String>)
    ensures
        text_view(icon) == desktop_entry_icon(path@, data@),
{
    match DesktopEntry::from_str(path, data, None::<&[&str]>) {
        Ok(entry) => entry.icon().map(str::to_owned),
        Err(_) => None,
    }
}

/// The icon of an application without one of its own.
pub fn default_icon_name() -> (icon: String)
    ensures
        icon@ == default_icon(),
{
    String::from_str("application-x-executable")
}

/// The icon to show, given what the entry declares.
pub fn icon_or_default(declared: Option<String>) -> (icon: String)
    ensures
        icon@ == icon_from(text_view(declared)),
{
    match declared {
        Some(icon) => icon,
        None => default_icon_name(),
    }
}

/// The icon to show for the entry file at `path`, given what reading it gave:
/// its contents, or nothing where it could not be read.
pub fn resolve_icon(path: &str, contents: Option<&str>) -> (icon: String)
    ensures
        icon@ == resolved_icon(
            path@,
            match contents {
                Some(data) => Some(data@),
                None => None,
            },
        ),
{
    match contents {
        Some(data) => icon_or_default(decode_icon(path, data)),
        None => default_icon_name(),
    }
}

/// Looks up the entry file of an application: the first of the list whose
/// stem is the application id.
pub fn find_entry(entries: &Vec<DesktopFile>, app_id: &str) -> (r: Option<usize>)
    ensures
        match r {
            Some(i) => is_entry_for(file_views(entries@), app_id@, i as int),
            None => has_no_entry(file_views(entries@), app_id@),
        },
{
    let id: String = String::from_str(app_id);
    let mut i: usize = 0;
    while i < entries.len()
        invariant
            0 <= i <= entries@.len(),
            id@ == app_id@,
            forall|j: int| 0 <= j < i ==> (#[trigger] file_views(entries@)[j]).stem != app_id@,
        decreases entries@.len() - i,
    {
        if entries[i].stem == id {
            return Some(i);
        }
        i = i + 1;
    }
    None
}

} // verus!
