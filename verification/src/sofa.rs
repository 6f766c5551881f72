//! The SOFA HRTF browser: the licence classifier and the dialog's state.
//!
//! Two views behind one dialog: the local cache of downloaded files, and
//! sofacoustics.org, reached only after saying yes once per session. The
//! network and disk work runs elsewhere; what is here decides, from the
//! dialog's state and what a finished job hands back, what the dialog shows
//! and what is to be done next.

use vstd::prelude::*;
use crate::text::{
    lemma_absent_char, lemma_trim_clean, lemma_trim_ends, lemma_trim_idempotent, occurs_at,
    chars_of, contains, contains_exec, decimal, equals_exec, extend_str, lower,
    lower_exec, push_decimal, slice_chars, starts_with, starts_with_exec, string_of, trim,
    trim_exec,
};

verus! {

/// What the classifier says of a missing or refused licence.
pub open spec fn no_license_text() -> Seq<char> {
    "no license \u{2014} ask the author"@
}

/// Compact label and warning flag for a `GLOBAL:License` attribute, over the
/// characters of the attribute.
pub open spec fn license_spec(raw: Seq<char>) -> (Seq<char>, bool) {
    let t = trim(raw);
    let l = lower(t);
    if t.len() == 0 {
        (no_license_text(), true)
    } else if contains(l, "cc0"@) || contains(l, "public domain"@) {
        ("CC0 / public domain"@, false)
    } else if contains(l, "by-nc-sa"@) || contains(l, "nc-sa"@) {
        ("CC BY-NC-SA (non-commercial)"@, true)
    } else if contains(l, "by-nc"@) || contains(l, "non-commercial"@) {
        ("CC BY-NC (non-commercial)"@, true)
    } else if contains(l, "by-sa"@) {
        ("CC BY-SA"@, false)
    } else if contains(l, "creativecommons"@) && contains(l, "/by/"@) {
        ("CC BY"@, false)
    } else if starts_with(l, "cc by"@) || l == "cc-by"@ {
        (if t.len() > 30 {
            "CC BY"@
        } else {
            t
        }, false)
    } else if contains(l, "mit license"@) || l == "mit"@ {
        ("MIT"@, false)
    } else if contains(l, "no license"@) {
        (no_license_text(), true)
    } else if t.len() > 60 {
        (t.take(57).push('\u{2026}'), false)
    } else {
        (t, false)
    }
}

/// Compact label and severity for a `GLOBAL:License` attribute. SOFA files
/// embed anything from a short identifier to the full licence paragraph; the
/// common cases are classified and the rest truncated, with the full text in
/// the tooltip. The flag is set for the labels that warn: non-commercial
/// terms and a missing licence.
pub fn license_label(raw: &str) -> (r: (String, bool))
    ensures
        r.0@ == license_spec(raw@).0,
        r.1 == license_spec(raw@).1,
{
    let t = trim_exec(raw);
    let l = lower_exec(&t);
    if t.len() == 0 {
        return ("no license \u{2014} ask the author".to_owned(), true);
    }
    if contains_exec(&l, "cc0") || contains_exec(&l, "public domain") {
        return ("CC0 / public domain".to_owned(), false);
    }
    if contains_exec(&l, "by-nc-sa") || contains_exec(&l, "nc-sa") {
        return ("CC BY-NC-SA (non-commercial)".to_owned(), true);
    }
    if contains_exec(&l, "by-nc") || contains_exec(&l, "non-commercial") {
        return ("CC BY-NC (non-commercial)".to_owned(), true);
    }
    if contains_exec(&l, "by-sa") {
        return ("CC BY-SA".to_owned(), false);
    }
    if contains_exec(&l, "creativecommons") && contains_exec(&l, "/by/") {
        return ("CC BY".to_owned(), false);
    }
    if starts_with_exec(&l, "cc by") || equals_exec(&l, "cc-by") {
        if t.len() > 30 {
            return ("CC BY".to_owned(), false);
        }
        return (string_of(&t), false);
    }
    if contains_exec(&l, "mit license") || equals_exec(&l, "mit") {
        return ("MIT".to_owned(), false);
    }
    if contains_exec(&l, "no license") {
        return ("no license \u{2014} ask the author".to_owned(), true);
    }
    if t.len() > 60 {
        let mut short = slice_chars(&t, 0, 57);
        short.push('\u{2026}');
        assert(short@ =~= t@.take(57).push('\u{2026}'));
        return (string_of(&short), false);
    }
    (string_of(&t), false)
}

/// A label always fits its row: it is never empty and never longer than 60
/// characters, however long the licence paragraph it stands for.
pub proof fn lemma_license_label_fits(raw: Seq<char>)
    ensures
        0 < license_spec(raw).0.len() <= 60,
{
    reveal_strlit("no license \u{2014} ask the author");
    reveal_strlit("CC0 / public domain");
    reveal_strlit("CC BY-NC-SA (non-commercial)");
    reveal_strlit("CC BY-NC (non-commercial)");
    reveal_strlit("CC BY-SA");
    reveal_strlit("CC BY");
    reveal_strlit("MIT");
}

/// The warning flag is raised only for the non-commercial labels and for a
/// missing licence.
pub proof fn lemma_license_warns(raw: Seq<char>)
    ensures
        license_spec(raw).1 ==> (license_spec(raw).0 == no_license_text() || license_spec(raw).0
            == "CC BY-NC-SA (non-commercial)"@ || license_spec(raw).0
            == "CC BY-NC (non-commercial)"@),
{
    reveal_strlit("no license \u{2014} ask the author");
    reveal_strlit("CC0 / public domain");
    reveal_strlit("CC BY-NC-SA (non-commercial)");
    reveal_strlit("CC BY-NC (non-commercial)");
    reveal_strlit("CC BY-SA");
    reveal_strlit("CC BY");
    reveal_strlit("MIT");
}

proof fn lemma_not_starting(s: Seq<char>, p: Seq<char>)
    requires
        s.len() > 0,
        p.len() > 0,
        s[0] != p[0],
    ensures
        !starts_with(s, p),
{
    if starts_with(s, p) {
        assert(s.subrange(0, p.len() as int)[0] == s[0]);
    }
}

proof fn lemma_occurs(s: Seq<char>, p: Seq<char>, i: int)
    requires
        0 <= i,
        i + p.len() <= s.len(),
        s.subrange(i, i + p.len()) =~= p,
    ensures
        contains(s, p),
{
    assert(occurs_at(s, p, i));
}

proof fn lemma_relabel_missing()
    ensures
        license_spec(no_license_text()) == (no_license_text(), true),
{
    reveal_strlit("cc0");
    reveal_strlit("public domain");
    reveal_strlit("by-nc-sa");
    reveal_strlit("nc-sa");
    reveal_strlit("by-nc");
    reveal_strlit("non-commercial");
    reveal_strlit("by-sa");
    reveal_strlit("creativecommons");
    reveal_strlit("/by/");
    reveal_strlit("cc by");
    reveal_strlit("cc-by");
    reveal_strlit("mit license");
    reveal_strlit("mit");
    reveal_strlit("no license");
    reveal_strlit("no license \u{2014} ask the author");
    let t = no_license_text();
    lemma_trim_clean(t);
    let l = lower(t);
    assert(l =~= t);
    lemma_absent_char(l, "cc0"@, 2);
    lemma_absent_char(l, "public domain"@, 0);
    lemma_absent_char(l, "by-nc-sa"@, 1);
    lemma_absent_char(l, "nc-sa"@, 2);
    lemma_absent_char(l, "by-nc"@, 1);
    lemma_absent_char(l, "non-commercial"@, 3);
    lemma_absent_char(l, "by-sa"@, 1);
    lemma_absent_char(l, "creativecommons"@, 6);
    lemma_not_starting(l, "cc by"@);
    lemma_absent_char(l, "mit license"@, 0);
    lemma_occurs(l, "no license"@, 0);
}

proof fn lemma_relabel_cc0()
    ensures
        license_spec("CC0 / public domain"@) == ("CC0 / public domain"@, false),
{
    reveal_strlit("cc0");
    reveal_strlit("public domain");
    reveal_strlit("by-nc-sa");
    reveal_strlit("nc-sa");
    reveal_strlit("by-nc");
    reveal_strlit("non-commercial");
    reveal_strlit("by-sa");
    reveal_strlit("creativecommons");
    reveal_strlit("/by/");
    reveal_strlit("cc by");
    reveal_strlit("cc-by");
    reveal_strlit("mit license");
    reveal_strlit("mit");
    reveal_strlit("no license");
    reveal_strlit("CC0 / public domain");
    let t = "CC0 / public domain"@;
    lemma_trim_clean(t);
    let l = lower(t);
    assert(l =~= "cc0 / public domain"@) by {
        reveal_strlit("cc0 / public domain");
    }
    reveal_strlit("cc0 / public domain");
    lemma_occurs(l, "cc0"@, 0);
}

proof fn lemma_relabel_nc_sa()
    ensures
        license_spec("CC BY-NC-SA (non-commercial)"@) == ("CC BY-NC-SA (non-commercial)"@, true),
{
    reveal_strlit("cc0");
    reveal_strlit("public domain");
    reveal_strlit("by-nc-sa");
    reveal_strlit("nc-sa");
    reveal_strlit("by-nc");
    reveal_strlit("non-commercial");
    reveal_strlit("by-sa");
    reveal_strlit("creativecommons");
    reveal_strlit("/by/");
    reveal_strlit("cc by");
    reveal_strlit("cc-by");
    reveal_strlit("mit license");
    reveal_strlit("mit");
    reveal_strlit("no license");
    reveal_strlit("CC BY-NC-SA (non-commercial)");
    reveal_strlit("cc by-nc-sa (non-commercial)");
    let t = "CC BY-NC-SA (non-commercial)"@;
    lemma_trim_clean(t);
    let l = lower(t);
    assert(l =~= "cc by-nc-sa (non-commercial)"@);
    lemma_absent_char(l, "cc0"@, 2);
    lemma_absent_char(l, "public domain"@, 0);
    lemma_occurs(l, "by-nc-sa"@, 3);
}

proof fn lemma_relabel_nc()
    ensures
        license_spec("CC BY-NC (non-commercial)"@) == ("CC BY-NC (non-commercial)"@, true),
{
    reveal_strlit("cc0");
    reveal_strlit("public domain");
    reveal_strlit("by-nc-sa");
    reveal_strlit("nc-sa");
    reveal_strlit("by-nc");
    reveal_strlit("non-commercial");
    reveal_strlit("by-sa");
    reveal_strlit("creativecommons");
    reveal_strlit("/by/");
    reveal_strlit("cc by");
    reveal_strlit("cc-by");
    reveal_strlit("mit license");
    reveal_strlit("mit");
    reveal_strlit("no license");
    reveal_strlit("CC BY-NC (non-commercial)");
    reveal_strlit("cc by-nc (non-commercial)");
    let t = "CC BY-NC (non-commercial)"@;
    lemma_trim_clean(t);
    let l = lower(t);
    assert(l =~= "cc by-nc (non-commercial)"@);
    lemma_absent_char(l, "cc0"@, 2);
    lemma_absent_char(l, "public domain"@, 0);
    lemma_absent_char(l, "by-nc-sa"@, 6);
    lemma_absent_char(l, "nc-sa"@, 3);
    lemma_occurs(l, "by-nc"@, 3);
}

proof fn lemma_relabel_sa()
    ensures
        license_spec("CC BY-SA"@) == ("CC BY-SA"@, false),
{
    reveal_strlit("cc0");
    reveal_strlit("public domain");
    reveal_strlit("by-nc-sa");
    reveal_strlit("nc-sa");
    reveal_strlit("by-nc");
    reveal_strlit("non-commercial");
    reveal_strlit("by-sa");
    reveal_strlit("creativecommons");
    reveal_strlit("/by/");
    reveal_strlit("cc by");
    reveal_strlit("cc-by");
    reveal_strlit("mit license");
    reveal_strlit("mit");
    reveal_strlit("no license");
    reveal_strlit("CC BY-SA");
    reveal_strlit("cc by-sa");
    let t = "CC BY-SA"@;
    lemma_trim_clean(t);
    let l = lower(t);
    assert(l =~= "cc by-sa"@);
    lemma_absent_char(l, "cc0"@, 2);
    lemma_absent_char(l, "public domain"@, 0);
    lemma_absent_char(l, "by-nc-sa"@, 3);
    lemma_absent_char(l, "nc-sa"@, 0);
    lemma_absent_char(l, "by-nc"@, 3);
    lemma_absent_char(l, "non-commercial"@, 0);
    lemma_occurs(l, "by-sa"@, 3);
}

proof fn lemma_relabel_by()
    ensures
        license_spec("CC BY"@) == ("CC BY"@, false),
{
    reveal_strlit("cc0");
    reveal_strlit("public domain");
    reveal_strlit("by-nc-sa");
    reveal_strlit("nc-sa");
    reveal_strlit("by-nc");
    reveal_strlit("non-commercial");
    reveal_strlit("by-sa");
    reveal_strlit("creativecommons");
    reveal_strlit("/by/");
    reveal_strlit("cc by");
    reveal_strlit("cc-by");
    reveal_strlit("mit license");
    reveal_strlit("mit");
    reveal_strlit("no license");
    reveal_strlit("CC BY");
    let t = "CC BY"@;
    lemma_trim_clean(t);
    let l = lower(t);
    assert(l =~= "cc by"@);
    lemma_absent_char(l, "cc0"@, 2);
    lemma_absent_char(l, "public domain"@, 0);
    lemma_absent_char(l, "by-nc-sa"@, 2);
    lemma_absent_char(l, "nc-sa"@, 2);
    lemma_absent_char(l, "by-nc"@, 2);
    lemma_absent_char(l, "non-commercial"@, 3);
    lemma_absent_char(l, "by-sa"@, 2);
    lemma_absent_char(l, "creativecommons"@, 1);
    lemma_occurs(l, "cc by"@, 0);
}

proof fn lemma_relabel_mit()
    ensures
        license_spec("MIT"@) == ("MIT"@, false),
{
    reveal_strlit("cc0");
    reveal_strlit("public domain");
    reveal_strlit("by-nc-sa");
    reveal_strlit("nc-sa");
    reveal_strlit("by-nc");
    reveal_strlit("non-commercial");
    reveal_strlit("by-sa");
    reveal_strlit("creativecommons");
    reveal_strlit("/by/");
    reveal_strlit("cc by");
    reveal_strlit("cc-by");
    reveal_strlit("mit license");
    reveal_strlit("mit");
    reveal_strlit("no license");
    reveal_strlit("MIT");
    let t = "MIT"@;
    lemma_trim_clean(t);
    let l = lower(t);
    assert(l =~= "mit"@);
    lemma_absent_char(l, "cc0"@, 2);
    lemma_absent_char(l, "public domain"@, 0);
    lemma_absent_char(l, "by-nc-sa"@, 0);
    lemma_absent_char(l, "nc-sa"@, 0);
    lemma_absent_char(l, "by-nc"@, 0);
    lemma_absent_char(l, "non-commercial"@, 0);
    lemma_absent_char(l, "by-sa"@, 0);
    lemma_absent_char(l, "creativecommons"@, 0);
    lemma_not_starting(l, "cc by"@);
    lemma_absent_char(l, "mit license"@, 3);
}

/// An occurrence in a cut label (57 characters and an ellipsis) of a
/// pattern that does not end with the ellipsis is one in the text it cut.
proof fn lemma_cut_contains(l: Seq<char>, p: Seq<char>)
    requires
        l.len() > 57,
        p.len() > 0,
        p.last() != '\u{2026}',
        contains(l.take(57).push('\u{2026}'), p),
    ensures
        contains(l, p),
{
    let c = l.take(57).push('\u{2026}');
    let i = choose|i: int| occurs_at(c, p, i);
    if i + p.len() == 58 {
        assert(c.subrange(i, i + p.len())[p.len() - 1] == c[57]);
    }
    assert(l.subrange(i, i + p.len()) =~= c.subrange(i, i + p.len()));
    assert(occurs_at(l, p, i));
}

/// A label cut to 57 characters and an ellipsis classifies as itself.
proof fn lemma_relabel_cut(raw: Seq<char>)
    requires
        trim(raw).len() > 60,
        license_spec(raw) == (trim(raw).take(57).push('\u{2026}'), false),
        !contains(lower(trim(raw)), "cc0"@),
        !contains(lower(trim(raw)), "public domain"@),
        !contains(lower(trim(raw)), "by-nc-sa"@),
        !contains(lower(trim(raw)), "nc-sa"@),
        !contains(lower(trim(raw)), "by-nc"@),
        !contains(lower(trim(raw)), "non-commercial"@),
        !contains(lower(trim(raw)), "by-sa"@),
        !(contains(lower(trim(raw)), "creativecommons"@) && contains(lower(trim(raw)), "/by/"@)),
        !starts_with(lower(trim(raw)), "cc by"@),
        !contains(lower(trim(raw)), "mit license"@),
        !contains(lower(trim(raw)), "no license"@),
    ensures
        license_spec(license_spec(raw).0) == license_spec(raw),
{
    reveal_strlit("cc0");
    reveal_strlit("public domain");
    reveal_strlit("by-nc-sa");
    reveal_strlit("nc-sa");
    reveal_strlit("by-nc");
    reveal_strlit("non-commercial");
    reveal_strlit("by-sa");
    reveal_strlit("creativecommons");
    reveal_strlit("/by/");
    reveal_strlit("cc by");
    reveal_strlit("cc-by");
    reveal_strlit("mit license");
    reveal_strlit("mit");
    reveal_strlit("no license");
    let t = trim(raw);
    let l = lower(t);
    let c = t.take(57).push('\u{2026}');
    lemma_trim_ends(raw);
    assert(c[0] == t[0]);
    lemma_trim_clean(c);
    let lc = lower(c);
    assert(lc =~= l.take(57).push('\u{2026}'));
    if contains(lc, "cc0"@) {
        lemma_cut_contains(l, "cc0"@);
    }
    if contains(lc, "public domain"@) {
        lemma_cut_contains(l, "public domain"@);
    }
    if contains(lc, "by-nc-sa"@) {
        lemma_cut_contains(l, "by-nc-sa"@);
    }
    if contains(lc, "nc-sa"@) {
        lemma_cut_contains(l, "nc-sa"@);
    }
    if contains(lc, "by-nc"@) {
        lemma_cut_contains(l, "by-nc"@);
    }
    if contains(lc, "non-commercial"@) {
        lemma_cut_contains(l, "non-commercial"@);
    }
    if contains(lc, "by-sa"@) {
        lemma_cut_contains(l, "by-sa"@);
    }
    if contains(lc, "creativecommons"@) {
        lemma_cut_contains(l, "creativecommons"@);
    }
    if contains(lc, "/by/"@) {
        lemma_cut_contains(l, "/by/"@);
    }
    if starts_with(lc, "cc by"@) {
        assert(l.subrange(0, 5) =~= lc.subrange(0, 5));
    }
    if contains(lc, "mit license"@) {
        lemma_cut_contains(l, "mit license"@);
    }
    if contains(lc, "no license"@) {
        lemma_cut_contains(l, "no license"@);
    }
}

/// Classifying a label again gives the same label and the same warning.
pub proof fn lemma_license_label_is_stable(raw: Seq<char>)
    ensures
        license_spec(license_spec(raw).0) == license_spec(raw),
{
    let t = trim(raw);
    let l = lower(t);
    lemma_trim_idempotent(raw);
    lemma_relabel_missing();
    lemma_relabel_cc0();
    lemma_relabel_nc_sa();
    lemma_relabel_nc();
    lemma_relabel_sa();
    lemma_relabel_by();
    lemma_relabel_mit();
    if t.len() > 0 && !(contains(l, "cc0"@) || contains(l, "public domain"@)) && !(contains(
        l,
        "by-nc-sa"@,
    ) || contains(l, "nc-sa"@)) && !(contains(l, "by-nc"@) || contains(l, "non-commercial"@))
        && !contains(l, "by-sa"@) && !(contains(l, "creativecommons"@) && contains(l, "/by/"@))
        && !(starts_with(l, "cc by"@) || l == "cc-by"@) && !(contains(l, "mit license"@) || l
        == "mit"@) && !contains(l, "no license"@) && t.len() > 60 {
        lemma_relabel_cut(raw);
    }
}

/// Where the browser starts online: the per-subject HRTF sets live under
/// `database/`, not at the root.
pub const START_PATH: &'static str = "database/";

/// Which view the dialog is showing.
#[derive(Clone, Copy, Debug, Default, PartialEq, Eq, Structural)]
pub enum BrowserView {
    /// The local cache.
    #[default]
    Local,
    /// A folder of sofacoustics.org.
    Remote,
    /// "this will connect to sofacoustics.org", asked once per session.
    OnlineConfirm,
    /// "delete all N cached files?"
    ConfirmDeleteAll,
}

/// What a SOFA file says of itself.
pub struct SofaMeta {
    pub license: String,
    pub organization: String,
    pub author: String,
}

/// A file of the local cache.
pub struct LocalSofa {
    pub name: String,
    /// Where the file is, as the renderer is told it.
    pub path: String,
    pub size: String,
    pub meta: SofaMeta,
}

/// An entry of a remote folder: a subfolder or a file.
pub struct SofaEntry {
    pub name: String,
    /// Percent-encoded, relative to the folder.
    pub href: String,
    pub size: String,
    pub dir: bool,
}

/// What a finished job hands back.
#[allow(inconsistent_fields)]
pub enum Job {
    Listed(Result<Vec<LocalSofa>, String>),
    Browsed(Result<Vec<SofaEntry>, String>),
    Downloaded { name: String, remote: String, result: Result<(String, SofaMeta), String> },
    Uploaded { name: String, result: Result<u32, String> },
    Imported(Result<usize, String>),
}

/// What the dialog asks to be done next.
#[derive(Debug, PartialEq, Eq)]
pub enum SofaAction {
    Nothing,
    /// List the local cache.
    ListLocal,
    /// List a remote folder.
    Browse(String),
    /// Tell the renderer to use the file at this path.
    Activate(String),
}

/// The dialog's state. The job running and the download in flight are the
/// caller's; `busy` says whether there is one.
pub struct SofaBrowser {
    pub view: BrowserView,
    /// Percent-encoded remote path, "" = root.
    pub path: String,
    pub entries: Vec<SofaEntry>,
    pub local: Vec<LocalSofa>,
    /// The status line: its text, and whether it is an error.
    pub status: Option<(String, bool)>,
    /// A job is running: every control that would start another is refused.
    pub busy: bool,
    /// Going online is agreed to once, and the agreement lasts the session.
    pub online_consent: bool,
    /// Remote path of the active file, so the entry stays marked while
    /// navigating away and back.
    pub active_remote: String,
}

/// The status a text sets: none for an empty text.
pub open spec fn status_for(text: Seq<char>, error: bool) -> Option<(Seq<char>, bool)> {
    if text.len() == 0 {
        None
    } else {
        Some((text, error))
    }
}

pub open spec fn status_view(status: Option<(String, bool)>) -> Option<(Seq<char>, bool)> {
    match status {
        Some((t, e)) => Some((t@, e)),
        None => None,
    }
}

/// The status after a finished job, when the job sets one.
pub open spec fn activated_text(name: Seq<char>, label: Seq<char>) -> Seq<char> {
    "\u{2713} Active: "@ + name + " \u{2014} \u{2696} "@ + label
}

pub open spec fn sent_text(name: Seq<char>, chunks: nat) -> Seq<char> {
    "\u{2713} Sent "@ + name + " ("@ + decimal(chunks)
        + " chunks) \u{2014} the renderer stores and activates it (see the HRTF file line)."@
}

pub open spec fn imported_text(done: nat) -> Seq<char> {
    "\u{2713} Imported "@ + decimal(done) + " file"@ + (if done > 1 {
        "s"@
    } else {
        ""@
    }) + "."@
}

impl SofaBrowser {
    pub open spec fn status_of(&self) -> Option<(Seq<char>, bool)> {
        status_view(self.status)
    }

    /// Set the status line: an empty text clears it.
    pub fn status(&mut self, text: String, error: bool)
        ensures
            final(self).status_of() == status_for(text@, error),
            final(self).view == old(self).view,
            final(self).path == old(self).path,
            final(self).entries == old(self).entries,
            final(self).local == old(self).local,
            final(self).busy == old(self).busy,
            final(self).online_consent == old(self).online_consent,
            final(self).active_remote == old(self).active_remote,
    {
        self.status = if text.as_str().is_empty() {
            None
        } else {
            Some((text, error))
        };
    }

    /// The dialog opened on the local cache: online consent carries over
    /// from the session's previous dialog. The listing is then the caller's
    /// to start.
    pub fn open(online_consent: bool) -> (b: SofaBrowser)
        ensures
            b.view == BrowserView::Local,
            b.path@ == START_PATH@,
            b.entries@.len() == 0,
            b.local@.len() == 0,
            b.status is None,
            !b.busy,
            b.online_consent == online_consent,
            b.active_remote@.len() == 0,
    {
        SofaBrowser {
            view: BrowserView::Local,
            path: START_PATH.to_owned(),
            entries: Vec::new(),
            local: Vec::new(),
            status: None,
            busy: false,
            online_consent,
            active_remote: String::new(),
        }
    }

    /// The state part of listing the local cache: the local view, no status.
    pub fn list_local(&mut self)
        ensures
            final(self).view == BrowserView::Local,
            final(self).status is None,
            final(self).path == old(self).path,
            final(self).entries == old(self).entries,
            final(self).local == old(self).local,
            final(self).busy == old(self).busy,
            final(self).online_consent == old(self).online_consent,
            final(self).active_remote == old(self).active_remote,
    {
        self.view = BrowserView::Local;
        self.status = None;
    }

    /// The state part of browsing a remote folder: the remote view on that
    /// folder, and "Loading…".
    pub fn browse(&mut self, path: String)
        ensures
            final(self).view == BrowserView::Remote,
            final(self).path == path,
            final(self).status_of() == Some(("Loading\u{2026}"@, false)),
            final(self).entries == old(self).entries,
            final(self).local == old(self).local,
            final(self).busy == old(self).busy,
            final(self).online_consent == old(self).online_consent,
            final(self).active_remote == old(self).active_remote,
    {
        self.view = BrowserView::Remote;
        self.path = path;
        proof {
            reveal_strlit("Loading\u{2026}");
        }
        self.status("Loading\u{2026}".to_owned(), false);
    }

    /// A job has been started: the dialog is busy until it answers.
    pub fn start_job(&mut self)
        ensures
            final(self).busy,
            final(self).view == old(self).view,
            final(self).path == old(self).path,
            final(self).status == old(self).status,
            final(self).online_consent == old(self).online_consent,
    {
        self.busy = true;
    }

    /// The source button: back to the local cache from the remote view;
    /// online at once when going online was agreed to; else the question.
    /// Refused while a job runs.
    pub fn toggle_source(&mut self) -> (action: SofaAction)
        ensures
            old(self).busy ==> action == SofaAction::Nothing && final(self).view == old(
                self,
            ).view && final(self).status == old(self).status,
            !old(self).busy && old(self).view == BrowserView::Remote ==> action == SofaAction::ListLocal
                && final(self).view == BrowserView::Local && final(self).status is None,
            !old(self).busy && old(self).view != BrowserView::Remote && old(self).online_consent
                ==> action == SofaAction::Browse(old(self).path) && final(self).view
                == BrowserView::Remote && final(self).path == old(self).path && final(self).status_of()
                == Some(("Loading\u{2026}"@, false)),
            !old(self).busy && old(self).view != BrowserView::Remote && !old(self).online_consent
                ==> action == SofaAction::Nothing && final(self).view == BrowserView::OnlineConfirm
                && final(self).status is None,
            final(self).online_consent == old(self).online_consent,
            final(self).busy == old(self).busy,
            final(self).local == old(self).local,
            final(self).entries == old(self).entries,
    {
        if self.busy {
            return SofaAction::Nothing;
        }
        match self.view {
            BrowserView::Remote => {
                self.list_local();
                SofaAction::ListLocal
            },
            _ => {
                if self.online_consent {
                    let path = self.path.clone();
                    self.browse(path);
                    SofaAction::Browse(self.path.clone())
                } else {
                    self.view = BrowserView::OnlineConfirm;
                    self.status = None;
                    SofaAction::Nothing
                }
            },
        }
    }

    /// A finished job's answer: the dialog is no longer busy, takes what the
    /// job found, and says how it went. A download that succeeded is to be
    /// activated; an import is followed by a fresh listing.
    pub fn finish_job(&mut self, job: Job) -> (action: SofaAction)
        ensures
            !final(self).busy,
            final(self).online_consent == old(self).online_consent,
            final(self).path == old(self).path,
            final(self).local == match job {
                Job::Listed(Ok(files)) => files,
                _ => old(self).local,
            },
            final(self).entries == match job {
                Job::Browsed(Ok(entries)) => entries,
                _ => old(self).entries,
            },
            final(self).view == match job {
                Job::Imported(_) => BrowserView::Local,
                _ => old(self).view,
            },
            final(self).active_remote == match job {
                Job::Downloaded { remote, result: Ok(_), .. } => remote,
                _ => old(self).active_remote,
            },
            match job {
                Job::Listed(Ok(files)) => action == SofaAction::Nothing && final(self).local
                    == files && final(self).status == old(self).status && final(self).view
                    == old(self).view,
                Job::Browsed(Ok(entries)) => action == SofaAction::Nothing && final(self).entries
                    == entries && final(self).status is None && final(self).view == old(
                    self,
                ).view,
                Job::Listed(Err(e)) => action == SofaAction::Nothing && final(self).status_of()
                    == status_for(e@, true) && final(self).local == old(self).local,
                Job::Browsed(Err(e)) => action == SofaAction::Nothing && final(self).status_of()
                    == status_for(e@, true) && final(self).entries == old(self).entries,
                Job::Downloaded { name, remote, result } => match result {
                    Ok((path, meta)) => action == SofaAction::Activate(path)
                        && final(self).active_remote == remote && final(self).status_of()
                        == status_for(
                        activated_text(name@, license_spec(meta.license@).0),
                        license_spec(meta.license@).1,
                    ),
                    Err(e) => action == SofaAction::Nothing && final(self).active_remote == old(
                        self,
                    ).active_remote && if contains(e@, "cancelled"@) {
                        final(self).status_of() == Some(("Download cancelled."@, false))
                    } else {
                        final(self).status_of() == status_for(e@, true)
                    },
                },
                Job::Uploaded { name, result } => action == SofaAction::Nothing && match result {
                    Ok(chunks) => final(self).status_of() == Some(
                        (sent_text(name@, chunks as nat), false),
                    ),
                    Err(e) => final(self).status_of() == status_for(e@, true),
                },
                Job::Imported(result) => action == SofaAction::ListLocal && final(self).view
                    == BrowserView::Local && match result {
                    Ok(done) => final(self).status_of() == Some(
                        (imported_text(done as nat), false),
                    ),
                    Err(e) => final(self).status_of() == status_for(e@, true),
                },
            },
    {
        self.busy = false;
        match job {
            Job::Listed(Ok(files)) => {
                self.local = files;
                SofaAction::Nothing
            },
            Job::Browsed(Ok(entries)) => {
                self.entries = entries;
                self.status = None;
                SofaAction::Nothing
            },
            Job::Listed(Err(error)) => {
                self.status(error, true);
                SofaAction::Nothing
            },
            Job::Browsed(Err(error)) => {
                self.status(error, true);
                SofaAction::Nothing
            },
            Job::Downloaded { name, remote, result } => match result {
                Ok((path, meta)) => {
                    let (label, warn) = license_label(meta.license.as_str());
                    let mut text: Vec<char> = Vec::new();
                    extend_str(&mut text, "\u{2713} Active: ");
                    extend_str(&mut text, name.as_str());
                    extend_str(&mut text, " \u{2014} \u{2696} ");
                    extend_str(&mut text, label.as_str());
                    self.active_remote = remote;
                    self.status(string_of(&text), warn);
                    SofaAction::Activate(path)
                },
                Err(error) => {
                    let ev = chars_of(error.as_str());
                    if contains_exec(&ev, "cancelled") {
                        proof {
                            reveal_strlit("Download cancelled.");
                        }
                        self.status("Download cancelled.".to_owned(), false);
                    } else {
                        self.status(error, true);
                    }
                    SofaAction::Nothing
                },
            },
            Job::Uploaded { name, result } => {
                match result {
                    Ok(chunks) => {
                        let mut text: Vec<char> = Vec::new();
                        extend_str(&mut text, "\u{2713} Sent ");
                        extend_str(&mut text, name.as_str());
                        extend_str(&mut text, " (");
                        push_decimal(&mut text, chunks as u64);
                        extend_str(
                            &mut text,
                            " chunks) \u{2014} the renderer stores and activates it (see the HRTF file line).",
                        );
                        proof {
                            reveal_strlit("\u{2713} Sent ");
                        }
                        self.status(string_of(&text), false);
                    },
                    Err(error) => self.status(error, true),
                }
                SofaAction::Nothing
            },
            Job::Imported(result) => {
                self.list_local();
                match result {
                    Ok(done) => {
                        let mut text: Vec<char> = Vec::new();
                        extend_str(&mut text, "\u{2713} Imported ");
                        push_decimal(&mut text, done as u64);
                        extend_str(&mut text, " file");
                        if done > 1 {
                            extend_str(&mut text, "s");
                        } else {
                            extend_str(&mut text, "");
                        }
                        extend_str(&mut text, ".");
                        proof {
                            reveal_strlit("\u{2713} Imported ");
                        }
                        self.status(string_of(&text), false);
                    },
                    Err(error) => self.status(error, true),
                }
                SofaAction::ListLocal
            },
        }
    }

    /// The job went away without answering: the dialog is no longer busy,
    /// and nothing else changes.
    pub fn lose_job(&mut self)
        ensures
            !final(self).busy,
            final(self).view == old(self).view,
            final(self).path == old(self).path,
            final(self).entries == old(self).entries,
            final(self).local == old(self).local,
            final(self).status == old(self).status,
            final(self).online_consent == old(self).online_consent,
            final(self).active_remote == old(self).active_remote,
    {
        self.busy = false;
    }

    /// Starting a download: the status says what is fetched, and the file's
    /// remote path (the folder's path and the entry's link) is returned.
    pub fn start_download(&mut self, entry: &SofaEntry) -> (remote: String)
        ensures
            remote@ == old(self).path@ + entry.href@,
            final(self).status_of() == Some(
                ("Downloading "@ + entry.name@ + " ("@ + entry.size@ + ")\u{2026}"@, false),
            ),
            final(self).view == old(self).view,
            final(self).path == old(self).path,
            final(self).busy == old(self).busy,
            final(self).online_consent == old(self).online_consent,
            final(self).active_remote == old(self).active_remote,
    {
        let mut r: Vec<char> = chars_of(self.path.as_str());
        extend_str(&mut r, entry.href.as_str());
        let mut text: Vec<char> = Vec::new();
        extend_str(&mut text, "Downloading ");
        extend_str(&mut text, entry.name.as_str());
        extend_str(&mut text, " (");
        extend_str(&mut text, entry.size.as_str());
        extend_str(&mut text, ")\u{2026}");
        proof {
            reveal_strlit("Downloading ");
        }
        self.status(string_of(&text), false);
        string_of(&r)
    }

    /// Starting an upload to the renderer: the status says what is sent.
    pub fn start_upload(&mut self, name: &str)
        ensures
            final(self).status_of() == Some(
                ("Uploading "@ + name@ + " to the renderer\u{2026}"@, false),
            ),
            final(self).view == old(self).view,
            final(self).path == old(self).path,
            final(self).busy == old(self).busy,
            final(self).online_consent == old(self).online_consent,
    {
        let mut text: Vec<char> = Vec::new();
        extend_str(&mut text, "Uploading ");
        extend_str(&mut text, name);
        extend_str(&mut text, " to the renderer\u{2026}");
        proof {
            reveal_strlit("Uploading ");
        }
        self.status(string_of(&text), false);
    }

    /// A deletion done: on success the cache is listed again and the note
    /// shown; on failure the error is shown and nothing else changes.
    pub fn finish_delete(&mut self, result: Result<(), String>, note: String) -> (action: SofaAction)
        ensures
            match result {
                Ok(_) => action == SofaAction::ListLocal && final(self).view == BrowserView::Local
                    && final(self).status_of() == status_for(note@, false),
                Err(e) => action == SofaAction::Nothing && final(self).view == old(self).view
                    && final(self).status_of() == status_for(e@, true),
            },
            final(self).busy == old(self).busy,
            final(self).online_consent == old(self).online_consent,
    {
        match result {
            Ok(()) => {
                self.list_local();
                self.status(note, false);
                SofaAction::ListLocal
            },
            Err(error) => {
                self.status(error, true);
                SofaAction::Nothing
            },
        }
    }

    /// Whether a remote entry is the active file: a file whose remote path
    /// is the one last activated.
    pub fn entry_is_active(&self, entry: &SofaEntry) -> (r: bool)
        ensures
            r == (!entry.dir && self.path@ + entry.href@ == self.active_remote@),
    {
        if entry.dir {
            return false;
        }
        let mut r: Vec<char> = chars_of(self.path.as_str());
        extend_str(&mut r, entry.href.as_str());
        let active = chars_of(self.active_remote.as_str());
        crate::text::equals_vec(&r, &active)
    }
}

/// The HRIR source the renderer is told to use for a file.
pub fn hrir_source(path: &str) -> (r: String)
    ensures
        r@ == "sofa:"@ + path@,
{
    let mut v: Vec<char> = Vec::new();
    extend_str(&mut v, "sofa:");
    extend_str(&mut v, path);
    string_of(&v)
}

} // verus!
