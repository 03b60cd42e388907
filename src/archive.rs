use vstd::prelude::*;

use crate::session::append_bytes;

verus! {

/// What an entry of the container is, by its path.
#[derive(Clone, Copy, Debug, PartialEq, Eq, Structural)]
pub enum Role {
    Html,
    Css,
    Other,
}

/// How an output entry is compressed.
#[derive(Clone, Copy, Debug, PartialEq, Eq, Structural)]
pub enum Compression {
    Stored,
    Deflated,
}

#[derive(Clone, Copy, Debug, PartialEq, Eq, Structural)]
pub enum ArchiveError {
    /// The first entry is not named "mimetype": the file is no EPUB container.
    NotEpub,
}

/// One entry to be written to the output container.
pub struct OutputEntry {
    pub path: Vec<u8>,
    pub data: Vec<u8>,
    pub compression: Compression,
}

/// What to do with one input entry.
pub enum EntryAction {
    /// The entry is a readable HTML document: annotate this text.
    Annotate(Vec<u8>),
    /// Write these bytes as the entry's content.
    Write(Vec<u8>),
}

/// Whether the bytes are valid UTF-8.
pub uninterp spec fn is_utf8(b: Seq<u8>) -> bool;

/// Relies on std::str::from_utf8: it succeeds exactly on valid UTF-8.
#[verifier::external_body]
fn utf8_valid(b: &[u8]) -> (r: bool)
    ensures
        r == is_utf8(b@),
{
    std::str::from_utf8(b).is_ok()
}

pub open spec fn mimetype_name() -> Seq<u8> {
    seq![109u8, 105u8, 109u8, 101u8, 116u8, 121u8, 112u8, 101u8]
}

/// "application/epub+zip".
pub open spec fn epub_media_type() -> Seq<u8> {
    seq![
        97u8, 112u8, 112u8, 108u8, 105u8, 99u8, 97u8, 116u8, 105u8, 111u8, 110u8, 47u8, 101u8,
        112u8, 117u8, 98u8, 43u8, 122u8, 105u8, 112u8,
    ]
}

/// The style rules for pitch-accent ruby, appended to every readable stylesheet.
pub open spec fn pitch_stylesheet() -> Seq<u8> {
    seq![
        10u8, 114u8, 117u8, 98u8, 121u8, 46u8, 112u8, 105u8, 116u8, 99u8, 104u8, 95u8, 97u8, 99u8,
        99u8, 101u8, 110u8, 116u8, 32u8, 62u8, 32u8, 114u8, 116u8, 32u8, 123u8, 10u8, 32u8, 32u8,
        32u8, 32u8, 99u8, 111u8, 108u8, 111u8, 114u8, 58u8, 32u8, 35u8, 99u8, 48u8, 99u8, 48u8,
        99u8, 48u8, 59u8, 10u8, 125u8, 10u8, 114u8, 117u8, 98u8, 121u8, 46u8, 112u8, 105u8, 116u8,
        99u8, 104u8, 95u8, 102u8, 108u8, 97u8, 116u8, 32u8, 62u8, 32u8, 114u8, 116u8, 32u8, 123u8,
        10u8, 32u8, 32u8, 32u8, 32u8, 99u8, 111u8, 108u8, 111u8, 114u8, 58u8, 32u8, 35u8, 99u8,
        48u8, 99u8, 48u8, 99u8, 48u8, 59u8, 10u8, 125u8, 10u8,
    ]
}

pub open spec fn ends_with(s: Seq<u8>, suffix: Seq<u8>) -> bool {
    suffix.len() <= s.len() && s.subrange(s.len() - suffix.len(), s.len() as int) == suffix
}

pub open spec fn contains(s: Seq<u8>, pat: Seq<u8>) -> bool {
    exists|i: int| 0 <= i && i + pat.len() <= s.len() && #[trigger] s.subrange(i, i + pat.len()) == pat
}

/// The role of an entry by its path: HTML documents other than the navigation
/// document are annotated, stylesheets are extended, the rest is copied.
pub open spec fn role_of(path: Seq<u8>) -> Role {
    if (ends_with(path, seq![46u8, 104u8, 116u8, 109u8, 108u8]) || ends_with(
        path,
        seq![46u8, 120u8, 104u8, 116u8, 109u8, 108u8],
    )) && !contains(path, seq![110u8, 97u8, 118u8]) {
        Role::Html
    } else if ends_with(path, seq![46u8, 99u8, 115u8, 115u8]) {
        Role::Css
    } else {
        Role::Other
    }
}

/// Whether `s` ends with `suffix`.
pub fn ends_with_bytes(s: &[u8], suffix: &[u8]) -> (r: bool)
    ensures
        r == ends_with(s@, suffix@),
{
    if suffix.len() > s.len() {
        return false;
    }
    let n: usize = s.len();
    let start: usize = n - suffix.len();
    let mut i: usize = 0;
    while i < suffix.len()
        invariant
            start + suffix@.len() == s@.len(),
            s@.len() == n,
            i <= suffix@.len(),
            forall|k: int| 0 <= k < i ==> s@[start + k] == suffix@[k],
        decreases suffix@.len() - i,
    {
        if s[start + i] != suffix[i] {
            assert(s@.subrange(start as int, s@.len() as int)[i as int] != suffix@[i as int]);
            return false;
        }
        i = i + 1;
    }
    assert(s@.subrange(start as int, s@.len() as int) =~= suffix@);
    true
}

/// Whether `pat` occurs in `s` at index `at`.
fn occurs_at(s: &[u8], pat: &[u8], at: usize) -> (r: bool)
    requires
        at + pat@.len() <= s@.len(),
    ensures
        r == (s@.subrange(at as int, at + pat@.len()) == pat@),
{
    let n: usize = s.len();
    let mut i: usize = 0;
    while i < pat.len()
        invariant
            at + pat@.len() <= s@.len(),
            s@.len() == n,
            i <= pat@.len(),
            forall|k: int| 0 <= k < i ==> s@[at + k] == pat@[k],
        decreases pat@.len() - i,
    {
        if s[at + i] != pat[i] {
            assert(s@.subrange(at as int, at + pat@.len())[i as int] != pat@[i as int]);
            return false;
        }
        i = i + 1;
    }
    assert(s@.subrange(at as int, at + pat@.len()) =~= pat@);
    true
}

/// Whether `pat` occurs anywhere in `s`.
pub fn contains_bytes(s: &[u8], pat: &[u8]) -> (r: bool)
    ensures
        r == contains(s@, pat@),
{
    if pat.len() > s.len() {
        return false;
    }
    let last: usize = s.len() - pat.len();
    let mut i: usize = 0;
    while i <= last
        invariant
            last + pat@.len() == s@.len(),
            i <= last + 1,
            forall|k: int| 0 <= k < i ==> #[trigger] s@.subrange(k, k + pat@.len()) != pat@,
        decreases last + 1 - i,
    {
        if occurs_at(s, pat, i) {
            return true;
        }
        if i == last {
            return false;
        }
        i = i + 1;
    }
    false
}

/// The role of the entry at `path`.
pub fn classify(path: &Vec<u8>) -> (r: Role)
    ensures
        r == role_of(path@),
{
    let html: [u8; 5] = [46u8, 104u8, 116u8, 109u8, 108u8];
    let xhtml: [u8; 6] = [46u8, 120u8, 104u8, 116u8, 109u8, 108u8];
    let nav: [u8; 3] = [110u8, 97u8, 118u8];
    let css: [u8; 4] = [46u8, 99u8, 115u8, 115u8];
    let p = path.as_slice();
    if (ends_with_bytes(p, &html) || ends_with_bytes(p, &xhtml)) && !contains_bytes(p, &nav) {
        Role::Html
    } else if ends_with_bytes(p, &css) {
        Role::Css
    } else {
        Role::Other
    }
}

/// Checks the path of the container's first entry.
pub fn check_first_entry(path: &Vec<u8>) -> (r: Result<(), ArchiveError>)
    ensures
        r is Ok <==> path@ == mimetype_name(),
        r matches Err(e) ==> e == ArchiveError::NotEpub,
{
    let name: Vec<u8> = vec![109u8, 105u8, 109u8, 101u8, 116u8, 121u8, 112u8, 101u8];
    if crate::tracker::bytes_equal(path, &name) {
        Ok(())
    } else {
        Err(ArchiveError::NotEpub)
    }
}

/// The entry written first to every output container: "mimetype", stored
/// uncompressed, holding "application/epub+zip".
pub fn mimetype_entry() -> (e: OutputEntry)
    ensures
        e.path@ == mimetype_name(),
        e.data@ == epub_media_type(),
        e.compression == Compression::Stored,
{
    OutputEntry {
        path: vec![109u8, 105u8, 109u8, 101u8, 116u8, 121u8, 112u8, 101u8],
        data: vec![
            97u8, 112u8, 112u8, 108u8, 105u8, 99u8, 97u8, 116u8, 105u8, 111u8, 110u8, 47u8, 101u8,
            112u8, 117u8, 98u8, 43u8, 122u8, 105u8, 112u8,
        ],
        compression: Compression::Stored,
    }
}

/// Any entry after the first: same path, deflated.
pub fn content_entry(path: Vec<u8>, data: Vec<u8>) -> (e: OutputEntry)
    ensures
        e.path@ == path@,
        e.data@ == data@,
        e.compression == Compression::Deflated,
{
    OutputEntry { path, data, compression: Compression::Deflated }
}

/// What becomes of an entry of role `role` whose content is `data`, given whether
/// `data` is valid UTF-8.
pub fn entry_action(role: Role, utf8: bool, data: Vec<u8>) -> (r: EntryAction)
    ensures
        match r {
            EntryAction::Annotate(t) => role == Role::Html && utf8 && t@ == data@,
            EntryAction::Write(b) => !(role == Role::Html && utf8) && b@ == if role == Role::Css
                && utf8 {
                data@ + pitch_stylesheet()
            } else {
                data@
            },
        },
{
    match role {
        Role::Html => {
            if utf8 {
                EntryAction::Annotate(data)
            } else {
                EntryAction::Write(data)
            }
        },
        Role::Css => {
            if utf8 {
                let mut out = data;
                let sheet: Vec<u8> = vec![
                    10u8, 114u8, 117u8, 98u8, 121u8, 46u8, 112u8, 105u8, 116u8, 99u8, 104u8, 95u8,
                    97u8, 99u8, 99u8, 101u8, 110u8, 116u8, 32u8, 62u8, 32u8, 114u8, 116u8, 32u8,
                    123u8, 10u8, 32u8, 32u8, 32u8, 32u8, 99u8, 111u8, 108u8, 111u8, 114u8, 58u8,
                    32u8, 35u8, 99u8, 48u8, 99u8, 48u8, 99u8, 48u8, 59u8, 10u8, 125u8, 10u8, 114u8,
                    117u8, 98u8, 121u8, 46u8, 112u8, 105u8, 116u8, 99u8, 104u8, 95u8, 102u8, 108u8,
                    97u8, 116u8, 32u8, 62u8, 32u8, 114u8, 116u8, 32u8, 123u8, 10u8, 32u8, 32u8,
                    32u8, 32u8, 99u8, 111u8, 108u8, 111u8, 114u8, 58u8, 32u8, 35u8, 99u8, 48u8,
                    99u8, 48u8, 99u8, 48u8, 59u8, 10u8, 125u8, 10u8,
                ];
                append_bytes(&mut out, sheet.as_slice());
                EntryAction::Write(out)
            } else {
                EntryAction::Write(data)
            }
        },
        Role::Other => EntryAction::Write(data),
    }
}

/// What becomes of the entry at `path` whose content is `data`.
pub fn prepare_entry(path: &Vec<u8>, data: Vec<u8>) -> (r: EntryAction)
    ensures
        match r {
            EntryAction::Annotate(t) => role_of(path@) == Role::Html && is_utf8(data@) && t@
                == data@,
            EntryAction::Write(b) => !(role_of(path@) == Role::Html && is_utf8(data@)) && b@
                == if role_of(path@) == Role::Css && is_utf8(data@) {
                data@ + pitch_stylesheet()
            } else {
                data@
            },
        },
{
    let role = classify(path);
    let utf8 = utf8_valid(data.as_slice());
    entry_action(role, utf8, data)
}

/// Every entry that is neither an HTML document nor a stylesheet is copied
/// byte for byte.
pub proof fn lemma_other_passthrough(path: Seq<u8>, data: Seq<u8>, utf8: bool)
    requires
        role_of(path) == Role::Other,
    ensures
        !(role_of(path) == Role::Html && utf8),
        (if role_of(path) == Role::Css && utf8 {
            data + pitch_stylesheet()
        } else {
            data
        }) == data,
{
}

/// The output container as it is assembled, entry by entry, in writing order.
pub struct Rewriter {
    entries: Vec<OutputEntry>,
}

impl Rewriter {
    pub closed spec fn entries(&self) -> Seq<OutputEntry> {
        self.entries@
    }

    /// The first entry is the stored mimetype entry; every later one is deflated.
    pub open spec fn wf(&self) -> bool {
        &&& self.entries().len() >= 1
        &&& self.entries()[0].path@ == mimetype_name()
        &&& self.entries()[0].data@ == epub_media_type()
        &&& self.entries()[0].compression == Compression::Stored
        &&& forall|i: int|
            1 <= i < self.entries().len() ==> (#[trigger] self.entries()[i]).compression
                == Compression::Deflated
    }

    /// Starts an output container for an input whose first entry is at `first_path`.
    pub fn start(first_path: &Vec<u8>) -> (r: Result<Rewriter, ArchiveError>)
        ensures
            r is Ok <==> first_path@ == mimetype_name(),
            r matches Ok(w) ==> w.wf() && w.entries().len() == 1,
            r matches Err(e) ==> e == ArchiveError::NotEpub,
    {
        match check_first_entry(first_path) {
            Ok(()) => {
                let mut entries: Vec<OutputEntry> = Vec::new();
                entries.push(mimetype_entry());
                Ok(Rewriter { entries })
            },
            Err(e) => Err(e),
        }
    }

    /// Adds the next entry, with its path kept and its content as given.
    pub fn push_entry(&mut self, path: Vec<u8>, data: Vec<u8>)
        requires
            old(self).wf(),
        ensures
            final(self).wf(),
            final(self).entries().len() == old(self).entries().len() + 1,
            forall|i: int|
                0 <= i < old(self).entries().len() ==> final(self).entries()[i] == old(
                    self,
                ).entries()[i],
            final(self).entries().last().path@ == path@,
            final(self).entries().last().data@ == data@,
    {
        self.entries.push(content_entry(path, data));
    }

    /// The entries to write, in order.
    pub fn into_entries(self) -> (r: Vec<OutputEntry>)
        requires
            self.wf(),
        ensures
            r@ == self.entries(),
    {
        self.entries
    }
}

} // verus!
