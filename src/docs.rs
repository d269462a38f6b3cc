use vstd::prelude::*;

use crate::source::DocId;
use encoding::Encoding;

verus! {

/// Text of the bytes under the Windows-31J code page (932), where they are valid.
pub uninterp spec fn windows31j_text(b: Seq<u8>) -> Option<Seq<char>>;

/// Text of the bytes as UTF-8, where they are valid.
pub open spec fn utf8_text(b: Seq<u8>) -> Option<Seq<char>> {
    if vstd::utf8::valid_utf8(b) {
        Some(vstd::utf8::decode_utf8(b))
    } else {
        None
    }
}

pub open spec fn opt_string_view(o: Option<String>) -> Option<Seq<char>> {
    match o {
        Some(s) => Some(s@),
        None => None,
    }
}

/// Relies on `encoding::all::WINDOWS_31J.decode` with `DecoderTrap::Strict`: the
/// text, or an error where the bytes are not valid in that code page.
#[verifier::external_body]
fn decode_windows31j(b: &Vec<u8>) -> (r: Option<String>)
    ensures
        opt_string_view(r) == windows31j_text(b@),
{
    encoding::all::WINDOWS_31J.decode(b, encoding::DecoderTrap::Strict).ok()
}

/// Relies on `encoding::all::UTF_8.decode` with `DecoderTrap::Strict`: the text,
/// or an error where the bytes are not valid UTF-8.
#[verifier::external_body]
fn decode_utf8(b: &Vec<u8>) -> (r: Option<String>)
    ensures
        opt_string_view(r) == utf8_text(b@),
{
    encoding::all::UTF_8.decode(b, encoding::DecoderTrap::Strict).ok()
}

/// The text of a file's bytes: the legacy code page first, UTF-8 where that
/// fails, none where both fail.
pub fn decode_file_text(bytes: &Vec<u8>) -> (r: Option<String>)
    ensures
        opt_string_view(r) == match windows31j_text(bytes@) {
            Some(t) => Some(t),
            None => utf8_text(bytes@),
        },
{
    match decode_windows31j(bytes) {
        Some(text) => Some(text),
        None => decode_utf8(bytes),
    }
}

/// Version recorded for text that was read from disk rather than sent by the
/// editor.
pub const NO_VERSION: i64 = 1;

/// One mutation of the corpus, for the analysis to consume.
pub enum DocChange {
    Opened { doc: DocId, text: String },
    Changed { doc: DocId, text: String },
    Closed { doc: DocId },
}

pub enum ChangeView {
    Opened(DocId, Seq<char>),
    Changed(DocId, Seq<char>),
    Closed(DocId),
}

pub open spec fn change_view(c: DocChange) -> ChangeView {
    match c {
        DocChange::Opened { doc, text } => ChangeView::Opened(doc, text@),
        DocChange::Changed { doc, text } => ChangeView::Changed(doc, text@),
        DocChange::Closed { doc } => ChangeView::Closed(doc),
    }
}

pub open spec fn changes_view(v: Seq<DocChange>) -> Seq<ChangeView> {
    v.map_values(|c: DocChange| change_view(c))
}

/// What the store knows of one document id: the URI mapped to it (none once the
/// document was closed), whether the editor holds it open, and its last version.
pub type RecordView = (Option<Seq<char>>, bool, Option<i64>);

pub open spec fn uri_view(u: Option<String>) -> Option<Seq<char>> {
    match u {
        Some(u) => Some(u@),
        None => None,
    }
}

/// The live documents. Document `i` is described at index `i` of the three
/// tables; ids are handed out in order and never reused.
pub struct Docs {
    pub hsp_root: String,
    pub uris: Vec<Option<String>>,
    pub open: Vec<bool>,
    pub versions: Vec<Option<i64>>,
    pub doc_changes: Vec<DocChange>,
}

pub open spec fn has_uri(r: RecordView, u: Seq<char>) -> bool {
    r.0 == Some(u)
}

pub open spec fn uri_index(rs: Seq<RecordView>, u: Seq<char>) -> Option<int> {
    if exists|i: int| 0 <= i < rs.len() && has_uri(#[trigger] rs[i], u) {
        Some(choose|i: int| 0 <= i < rs.len() && has_uri(#[trigger] rs[i], u))
    } else {
        None
    }
}

pub open spec fn uris_unique(rs: Seq<RecordView>) -> bool {
    forall|i: int, j: int|
        0 <= i < rs.len() && 0 <= j < rs.len() && i != j && (#[trigger] rs[i]).0 is Some ==> rs[i].0
            != (#[trigger] rs[j]).0
}

pub proof fn lemma_uri_index(rs: Seq<RecordView>, u: Seq<char>, i: int)
    requires
        uris_unique(rs),
        0 <= i < rs.len(),
        has_uri(rs[i], u),
    ensures
        uri_index(rs, u) == Some(i),
{
}

/// The tables after `u` was resolved, and the id it resolved to.
pub open spec fn spec_resolved(rs: Seq<RecordView>, u: Seq<char>) -> (Seq<RecordView>, int) {
    match uri_index(rs, u) {
        Some(i) => (rs, i),
        None => (rs.push((Some(u), false, None)), rs.len() as int),
    }
}

/// The tables after a text of version `version` arrived for `u`.
pub open spec fn spec_versioned(rs: Seq<RecordView>, u: Seq<char>, version: i64) -> Seq<RecordView> {
    let (t, i) = spec_resolved(rs, u);
    t.update(i, (Some(u), t[i].1, Some(version)))
}

/// The tables after `u` was closed: its mapping dropped, its id kept.
pub open spec fn spec_unmapped(rs: Seq<RecordView>, u: Seq<char>) -> Seq<RecordView> {
    match uri_index(rs, u) {
        Some(i) => rs.update(i, (None, rs[i].1, rs[i].2)),
        None => rs,
    }
}

pub open spec fn spec_set_open(rs: Seq<RecordView>, u: Seq<char>, open: bool) -> Seq<RecordView> {
    match uri_index(rs, u) {
        Some(i) => rs.update(i, (rs[i].0, open, rs[i].2)),
        None => rs,
    }
}

/// Whether the editor holds the document of `u` open.
pub open spec fn spec_is_open(rs: Seq<RecordView>, u: Seq<char>) -> bool {
    match uri_index(rs, u) {
        Some(i) => rs[i].1,
        None => false,
    }
}

impl Docs {
    pub open spec fn view_records(&self) -> Seq<RecordView> {
        Seq::new(
            self.uris@.len(),
            |i: int| (uri_view(self.uris@[i]), self.open@[i], self.versions@[i]),
        )
    }

    pub open spec fn wf(&self) -> bool {
        &&& self.open@.len() == self.uris@.len()
        &&& self.versions@.len() == self.uris@.len()
        &&& uris_unique(self.view_records())
    }

    pub fn new(hsp_root: String) -> (r: Docs)
        ensures
            r.wf(),
            r.view_records().len() == 0,
            r.doc_changes@.len() == 0,
            r.hsp_root@ == hsp_root@,
    {
        let r = Docs {
            hsp_root,
            uris: Vec::new(),
            open: Vec::new(),
            versions: Vec::new(),
            doc_changes: Vec::new(),
        };
        assert(r.view_records() =~= Seq::<RecordView>::empty());
        r
    }

    /// Allocates the next document id, with nothing mapped to it yet.
    pub fn fresh_doc(&mut self) -> (r: DocId)
        requires
            old(self).wf(),
        ensures
            final(self).wf(),
            r.id == old(self).view_records().len(),
            final(self).view_records() == old(self).view_records().push((None, false, None)),
            final(self).doc_changes == old(self).doc_changes,
            final(self).hsp_root == old(self).hsp_root,
    {
        let id = self.uris.len();
        self.uris.push(None);
        self.open.push(false);
        self.versions.push(None);
        proof {
            assert(self.view_records() =~= old(self).view_records().push((None, false, None)));
        }
        DocId { id }
    }

    pub fn find_by_uri(&self, uri: &String) -> (r: Option<DocId>)
        requires
            self.wf(),
        ensures
            r == (match uri_index(self.view_records(), uri@) {
                Some(i) => Some(DocId { id: i as usize }),
                None => None,
            }),
            r is Some ==> r->0.id < self.view_records().len() && has_uri(
                self.view_records()[r->0.id as int],
                uri@,
            ),
            r is None ==> forall|k: int|
                0 <= k < self.view_records().len() ==> !has_uri(
                    #[trigger] self.view_records()[k],
                    uri@,
                ),
    {
        let ghost rs = self.view_records();
        let mut i: usize = 0;
        while i < self.uris.len()
            invariant
                self.wf(),
                rs == self.view_records(),
                uris_unique(rs),
                i <= rs.len(),
                forall|k: int| 0 <= k < i ==> !has_uri(#[trigger] rs[k], uri@),
            decreases rs.len() - i,
        {
            let same = match &self.uris[i] {
                Some(u) => *u == *uri,
                None => false,
            };
            assert(same == has_uri(rs[i as int], uri@));
            if same {
                proof {
                    lemma_uri_index(rs, uri@, i as int);
                }
                return Some(DocId { id: i });
            }
            i += 1;
        }
        None
    }

    /// The id mapped to `uri`; a URI seen for the first time gets a fresh one.
    pub fn resolve_uri(&mut self, uri: String) -> (r: DocId)
        requires
            old(self).wf(),
        ensures
            final(self).wf(),
            final(self).doc_changes == old(self).doc_changes,
            final(self).hsp_root == old(self).hsp_root,
            uri_index(old(self).view_records(), uri@) is Some ==> {
                &&& r.id == uri_index(old(self).view_records(), uri@)->0
                &&& final(self).view_records() == old(self).view_records()
            },
            uri_index(old(self).view_records(), uri@) is None ==> {
                &&& r.id == old(self).view_records().len()
                &&& final(self).view_records() == old(self).view_records().push(
                    (Some(uri@), false, None),
                )
            },
            uri_index(final(self).view_records(), uri@) == Some(r.id as int),
    {
        match self.find_by_uri(&uri) {
            Some(doc) => {
                proof {
                    lemma_uri_index(self.view_records(), uri@, doc.id as int);
                }
                doc
            },
            None => {
                let id = self.uris.len();
                let ghost u = uri@;
                self.uris.push(Some(uri));
                self.open.push(false);
                self.versions.push(None);
                proof {
                    let rs = self.view_records();
                    assert(rs =~= old(self).view_records().push((Some(u), false, None)));
                    assert forall|i: int, j: int|
                        0 <= i < rs.len() && 0 <= j < rs.len() && i != j && (#[trigger] rs[i]).0 is Some
                            implies rs[i].0 != (#[trigger] rs[j]).0 by {
                        if i == id as int {
                            assert(!has_uri(rs[j], u));
                        } else if j == id as int {
                            assert(!has_uri(rs[i], u));
                        }
                    }
                    lemma_uri_index(rs, u, id as int);
                }
                DocId { id }
            },
        }
    }

    fn set_version(&mut self, doc: DocId, version: i64)
        requires
            old(self).wf(),
            doc.id < old(self).view_records().len(),
        ensures
            final(self).wf(),
            final(self).view_records() == old(self).view_records().update(
                doc.id as int,
                (
                    old(self).view_records()[doc.id as int].0,
                    old(self).view_records()[doc.id as int].1,
                    Some(version),
                ),
            ),
            final(self).doc_changes == old(self).doc_changes,
            final(self).hsp_root == old(self).hsp_root,
    {
        self.versions.set(doc.id, Some(version));
        proof {
            let rs = self.view_records();
            assert(rs =~= old(self).view_records().update(
                doc.id as int,
                (
                    old(self).view_records()[doc.id as int].0,
                    old(self).view_records()[doc.id as int].1,
                    Some(version),
                ),
            ));
            assert forall|i: int, j: int|
                0 <= i < rs.len() && 0 <= j < rs.len() && i != j && (#[trigger] rs[i]).0 is Some
                    implies rs[i].0 != (#[trigger] rs[j]).0 by {
                assert(rs[i].0 == old(self).view_records()[i].0);
                assert(rs[j].0 == old(self).view_records()[j].0);
            }
        }
    }

    fn set_open(&mut self, doc: DocId, open: bool)
        requires
            old(self).wf(),
            doc.id < old(self).view_records().len(),
        ensures
            final(self).wf(),
            final(self).view_records() == old(self).view_records().update(
                doc.id as int,
                (
                    old(self).view_records()[doc.id as int].0,
                    open,
                    old(self).view_records()[doc.id as int].2,
                ),
            ),
            final(self).doc_changes == old(self).doc_changes,
            final(self).hsp_root == old(self).hsp_root,
    {
        self.open.set(doc.id, open);
        proof {
            let rs = self.view_records();
            assert(rs =~= old(self).view_records().update(
                doc.id as int,
                (
                    old(self).view_records()[doc.id as int].0,
                    open,
                    old(self).view_records()[doc.id as int].2,
                ),
            ));
            assert forall|i: int, j: int|
                0 <= i < rs.len() && 0 <= j < rs.len() && i != j && (#[trigger] rs[i]).0 is Some
                    implies rs[i].0 != (#[trigger] rs[j]).0 by {
                assert(rs[i].0 == old(self).view_records()[i].0);
                assert(rs[j].0 == old(self).view_records()[j].0);
            }
        }
    }

    fn record_text(&mut self, uri: String, version: i64) -> (r: DocId)
        requires
            old(self).wf(),
        ensures
            final(self).wf(),
            r.id == spec_resolved(old(self).view_records(), uri@).1,
            final(self).view_records() == spec_versioned(old(self).view_records(), uri@, version),
            uri_index(final(self).view_records(), uri@) == Some(r.id as int),
            final(self).doc_changes == old(self).doc_changes,
            final(self).hsp_root == old(self).hsp_root,
    {
        let ghost u = uri@;
        let doc = self.resolve_uri(uri);
        let ghost mid = self.view_records();
        assert(mid[doc.id as int].0 == Some(u)) by {
            assert(has_uri(mid[doc.id as int], u));
        }
        self.set_version(doc, version);
        proof {
            assert(has_uri(self.view_records()[doc.id as int], u));
            lemma_uri_index(self.view_records(), u, doc.id as int);
        }
        doc
    }

    pub fn do_open_doc(&mut self, uri: String, version: i64, text: String) -> (r: DocId)
        requires
            old(self).wf(),
        ensures
            final(self).wf(),
            final(self).hsp_root == old(self).hsp_root,
            r.id == spec_resolved(old(self).view_records(), uri@).1,
            final(self).view_records() == spec_versioned(old(self).view_records(), uri@, version),
            changes_view(final(self).doc_changes@) == changes_view(old(self).doc_changes@).push(
                ChangeView::Opened(r, text@),
            ),
    {
        let doc = self.record_text(uri, version);
        let ghost prev = self.doc_changes@;
        self.doc_changes.push(DocChange::Opened { doc, text });
        proof {
            assert(changes_view(self.doc_changes@) =~= changes_view(prev).push(change_view(self.doc_changes@.last())));
        }
        doc
    }

    pub fn do_change_doc(&mut self, uri: String, version: i64, text: String)
        requires
            old(self).wf(),
        ensures
            final(self).wf(),
            final(self).hsp_root == old(self).hsp_root,
            final(self).view_records() == spec_versioned(old(self).view_records(), uri@, version),
            changes_view(final(self).doc_changes@) == changes_view(old(self).doc_changes@).push(
                ChangeView::Changed(
                    DocId { id: spec_resolved(old(self).view_records(), uri@).1 as usize },
                    text@,
                ),
            ),
    {
        let doc = self.record_text(uri, version);
        let ghost prev = self.doc_changes@;
        self.doc_changes.push(DocChange::Changed { doc, text });
        proof {
            assert(changes_view(self.doc_changes@) =~= changes_view(prev).push(change_view(self.doc_changes@.last())));
        }
    }

    /// Drops the mapping of `uri` and reports its document closed; the id is not
    /// handed out again.
    pub fn do_close_doc(&mut self, uri: &String)
        requires
            old(self).wf(),
        ensures
            final(self).wf(),
            final(self).hsp_root == old(self).hsp_root,
            final(self).view_records() == spec_unmapped(old(self).view_records(), uri@),
            uri_index(old(self).view_records(), uri@) is Some ==> changes_view(
                final(self).doc_changes@,
            ) == changes_view(old(self).doc_changes@).push(
                ChangeView::Closed(
                    DocId { id: uri_index(old(self).view_records(), uri@)->0 as usize },
                ),
            ),
            uri_index(old(self).view_records(), uri@) is None ==> final(self).doc_changes
                == old(self).doc_changes,
    {
        if let Some(doc) = self.find_by_uri(uri) {
            self.uris.set(doc.id, None);
            let ghost prev = self.doc_changes@;
            self.doc_changes.push(DocChange::Closed { doc });
            proof {
                let rs = self.view_records();
                let o = old(self).view_records();
                assert(rs =~= o.update(doc.id as int, (None, o[doc.id as int].1, o[doc.id as int].2)));
                assert forall|i: int, j: int|
                    0 <= i < rs.len() && 0 <= j < rs.len() && i != j && (#[trigger] rs[i]).0 is Some
                        implies rs[i].0 != (#[trigger] rs[j]).0 by {
                    assert(rs[i].0 == o[i].0);
                    if j != doc.id as int {
                        assert(rs[j].0 == o[j].0);
                    }
                }
                assert(changes_view(self.doc_changes@) =~= changes_view(prev).push(change_view(self.doc_changes@.last())));
            }
        }
    }

    /// The editor opened a document: its text is queued and disk changes no
    /// longer overwrite it.
    pub fn open_doc(&mut self, uri: String, version: i64, text: String)
        requires
            old(self).wf(),
        ensures
            final(self).wf(),
            final(self).hsp_root == old(self).hsp_root,
            final(self).view_records() == spec_set_open(
                spec_versioned(old(self).view_records(), uri@, version),
                uri@,
                true,
            ),
            changes_view(final(self).doc_changes@) == changes_view(old(self).doc_changes@).push(
                ChangeView::Opened(
                    DocId { id: spec_resolved(old(self).view_records(), uri@).1 as usize },
                    text@,
                ),
            ),
    {
        let ghost u = uri@;
        let doc = self.do_open_doc(uri, version, text);
        proof {
            let rs = self.view_records();
            assert(has_uri(rs[doc.id as int], u));
            lemma_uri_index(rs, u, doc.id as int);
        }
        self.set_open(doc, true);
    }

    /// The editor changed a document's text.
    pub fn change_doc(&mut self, uri: String, version: i64, text: String)
        requires
            old(self).wf(),
        ensures
            final(self).wf(),
            final(self).hsp_root == old(self).hsp_root,
            final(self).view_records() == spec_versioned(old(self).view_records(), uri@, version),
            changes_view(final(self).doc_changes@) == changes_view(old(self).doc_changes@).push(
                ChangeView::Changed(
                    DocId { id: spec_resolved(old(self).view_records(), uri@).1 as usize },
                    text@,
                ),
            ),
    {
        self.do_change_doc(uri, version, text);
    }

    /// The editor closed a document: it is no longer shielded from disk changes,
    /// its mapping is dropped and its closing reported.
    pub fn close_doc(&mut self, uri: &String)
        requires
            old(self).wf(),
        ensures
            final(self).wf(),
            final(self).hsp_root == old(self).hsp_root,
            final(self).view_records() == spec_unmapped(
                spec_set_open(old(self).view_records(), uri@, false),
                uri@,
            ),
            uri_index(old(self).view_records(), uri@) is Some ==> changes_view(
                final(self).doc_changes@,
            ) == changes_view(old(self).doc_changes@).push(
                ChangeView::Closed(
                    DocId { id: uri_index(old(self).view_records(), uri@)->0 as usize },
                ),
            ),
            uri_index(old(self).view_records(), uri@) is None ==> final(self).doc_changes
                == old(self).doc_changes,
    {
        if let Some(doc) = self.find_by_uri(uri) {
            self.set_open(doc, false);
            proof {
                let rs = self.view_records();
                assert(has_uri(rs[doc.id as int], uri@));
                lemma_uri_index(rs, uri@, doc.id as int);
            }
        }
        self.do_close_doc(uri);
    }

    /// Text of `uri` read from disk. Nothing happens where the editor holds the
    /// document open or the file could not be decoded (`text_opt` is `None`);
    /// otherwise the text is queued as a change. Returns whether it was.
    pub fn change_file(&mut self, uri: String, text_opt: Option<String>) -> (r: bool)
        requires
            old(self).wf(),
        ensures
            final(self).wf(),
            final(self).hsp_root == old(self).hsp_root,
            r == (!spec_is_open(old(self).view_records(), uri@) && text_opt is Some),
            !r ==> final(self).view_records() == old(self).view_records()
                && final(self).doc_changes == old(self).doc_changes,
            r ==> final(self).view_records() == spec_versioned(
                old(self).view_records(),
                uri@,
                NO_VERSION,
            ) && changes_view(final(self).doc_changes@) == changes_view(
                old(self).doc_changes@,
            ).push(
                ChangeView::Changed(
                    DocId { id: spec_resolved(old(self).view_records(), uri@).1 as usize },
                    text_opt->0@,
                ),
            ),
    {
        let is_open = match self.find_by_uri(&uri) {
            Some(doc) => self.open[doc.id],
            None => false,
        };
        if is_open {
            return false;
        }
        match text_opt {
            Some(text) => {
                self.do_change_doc(uri, NO_VERSION, text);
                true
            },
            None => false,
        }
    }

    /// The file of `uri` disappeared from disk.
    pub fn close_file(&mut self, uri: &String)
        requires
            old(self).wf(),
        ensures
            final(self).wf(),
            final(self).hsp_root == old(self).hsp_root,
            final(self).view_records() == spec_unmapped(old(self).view_records(), uri@),
            uri_index(old(self).view_records(), uri@) is Some ==> changes_view(
                final(self).doc_changes@,
            ) == changes_view(old(self).doc_changes@).push(
                ChangeView::Closed(
                    DocId { id: uri_index(old(self).view_records(), uri@)->0 as usize },
                ),
            ),
            uri_index(old(self).view_records(), uri@) is None ==> final(self).doc_changes
                == old(self).doc_changes,
    {
        self.do_close_doc(uri);
    }

    pub fn get_uri(&self, doc: DocId) -> (r: Option<String>)
        requires
            self.wf(),
        ensures
            doc.id < self.view_records().len() ==> (match r {
                Some(u) => self.view_records()[doc.id as int].0 == Some(u@),
                None => self.view_records()[doc.id as int].0 is None,
            }),
            doc.id >= self.view_records().len() ==> r is None,
    {
        if doc.id < self.uris.len() {
            match &self.uris[doc.id] {
                Some(u) => Some(u.clone()),
                None => None,
            }
        } else {
            None
        }
    }

    pub fn get_version(&self, doc: DocId) -> (r: Option<i64>)
        requires
            self.wf(),
        ensures
            r == (if doc.id < self.view_records().len() {
                self.view_records()[doc.id as int].2
            } else {
                None
            }),
    {
        if doc.id < self.versions.len() {
            self.versions[doc.id]
        } else {
            None
        }
    }

    /// Hands every pending change over, oldest first, and forgets them.
    pub fn drain_doc_changes(&mut self, changes: &mut Vec<DocChange>)
        ensures
            changes_view(final(changes)@) == changes_view(old(changes)@) + changes_view(
                old(self).doc_changes@,
            ),
            final(self).doc_changes@.len() == 0,
            final(self).uris == old(self).uris,
            final(self).open == old(self).open,
            final(self).versions == old(self).versions,
            final(self).hsp_root == old(self).hsp_root,
    {
        let ghost c0 = changes_view(changes@);
        let ghost all = changes_view(self.doc_changes@);
        let mut pending: Vec<DocChange> = Vec::new();
        std::mem::swap(&mut pending, &mut self.doc_changes);
        changes.append(&mut pending);
        proof {
            assert(changes_view(changes@) =~= c0 + all);
        }
    }
}

} // verus!
