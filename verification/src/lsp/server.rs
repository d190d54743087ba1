//! The documents that are open in an editor, and what follows from what happens
//! to them.
use crate::ir::{
    distinct_keys, key_from, key_index, lemma_distinct_push, lemma_distinct_update,
    lemma_key_from, position, Identified, Named,
};
use crate::lsp::{detect_language, language_of, uri_path, Language};
use crate::text::{lemma_views_push, lemma_views_update, opt_view, views};
use vstd::prelude::*;

verus! {

/// An open document.
#[derive(Debug, Clone, PartialEq, Eq)]
pub struct Document {
    /// Its URI.
    pub uri: String,
    /// Its text.
    pub text: String,
}

/// The model of [`Document`].
#[verifier::ext_equal]
pub struct DocumentView {
    pub uri: Seq<char>,
    pub text: Seq<char>,
}

impl View for Document {
    type V = DocumentView;

    open spec fn view(&self) -> DocumentView {
        DocumentView { uri: self.uri@, text: self.text@ }
    }
}

impl Named for DocumentView {
    open spec fn key(self) -> Seq<char> {
        self.uri
    }
}

impl Identified for Document {
    fn id(&self) -> (r: &String) {
        &self.uri
    }
}

/// What is to be done.
#[derive(Debug, Clone, PartialEq, Eq)]
pub enum Action {
    /// The diagnostics of a document are to be published. One in an unknown
    /// language has none.
    Publish {
        /// Its URI.
        uri: String,
        /// Its text.
        text: String,
        /// Its language.
        lang: Option<Language>,
    },
    /// The diagnostics of a document are to be taken back.
    Clear {
        /// Its URI.
        uri: String,
    },
    /// Nothing.
    Nothing,
}

/// The model of [`Action`].
#[verifier::ext_equal]
pub enum ActionView {
    Publish { uri: Seq<char>, text: Seq<char>, lang: Option<Language> },
    Clear { uri: Seq<char> },
    Nothing,
}

impl View for Action {
    type V = ActionView;

    open spec fn view(&self) -> ActionView {
        match self {
            Action::Publish { uri, text, lang } => ActionView::Publish {
                uri: uri@,
                text: text@,
                lang: *lang,
            },
            Action::Clear { uri } => ActionView::Clear { uri: uri@ },
            Action::Nothing => ActionView::Nothing,
        }
    }
}

/// The documents with the text of `uri` set.
pub open spec fn with_text(docs: Seq<DocumentView>, uri: Seq<char>, text: Seq<char>) -> Seq<
    DocumentView,
> {
    match key_index(docs, uri) {
        Some(i) => docs.update(i, DocumentView { uri, text }),
        None => docs.push(DocumentView { uri, text }),
    }
}

/// The documents without `uri`.
pub open spec fn without(docs: Seq<DocumentView>, uri: Seq<char>) -> Seq<DocumentView> {
    match key_index(docs, uri) {
        Some(i) => docs.remove(i),
        None => docs,
    }
}

/// The text of `uri`.
pub open spec fn text_of(docs: Seq<DocumentView>, uri: Seq<char>) -> Option<Seq<char>> {
    match key_index(docs, uri) {
        Some(i) => Some(docs[i].text),
        None => None,
    }
}

/// The open documents, and the language that was asked for by name.
pub struct Server {
    docs: Vec<Document>,
    init_lang: Option<String>,
}

impl Server {
    /// The open documents.
    pub closed spec fn documents(&self) -> Seq<DocumentView> {
        views(self.docs@)
    }

    /// The language that was asked for by name.
    pub closed spec fn fallback(&self) -> Option<Seq<char>> {
        opt_view(self.init_lang)
    }

    /// The language of `uri`.
    pub open spec fn language(&self, uri: Seq<char>) -> Option<Language> {
        language_of(uri_path(uri), self.fallback())
    }

    /// No document is open.
    pub fn new() -> (r: Self)
        ensures
            r.documents() == Seq::<DocumentView>::empty(),
            r.fallback() is None,
    {
        let r = Server { docs: Vec::new(), init_lang: None };
        assert(r.documents() =~= Seq::<DocumentView>::empty());
        r
    }

    /// A language is asked for by name, or none is.
    pub fn initialize(&mut self, language: Option<String>)
        ensures
            final(self).documents() == old(self).documents(),
            final(self).fallback() == opt_view(language),
    {
        self.init_lang = language;
    }

    fn language_for(&self, uri: &String) -> (r: Option<Language>)
        ensures
            r == self.language(uri@),
    {
        match &self.init_lang {
            Some(l) => detect_language(uri.as_str(), Some(l.as_str())),
            None => detect_language(uri.as_str(), None),
        }
    }

    fn set_text(&mut self, uri: &String, text: &String)
        ensures
            final(self).documents() == with_text(old(self).documents(), uri@, text@),
            final(self).fallback() == old(self).fallback(),
    {
        broadcast use lemma_views_push;

        let doc = Document { uri: uri.clone(), text: text.clone() };
        match position(self.docs.as_slice(), uri) {
            Some(i) => {
                proof {
                    lemma_views_update(self.docs@, i as int, doc);
                }
                self.docs.set(i, doc);
            },
            None => {
                self.docs.push(doc);
            },
        }
    }

    fn read_text(&self, uri: &String) -> (r: Option<String>)
        ensures
            opt_view(r) == text_of(self.documents(), uri@),
    {
        match position(self.docs.as_slice(), uri) {
            Some(i) => {
                assert(self.documents()[i as int] == self.docs@[i as int]@);
                Some(self.docs[i].text.clone())
            },
            None => None,
        }
    }

    /// A document is opened.
    pub fn did_open(&mut self, uri: String, text: String) -> (r: Action)
        ensures
            final(self).documents() == with_text(old(self).documents(), uri@, text@),
            final(self).fallback() == old(self).fallback(),
            r@ == (ActionView::Publish { uri: uri@, text: text@, lang: old(self).language(uri@) }),
    {
        self.set_text(&uri, &text);
        let lang = self.language_for(&uri);
        Action::Publish { uri, text, lang }
    }

    /// A document is changed. Each change is the whole text, so that the last one
    /// counts.
    pub fn did_change(&mut self, uri: String, changes: Vec<String>) -> (r: Action)
        ensures
            final(self).fallback() == old(self).fallback(),
            changes@.len() == 0 ==> final(self).documents() == old(self).documents()
                && r@ is Nothing,
            changes@.len() > 0 ==> final(self).documents() == with_text(
                old(self).documents(),
                uri@,
                changes@.last()@,
            ) && r@ == (ActionView::Publish {
                uri: uri@,
                text: changes@.last()@,
                lang: old(self).language(uri@),
            }),
    {
        let n: usize = changes.len();
        if n == 0 {
            return Action::Nothing;
        }
        let text = changes[n - 1].clone();
        self.did_open(uri, text)
    }

    /// A document is saved.
    pub fn did_save(&self, uri: String) -> (r: Action)
        ensures
            r@ == (match text_of(self.documents(), uri@) {
                Some(text) => ActionView::Publish { uri: uri@, text, lang: self.language(uri@) },
                None => ActionView::Nothing,
            }),
    {
        match self.read_text(&uri) {
            Some(text) => {
                let lang = self.language_for(&uri);
                Action::Publish { uri, text, lang }
            },
            None => Action::Nothing,
        }
    }

    /// A document is closed.
    pub fn did_close(&mut self, uri: String) -> (r: Action)
        ensures
            final(self).documents() == without(old(self).documents(), uri@),
            final(self).fallback() == old(self).fallback(),
            r@ == (ActionView::Clear { uri: uri@ }),
    {
        let ghost before = self.docs@;
        match position(self.docs.as_slice(), &uri) {
            Some(i) => {
                self.docs.remove(i);
                assert(views(before.remove(i as int)) =~= views(before).remove(i as int));
            },
            None => {},
        }
        Action::Clear { uri }
    }

    /// The text and the language of a document in which something is hovered
    /// over. There is none for a document that is not open or in an unknown
    /// language.
    pub fn hover_request(&self, uri: &String) -> (r: Option<(String, Language)>)
        ensures
            r matches Some(p) ==> text_of(self.documents(), uri@) == Some(p.0@)
                && self.language(uri@) == Some(p.1),
            r is None <==> text_of(self.documents(), uri@) is None || self.language(uri@) is None,
    {
        match (self.read_text(uri), self.language_for(uri)) {
            (Some(text), Some(lang)) => Some((text, lang)),
            _ => None,
        }
    }

    /// The text of a document that is to be formatted. Only documents in kozue's
    /// own language are.
    pub fn formatting_request(&self, uri: &String) -> (r: Option<String>)
        ensures
            opt_view(r) == (if self.language(uri@) == Some(Language::Kozue) {
                text_of(self.documents(), uri@)
            } else {
                None
            }),
    {
        match self.language_for(uri) {
            Some(Language::Kozue) => self.read_text(uri),
            _ => None,
        }
    }
}

/// Opening and closing documents keeps their URIs distinct.
pub proof fn law_documents_are_distinct(
    docs: Seq<DocumentView>,
    uri: Seq<char>,
    text: Seq<char>,
)
    requires
        distinct_keys(docs),
    ensures
        distinct_keys(with_text(docs, uri, text)),
        distinct_keys(without(docs, uri)),
{
    lemma_key_from(docs, uri, 0);
    match key_index(docs, uri) {
        Some(i) => {
            lemma_distinct_update(docs, i, DocumentView { uri, text });
        },
        None => {
            lemma_distinct_push(docs, DocumentView { uri, text });
        },
    }
}

/// What was opened or changed last is what is read, and other documents keep
/// their text.
pub proof fn law_text_is_read_back(
    docs: Seq<DocumentView>,
    uri: Seq<char>,
    text: Seq<char>,
    other: Seq<char>,
)
    ensures
        text_of(with_text(docs, uri, text), uri) == Some(text),
        other != uri ==> text_of(with_text(docs, uri, text), other) == text_of(docs, other),
{
    lemma_key_from(docs, uri, 0);
    lemma_key_from(docs, other, 0);
    let next = with_text(docs, uri, text);
    lemma_key_from(next, uri, 0);
    lemma_key_from(next, other, 0);
    match key_index(docs, uri) {
        Some(i) => {
            lemma_key_update(docs, uri, i, DocumentView { uri, text }, 0);
            lemma_key_update(docs, other, i, DocumentView { uri, text }, 0);
        },
        None => {
            lemma_key_push(docs, DocumentView { uri, text }, uri, 0);
            lemma_key_push(docs, DocumentView { uri, text }, other, 0);
        },
    }
}

/// A closed document is gone, and other documents keep their text.
pub proof fn law_closed_is_gone(docs: Seq<DocumentView>, uri: Seq<char>, other: Seq<char>)
    requires
        distinct_keys(docs),
    ensures
        text_of(without(docs, uri), uri) is None,
        other != uri ==> text_of(without(docs, uri), other) == text_of(docs, other),
{
    lemma_key_from(docs, uri, 0);
    lemma_key_from(docs, other, 0);
    let next = without(docs, uri);
    lemma_key_from(next, uri, 0);
    lemma_key_from(next, other, 0);
    match key_index(docs, uri) {
        Some(i) => {
            match key_index(next, uri) {
                Some(j) => {
                    let k = if j < i {
                        j
                    } else {
                        j + 1
                    };
                    assert(docs[k].key() == uri);
                },
                None => {},
            }
            if other != uri {
                match key_index(docs, other) {
                    Some(k) => {
                        let j = if k < i {
                            k
                        } else {
                            k - 1
                        };
                        assert(next[j] == docs[k]);
                        assert(next[j].key() == other);
                        match key_index(next, other) {
                            Some(m) => {
                                let n = if m < i {
                                    m
                                } else {
                                    m + 1
                                };
                                assert(docs[n].key() == other);
                                assert(n == k);
                            },
                            None => {},
                        }
                    },
                    None => {
                        match key_index(next, other) {
                            Some(m) => {
                                let n = if m < i {
                                    m
                                } else {
                                    m + 1
                                };
                                assert(docs[n].key() == other);
                            },
                            None => {},
                        }
                    },
                }
            }
        },
        None => {},
    }
}

proof fn lemma_key_update(
    s: Seq<DocumentView>,
    id: Seq<char>,
    i: int,
    x: DocumentView,
    from: int,
)
    requires
        0 <= from <= s.len(),
        0 <= i < s.len(),
        x.uri == s[i].uri,
    ensures
        key_from(s.update(i, x), id, from) == key_from(s, id, from),
    decreases s.len() - from,
{
    if from < s.len() && s[from].uri != id {
        lemma_key_update(s, id, i, x, from + 1);
    }
}

proof fn lemma_key_push(s: Seq<DocumentView>, x: DocumentView, id: Seq<char>, from: int)
    requires
        0 <= from <= s.len(),
    ensures
        key_from(s.push(x), id, from) == (match key_from(s, id, from) {
            Some(i) => Some(i),
            None => if x.uri == id {
                Some(s.len() as int)
            } else {
                None
            },
        }),
    decreases s.len() - from,
{
    if from < s.len() {
        if s[from].uri != id {
            lemma_key_push(s, x, id, from + 1);
        }
    } else {
        assert(s.push(x)[from] == x);
        assert(key_from(s.push(x), id, from + 1) is None);
    }
}

} // verus!
