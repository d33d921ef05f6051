//! The open documents the server keeps, and the workspace folders it
//! searches.

use vstd::prelude::*;
use crate::text::str_equal;
use crate::paths::file_path_of_uri;

verus! {

/// The text of each open document, keyed by its URI. Each URI occurs once.
pub struct DocumentStore {
    uris: Vec<String>,
    texts: Vec<String>,
}

/// The map held by the first `n` entries.
pub open spec fn entries_map(uris: Seq<String>, texts: Seq<String>, n: int) -> Map<
    Seq<char>,
    Seq<char>,
>
    decreases n,
{
    if n <= 0 {
        Map::empty()
    } else {
        entries_map(uris, texts, n - 1).insert(uris[n - 1]@, texts[n - 1]@)
    }
}

/// Where the entries hold URI `k`, the text at that index.
proof fn lemma_entries_map(uris: Seq<String>, texts: Seq<String>, n: int, k: Seq<char>)
    requires
        0 <= n <= uris.len(),
        uris.len() == texts.len(),
        forall|i: int, j: int| 0 <= i < j < uris.len() ==> uris[i]@ != uris[j]@,
    ensures
        entries_map(uris, texts, n).contains_key(k) <==> exists|j: int| 0 <= j < n && #[trigger] uris[j]@ == k,
        forall|j: int| 0 <= j < n && #[trigger] uris[j]@ == k ==> entries_map(uris, texts, n)[k] == texts[j]@,
    decreases n,
{
    if n > 0 {
        lemma_entries_map(uris, texts, n - 1, k);
        if uris[n - 1]@ == k {
            assert(exists|j: int| 0 <= j < n && #[trigger] uris[j]@ == k) by {
                assert(uris[n - 1]@ == k);
            }
        } else {
            if exists|j: int| 0 <= j < n && #[trigger] uris[j]@ == k {
                let j = choose|j: int| 0 <= j < n && #[trigger] uris[j]@ == k;
                assert(j < n - 1);
            }
        }
    }
}

impl View for DocumentStore {
    type V = Map<Seq<char>, Seq<char>>;

    closed spec fn view(&self) -> Map<Seq<char>, Seq<char>> {
        entries_map(self.uris@, self.texts@, self.uris@.len() as int)
    }
}

/// The text a store gives for `uri`: the stored one, or the empty text.
pub open spec fn text_in(docs: Map<Seq<char>, Seq<char>>, uri: Seq<char>) -> Seq<char> {
    if docs.contains_key(uri) {
        docs[uri]
    } else {
        seq![]
    }
}

impl DocumentStore {
    /// Each URI occurs once, with one text.
    pub closed spec fn wf(&self) -> bool {
        &&& self.uris@.len() == self.texts@.len()
        &&& forall|i: int, j: int|
            0 <= i < j < self.uris@.len() ==> self.uris@[i]@ != self.uris@[j]@
    }

    /// A store with no document.
    pub fn new() -> (s: Self)
        ensures
            s.wf(),
            s@ == Map::<Seq<char>, Seq<char>>::empty(),
    {
        let s = DocumentStore { uris: Vec::new(), texts: Vec::new() };
        assert(s@ =~= Map::<Seq<char>, Seq<char>>::empty());
        s
    }

    /// The index of `uri`, if the store holds it.
    fn find(&self, uri: &str) -> (r: Option<usize>)
        requires
            self.wf(),
        ensures
            match r {
                Some(i) => i < self.uris@.len() && self.uris@[i as int]@ == uri@,
                None => forall|j: int| 0 <= j < self.uris@.len() ==> self.uris@[j]@ != uri@,
            },
    {
        let mut i: usize = 0;
        while i < self.uris.len()
            invariant
                i <= self.uris@.len(),
                forall|j: int| 0 <= j < i ==> self.uris@[j]@ != uri@,
            decreases self.uris.len() - i,
        {
            if str_equal(self.uris[i].as_str(), uri) {
                return Some(i);
            }
            i = i + 1;
        }
        None
    }

    /// The text of `uri`, or the empty text when it is not open.
    pub fn text_of(&self, uri: &str) -> (r: String)
        requires
            self.wf(),
        ensures
            r@ == text_in(self@, uri@),
    {
        proof {
            lemma_entries_map(self.uris@, self.texts@, self.uris@.len() as int, uri@);
        }
        match self.find(uri) {
            Some(i) => self.texts[i].clone(),
            None => String::new(),
        }
    }

    /// Stores `text` as the text of `uri`.
    pub fn set_text(&mut self, uri: String, text: String)
        requires
            old(self).wf(),
        ensures
            final(self).wf(),
            final(self)@ == old(self)@.insert(uri@, text@),
    {
        let ghost old_map = self@;
        match self.find(uri.as_str()) {
            Some(i) => {
                let ghost k = uri@;
                let ghost t = text@;
                self.texts.set(i, text);
                proof {
                    assert(self.uris@ == old(self).uris@);
                    assert forall|key: Seq<char>| #[trigger] self@.contains_key(key)
                        == old_map.insert(k, t).contains_key(key) by {
                        lemma_entries_map(self.uris@, self.texts@, self.uris@.len() as int, key);
                        lemma_entries_map(
                            old(self).uris@,
                            old(self).texts@,
                            old(self).uris@.len() as int,
                            key,
                        );
                        if key == k {
                            assert(self.uris@[i as int]@ == key);
                        }
                    }
                    assert forall|key: Seq<char>| #[trigger] self@.contains_key(key) implies self@[key]
                        == old_map.insert(k, t)[key] by {
                        lemma_entries_map(self.uris@, self.texts@, self.uris@.len() as int, key);
                        lemma_entries_map(
                            old(self).uris@,
                            old(self).texts@,
                            old(self).uris@.len() as int,
                            key,
                        );
                        let j = choose|j: int|
                            0 <= j < self.uris@.len() && #[trigger] self.uris@[j]@ == key;
                        if key == k {
                            assert(j == i);
                        } else {
                            assert(j != i);
                            assert(self.texts@[j] == old(self).texts@[j]);
                        }
                    }
                    assert(self@ =~= old_map.insert(k, t));
                }
            },
            None => {
                self.uris.push(uri);
                self.texts.push(text);
                proof {
                    let n = self.uris@.len() as int;
                    assert(self.uris@.take(n - 1) =~= old(self).uris@);
                    assert forall|m: int| 0 <= m <= n - 1 implies entries_map(
                        self.uris@,
                        self.texts@,
                        m,
                    ) == entries_map(old(self).uris@, old(self).texts@, m) by {
                        lemma_entries_prefix(self.uris@, self.texts@, old(self).uris@, old(self).texts@, m);
                    }
                }
            },
        }
    }

    /// Applies a full-text change: the last of the reported texts becomes
    /// the document's text; with none, nothing changes.
    pub fn apply_changes(&mut self, uri: String, changes: Vec<String>)
        requires
            old(self).wf(),
        ensures
            final(self).wf(),
            final(self)@ == if changes@.len() > 0 {
                old(self)@.insert(uri@, changes@.last()@)
            } else {
                old(self)@
            },
    {
        let mut changes = changes;
        match changes.pop() {
            Some(last) => self.set_text(uri, last),
            None => {},
        }
    }
}

/// Entries that agree on a prefix give the same map on it.
proof fn lemma_entries_prefix(
    u1: Seq<String>,
    t1: Seq<String>,
    u2: Seq<String>,
    t2: Seq<String>,
    m: int,
)
    requires
        0 <= m <= u2.len(),
        m <= u1.len(),
        m <= t1.len(),
        m <= t2.len(),
        forall|j: int| 0 <= j < m ==> u1[j] == u2[j] && t1[j] == t2[j],
    ensures
        entries_map(u1, t1, m) == entries_map(u2, t2, m),
    decreases m,
{
    if m > 0 {
        lemma_entries_prefix(u1, t1, u2, t2, m - 1);
    }
}

/// The local folders of the workspace: those of the workspace folders when
/// the client names any (folders that are no local path are left out),
/// else that of the root URI.
pub open spec fn workspace_roots(folders: Option<Seq<Seq<char>>>, root_uri: Option<Seq<char>>) -> Seq<
    Seq<char>,
> {
    match folders {
        Some(uris) => local_paths(uris),
        None => match root_uri {
            Some(uri) => match file_path_of_uri(uri) {
                Some(p) => seq![p],
                None => seq![],
            },
            None => seq![],
        },
    }
}

/// The local paths of the URIs that name one, in order.
pub open spec fn local_paths(uris: Seq<Seq<char>>) -> Seq<Seq<char>>
    decreases uris.len(),
{
    if uris.len() == 0 {
        seq![]
    } else {
        let prev = local_paths(uris.drop_last());
        match file_path_of_uri(uris.last()) {
            Some(p) => prev.push(p),
            None => prev,
        }
    }
}

/// The character sequences held by a sequence of strings.
pub open spec fn uri_views(v: Seq<String>) -> Seq<Seq<char>> {
    v.map_values(|s: String| s@)
}

/// The workspace folders at start-up, from the folder URIs and the root URI
/// the client sent.
pub fn initial_roots(folders: Option<Vec<String>>, root_uri: Option<String>) -> (roots: Vec<String>)
    ensures
        uri_views(roots@) == workspace_roots(
            match folders {
                Some(f) => Some(uri_views(f@)),
                None => None,
            },
            match root_uri {
                Some(u) => Some(u@),
                None => None,
            },
        ),
{
    let mut roots: Vec<String> = Vec::new();
    match folders {
        Some(uris) => {
            let ghost us = uri_views(uris@);
            for i in 0..uris.len()
                invariant
                    us == uri_views(uris@),
                    uri_views(roots@) == local_paths(us.take(i as int)),
            {
                assert(us.take(i + 1).drop_last() =~= us.take(i as int));
                assert(us.take(i + 1).last() == uris@[i as int]@);
                let ghost prev = uri_views(roots@);
                match crate::paths::uri_file_path(uris[i].as_str()) {
                    Some(path) => {
                        roots.push(path);
                        assert(uri_views(roots@) =~= prev.push(roots@.last()@));
                    },
                    None => {},
                }
            }
            assert(us.take(uris.len() as int) =~= us);
        },
        None => {
            if let Some(uri) = root_uri {
                if let Some(path) = crate::paths::uri_file_path(uri.as_str()) {
                    roots.push(path);
                    assert(uri_views(roots@) =~= seq![roots@[0]@]);
                }
            }
            assert(uri_views(roots@) =~= workspace_roots(
                None,
                match root_uri {
                    Some(u) => Some(u@),
                    None => None,
                },
            ));
        },
    }
    roots
}

/// Reading a document gives the text last stored for it; storing a text
/// for one document leaves every other document as it was.
pub proof fn law_read_after_write(
    docs: Map<Seq<char>, Seq<char>>,
    uri: Seq<char>,
    text: Seq<char>,
    other: Seq<char>,
)
    ensures
        text_in(docs.insert(uri, text), uri) == text,
        other != uri ==> text_in(docs.insert(uri, text), other) == text_in(docs, other),
{
}

/// A document that was never stored reads as the empty text.
pub proof fn law_unknown_document_is_empty(uri: Seq<char>)
    ensures
        text_in(Map::<Seq<char>, Seq<char>>::empty(), uri) == Seq::<char>::empty(),
{
}

} // verus!
