//! The server's in-memory document store. `PUT /name` stores a document
//! under its title, `GET` lists the store, `DELETE /name` removes by title
//! and `HEAD` answers with the status line alone.
use vstd::prelude::*;
use crate::json::{
    field_pairs,
    json_compact,
    json_debug_list,
    json_pretty,
    object_rows,
    to_json_compact,
    to_json_debug_list,
    to_json_pretty,
};
use crate::response::{framed, frame_response, status_only, status_response};
use crate::text::str_eq;
use vstd::utf8::encode_utf8;

verus! {

/// A stored document: its title and its contents.
pub struct Entry {
    pub title: String,
    pub contents: String,
}

/// What a stored document holds.
pub struct EntryView {
    pub title: Seq<char>,
    pub contents: Seq<char>,
}

impl View for Entry {
    type V = EntryView;

    open spec fn view(&self) -> EntryView {
        EntryView { title: self.title@, contents: self.contents@ }
    }
}

impl Entry {
    /// A document with the given title and contents.
    pub fn new(title: String, contents: String) -> (e: Entry)
        ensures
            e@ == (EntryView { title: title@, contents: contents@ }),
    {
        Entry { title, contents }
    }
}

/// The views of a sequence of documents.
pub open spec fn entry_views(v: Seq<Entry>) -> Seq<EntryView> {
    v.map_values(|e: Entry| e@)
}

/// A delete by `title` runs to its end: no document but the last one carries
/// that title. Where an earlier one does, the removal shifts the documents
/// while the scan still counts on the old length, and the scan reads past
/// the end.
pub open spec fn delete_completes(entries: Seq<EntryView>, title: Seq<char>) -> bool {
    forall|i: int| 0 <= i < entries.len() - 1 ==> (#[trigger] entries[i]).title != title
}

/// The store after a completed delete by `title`: the last document goes
/// when it carries that title.
pub open spec fn after_delete(entries: Seq<EntryView>, title: Seq<char>) -> Seq<EntryView> {
    if entries.len() > 0 && entries.last().title == title {
        entries.drop_last()
    } else {
        entries
    }
}

/// The JSON fields of a document: its title, then its contents.
pub open spec fn document_fields(title: Seq<char>, contents: Seq<char>) -> Seq<
    (Seq<char>, Seq<char>),
> {
    seq![("title"@, title), ("contents"@, contents)]
}

/// The JSON objects of the stored documents, oldest first.
pub open spec fn listing_objects(entries: Seq<EntryView>) -> Seq<Seq<(Seq<char>, Seq<char>)>> {
    entries.map_values(|e: EntryView| document_fields(e.title, e.contents))
}

/// The answer to a `PUT` of `title` with `contents`: the length of the
/// document's compact JSON, and its indented JSON as the body.
pub open spec fn put_answer(status: Seq<u8>, title: Seq<char>, contents: Seq<char>) -> Seq<u8> {
    framed(
        status,
        encode_utf8(json_compact(document_fields(title, contents))).len(),
        encode_utf8(json_pretty(document_fields(title, contents))),
    )
}

/// The listing answer: the number of stored documents as the length, and
/// the printed list of their JSON objects as the body.
pub open spec fn listing_answer(status: Seq<u8>, entries: Seq<EntryView>) -> Seq<u8> {
    framed(status, entries.len(), encode_utf8(json_debug_list(listing_objects(entries))))
}

/// The two keys of a document's JSON object, title first.
fn document_keys() -> (r: Vec<String>)
    ensures
        r@.len() == 2,
        r@[0]@ == "title"@,
        r@[1]@ == "contents"@,
{
    let mut keys: Vec<String> = Vec::new();
    keys.push(String::from_str("title"));
    keys.push(String::from_str("contents"));
    keys
}

/// The stored documents, oldest first.
pub struct Database {
    entries: Vec<Entry>,
}

impl View for Database {
    type V = Seq<EntryView>;

    closed spec fn view(&self) -> Seq<EntryView> {
        entry_views(self.entries@)
    }
}

impl Database {
    /// An empty store.
    pub fn new() -> (db: Database)
        ensures
            db@ == Seq::<EntryView>::empty(),
    {
        let db = Database { entries: Vec::new() };
        assert(db@ =~= Seq::<EntryView>::empty());
        db
    }

    /// The number of stored documents.
    pub fn len(&self) -> (n: usize)
        ensures
            n == self@.len(),
    {
        self.entries.len()
    }

    /// The stored documents, oldest first.
    pub fn entries(&self) -> (r: &Vec<Entry>)
        ensures
            entry_views(r@) == self@,
    {
        &self.entries
    }

    /// Stores the document `title` with `contents` after the others and
    /// answers with `status_line`, the length of the document's compact JSON
    /// and, as the body, its indented JSON.
    pub fn put(&mut self, status_line: &str, title: &str, contents: &str) -> (r: Vec<u8>)
        ensures
            final(self)@ == old(self)@.push(EntryView { title: title@, contents: contents@ }),
            r@ == put_answer(encode_utf8(status_line@), title@, contents@),
    {
        let keys = document_keys();
        let mut values: Vec<String> = Vec::new();
        values.push(String::from_str(title));
        values.push(String::from_str(contents));
        assert(field_pairs(keys@, values@) =~= document_fields(title@, contents@));
        let compact = to_json_compact(&keys, &values);
        let pretty = to_json_pretty(&keys, &values);
        let compact_bytes = compact.as_str().as_bytes_vec();
        let pretty_bytes = pretty.as_str().as_bytes_vec();
        let entry = Entry::new(String::from_str(title), String::from_str(contents));
        let ghost e = entry@;
        self.entries.push(entry);
        assert(self@ =~= old(self)@.push(e));
        frame_response(status_line, compact_bytes.len(), pretty_bytes.as_slice())
    }

    /// The listing answer: `status_line`, a length that is the number of
    /// stored documents, and as the body the `{:#?}` print of the list of
    /// their JSON objects.
    pub fn get(&self, status_line: &str) -> (r: Vec<u8>)
        ensures
            r@ == listing_answer(encode_utf8(status_line@), self@),
    {
        let keys = document_keys();
        let mut rows: Vec<Vec<String>> = Vec::new();
        let n = self.entries.len();
        let mut i: usize = 0;
        while i < n
            invariant
                n == self.entries@.len(),
                i <= n,
                keys@.len() == 2,
                keys@[0]@ == "title"@,
                keys@[1]@ == "contents"@,
                rows@.len() == i,
                forall|j: int| 0 <= j < i ==> (#[trigger] rows@[j])@.len() == 2,
                forall|j: int|
                    0 <= j < i ==> field_pairs(keys@, (#[trigger] rows@[j])@) == document_fields(
                        self@[j].title,
                        self@[j].contents,
                    ),
            decreases n - i,
        {
            let mut row: Vec<String> = Vec::new();
            row.push(self.entries[i].title.clone());
            row.push(self.entries[i].contents.clone());
            assert(field_pairs(keys@, row@) =~= document_fields(self@[i as int].title, self@[i as int].contents));
            rows.push(row);
            i += 1;
        }
        assert(object_rows(keys@, rows@) =~= listing_objects(self@));
        let listing = to_json_debug_list(&keys, &rows);
        let body = listing.as_str().as_bytes_vec();
        frame_response(status_line, n, body.as_slice())
    }

    /// Whether a delete by `title` runs to its end.
    pub fn delete_completes(&self, title: &str) -> (r: bool)
        ensures
            r == delete_completes(self@, title@),
    {
        let n = self.entries.len();
        if n == 0 {
            return true;
        }
        let mut i: usize = 0;
        while i < n - 1
            invariant
                n == self@.len(),
                n >= 1,
                i <= n - 1,
                forall|j: int| 0 <= j < i ==> (#[trigger] self@[j]).title != title@,
            decreases n - 1 - i,
        {
            assert(self@[i as int].title == self.entries@[i as int].title@);
            if str_eq(self.entries[i].title.as_str(), title) {
                return false;
            }
            i += 1;
        }
        true
    }

    /// Scans the documents once, in order, and removes each one whose title
    /// is `title`.
    pub fn delete(&mut self, title: &str)
        requires
            delete_completes(old(self)@, title@),
        ensures
            final(self)@ == after_delete(old(self)@, title@),
    {
        let n = self.entries.len();
        let mut i: usize = 0;
        let ghost start = self@;
        while i < n
            invariant
                n == start.len(),
                i <= n,
                delete_completes(start, title@),
                self@ == (if i == n {
                    after_delete(start, title@)
                } else {
                    start
                }),
            decreases n - i,
        {
            assert(self@[i as int].title == self.entries@[i as int].title@);
            if str_eq(self.entries[i].title.as_str(), title) {
                self.entries.remove(i);
                assert(self@ =~= start.drop_last());
            }
            i += 1;
        }
    }
}

/// The answer to `HEAD`: the status line alone.
pub fn head(status_line: &str) -> (r: Vec<u8>)
    ensures
        r@ == status_only(encode_utf8(status_line@)),
{
    status_response(status_line)
}

/// Deleting by a title that no stored document carries runs to its end and
/// leaves the store as it was.
pub proof fn lemma_delete_absent(entries: Seq<EntryView>, title: Seq<char>)
    requires
        forall|i: int| 0 <= i < entries.len() ==> (#[trigger] entries[i]).title != title,
    ensures
        delete_completes(entries, title),
        after_delete(entries, title) == entries,
{
    if entries.len() > 0 {
        assert(entries[entries.len() - 1].title != title);
    }
}

/// Storing a document under a title that no stored document carries, then
/// deleting by that title, runs to its end and gives back the store as it
/// was.
pub proof fn lemma_put_then_delete(entries: Seq<EntryView>, e: EntryView)
    requires
        forall|i: int| 0 <= i < entries.len() ==> (#[trigger] entries[i]).title != e.title,
    ensures
        delete_completes(entries.push(e), e.title),
        after_delete(entries.push(e), e.title) == entries,
{
    let s = entries.push(e);
    assert forall|i: int| 0 <= i < s.len() - 1 implies (#[trigger] s[i]).title != e.title by {
        assert(s[i] == entries[i]);
    }
    assert(s.drop_last() =~= entries);
}

/// After a delete that runs to its end, no stored document carries the
/// title, the documents that stay keep their order, and exactly one document
/// goes when the last one carries the title, none otherwise.
pub proof fn lemma_delete_clears_title(entries: Seq<EntryView>, title: Seq<char>)
    requires
        delete_completes(entries, title),
    ensures
        forall|i: int|
            0 <= i < after_delete(entries, title).len() ==> (#[trigger] after_delete(
                entries,
                title,
            )[i]).title != title,
        after_delete(entries, title) == entries.take(after_delete(entries, title).len() as int),
        entries.len() == after_delete(entries, title).len() + (if entries.len() > 0
            && entries[entries.len() - 1].title == title {
            1int
        } else {
            0int
        }),
{
    let a = after_delete(entries, title);
    if entries.len() > 0 && entries.last().title == title {
        assert(a =~= entries.take(entries.len() - 1));
        assert forall|i: int| 0 <= i < a.len() implies (#[trigger] a[i]).title != title by {
            assert(a[i] == entries[i]);
        }
    } else {
        assert(a =~= entries.take(entries.len() as int));
        assert forall|i: int| 0 <= i < a.len() implies (#[trigger] a[i]).title != title by {
            if i < entries.len() - 1 {
                assert(entries[i].title != title);
            }
        }
    }
}

} // verus!
