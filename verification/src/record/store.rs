//! An in-memory store of a record's files: signal files as bytes, child
//! headers as text. The caller fills it; readers resolve names against it.

use vstd::prelude::*;

use crate::header::text::str_eq;

verus! {

/// The first entry with the given name, by view; `None` when absent.
pub open spec fn spec_store_lookup<T>(
    names: Seq<Seq<char>>,
    values: Seq<T>,
    name: Seq<char>,
    i: int,
) -> Option<T>
    decreases names.len() - i,
{
    if i >= names.len() || i >= values.len() {
        None
    } else if names[i] == name {
        Some(values[i])
    } else {
        spec_store_lookup(names, values, name, i + 1)
    }
}

/// The files of a record, held in memory: named signal files (raw bytes) and
/// named child headers (text), as the caller supplied them.
pub struct FileStore {
    file_names: Vec<String>,
    file_data: Vec<Vec<u8>>,
    header_names: Vec<String>,
    header_texts: Vec<String>,
}

impl FileStore {
    /// The signal file names, by view.
    pub closed spec fn spec_file_names(&self) -> Seq<Seq<char>> {
        self.file_names@.map_values(|s: String| s@)
    }

    /// The signal file contents, by view.
    pub closed spec fn spec_file_data(&self) -> Seq<Seq<u8>> {
        self.file_data@.map_values(|d: Vec<u8>| d@)
    }

    /// The child header names, by view.
    pub closed spec fn spec_header_names(&self) -> Seq<Seq<char>> {
        self.header_names@.map_values(|s: String| s@)
    }

    /// The child header texts, by view.
    pub closed spec fn spec_header_texts(&self) -> Seq<Seq<char>> {
        self.header_texts@.map_values(|s: String| s@)
    }

    /// The names and contents stay aligned.
    pub closed spec fn wf(&self) -> bool {
        self.file_names@.len() == self.file_data@.len() && self.header_names@.len()
            == self.header_texts@.len()
    }

    /// An empty store.
    pub fn new() -> (r: FileStore)
        ensures
            r.wf(),
            r.spec_file_names().len() == 0,
            r.spec_header_names().len() == 0,
    {
        FileStore {
            file_names: Vec::new(),
            file_data: Vec::new(),
            header_names: Vec::new(),
            header_texts: Vec::new(),
        }
    }

    /// Add a signal file under its name.
    pub fn add_file(&mut self, name: String, data: Vec<u8>)
        requires
            old(self).wf(),
        ensures
            final(self).wf(),
            final(self).spec_file_names() == old(self).spec_file_names().push(name@),
            final(self).spec_file_data() == old(self).spec_file_data().push(data@),
            final(self).spec_header_names() == old(self).spec_header_names(),
            final(self).spec_header_texts() == old(self).spec_header_texts(),
    {
        let ghost pn = self.file_names@;
        let ghost pd = self.file_data@;
        self.file_names.push(name);
        self.file_data.push(data);
        proof {
            assert(self.spec_file_names() =~= pn.map_values(|s: String| s@).push(name@));
            assert(self.spec_file_data() =~= pd.map_values(|d: Vec<u8>| d@).push(data@));
        }
    }

    /// Add a child record's header text under the record's name.
    pub fn add_header(&mut self, name: String, text: String)
        requires
            old(self).wf(),
        ensures
            final(self).wf(),
            final(self).spec_header_names() == old(self).spec_header_names().push(name@),
            final(self).spec_header_texts() == old(self).spec_header_texts().push(text@),
            final(self).spec_file_names() == old(self).spec_file_names(),
            final(self).spec_file_data() == old(self).spec_file_data(),
    {
        let ghost pn = self.header_names@;
        let ghost pt = self.header_texts@;
        self.header_names.push(name);
        self.header_texts.push(text);
        proof {
            assert(self.spec_header_names() =~= pn.map_values(|s: String| s@).push(name@));
            assert(self.spec_header_texts() =~= pt.map_values(|s: String| s@).push(text@));
        }
    }

    /// An independent copy of the store.
    pub fn clone_store(&self) -> (r: FileStore)
        requires
            self.wf(),
        ensures
            r.wf(),
            r.spec_file_names() == self.spec_file_names(),
            r.spec_file_data() == self.spec_file_data(),
            r.spec_header_names() == self.spec_header_names(),
            r.spec_header_texts() == self.spec_header_texts(),
    {
        let file_names = clone_strings(&self.file_names);
        let file_data = clone_datas(&self.file_data);
        let header_names = clone_strings(&self.header_names);
        let header_texts = clone_strings(&self.header_texts);
        let r = FileStore { file_names, file_data, header_names, header_texts };
        proof {
            assert(r.spec_file_names() =~= self.spec_file_names());
            assert(r.spec_file_data() =~= self.spec_file_data());
            assert(r.spec_header_names() =~= self.spec_header_names());
            assert(r.spec_header_texts() =~= self.spec_header_texts());
        }
        r
    }

    /// Look up a signal file by name; the first match wins. Returns a copy
    /// of its bytes.
    pub fn lookup_file(&self, name: &str) -> (r: Option<Vec<u8>>)
        requires
            self.wf(),
        ensures
            match r {
                Some(d) => spec_store_lookup(
                    self.spec_file_names(),
                    self.spec_file_data(),
                    name@,
                    0,
                ) == Some(d@),
                None => spec_store_lookup(
                    self.spec_file_names(),
                    self.spec_file_data(),
                    name@,
                    0,
                ) is None,
            },
    {
        let ghost names = self.spec_file_names();
        let ghost datas = self.spec_file_data();
        let mut i: usize = 0;
        while i < self.file_names.len()
            invariant
                i <= self.file_names@.len(),
                self.wf(),
                names == self.spec_file_names(),
                datas == self.spec_file_data(),
                names.len() == self.file_names@.len(),
                datas.len() == self.file_data@.len(),
                spec_store_lookup(names, datas, name@, 0) == spec_store_lookup(
                    names,
                    datas,
                    name@,
                    i as int,
                ),
            decreases self.file_names@.len() - i,
        {
            if str_eq(self.file_names[i].as_str(), name) {
                return Some(self.file_data[i].clone());
            }
            i = i + 1;
        }
        None
    }

    /// Look up a child header by record name; the first match wins. Returns
    /// a copy of its text.
    pub fn lookup_header(&self, name: &str) -> (r: Option<String>)
        requires
            self.wf(),
        ensures
            match r {
                Some(t) => spec_store_lookup(
                    self.spec_header_names(),
                    self.spec_header_texts(),
                    name@,
                    0,
                ) == Some(t@),
                None => spec_store_lookup(
                    self.spec_header_names(),
                    self.spec_header_texts(),
                    name@,
                    0,
                ) is None,
            },
    {
        let ghost names = self.spec_header_names();
        let ghost texts = self.spec_header_texts();
        let mut i: usize = 0;
        while i < self.header_names.len()
            invariant
                i <= self.header_names@.len(),
                self.wf(),
                names == self.spec_header_names(),
                texts == self.spec_header_texts(),
                names.len() == self.header_names@.len(),
                texts.len() == self.header_texts@.len(),
                spec_store_lookup(names, texts, name@, 0) == spec_store_lookup(
                    names,
                    texts,
                    name@,
                    i as int,
                ),
            decreases self.header_names@.len() - i,
        {
            if str_eq(self.header_names[i].as_str(), name) {
                return Some(self.header_texts[i].clone());
            }
            i = i + 1;
        }
        None
    }
}

/// A copy of a vector of strings, same views.
fn clone_strings(v: &Vec<String>) -> (r: Vec<String>)
    ensures
        r@.len() == v@.len(),
        forall|i: int| 0 <= i < v@.len() ==> #[trigger] r@[i]@ == v@[i]@,
{
    let mut r: Vec<String> = Vec::new();
    let mut i: usize = 0;
    while i < v.len()
        invariant
            i <= v@.len(),
            r@.len() == i,
            forall|k: int| 0 <= k < i ==> #[trigger] r@[k]@ == v@[k]@,
        decreases v@.len() - i,
    {
        r.push(v[i].clone());
        i = i + 1;
    }
    r
}

/// A copy of a vector of byte vectors, same views.
fn clone_datas(v: &Vec<Vec<u8>>) -> (r: Vec<Vec<u8>>)
    ensures
        r@.len() == v@.len(),
        forall|i: int| 0 <= i < v@.len() ==> #[trigger] r@[i]@ == v@[i]@,
{
    let mut r: Vec<Vec<u8>> = Vec::new();
    let mut i: usize = 0;
    while i < v.len()
        invariant
            i <= v@.len(),
            r@.len() == i,
            forall|k: int| 0 <= k < i ==> #[trigger] r@[k]@ == v@[k]@,
        decreases v@.len() - i,
    {
        r.push(v[i].clone());
        i = i + 1;
    }
    r
}

} // verus!
