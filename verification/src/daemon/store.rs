//! A durable list: what it holds, and what a change of it writes.

use vstd::prelude::*;

use crate::text;
use crate::text::decimal;

verus! {

/// A list of rows that stands in one file. The caller reads the file before a change and writes it
/// after.
pub struct JsonStore<T> {
    path: String,
    rows: Vec<T>,
}

impl<T> JsonStore<T> {
    /// Where the file is.
    pub closed spec fn file(&self) -> Seq<char> {
        self.path@
    }

    /// What the list holds.
    pub closed spec fn held(&self) -> Seq<T> {
        self.rows@
    }

    /// The list of a file that is not there.
    pub fn new(path: String) -> (s: JsonStore<T>)
        ensures
            s.file() == path@,
            s.held() == Seq::<T>::empty(),
    {
        JsonStore { path, rows: Vec::new() }
    }

    /// The list as the file holds it, given what came of reading and parsing it: a file that is
    /// missing or does not parse holds nothing.
    pub fn load(path: String, parsed: Option<Vec<T>>) -> (s: JsonStore<T>)
        ensures
            s.file() == path@,
            s.held() == (match parsed {
                Some(v) => v@,
                None => Seq::<T>::empty(),
            }),
    {
        match parsed {
            Some(rows) => JsonStore { path, rows },
            None => JsonStore { path, rows: Vec::new() },
        }
    }

    /// What the list holds.
    pub fn rows(&self) -> (rows: &Vec<T>)
        ensures
            rows@ == self.held(),
    {
        &self.rows
    }

    /// Where the file is.
    pub fn path(&self) -> (p: &str)
        ensures
            p@ == self.file(),
    {
        self.path.as_str()
    }

    /// The list holds these rows from now on.
    pub fn commit(&mut self, rows: Vec<T>)
        ensures
            final(self).file() == old(self).file(),
            final(self).held() == rows@,
    {
        self.rows = rows;
    }

    /// Change the list and hand out what the change gives, whatever becomes of the write.
    pub fn mutate<R, F: FnOnce(&Vec<T>) -> (Vec<T>, R)>(&mut self, f: F) -> (out: R)
        requires
            forall|v: &Vec<T>| v@ == old(self).held() ==> #[trigger] f.requires((v,)),
        ensures
            final(self).file() == old(self).file(),
            exists|v: Vec<T>, w: Vec<T>|
                v@ == old(self).held() && w@ == final(self).held() && #[trigger] f.ensures(
                    (&v,),
                    (w, out),
                ),
    {
        let (rows, out) = f(&self.rows);
        self.rows = rows;
        out
    }

    /// What a change would write, and what it gives. Nothing has changed until the rows are written
    /// and committed, so a failed write leaves the list as it was.
    pub fn try_mutate<R, F: FnOnce(&Vec<T>) -> (Vec<T>, R)>(&self, f: F) -> (r: (Vec<T>, R))
        requires
            forall|v: &Vec<T>| v@ == self.held() ==> #[trigger] f.requires((v,)),
        ensures
            exists|v: Vec<T>| v@ == self.held() && #[trigger] f.ensures((&v,), r),
    {
        f(&self.rows)
    }

    /// Change the list where there is anything to change, and say so: without a change nothing is
    /// written.
    pub fn mutate_if<F: FnOnce(&Vec<T>) -> Option<Vec<T>>>(&mut self, f: F) -> (write: bool)
        requires
            forall|v: &Vec<T>| v@ == old(self).held() ==> #[trigger] f.requires((v,)),
        ensures
            final(self).file() == old(self).file(),
            exists|v: Vec<T>, w: Option<Vec<T>>|
                {
                    &&& v@ == old(self).held()
                    &&& #[trigger] f.ensures((&v,), w)
                    &&& write == (w is Some)
                    &&& final(self).held() == (match w {
                        Some(rows) => rows@,
                        None => old(self).held(),
                    })
                },
    {
        match f(&self.rows) {
            Some(rows) => {
                self.rows = rows;
                true
            },
            None => false,
        }
    }

    /// The file that a write makes before the rename: one for each process and each write. `stem` is
    /// the path without its extension.
    pub fn temp_path(stem: &str, pid: u32, seq: u64) -> (p: String)
        ensures
            p@ == temp_name(stem@, pid as nat, seq as nat),
    {
        let mut p = stem.to_owned();
        p.append(".json.");
        p.append(text::show(pid as u128).as_str());
        p.append(".");
        p.append(text::show(seq as u128).as_str());
        p.append(".tmp");
        p
    }
}

/// The file that a write makes before the rename.
pub open spec fn temp_name(stem: Seq<char>, pid: nat, seq: nat) -> Seq<char> {
    stem + ".json."@ + decimal(pid) + "."@ + decimal(seq) + ".tmp"@
}

} // verus!
