//! Configuration, a description of a directory tree to lay out, and tag
//! maps written as pairs.
use crate::model::Tags;
use vstd::prelude::*;

verus! {

/// Where the library lives on disk.
#[derive(Debug, Clone, PartialEq, Eq)]
pub struct Config {
    pub asset_dir: String,
}

impl Config {
    /// The configuration used when none is given.
    pub fn new() -> (r: Self)
        ensures
            r.asset_dir@ == "/opt/medusa/content"@,
    {
        Config { asset_dir: String::from_str("/opt/medusa/content") }
    }
}

impl Default for Config {
    fn default() -> (r: Self)
        ensures
            r.asset_dir@ == "/opt/medusa/content"@,
    {
        Self::new()
    }
}

/// A file with its text, or a directory with its entries.
#[derive(Debug, PartialEq, Eq)]
pub enum FileEntry {
    File { name: String, content: String },
    Directory { name: String, content: Vec<FileEntry> },
}

/// A file named `name` holding `content`.
pub fn f(name: &str, content: &str) -> (r: FileEntry)
    ensures
        match r {
            FileEntry::File { name: n, content: c } => n@ == name@ && c@ == content@,
            FileEntry::Directory { .. } => false,
        },
{
    FileEntry::File { name: String::from_str(name), content: String::from_str(content) }
}

/// A directory named `name` holding `content`, in order.
pub fn d(name: &str, content: Vec<FileEntry>) -> (r: FileEntry)
    ensures
        r == (FileEntry::Directory { name: r->Directory_name, content }),
        r->Directory_name@ == name@,
{
    FileEntry::Directory { name: String::from_str(name), content }
}

/// The map that the pairs give, a later pair for a key replacing an earlier.
pub open spec fn pairs_map(s: Seq<(&str, &str)>) -> Map<Seq<char>, Seq<char>>
    decreases s.len(),
{
    if s.len() == 0 {
        Map::empty()
    } else {
        pairs_map(s.drop_last()).insert(s.last().0@, s.last().1@)
    }
}

/// No key stands twice.
pub open spec fn keys_unique(t: Seq<(String, String)>) -> bool {
    forall|i: int, j: int| 0 <= i < j < t.len() ==> t[i].0@ != t[j].0@
}

/// The tags hold exactly the entries of `m`, each key once.
pub open spec fn tags_are(t: Seq<(String, String)>, m: Map<Seq<char>, Seq<char>>) -> bool {
    &&& keys_unique(t)
    &&& forall|i: int| 0 <= i < t.len() ==> m.contains_key(#[trigger] t[i].0@) && m[t[i].0@] == t[i].1@
    &&& forall|k: Seq<char>| #[trigger] m.contains_key(k) ==> exists|i: int| 0 <= i < t.len() && t[i].0@ == k
}

/// Tags from key and value pairs, each key once; a later pair for a key
/// replaces an earlier one.
pub fn hm(pairs: &[(&str, &str)]) -> (r: Tags)
    ensures
        tags_are(r@, pairs_map(pairs@)),
{
    let mut r: Tags = Vec::new();
    let mut i: usize = 0;
    while i < pairs.len()
        invariant
            i <= pairs@.len(),
            tags_are(r@, pairs_map(pairs@.take(i as int))),
        decreases pairs@.len() - i,
    {
        let (k, v) = pairs[i];
        let key = String::from_str(k);
        let ghost before = r@;
        let ghost m = pairs_map(pairs@.take(i as int));
        assert(pairs@.take(i + 1).drop_last() =~= pairs@.take(i as int));
        assert(pairs@.take(i + 1).last() == pairs@[i as int]);
        let mut j: usize = 0;
        while j < r.len() && !(r[j].0 == key)
            invariant
                j <= r@.len(),
                r@ == before,
                forall|q: int| 0 <= q < j ==> r@[q].0@ != key@,
            decreases r@.len() - j,
        {
            j = j + 1;
        }
        if j < r.len() {
            r.set(j, (key, String::from_str(v)));
            assert(tags_are(r@, m.insert(k@, v@))) by {
                assert forall|a: int, b: int| 0 <= a < b < r@.len() implies r@[a].0@ != r@[b].0@ by {
                    assert(before[a].0@ != before[b].0@);
                }
                assert forall|kk: Seq<char>| #[trigger] m.insert(k@, v@).contains_key(kk) implies exists|q: int|
                    0 <= q < r@.len() && r@[q].0@ == kk by {
                    if kk != k@ {
                        let q = choose|q: int| 0 <= q < before.len() && before[q].0@ == kk;
                        assert(r@[q].0@ == kk);
                    } else {
                        assert(r@[j as int].0@ == kk);
                    }
                }
            }
        } else {
            r.push((key, String::from_str(v)));
            assert(tags_are(r@, m.insert(k@, v@))) by {
                assert forall|a: int, b: int| 0 <= a < b < r@.len() implies r@[a].0@ != r@[b].0@ by {
                    if b < before.len() {
                        assert(before[a].0@ != before[b].0@);
                    }
                }
                assert forall|q: int| 0 <= q < r@.len() implies m.insert(k@, v@).contains_key(#[trigger] r@[q].0@)
                    && m.insert(k@, v@)[r@[q].0@] == r@[q].1@ by {
                    if q < before.len() {
                        assert(r@[q] == before[q]);
                    }
                }
                assert forall|kk: Seq<char>| #[trigger] m.insert(k@, v@).contains_key(kk) implies exists|q: int|
                    0 <= q < r@.len() && r@[q].0@ == kk by {
                    if kk != k@ {
                        let q = choose|q: int| 0 <= q < before.len() && before[q].0@ == kk;
                        assert(r@[q].0@ == kk);
                    } else {
                        assert(r@[before.len() as int].0@ == kk);
                    }
                }
            }
        }
        i = i + 1;
    }
    assert(pairs@.take(i as int) =~= pairs@);
    r
}

} // verus!
