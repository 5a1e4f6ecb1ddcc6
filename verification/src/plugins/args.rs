//! Arguments handed to connectors and to the layers built on them:
//! `key1=value1,key2=value2,...`.

use crate::plugins::text::{after_char, before_char, find_char, split_once_char};
use vstd::prelude::*;
use vstd::string::*;

verus! {

/// A key and its value, as sequences of characters.
pub type SpecPair = (Seq<char>, Seq<char>);

/// The key and value that one comma-separated piece spells: the piece must
/// hold exactly one `=`.
pub open spec fn pair_of(piece: Seq<char>) -> Option<SpecPair> {
    match after_char(piece, '=') {
        Some(value) => if after_char(value, '=').is_none() {
            Some((before_char(piece, '='), value))
        } else {
            None
        },
        None => None,
    }
}

/// The pairs that an argument string spells, in the order written. Pieces
/// that are no pair are passed over.
pub open spec fn pairs_of(s: Seq<char>) -> Seq<SpecPair>
    decreases s.len(),
{
    let head = match pair_of(before_char(s, ',')) {
        Some(p) => seq![p],
        None => Seq::empty(),
    };
    if 0 <= find_char(s, ',') < s.len() {
        head + pairs_of(s.subrange(find_char(s, ',') + 1, s.len() as int))
    } else {
        head
    }
}

/// The value of `key` among `pairs`: that of the last pair with this key.
pub open spec fn lookup(pairs: Seq<SpecPair>, key: Seq<char>) -> Option<Seq<char>>
    decreases pairs.len(),
{
    if pairs.len() == 0 {
        None
    } else if pairs.last().0 == key {
        Some(pairs.last().1)
    } else {
        lookup(pairs.drop_last(), key)
    }
}

/// A bag of key-value pairs. A key given twice keeps its later value.
pub struct Args {
    entries: Vec<(String, String)>,
}

impl View for Args {
    type V = Seq<SpecPair>;

    closed spec fn view(&self) -> Seq<SpecPair> {
        self.entries@.map_values(|p: (String, String)| (p.0@, p.1@))
    }
}

impl Args {
    /// No arguments.
    pub fn new() -> (a: Args)
        ensures
            a@ == Seq::<SpecPair>::empty(),
    {
        let a = Args { entries: Vec::new() };
        assert(a@ =~= Seq::<SpecPair>::empty());
        a
    }

    /// The arguments that `s` spells.
    pub fn parse(s: &str) -> (a: Args)
        ensures
            a@ == pairs_of(s@),
    {
        let mut entries: Vec<(String, String)> = Vec::new();
        let mut cur: &str = s;
        let ghost view_of = |p: (String, String)| (p.0@, p.1@);
        loop
            invariant
                view_of == |p: (String, String)| (p.0@, p.1@),
                entries@.map_values(view_of) + pairs_of(cur@) == pairs_of(s@),
            decreases cur@.len(),
        {
            let ghost before = entries@.map_values(view_of);
            let (piece, rest) = split_once_char(cur, ',');
            let (key, value) = split_once_char(piece, '=');
            if let Some(v) = value {
                let (_, more) = split_once_char(v, '=');
                if more.is_none() {
                    entries.push((key.to_owned(), v.to_owned()));
                    assert(entries@.map_values(view_of) =~= before + seq![(key@, v@)]);
                }
            }
            match rest {
                Some(t) => {
                    assert(entries@.map_values(view_of) + pairs_of(t@) =~= pairs_of(s@));
                    cur = t;
                },
                None => {
                    let a = Args { entries };
                    assert(a@ =~= pairs_of(s@));
                    return a;
                },
            }
        }
    }

    /// The value of `key`, if it was given.
    pub fn get(&self, key: &str) -> (r: Option<&str>)
        ensures
            r.is_some() == lookup(self@, key@).is_some(),
            r matches Some(v) ==> lookup(self@, key@) == Some(v@),
    {
        let wanted = key.to_owned();
        let mut i: usize = self.entries.len();
        assert(self@.subrange(0, i as int) =~= self@);
        while i > 0
            invariant
                i <= self.entries.len(),
                wanted@ == key@,
                lookup(self@.subrange(0, i as int), key@) == lookup(self@, key@),
            decreases i,
        {
            let ghost prefix = self@.subrange(0, i as int);
            assert(prefix.drop_last() =~= self@.subrange(0, i - 1));
            assert(prefix.last() == (self.entries[i - 1].0@, self.entries[i - 1].1@));
            if self.entries[i - 1].0 == wanted {
                return Some(self.entries[i - 1].1.as_str());
            }
            i -= 1;
        }
        assert(self@.subrange(0, 0) =~= Seq::<SpecPair>::empty());
        None
    }

    /// These arguments with `key` set to `value`.
    pub fn insert(self, key: &str, value: &str) -> (a: Args)
        ensures
            a@ == self@.push((key@, value@)),
    {
        let mut entries = self.entries;
        entries.push((key.to_owned(), value.to_owned()));
        let a = Args { entries };
        assert(a@ =~= self@.push((key@, value@)));
        a
    }
}

} // verus!
