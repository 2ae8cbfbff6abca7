//! Folder pairs and the ordered collection of them.

use vstd::prelude::*;

verus! {

/// A pair of paths as the contracts see it: (source, destination).
pub type PairView = (Seq<char>, Seq<char>);

/// A folder pair is valid when neither path is empty.
pub open spec fn valid_pair(pair: PairView) -> bool {
    pair.0.len() > 0 && pair.1.len() > 0
}

/// Every pair of the sequence is valid.
pub open spec fn valid_pairs(pairs: Seq<PairView>) -> bool {
    forall|i: int| 0 <= i < pairs.len() ==> valid_pair(#[trigger] pairs[i])
}

/// One backup rule: the tree under `source` is mirrored into `destination`.
/// Both paths are non-empty.
#[derive(Debug, PartialEq, Eq)]
pub struct FolderPair {
    source: String,
    destination: String,
}

impl View for FolderPair {
    type V = PairView;

    closed spec fn view(&self) -> PairView {
        (self.source@, self.destination@)
    }
}

impl FolderPair {
    #[verifier::type_invariant]
    spec fn inv(self) -> bool {
        valid_pair(self@)
    }

    /// Makes a pair, unless one of the paths is empty.
    pub fn new(source: &str, destination: &str) -> (out: Option<FolderPair>)
        ensures
            out is Some <==> valid_pair((source@, destination@)),
            out matches Some(pair) ==> pair@ == (source@, destination@),
    {
        if source.unicode_len() == 0 || destination.unicode_len() == 0 {
            None
        } else {
            Some(FolderPair { source: source.to_owned(), destination: destination.to_owned() })
        }
    }

    /// The directory that is read.
    pub fn source(&self) -> (out: &str)
        ensures
            out@ == self@.0,
            out@.len() > 0,
    {
        proof {
            use_type_invariant(self);
        }
        self.source.as_str()
    }

    /// The directory that is written.
    pub fn destination(&self) -> (out: &str)
        ensures
            out@ == self@.1,
            out@.len() > 0,
    {
        proof {
            use_type_invariant(self);
        }
        self.destination.as_str()
    }

}

impl Clone for FolderPair {
    fn clone(&self) -> (out: FolderPair)
        ensures
            out@ == self@,
    {
        proof {
            use_type_invariant(self);
        }
        FolderPair { source: self.source.clone(), destination: self.destination.clone() }
    }
}

/// The persisted state: folder pairs in the order in which they were added.
#[derive(Debug, PartialEq, Eq)]
pub struct Config {
    pairs: Vec<FolderPair>,
}

impl View for Config {
    type V = Seq<PairView>;

    closed spec fn view(&self) -> Seq<PairView> {
        self.pairs@.map_values(|pair: FolderPair| pair@)
    }
}

impl Config {
    /// The empty collection.
    pub fn new() -> (out: Config)
        ensures
            out@ == Seq::<PairView>::empty(),
    {
        let out = Config { pairs: Vec::new() };
        assert(out@ =~= Seq::<PairView>::empty());
        out
    }

    /// The number of pairs.
    pub fn len(&self) -> (out: usize)
        ensures
            out == self@.len(),
    {
        self.pairs.len()
    }

    /// The pair at `index`, if there is one.
    pub fn get(&self, index: usize) -> (out: Option<&FolderPair>)
        ensures
            out is Some <==> index < self@.len(),
            out matches Some(pair) ==> pair@ == self@[index as int] && valid_pair(pair@),
    {
        if index < self.pairs.len() {
            let pair = &self.pairs[index];
            proof {
                use_type_invariant(pair);
            }
            Some(pair)
        } else {
            None
        }
    }

    /// The pair at `index`, which is in range.
    pub(crate) fn entry(&self, index: usize) -> (out: &FolderPair)
        requires
            index < self@.len(),
        ensures
            out@ == self@[index as int],
    {
        &self.pairs[index]
    }

    /// Adds `pair` at the end; the pairs already present keep their places.
    pub fn append(&mut self, pair: FolderPair)
        ensures
            final(self)@ == old(self)@.push(pair@),
    {
        self.pairs.push(pair);
        assert(self@ =~= old(self)@.push(pair@));
    }

    /// A copy of the whole list, for a backup run to work on while the
    /// configuration itself stays with its owner.
    pub fn snapshot(&self) -> (out: Vec<FolderPair>)
        ensures
            out@.map_values(|pair: FolderPair| pair@) == self@,
    {
        let mut out: Vec<FolderPair> = Vec::new();
        let mut i: usize = 0;
        while i < self.pairs.len()
            invariant
                i <= self.pairs.len(),
                out@.len() == i,
                forall|k: int| 0 <= k < i ==> (#[trigger] out@[k])@ == self.pairs@[k]@,
            decreases self.pairs.len() - i,
        {
            out.push(self.pairs[i].clone());
            i += 1;
        }
        assert(out@.map_values(|pair: FolderPair| pair@) =~= self@);
        out
    }
}

} // verus!
