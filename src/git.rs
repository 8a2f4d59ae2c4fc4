//! The commit history as the library sees it: plain values handed over by
//! whoever reads the repository.
use vstd::prelude::*;
use crate::error::Error;

verus! {

/// The author of a commit.
#[derive(Debug)]
pub struct Author {
    pub name: String,
    pub email: String,
}

/// What the history says of one commit.
#[derive(Debug)]
pub struct CommitMeta {
    pub commit: String,
    pub author: Author,
    /// Seconds since the Unix epoch, UTC.
    pub date: i64,
    pub subject: String,
}

/// The commits of a history, oldest first.
#[derive(Debug)]
pub struct Log(pub Vec<CommitMeta>);

/// One commit's text on its way into the document.
#[derive(Debug)]
pub struct Section {
    /// The commit's position in the history.
    pub id: usize,
    pub text: String,
    pub commit: String,
}

/// Where the first commit with hash `h` stands among `ids`, if anywhere.
pub open spec fn first_index(ids: Seq<Seq<char>>, h: Seq<char>) -> Option<int>
    decreases ids.len(),
{
    if ids.len() == 0 {
        None
    } else {
        match first_index(ids.drop_last(), h) {
            Some(i) => Some(i),
            None => if ids.last() == h {
                Some(ids.len() - 1)
            } else {
                None
            },
        }
    }
}

impl Log {
    /// The hashes of the commits, in order.
    pub open spec fn hashes(&self) -> Seq<Seq<char>> {
        self.0@.map_values(|c: CommitMeta| c.commit@)
    }

    /// One section per commit, in order, holding the commit's message.
    pub fn sections(&self, messages: &Vec<String>) -> (r: Vec<Section>)
        requires
            messages@.len() == self.0@.len(),
        ensures
            r@.len() == self.0@.len(),
            forall|i: int| 0 <= i < r@.len() ==> {
                &&& #[trigger] r@[i].id == i
                &&& r@[i].commit@ == self.0@[i].commit@
                &&& r@[i].text@ == messages@[i]@
            },
    {
        let mut r: Vec<Section> = Vec::new();
        let ghost texts = messages@;
        let mut i: usize = 0;
        while i < self.0.len()
            invariant
                i <= self.0@.len(),
                texts.len() == self.0@.len(),
                texts == messages@,
                r@.len() == i,
                forall|k: int| 0 <= k < i ==> {
                    &&& #[trigger] r@[k].id == k
                    &&& r@[k].commit@ == self.0@[k].commit@
                    &&& r@[k].text@ == texts[k]@
                },
            decreases self.0@.len() - i,
        {
            let text = messages[i].clone();
            let commit = self.0[i].commit.clone();
            let ghost prev = r@;
            r.push(Section { id: i, text, commit });
            proof {
                assert forall|k: int| 0 <= k < i + 1 implies {
                    &&& #[trigger] r@[k].id == k
                    &&& r@[k].commit@ == self.0@[k].commit@
                    &&& r@[k].text@ == texts[k]@
                } by {
                    if k < i {
                        assert(r@[k] == prev[k]);
                    }
                }
            }
            i = i + 1;
        }
        r
    }

    /// The subject of the commit with hash `hash`; an unresolved reference
    /// when the history holds no such commit.
    pub fn subject(&self, hash: &str) -> (r: Result<String, Error>)
        ensures
            match first_index(self.hashes(), hash@) {
                Some(i) => r matches Ok(s) && s@ == self.0@[i].subject@,
                None => r matches Err(e) && e matches Error::UnresolvedReference(h) && h@ == hash@,
            },
    {
        let ghost hs = self.hashes();
        let want = String::from_str(hash);
        let mut i: usize = 0;
        while i < self.0.len()
            invariant
                i <= self.0@.len(),
                hs == self.hashes(),
                want@ == hash@,
                first_index(hs.subrange(0, i as int), hash@) is None,
            decreases self.0@.len() - i,
        {
            proof {
                assert(hs.subrange(0, i + 1).drop_last() =~= hs.subrange(0, i as int));
            }
            if self.0[i].commit == want {
                proof {
                    lemma_first_index_prefix(hs, i as int + 1, hash@);
                }
                return Ok(self.0[i].subject.clone());
            }
            i = i + 1;
        }
        proof {
            assert(hs.subrange(0, i as int) =~= hs);
        }
        Err(Error::UnresolvedReference(want))
    }
}

/// A hit within a prefix is the hit of the whole.
proof fn lemma_first_index_prefix(ids: Seq<Seq<char>>, n: int, h: Seq<char>)
    requires
        0 <= n <= ids.len(),
        first_index(ids.subrange(0, n), h) is Some,
    ensures
        first_index(ids, h) == first_index(ids.subrange(0, n), h),
    decreases ids.len() - n,
{
    if n < ids.len() {
        assert(ids.subrange(0, n + 1).drop_last() =~= ids.subrange(0, n));
        lemma_first_index_prefix(ids, n + 1, h);
    } else {
        assert(ids.subrange(0, n) =~= ids);
    }
}

} // verus!
