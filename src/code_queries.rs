use vstd::prelude::*;
use vstd::std_specs::iter::IteratorSpec;
use crate::table::{find_key, keys_of, lemma_table_index, lemma_table_push, lemma_table_set, lemma_table_absent, table_of};

verus! {

/// What `str::trim` leaves of a line: the line without its leading and
/// trailing whitespace.
pub uninterp spec fn trimmed(s: Seq<char>) -> Seq<char>;

/// Relies on `str::trim`: the result depends on the characters of the line alone.
#[verifier::external_body]
fn trim_line(s: &str) -> (r: String)
    ensures
        r@ == trimmed(s@),
{
    s.trim().to_owned()
}

/// Why a pattern set could not be built.
#[derive(Debug, Clone, Copy, PartialEq, Eq)]
pub enum QueriesError {
    /// The source held no line at all.
    EmptyInput,
}

/// The ordered, non-empty list of literal patterns searched for; the order
/// is the column order of the report.
#[derive(Debug, Clone)]
pub struct CodeQueries {
    inner: Vec<String>,
}

impl View for CodeQueries {
    type V = Seq<String>;

    closed spec fn view(&self) -> Seq<String> {
        self.inner@
    }
}

/// The patterns that a sequence of source lines yields: each line trimmed, in order.
pub open spec fn patterns_of_lines(lines: Seq<String>) -> Seq<Seq<char>> {
    lines.map_values(|l: String| trimmed(l@))
}

impl CodeQueries {
    /// Builds the pattern set from the lines of a pattern source: every line,
    /// blank ones included, becomes one trimmed pattern, in order. A source
    /// with no line is refused.
    pub fn from_lines(lines: &Vec<String>) -> (r: Result<CodeQueries, QueriesError>)
        ensures
            r is Err <==> lines@.len() == 0,
            r matches Err(e) ==> e == QueriesError::EmptyInput,
            r matches Ok(q) ==> q@.map_values(|p: String| p@) == patterns_of_lines(lines@),
    {
        let mut this = CodeQueries { inner: Vec::new() };
        let mut i: usize = 0;
        while i < lines.len()
            invariant
                i <= lines@.len(),
                this@.len() == i,
                forall|j: int| 0 <= j < i ==> this@[j]@ == trimmed(lines@[j]@),
            decreases lines@.len() - i,
        {
            let t = trim_line(lines[i].as_str());
            this.push(t);
            i = i + 1;
        }
        if this.inner.len() == 0 {
            return Err(QueriesError::EmptyInput);
        }
        assert(this@.map_values(|p: String| p@) =~= patterns_of_lines(lines@));
        Ok(this)
    }

    fn push(&mut self, s: String)
        ensures
            final(self)@ == old(self)@.push(s),
    {
        self.inner.push(s)
    }

    /// The patterns, in order, one by one.
    pub fn iter(&self) -> (r: std::slice::Iter<'_, String>)
        ensures
            IteratorSpec::remaining(&r) == self@.as_ref(),
    {
        broadcast use vstd::std_specs::slice::axiom_spec_slice_iter;
        self.inner.as_slice().iter()
    }

    /// The patterns, in order.
    pub fn as_slice(&self) -> (r: &[String])
        ensures
            r@ == self@,
    {
        self.inner.as_slice()
    }

    /// The number of patterns.
    pub fn len(&self) -> (r: usize)
        ensures
            r == self@.len(),
    {
        self.inner.len()
    }
}

/// `n`, capped at the largest `usize`.
pub open spec fn saturate(n: nat) -> nat {
    if n > usize::MAX { usize::MAX as nat } else { n }
}

/// How many of `ts` spell `k`.
pub open spec fn occurrences(ts: Seq<String>, k: Seq<char>) -> nat
    decreases ts.len(),
{
    if ts.len() == 0 {
        0
    } else {
        occurrences(ts.drop_last(), k) + (if ts.last()@ == k { 1nat } else { 0nat })
    }
}

/// Match counts of one tree, keyed by the matched text; a text never matched
/// counts 0.
#[derive(Debug)]
pub struct MatchCounts {
    entries: Vec<(String, usize)>,
}

impl MatchCounts {
    /// Each text is stored once.
    #[verifier::type_invariant]
    spec fn wf(&self) -> bool {
        keys_of(self.entries@).no_duplicates()
    }

    /// The texts that were counted, with their counts.
    pub closed spec fn table(&self) -> Map<Seq<char>, usize> {
        table_of(self.entries@)
    }

    /// The count of `k`, 0 where it was never counted.
    pub open spec fn count(&self, k: Seq<char>) -> nat {
        if self.table().contains_key(k) { self.table()[k] as nat } else { 0 }
    }

    /// No text counted yet.
    pub fn new() -> (r: MatchCounts)
        ensures
            r.table() == Map::<Seq<char>, usize>::empty(),
    {
        MatchCounts { entries: Vec::new() }
    }

    /// The count of `k`, 0 where it was never counted.
    pub fn get(&self, k: &String) -> (r: usize)
        ensures
            r == self.count(k@),
    {
        proof { use_type_invariant(self); }
        match find_key(&self.entries, k) {
            Some(i) => {
                proof { lemma_table_index(self.entries@, i as int); }
                self.entries[i].1
            },
            None => {
                proof { lemma_table_absent(self.entries@, k@); }
                0
            },
        }
    }

    /// Counts one more match of `k` (staying at the largest `usize` once there).
    pub fn increment(&mut self, k: &String)
        ensures
            final(self).table() == old(self).table().insert(
                k@,
                saturate(old(self).count(k@) + 1) as usize,
            ),
    {
        proof { use_type_invariant(&*self); }
        match find_key(&self.entries, k) {
            Some(i) => {
                proof { lemma_table_index(self.entries@, i as int); }
                let c = self.entries[i].1;
                let n = if c < usize::MAX { c + 1 } else { c };
                let e = (k.clone(), n);
                proof { lemma_table_set(self.entries@, i as int, e); }
                let mut taken = MatchCounts::new();
                std::mem::swap(self, &mut taken);
                let MatchCounts { mut entries } = taken;
                entries.set(i, e);
                *self = MatchCounts { entries };
            },
            None => {
                proof { lemma_table_absent(self.entries@, k@); }
                let e = (k.clone(), 1usize);
                proof {
                    lemma_table_push(self.entries@, e);
                    assert forall|a: int, b: int|
                        0 <= a < b < keys_of(self.entries@.push(e)).len() implies keys_of(
                        self.entries@.push(e),
                    )[a] != keys_of(self.entries@.push(e))[b] by {
                        if b == self.entries@.len() {
                            assert(keys_of(self.entries@)[a] == keys_of(self.entries@.push(e))[a]);
                        }
                    }
                }
                let mut taken = MatchCounts::new();
                std::mem::swap(self, &mut taken);
                let MatchCounts { mut entries } = taken;
                entries.push(e);
                *self = MatchCounts { entries };
            },
        }
    }

    /// Counts one match of each of `texts`: every count grows by the number
    /// of times its text occurs there (capped at the largest `usize`), and
    /// no text outside `texts` gains a count.
    pub fn record_matches(&mut self, texts: &Vec<String>)
        ensures
            forall|k: Seq<char>|
                #[trigger] final(self).count(k) == saturate(old(self).count(k) + occurrences(texts@, k)),
            forall|k: Seq<char>|
                #[trigger] final(self).table().contains_key(k) ==> old(self).table().contains_key(k)
                    || texts@.map_values(|t: String| t@).contains(k),
    {
        let ghost start = *self;
        let mut i: usize = 0;
        while i < texts.len()
            invariant
                i <= texts@.len(),
                forall|k: Seq<char>|
                    #[trigger] self.count(k) == saturate(start.count(k) + occurrences(texts@.subrange(0, i as int), k)),
                forall|k: Seq<char>|
                    #[trigger] self.table().contains_key(k) ==> start.table().contains_key(k)
                        || texts@.subrange(0, i as int).map_values(|t: String| t@).contains(k),
            decreases texts@.len() - i,
        {
            let ghost before = *self;
            self.increment(&texts[i]);
            proof {
                let pre = texts@.subrange(0, i as int);
                let cur = texts@.subrange(0, i + 1);
                assert(cur.drop_last() =~= pre);
                assert forall|k: Seq<char>|
                    #[trigger] self.count(k) == saturate(start.count(k) + occurrences(cur, k)) by {
                    assert(occurrences(cur, k) == occurrences(pre, k) + (if texts@[i as int]@ == k { 1nat } else { 0nat }));
                    assert(before.count(k) == saturate(start.count(k) + occurrences(pre, k)));
                }
                assert forall|k: Seq<char>|
                    #[trigger] self.table().contains_key(k) implies start.table().contains_key(k)
                        || cur.map_values(|t: String| t@).contains(k) by {
                    if k == texts@[i as int]@ {
                        assert(cur.map_values(|t: String| t@)[i as int] == k);
                    } else {
                        assert(before.table().contains_key(k));
                        let pm = pre.map_values(|t: String| t@);
                        if pm.contains(k) {
                            let j = choose|j: int| 0 <= j < pm.len() && #[trigger] pm[j] == k;
                            assert(cur.map_values(|t: String| t@)[j] == k);
                        }
                    }
                }
            }
            i = i + 1;
        }
        assert(texts@.subrange(0, texts@.len() as int) =~= texts@);
    }
}

/// The counts found in one repository, `owner/name`.
#[derive(Debug)]
pub struct QueryResults {
    pub repo_name: String,
    pub repo_owner: String,
    pub inner: MatchCounts,
}

impl QueryResults {
    /// The identifier of the repository: `owner/name`.
    pub open spec fn identifier(&self) -> Seq<char> {
        self.repo_owner@ + seq!['/'] + self.repo_name@
    }
}

} // verus!
