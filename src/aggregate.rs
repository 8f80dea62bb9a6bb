use vstd::prelude::*;
use crate::code_queries::{CodeQueries, MatchCounts, QueryResults};
use crate::decimal::{decimal_of, push_decimal};
use crate::table::{find_key, keys_of, lemma_table_index, lemma_table_push, lemma_table_set, table_of};

verus! {

/// The header cells after `repo`: a comma and each pattern, in order.
pub open spec fn header_cells(pats: Seq<String>) -> Seq<char>
    decreases pats.len(),
{
    if pats.len() == 0 {
        Seq::empty()
    } else {
        header_cells(pats.drop_last()) + seq![','] + pats.last()@
    }
}

/// The header line of the report, without its newline.
pub open spec fn header_line(pats: Seq<String>) -> Seq<char> {
    seq!['r', 'e', 'p', 'o'] + header_cells(pats)
}

/// The count cells of a row: a comma and each pattern's count in decimal,
/// in pattern order, 0 for a pattern never matched.
pub open spec fn count_cells(counts: MatchCounts, pats: Seq<String>) -> Seq<char>
    decreases pats.len(),
{
    if pats.len() == 0 {
        Seq::empty()
    } else {
        count_cells(counts, pats.drop_last()) + seq![','] + decimal_of(counts.count(pats.last()@))
    }
}

/// The data line of one repository, without its newline.
pub open spec fn data_line(id: Seq<char>, counts: MatchCounts, pats: Seq<String>) -> Seq<char> {
    id + count_cells(counts, pats)
}

/// The characters of each string, in order.
pub open spec fn views_of(v: Seq<String>) -> Seq<Seq<char>> {
    v.map_values(|l: String| l@)
}

/// Lines joined into text, each ended by a newline.
pub open spec fn text_of_lines(lines: Seq<Seq<char>>) -> Seq<char>
    decreases lines.len(),
{
    if lines.len() == 0 {
        Seq::empty()
    } else {
        text_of_lines(lines.drop_last()) + lines.last() + seq!['\n']
    }
}

/// Collects the counts of each successfully processed repository, one record
/// per repository identifier, and renders them as a CSV report.
#[derive(Debug)]
pub struct Aggregator<'a> {
    queries: &'a CodeQueries,
    results: Vec<(String, MatchCounts)>,
}

impl<'a> Aggregator<'a> {
    /// Each identifier is held once.
    #[verifier::type_invariant]
    spec fn wf(&self) -> bool {
        keys_of(self.results@).no_duplicates()
    }

    /// The identifiers held, in the order in which they were first added.
    pub closed spec fn ids(&self) -> Seq<Seq<char>> {
        keys_of(self.results@)
    }

    /// The record held for each identifier.
    pub closed spec fn table(&self) -> Map<Seq<char>, MatchCounts> {
        table_of(self.results@)
    }

    /// The patterns whose counts make up the columns.
    pub closed spec fn patterns(&self) -> Seq<String> {
        self.queries@
    }

    /// The lines of the report: the header, then one line per identifier.
    pub open spec fn report_lines(&self) -> Seq<Seq<char>> {
        seq![header_line(self.patterns())] + self.ids().map_values(
            |id: Seq<char>| data_line(id, self.table()[id], self.patterns()),
        )
    }

    /// An empty table over the patterns `queries`.
    pub fn new(queries: &'a CodeQueries) -> (r: Self)
        ensures
            r.ids() == Seq::<Seq<char>>::empty(),
            r.table() == Map::<Seq<char>, MatchCounts>::empty(),
            r.patterns() == queries@,
    {
        Self { queries, results: Vec::new() }
    }

    /// Records the counts of one repository under `owner/name`, replacing an
    /// earlier record with that identifier.
    pub fn add(&mut self, results: QueryResults)
        ensures
            final(self).table() == old(self).table().insert(results.identifier(), results.inner),
            final(self).ids() == (if old(self).ids().contains(results.identifier()) {
                old(self).ids()
            } else {
                old(self).ids().push(results.identifier())
            }),
            final(self).patterns() == old(self).patterns(),
    {
        proof { use_type_invariant(&*self); }
        let QueryResults { repo_name, repo_owner, inner } = results;
        let mut identifier = repo_owner;
        identifier.append("/");
        identifier.append(repo_name.as_str());
        proof { reveal_strlit("/"); }
        let ghost id = results.identifier();
        assert(identifier@ =~= id);
        match find_key(&self.results, &identifier) {
            Some(i) => {
                assert(self.ids()[i as int] == id);
                let e = (identifier, inner);
                proof { lemma_table_set(self.results@, i as int, e); }
                let mut taken = Aggregator { queries: self.queries, results: Vec::new() };
                std::mem::swap(self, &mut taken);
                let Aggregator { queries, mut results } = taken;
                results.set(i, e);
                *self = Aggregator { queries, results };
            },
            None => {
                let e = (identifier, inner);
                proof {
                    lemma_table_push(self.results@, e);
                    assert forall|a: int, b: int|
                        0 <= a < b < keys_of(self.results@.push(e)).len() implies keys_of(
                        self.results@.push(e),
                    )[a] != keys_of(self.results@.push(e))[b] by {
                        if b == self.results@.len() {
                            assert(keys_of(self.results@)[a] == keys_of(self.results@.push(e))[a]);
                        }
                    }
                }
                let mut taken = Aggregator { queries: self.queries, results: Vec::new() };
                std::mem::swap(self, &mut taken);
                let Aggregator { queries, mut results } = taken;
                results.push(e);
                *self = Aggregator { queries, results };
            },
        }
    }

    /// The header line of the report, without its newline.
    fn header(&self) -> (r: String)
        ensures
            r@ == header_line(self.patterns()),
    {
        let pats = self.queries.as_slice();
        let mut s = String::new();
        s.append("repo");
        proof { reveal_strlit("repo"); reveal_strlit(","); }
        let mut i: usize = 0;
        while i < pats.len()
            invariant
                pats@ == self.patterns(),
                i <= pats@.len(),
                s@ == header_line(pats@.subrange(0, i as int)),
            decreases pats@.len() - i,
        {
            s.append(",");
            s.append(pats[i].as_str());
            proof { reveal_strlit(","); }
            assert(pats@.subrange(0, i + 1).drop_last() =~= pats@.subrange(0, i as int));
            assert(pats@.subrange(0, i + 1).last() == pats@[i as int]);
            assert(s@ =~= header_line(pats@.subrange(0, i + 1)));
            i = i + 1;
        }
        assert(pats@.subrange(0, pats@.len() as int) =~= pats@);
        s
    }

    /// The data line of the record at `j`, without its newline.
    fn data(&self, j: usize) -> (r: String)
        requires
            j < self.ids().len(),
        ensures
            r@ == data_line(self.ids()[j as int], self.table()[self.ids()[j as int]], self.patterns()),
    {
        proof {
            use_type_invariant(self);
            lemma_table_index(self.results@, j as int);
        }
        let pats = self.queries.as_slice();
        let counts = &self.results[j].1;
        let mut s = self.results[j].0.clone();
        proof { reveal_strlit(","); }
        let mut i: usize = 0;
        while i < pats.len()
            invariant
                pats@ == self.patterns(),
                i <= pats@.len(),
                j < self.ids().len(),
                *counts == self.table()[self.ids()[j as int]],
                s@ == data_line(self.ids()[j as int], *counts, pats@.subrange(0, i as int)),
            decreases pats@.len() - i,
        {
            let c = counts.get(&pats[i]);
            s.append(",");
            push_decimal(&mut s, c);
            proof { reveal_strlit(","); }
            assert(pats@.subrange(0, i + 1).drop_last() =~= pats@.subrange(0, i as int));
            assert(pats@.subrange(0, i + 1).last() == pats@[i as int]);
            assert(count_cells(*counts, pats@.subrange(0, i + 1)) == count_cells(*counts, pats@.subrange(0, i as int)) + seq![','] + decimal_of(counts.count(pats@[i as int]@)));
            assert(s@ =~= data_line(self.ids()[j as int], *counts, pats@.subrange(0, i + 1)));
            i = i + 1;
        }
        assert(pats@.subrange(0, pats@.len() as int) =~= pats@);
        s
    }

    /// The lines of the report: the header (`repo` and each pattern, in
    /// order), then one line per identifier held (the identifier and each
    /// pattern's count, 0 where it never matched).
    pub fn rows(&self) -> (r: Vec<String>)
        ensures
            self.ids().no_duplicates(),
            r@.len() == self.ids().len() + 1,
            views_of(r@) == self.report_lines(),
    {
        proof { use_type_invariant(self); }
        let mut r: Vec<String> = Vec::new();
        r.push(self.header());
        assert(self.report_lines().len() == self.ids().len() + 1);
        assert(views_of(r@) =~= self.report_lines().subrange(0, 1));
        let mut j: usize = 0;
        while j < self.results.len()
            invariant
                j <= self.ids().len(),
                self.ids().len() == self.results@.len(),
                r@.len() == j + 1,
                self.report_lines().len() == self.ids().len() + 1,
                views_of(r@) == self.report_lines().subrange(0, j + 1),
            decreases self.results@.len() - j,
        {
            let line = self.data(j);
            assert(self.report_lines().len() == self.ids().len() + 1);
            assert(self.report_lines()[j + 1] == line@);
            let ghost prev = r@;
            r.push(line);
            assert forall|k: int| 0 <= k < j + 2 implies #[trigger] views_of(r@)[k]
                == self.report_lines().subrange(0, j + 2)[k] by {
                assert(r@ == prev.push(line));
                assert(prev.len() == j + 1);
                if k < j + 1 {
                    assert(r@[k] == prev[k]);
                    assert(views_of(prev)[k] == self.report_lines().subrange(0, j + 1)[k]);
                }
            }
            assert(views_of(r@) =~= self.report_lines().subrange(0, j + 2));
            j = j + 1;
        }
        assert(self.report_lines().subrange(0, j + 1) =~= self.report_lines());
        r
    }

    /// The whole report as text: every line of `rows`, each ended by a newline.
    pub fn render(&self) -> (r: String)
        ensures
            r@ == text_of_lines(self.report_lines()),
    {
        let lines = self.rows();
        let ghost ls = views_of(lines@);
        let mut s = String::new();
        proof { reveal_strlit("\n"); }
        let mut i: usize = 0;
        while i < lines.len()
            invariant
                ls == views_of(lines@),
                i <= lines@.len(),
                s@ == text_of_lines(ls.subrange(0, i as int)),
            decreases lines@.len() - i,
        {
            s.append(lines[i].as_str());
            s.append("\n");
            proof { reveal_strlit("\n"); }
            assert(ls.subrange(0, i + 1).drop_last() =~= ls.subrange(0, i as int));
            assert(ls.subrange(0, i + 1).last() == lines@[i as int]@);
            assert(s@ =~= text_of_lines(ls.subrange(0, i + 1)));
            i = i + 1;
        }
        assert(ls.subrange(0, lines@.len() as int) =~= ls);
        s
    }
}

} // verus!
