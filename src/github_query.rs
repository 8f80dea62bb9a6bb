use vstd::prelude::*;
use crate::aggregate::views_of;

verus! {

/// The pieces of `s` between commas, in order; a string without a comma is
/// one piece, and the empty string is one empty piece.
pub open spec fn split_commas(s: Seq<char>) -> Seq<Seq<char>>
    decreases s.len(),
{
    if s.len() == 0 {
        seq![Seq::empty()]
    } else {
        let p = split_commas(s.drop_last());
        if s.last() == ',' {
            p.push(Seq::empty())
        } else {
            p.update(p.len() - 1, p.last().push(s.last()))
        }
    }
}

/// `s` cut at each comma, as owned strings.
fn split_list(s: &str) -> (r: Vec<String>)
    ensures
        views_of(r@) == split_commas(s@),
{
    let n = s.unicode_len();
    let mut done: Vec<String> = Vec::new();
    let mut start: usize = 0;
    let mut i: usize = 0;
    assert(s@.subrange(0, 0) =~= Seq::<char>::empty());
    assert(split_commas(s@.subrange(0, 0)) =~= views_of(done@).push(s@.subrange(0, 0)));
    while i < n
        invariant
            n == s@.len(),
            start <= i <= n,
            split_commas(s@.subrange(0, i as int)) == views_of(done@).push(s@.subrange(start as int, i as int)),
        decreases n - i,
    {
        let c = s.get_char(i);
        let ghost pre = s@.subrange(0, i as int);
        let ghost cur = s@.subrange(0, i + 1);
        assert(cur.drop_last() =~= pre);
        assert(cur.last() == c);
        if c == ',' {
            let piece = String::from_str(s.substring_char(start, i));
            let ghost old_done = done@;
            done.push(piece);
            assert(views_of(done@) =~= views_of(old_done).push(s@.subrange(start as int, i as int)));
            start = i + 1;
            assert(s@.subrange(start as int, i + 1) =~= Seq::<char>::empty());
        } else {
            assert(s@.subrange(start as int, i + 1) =~= s@.subrange(start as int, i as int).push(c));
            assert(split_commas(cur) =~= views_of(done@).push(s@.subrange(start as int, i + 1)));
        }
        i = i + 1;
    }
    let piece = String::from_str(s.substring_char(start, n));
    let ghost old_done = done@;
    done.push(piece);
    assert(s@.subrange(0, n as int) =~= s@);
    assert(views_of(done@) =~= views_of(old_done).push(s@.subrange(start as int, n as int)));
    done
}

/// How much the run reports as it goes.
#[derive(Debug, Clone, Copy, PartialEq, Eq)]
pub enum Verbosity {
    Off,
    Error,
    Warn,
    Info,
    Debug,
    Trace,
}

/// The run parameters: search keywords and filters (each comma-separated),
/// where repositories go, where patterns come from, where the report goes,
/// whether to delete the clones after scanning, and the verbosity.
#[derive(Debug, Clone)]
pub struct OctoSurfer {
    pub keywords: String,
    pub languages: Option<String>,
    pub pushed: Option<String>,
    pub stars: Option<String>,
    pub topics: Option<String>,
    pub target_dir: String,
    pub query_file: String,
    pub out_file: String,
    pub rm: bool,
    pub verbosity: Verbosity,
}

/// The pieces of an optional comma-separated list.
pub open spec fn split_opt(s: Option<String>) -> Option<Seq<Seq<char>>> {
    match s {
        Some(t) => Some(split_commas(t@)),
        None => None,
    }
}

/// The optional list, as character sequences.
pub open spec fn opt_views(o: Option<Vec<String>>) -> Option<Seq<Seq<char>>> {
    match o {
        Some(v) => Some(views_of(v@)),
        None => None,
    }
}

fn split_opt_str(s: &Option<String>) -> (r: Option<Vec<String>>)
    ensures
        opt_views(r) == split_opt(*s),
{
    match s {
        Some(t) => Some(split_list(t.as_str())),
        None => None,
    }
}

/// The keywords joined by single spaces.
pub open spec fn join_spaces(ks: Seq<Seq<char>>) -> Seq<char>
    decreases ks.len(),
{
    if ks.len() == 0 {
        Seq::empty()
    } else if ks.len() == 1 {
        ks[0]
    } else {
        join_spaces(ks.drop_last()) + seq![' '] + ks.last()
    }
}

/// ` <tag>:<item>` for each item, in order.
pub open spec fn qualifiers(tag: Seq<char>, items: Seq<Seq<char>>) -> Seq<char>
    decreases items.len(),
{
    if items.len() == 0 {
        Seq::empty()
    } else {
        qualifiers(tag, items.drop_last()) + seq![' '] + tag + seq![':'] + items.last()
    }
}

/// The qualifiers of an optional filter; none where the filter is absent.
pub open spec fn opt_qualifiers(tag: Seq<char>, items: Option<Seq<Seq<char>>>) -> Seq<char> {
    match items {
        Some(v) => qualifiers(tag, v),
        None => Seq::empty(),
    }
}

/// The longest query, in characters, that the search provider takes.
pub const MAX_QUERY_CHARS: usize = 256;

/// Why a query string could not be built.
#[derive(Debug, Clone, Copy, PartialEq, Eq)]
pub enum QueryError {
    /// The query would be longer than the provider takes.
    TooLong,
}

/// A repository search: keywords and optional filters.
#[derive(Debug)]
pub struct GithubQuery {
    keywords: Vec<String>,
    languages: Option<Vec<String>>,
    pushed: Option<Vec<String>>,
    stars: Option<Vec<String>>,
    topics: Option<Vec<String>>,
}

impl GithubQuery {
    pub closed spec fn keywords(&self) -> Seq<Seq<char>> {
        views_of(self.keywords@)
    }

    pub closed spec fn languages(&self) -> Option<Seq<Seq<char>>> {
        opt_views(self.languages)
    }

    pub closed spec fn pushed(&self) -> Option<Seq<Seq<char>>> {
        opt_views(self.pushed)
    }

    pub closed spec fn stars(&self) -> Option<Seq<Seq<char>>> {
        opt_views(self.stars)
    }

    pub closed spec fn topics(&self) -> Option<Seq<Seq<char>>> {
        opt_views(self.topics)
    }

    /// The query text: the keywords joined by spaces, then ` language:L`,
    /// ` pushed:P`, ` stars:S` and ` topic:T` for each filter value, in that order.
    pub open spec fn query_text(&self) -> Seq<char> {
        join_spaces(self.keywords())
            + opt_qualifiers(seq!['l', 'a', 'n', 'g', 'u', 'a', 'g', 'e'], self.languages())
            + opt_qualifiers(seq!['p', 'u', 's', 'h', 'e', 'd'], self.pushed())
            + opt_qualifiers(seq!['s', 't', 'a', 'r', 's'], self.stars())
            + opt_qualifiers(seq!['t', 'o', 'p', 'i', 'c'], self.topics())
    }

    /// The search that the run parameters ask for: each comma-separated
    /// list cut into its pieces.
    pub fn from_argh(argh: &OctoSurfer) -> (r: Self)
        ensures
            r.keywords() == split_commas(argh.keywords@),
            r.languages() == split_opt(argh.languages),
            r.pushed() == split_opt(argh.pushed),
            r.stars() == split_opt(argh.stars),
            r.topics() == split_opt(argh.topics),
    {
        let keywords = split_list(argh.keywords.as_str());
        let languages = split_opt_str(&argh.languages);
        let pushed = split_opt_str(&argh.pushed);
        let stars = split_opt_str(&argh.stars);
        let topics = split_opt_str(&argh.topics);
        Self { keywords, languages, pushed, stars, topics }
    }

    /// The query string, refused where it would exceed the provider's limit
    /// of characters.
    pub fn to_query_string(&self) -> (r: Result<String, QueryError>)
        ensures
            r is Ok <==> self.query_text().len() <= MAX_QUERY_CHARS,
            r matches Ok(s) ==> s@ == self.query_text(),
            r matches Err(e) ==> e == QueryError::TooLong,
    {
        let mut s = String::new();
        let mut i: usize = 0;
        while i < self.keywords.len()
            invariant
                i <= self.keywords@.len(),
                s@ == join_spaces(self.keywords().subrange(0, i as int)),
            decreases self.keywords@.len() - i,
        {
            if i > 0 {
                s.append(" ");
            }
            s.append(self.keywords[i].as_str());
            proof {
                reveal_strlit(" ");
                let ks = self.keywords().subrange(0, i + 1);
                assert(ks.drop_last() =~= self.keywords().subrange(0, i as int));
                assert(ks.last() == self.keywords@[i as int]@);
                if i == 0 {
                    assert(s@ =~= join_spaces(ks));
                } else {
                    assert(s@ =~= join_spaces(ks));
                }
            }
            i = i + 1;
        }
        assert(self.keywords().subrange(0, self.keywords@.len() as int) =~= self.keywords());
        proof { reveal_strlit(" language:"); reveal_strlit(" pushed:"); reveal_strlit(" stars:"); reveal_strlit(" topic:");
            assert(" language:"@.subrange(1, 9) =~= seq!['l', 'a', 'n', 'g', 'u', 'a', 'g', 'e']);
            assert(" pushed:"@.subrange(1, 7) =~= seq!['p', 'u', 's', 'h', 'e', 'd']);
            assert(" stars:"@.subrange(1, 6) =~= seq!['s', 't', 'a', 'r', 's']);
            assert(" topic:"@.subrange(1, 6) =~= seq!['t', 'o', 'p', 'i', 'c']);
        }
        let ghost base = s@;
        push_qualifiers(&mut s, " language:", &self.languages);
        assert(s@ =~= base + opt_qualifiers(seq!['l', 'a', 'n', 'g', 'u', 'a', 'g', 'e'], self.languages()));
        let ghost base = s@;
        push_qualifiers(&mut s, " pushed:", &self.pushed);
        assert(s@ =~= base + opt_qualifiers(seq!['p', 'u', 's', 'h', 'e', 'd'], self.pushed()));
        let ghost base = s@;
        push_qualifiers(&mut s, " stars:", &self.stars);
        assert(s@ =~= base + opt_qualifiers(seq!['s', 't', 'a', 'r', 's'], self.stars()));
        let ghost base = s@;
        push_qualifiers(&mut s, " topic:", &self.topics);
        assert(s@ =~= base + opt_qualifiers(seq!['t', 'o', 'p', 'i', 'c'], self.topics()));
        if s.unicode_len() > MAX_QUERY_CHARS {
            Err(QueryError::TooLong)
        } else {
            Ok(s)
        }
    }
}

/// Appends `<head><item>` for each item, where `head` is ` <tag>:`.
fn push_qualifiers(out: &mut String, head: &str, items: &Option<Vec<String>>)
    requires
        head@.len() >= 2,
        head@[0] == ' ',
        head@.last() == ':',
    ensures
        final(out)@ == old(out)@ + opt_qualifiers(head@.subrange(1, head@.len() - 1), opt_views(*items)),
{
    let ghost tag = head@.subrange(1, head@.len() - 1);
    assert(head@ =~= seq![' '] + tag + seq![':']);
    match items {
        None => {
            assert(old(out)@ + opt_qualifiers(tag, opt_views(*items)) =~= old(out)@);
        },
        Some(v) => {
            let ghost start = out@;
            let mut i: usize = 0;
            while i < v.len()
                invariant
                    i <= v@.len(),
                    head@ =~= seq![' '] + tag + seq![':'],
                    out@ == start + qualifiers(tag, views_of(v@).subrange(0, i as int)),
                decreases v@.len() - i,
            {
                out.append(head);
                out.append(v[i].as_str());
                proof {
                    let its = views_of(v@).subrange(0, i + 1);
                    assert(its.drop_last() =~= views_of(v@).subrange(0, i as int));
                    assert(its.last() == v@[i as int]@);
                    assert(out@ =~= start + qualifiers(tag, its));
                }
                i = i + 1;
            }
            assert(views_of(v@).subrange(0, v@.len() as int) =~= views_of(v@));
        },
    }
}

} // verus!
