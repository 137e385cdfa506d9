//! A line search over the contents of files: which lines of a text hold a
//! query, and how a text is cut into chunks that can be searched apart.

use crate::text::{
    chars_of, contains, has_substring, lines, same_text, split_lines, string_of,
};
use vstd::prelude::*;

verus! {

/// How many lines one chunk of a chunked search holds at most.
pub const CHUNK_LINES: usize = 100;

/// What the command line asks for.
#[derive(Clone, Debug, PartialEq, Eq)]
pub struct Config {
    /// The name of the search method.
    pub method: String,
    /// The text to look for.
    pub query: String,
    /// The files to search, in the order given.
    pub file_paths: Vec<String>,
}

/// The ways in which the files can be searched.
#[derive(Clone, Copy, Debug, PartialEq, Eq, Structural)]
pub enum SearchMethod {
    /// One file after the other.
    Sequential,
    /// All files at once, each as a whole.
    Concurrent,
    /// All files at once, each cut into chunks that are searched apart.
    Chunked,
}

/// Why a search cannot be run.
#[derive(Clone, Copy, Debug, PartialEq, Eq, Structural)]
pub enum SearchError {
    /// The method's name is none of `seq`, `conc` and `c-chunk`.
    InvalidMethod,
}

/// A search that is ready to be carried out.
#[derive(Clone, Debug, PartialEq, Eq)]
pub struct Search {
    /// How the files are searched.
    pub method: SearchMethod,
    /// The text to look for.
    pub query: String,
    /// The files to search, in the order given.
    pub file_paths: Vec<String>,
}

/// The search method that goes by `name`, if there is one.
pub open spec fn method_named(name: Seq<char>) -> Option<SearchMethod> {
    if name == "seq"@ {
        Some(SearchMethod::Sequential)
    } else if name == "conc"@ {
        Some(SearchMethod::Concurrent)
    } else if name == "c-chunk"@ {
        Some(SearchMethod::Chunked)
    } else {
        None
    }
}

/// The predicate that holds of the lines in which `query` stands.
pub open spec fn holds_query(query: Seq<char>) -> spec_fn(Seq<char>) -> bool {
    |line: Seq<char>| has_substring(line, query)
}

/// The lines of `contents` in which `query` stands, in order.
pub open spec fn matching_lines(query: Seq<char>, contents: Seq<char>) -> Seq<Seq<char>> {
    lines(contents).filter(holds_query(query))
}

/// The given lines as one text, with a line feed between each two.
pub open spec fn join_lines(parts: Seq<Seq<char>>) -> Seq<char>
    decreases parts.len(),
{
    if parts.len() == 0 {
        Seq::empty()
    } else if parts.len() == 1 {
        parts[0]
    } else {
        join_lines(parts.drop_last()) + seq!['\n'] + parts.last()
    }
}

/// `items` cut into runs of `size` items; the last run may be shorter.
pub open spec fn chunks(items: Seq<Seq<char>>, size: nat) -> Seq<Seq<Seq<char>>>
    decreases items.len(),
{
    if items.len() == 0 || size == 0 {
        Seq::empty()
    } else if items.len() <= size {
        seq![items]
    } else {
        seq![items.take(size as int)] + chunks(items.skip(size as int), size)
    }
}

/// The texts that a chunked search looks through: the lines of `contents` in
/// runs of `CHUNK_LINES`, each run joined again by line feeds.
pub open spec fn chunk_texts_of(contents: Seq<char>) -> Seq<Seq<char>> {
    let runs = chunks(lines(contents), CHUNK_LINES as nat);
    Seq::new(runs.len(), |i: int| join_lines(runs[i]))
}

impl SearchError {
    /// The description of the failure.
    pub open spec fn message_text(self) -> Seq<char> {
        "Invalid method"@
    }

    /// The description of the failure.
    pub fn message(&self) -> (m: &'static str)
        ensures
            m@ == self.message_text(),
    {
        "Invalid method"
    }
}

impl Config {
    /// Reads the method, the query and the file paths from the arguments of
    /// the command line, the first of which is the program's name.
    pub fn build(args: &[String]) -> (r: Result<Config, &'static str>)
        ensures
            match r {
                Ok(config) => {
                    &&& args@.len() >= 3
                    &&& config.method == args@[1]
                    &&& config.query == args@[2]
                    &&& config.file_paths@ == args@.skip(3)
                },
                Err(e) => args@.len() < 3 && e@ == "not enough arguments"@,
            },
    {
        if args.len() < 3 {
            return Err("not enough arguments");
        }
        let method = args[1].clone();
        let query = args[2].clone();
        let mut file_paths: Vec<String> = Vec::new();
        let mut i: usize = 3;
        while i < args.len()
            invariant
                3 <= i <= args@.len(),
                file_paths@ == args@.subrange(3, i as int),
            decreases args@.len() - i,
        {
            file_paths.push(args[i].clone());
            i += 1;
        }
        Ok(Config { method, query, file_paths })
    }
}

/// Turns what the command line asks for into a search, or refuses the
/// method's name. The caller reads the files and prints what is found.
pub fn run(config: Config) -> (r: Result<Search, SearchError>)
    ensures
        match r {
            Ok(search) => {
                &&& method_named(config.method@) == Some(search.method)
                &&& search.query == config.query
                &&& search.file_paths == config.file_paths
            },
            Err(e) => method_named(config.method@) is None && e == SearchError::InvalidMethod,
        },
{
    let method = if same_text(config.method.as_str(), "seq") {
        SearchMethod::Sequential
    } else if same_text(config.method.as_str(), "conc") {
        SearchMethod::Concurrent
    } else if same_text(config.method.as_str(), "c-chunk") {
        SearchMethod::Chunked
    } else {
        return Err(SearchError::InvalidMethod);
    };
    Ok(Search { method, query: config.query, file_paths: config.file_paths })
}

/// The lines of `contents` in which `query` stands, in order.
pub fn handle_file(query: &str, contents: &str) -> (found: Vec<String>)
    ensures
        found.deep_view() == matching_lines(query@, contents@),
{
    let pattern = chars_of(query);
    let text = chars_of(contents);
    let all = split_lines(&text);
    let ghost keep = holds_query(query@);
    let mut found: Vec<String> = Vec::new();
    let mut i: usize = 0;
    assert(found.deep_view() =~= Seq::empty());
    assert(all.deep_view().take(0).filter(keep) =~= Seq::empty()) by {
        reveal(Seq::filter);
    }
    while i < all.len()
        invariant
            i <= all.len(),
            pattern@ == query@,
            keep == holds_query(query@),
            all.deep_view() == lines(contents@),
            found.deep_view() == all.deep_view().take(i as int).filter(keep),
        decreases all.len() - i,
    {
        let ghost before = found.deep_view();
        let ghost seen = all.deep_view().take(i as int);
        let ghost next = all.deep_view().take(i + 1);
        proof {
            assert(all.deep_view()[i as int] == all[i as int]@);
            assert(next.drop_last() == seen);
            assert(next.last() == all[i as int]@);
            reveal(Seq::filter);
        }
        if contains(&all[i], &pattern) {
            let line = string_of(&all[i], 0, all[i].len());
            assert(line@ == all[i as int]@);
            found.push(line);
            assert(found.deep_view() =~~= before.push(all[i as int]@));
        }
        i += 1;
    }
    assert(all.deep_view().take(all.len() as int) == all.deep_view());
    found
}

/// The lines `all[from..to]` as one text, with a line feed between each two.
fn join_range(all: &Vec<Vec<char>>, from: usize, to: usize) -> (text: String)
    requires
        from <= to <= all.len(),
    ensures
        text@ == join_lines(all.deep_view().subrange(from as int, to as int)),
{
    let mut text = String::new();
    let mut j: usize = from;
    assert(all.deep_view().subrange(from as int, from as int).len() == 0);
    while j < to
        invariant
            from <= j <= to <= all.len(),
            text@ == join_lines(all.deep_view().subrange(from as int, j as int)),
        decreases to - j,
    {
        let ghost joined = text@;
        let ghost next = all.deep_view().subrange(from as int, j + 1);
        proof {
            assert(next.drop_last() == all.deep_view().subrange(from as int, j as int));
            assert(next.last() == all[j as int]@);
        }
        if j > from {
            text.push('\n');
        }
        let ghost base = text@;
        let line = &all[j];
        let mut k: usize = 0;
        while k < line.len()
            invariant
                k <= line.len(),
                text@ == base + line@.take(k as int),
            decreases line.len() - k,
        {
            text.push(line[k]);
            assert(line@.take(k + 1) == line@.take(k as int).push(line@[k as int]));
            k += 1;
        }
        assert(line@.take(line.len() as int) == line@);
        assert(text@ == join_lines(next));
        j += 1;
    }
    text
}

/// The texts that a chunked search of `contents` looks through, in order.
pub fn chunk_texts(contents: &str) -> (texts: Vec<String>)
    ensures
        texts.deep_view() == chunk_texts_of(contents@),
{
    let text = chars_of(contents);
    let all = split_lines(&text);
    let ghost items = all.deep_view();
    let ghost size = CHUNK_LINES as nat;
    let mut texts: Vec<String> = Vec::new();
    let ghost mut done: Seq<Seq<Seq<char>>> = Seq::empty();
    let mut i: usize = 0;
    assert(items.skip(0) == items);
    while i < all.len()
        invariant
            i <= all.len(),
            items == all.deep_view(),
            items == lines(contents@),
            size == CHUNK_LINES as nat,
            chunks(items, size) == done + chunks(items.skip(i as int), size),
            texts.len() == done.len(),
            forall|k: int| 0 <= k < done.len() ==> texts[k]@ == join_lines(#[trigger] done[k]),
        decreases all.len() - i,
    {
        let end = if all.len() - i <= CHUNK_LINES {
            all.len()
        } else {
            i + CHUNK_LINES
        };
        let ghost rest = items.skip(i as int);
        let ghost run = items.subrange(i as int, end as int);
        proof {
            if all.len() - i <= CHUNK_LINES {
                assert(run == rest);
                assert(items.skip(end as int).len() == 0);
            } else {
                assert(run == rest.take(size as int));
                assert(rest.skip(size as int) == items.skip(end as int));
            }
            assert(chunks(rest, size) == seq![run] + chunks(items.skip(end as int), size));
            assert(done.push(run) == done + seq![run]);
        }
        let chunk = join_range(&all, i, end);
        texts.push(chunk);
        proof {
            done = done.push(run);
        }
        i = end;
    }
    proof {
        assert(chunks(items.skip(i as int), size) == Seq::<Seq<Seq<char>>>::empty());
        assert(chunks(items, size) == done);
        assert(texts.deep_view() =~= chunk_texts_of(contents@));
    }
    texts
}

} // verus!
