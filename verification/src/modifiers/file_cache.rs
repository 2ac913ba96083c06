//! The line cache: every text file that a `file` call names is split into its
//! lines once, before generation starts, and each evaluation of the call
//! draws one of those lines at random.

use rand::Rng;
use vstd::prelude::*;
use vstd::string::*;
use crate::table::Table;
use crate::text::texts;

verus! {

/// Why a file could not be added to the cache.
#[derive(Debug, Clone, Copy, PartialEq, Eq, Structural)]
pub enum CacheError {
    /// The file holds no line with a character on it.
    EmptyFile,
}

/// A line without the carriage return that may end it.
pub open spec fn strip_cr(line: Seq<char>) -> Seq<char> {
    if line.len() > 0 && line.last() == '\r' {
        line.drop_last()
    } else {
        line
    }
}

/// `line` as a list of lines: itself, or nothing if it is empty.
pub open spec fn kept(line: Seq<char>) -> Seq<Seq<char>> {
    if line.len() > 0 {
        seq![line]
    } else {
        Seq::empty()
    }
}

/// The non-empty lines of `content[i..]`, where `current` holds the
/// characters of the line that position `i` is on.
///
/// A line ends at a line feed; a carriage return just before the line feed is
/// not part of the line. What follows the last line feed is a line too.
pub open spec fn lines_from(content: Seq<char>, i: int, current: Seq<char>) -> Seq<Seq<char>>
    decreases content.len() - i,
{
    if i < 0 || i >= content.len() {
        kept(current)
    } else if content[i] == '\n' {
        kept(strip_cr(current)) + lines_from(content, i + 1, Seq::empty())
    } else {
        lines_from(content, i + 1, current.push(content[i]))
    }
}

/// The non-empty lines of a text.
pub open spec fn lines_of(content: Seq<char>) -> Seq<Seq<char>> {
    lines_from(content, 0, Seq::empty())
}

/// Whether every line of a list has a character on it.
pub open spec fn all_non_empty(lines: Seq<Seq<char>>) -> bool {
    forall|k: int| 0 <= k < lines.len() ==> (#[trigger] lines[k]).len() > 0
}

/// Every line of `lines_from` has a character on it.
pub proof fn lemma_lines_non_empty(content: Seq<char>, i: int, current: Seq<char>)
    ensures
        all_non_empty(lines_from(content, i, current)),
    decreases content.len() - i,
{
    if i < 0 || i >= content.len() {
    } else if content[i] == '\n' {
        lemma_lines_non_empty(content, i + 1, Seq::empty());
        let head = kept(strip_cr(current));
        let rest = lines_from(content, i + 1, Seq::empty());
        assert forall|k: int| 0 <= k < (head + rest).len() implies (#[trigger] (head + rest)[k]).len()
            > 0 by {
            if k >= head.len() {
                assert((head + rest)[k] == rest[k - head.len()]);
            }
        }
    } else {
        lemma_lines_non_empty(content, i + 1, current.push(content[i]));
    }
}

/// `line` with a carriage return at its end, if one is `held` back.
spec fn with_held(line: Seq<char>, held: bool) -> Seq<char> {
    if held {
        line.push('\r')
    } else {
        line
    }
}

/// Splits a text into its non-empty lines.
pub fn split_lines(content: &str) -> (lines: Vec<String>)
    ensures
        lines.deep_view() == lines_of(content@),
{
    let mut lines: Vec<String> = Vec::new();
    let mut current = String::new();
    // A carriage return is held back until the next character shows whether
    // it ends the line.
    let mut held = false;
    for c in it: content.chars()
        invariant
            it.seq() == content@,
            !held ==> strip_cr(current@) == current@,
            lines.deep_view() + lines_from(
                content@,
                it.index() as int,
                with_held(current@, held),
            ) == lines_of(content@),
    {
        if c == '\n' {
            let ghost before = lines.deep_view();
            let ghost line = current@;
            proof {
                assert(with_held(line, held).drop_last() =~= line || !held);
                assert(strip_cr(with_held(line, held)) == line);
            }
            let mut whole = String::new();
            std::mem::swap(&mut whole, &mut current);
            if !whole.as_str().is_empty() {
                lines.push(whole);
            }
            held = false;
            proof {
                assert(lines.deep_view() =~= before + kept(line));
                assert((before + kept(line)) + lines_from(
                    content@,
                    it.index() + 1,
                    Seq::empty(),
                ) =~= before + (kept(line) + lines_from(content@, it.index() + 1, Seq::empty())));
            }
        } else {
            if held {
                current.push('\r');
            }
            if c == '\r' {
                held = true;
            } else {
                current.push(c);
                held = false;
            }
        }
    }
    if held {
        current.push('\r');
    }
    let ghost before = lines.deep_view();
    if !current.as_str().is_empty() {
        lines.push(current);
    }
    proof {
        assert(lines.deep_view() =~= before + kept(current@));
    }
    lines
}

/// A FileCache holds text files in memory, line by line, under the path they
/// were loaded from. Every file in it has a line.
#[derive(Debug)]
pub struct FileCache {
    cache: Table,
}

/// Whether `picks` holds one line for each of `files`, each taken from the
/// lines that `cache` has for that file.
pub open spec fn drawn_from(
    cache: Map<Seq<char>, Seq<Seq<char>>>,
    files: Seq<Seq<char>>,
    picks: Seq<Seq<char>>,
) -> bool {
    &&& picks.len() == files.len()
    &&& forall|i: int|
        0 <= i < files.len() ==> cache.contains_key(#[trigger] files[i]) && cache[files[i]].contains(
            picks[i],
        )
}

/// Calls `rand::thread_rng().gen_range(0..len)`, which panics on an empty
/// range and otherwise returns a number of the range. Which one is not said.
#[verifier::external_body]
fn random_index(len: usize) -> (i: usize)
    requires
        len > 0,
    ensures
        i < len,
{
    rand::thread_rng().gen_range(0..len)
}

/// A cache yields lines of loaded files alone. After the text `content` was
/// loaded under `path` into a cache that held `before`, a line that the cache
/// has for a file is a line of `content` if the file is `path`, and else a
/// line that the cache had for that file before. A cache into which nothing
/// was loaded has no line for any file.
pub proof fn lemma_only_loaded_lines(
    before: Map<Seq<char>, Seq<Seq<char>>>,
    path: Seq<char>,
    content: Seq<char>,
    file: Seq<char>,
    line: Seq<char>,
)
    requires
        before.insert(path, lines_of(content)).contains_key(file),
        before.insert(path, lines_of(content))[file].contains(line),
    ensures
        file == path ==> lines_of(content).contains(line) && line.len() > 0,
        file != path ==> before.contains_key(file) && before[file].contains(line),
        !Map::<Seq<char>, Seq<Seq<char>>>::empty().contains_key(file),
{
    if file == path {
        lemma_lines_non_empty(content, 0, Seq::empty());
        let lines = lines_of(content);
        let i = choose|i: int| 0 <= i < lines.len() && lines[i] == line;
        assert(lines[i].len() > 0);
    }
}

impl View for FileCache {
    type V = Map<Seq<char>, Seq<Seq<char>>>;

    /// The lines of each loaded file, by its path.
    closed spec fn view(&self) -> Map<Seq<char>, Seq<Seq<char>>> {
        self.cache@
    }
}

impl FileCache {
    #[verifier::type_invariant]
    closed spec fn wf(self) -> bool {
        forall|path: Seq<char>|
            self.cache@.contains_key(path) ==> (#[trigger] self.cache@[path]).len() > 0
                && all_non_empty(self.cache@[path])
    }

    /// An empty cache.
    pub fn new() -> (cache: Self)
        ensures
            cache@ == Map::<Seq<char>, Seq<Seq<char>>>::empty(),
    {
        Self { cache: Table::new() }
    }

    /// The lines of `file`, if it was loaded.
    pub fn lines(&self, file: &str) -> (lines: Option<&Vec<String>>)
        ensures
            lines is Some == self@.contains_key(file@),
            lines matches Some(l) ==> l.deep_view() == self@[file@] && l.len() > 0 && all_non_empty(
                self@[file@],
            ),
    {
        proof {
            use_type_invariant(self);
        }
        self.cache.get(file)
    }

    /// Adds the file at `path`, whose text is `content`, to the cache. A file
    /// loaded before under the same path is replaced. Fails, and changes
    /// nothing, if `content` has no line with a character on it.
    pub fn load_file(&mut self, path: String, content: &str) -> (res: Result<(), CacheError>)
        ensures
            res is Ok == (lines_of(content@).len() > 0),
            res is Ok ==> final(self)@ == old(self)@.insert(path@, lines_of(content@)),
            res is Err ==> final(self)@ == old(self)@,
    {
        proof {
            use_type_invariant(&*self);
        }
        let lines = split_lines(content);
        if lines.len() == 0 {
            return Err(CacheError::EmptyFile);
        }
        proof {
            lemma_lines_non_empty(content@, 0, Seq::empty());
        }
        let mut cache = Table::new();
        std::mem::swap(&mut cache, &mut self.cache);
        cache.insert(path, lines);
        self.cache = cache;
        Ok(())
    }

    /// Line number `index` of `file`.
    pub fn line(&self, file: &str, index: usize) -> (line: &str)
        requires
            self@.contains_key(file@),
            index < self@[file@].len(),
        ensures
            line@ == self@[file@][index as int],
            line@.len() > 0,
    {
        match self.lines(file) {
            Some(lines) => lines[index].as_str(),
            None => "",
        }
    }

    /// Returns a random line of the specified `file`, which must have been
    /// loaded.
    pub fn get_string(&self, file: &str) -> (line: &str)
        requires
            self@.contains_key(file@),
        ensures
            self@[file@].contains(line@),
            self@[file@].len() == 1 ==> line@ == self@[file@][0],
            line@.len() > 0,
    {
        match self.lines(file) {
            Some(lines) => {
                let index = random_index(lines.len());
                assert(lines.deep_view()[index as int] == lines[index as int]@);
                lines[index].as_str()
            },
            None => "",
        }
    }

    /// Draws one random line for each of `files`, in their order. Every file
    /// must have been loaded.
    pub fn sample(&self, files: &Vec<&str>) -> (picks: Vec<String>)
        requires
            forall|i: int| 0 <= i < files.len() ==> self@.contains_key(#[trigger] texts(files@)[i]),
        ensures
            drawn_from(self@, texts(files@), picks.deep_view()),
    {
        let mut picks: Vec<String> = Vec::new();
        let mut i: usize = 0;
        while i < files.len()
            invariant
                0 <= i <= files.len(),
                picks.len() == i,
                forall|j: int|
                    0 <= j < files.len() ==> self@.contains_key(#[trigger] texts(files@)[j]),
                forall|j: int|
                    0 <= j < i ==> self@[texts(files@)[j]].contains(#[trigger] picks.deep_view()[j]),
            decreases files.len() - i,
        {
            assert(texts(files@)[i as int] == files[i as int]@);
            let line = self.get_string(files[i]).to_owned();
            let ghost before = picks.deep_view();
            picks.push(line);
            proof {
                assert(picks.deep_view() =~= before.push(line@));
            }
            i += 1;
        }
        picks
    }
}

impl Default for FileCache {
    fn default() -> (cache: Self)
        ensures
            cache@ == Map::<Seq<char>, Seq<Seq<char>>>::empty(),
    {
        FileCache::new()
    }
}

} // verus!
