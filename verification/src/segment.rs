//! Cutting texts into pieces: the pieces of a path, the words of a keyword,
//! the initials of a name, the lines of a file.

use crate::text::{alphanumeric, char_texts, is_alphanumeric, is_whitespace, part, whitespace};
use vstd::prelude::*;

verus! {

/// The pieces of `s` between occurrences of `sep`, empty pieces included.
/// There is always at least one piece.
pub open spec fn split_on(s: Seq<char>, sep: char) -> Seq<Seq<char>>
    decreases s.len(),
{
    if s.len() == 0 {
        seq![Seq::<char>::empty()]
    } else {
        let init = split_on(s.drop_last(), sep);
        if s.last() == sep {
            init.push(Seq::<char>::empty())
        } else {
            init.drop_last().push(init.last().push(s.last()))
        }
    }
}

/// `split_on` never yields an empty list, and its pieces hold no separator.
pub proof fn lemma_split_on_shape(s: Seq<char>, sep: char)
    ensures
        split_on(s, sep).len() >= 1,
        split_on(s, sep).len() <= s.len() + 1,
        forall|i: int, k: int|
            0 <= i < split_on(s, sep).len() && 0 <= k < split_on(s, sep)[i].len()
                ==> split_on(s, sep)[i][k] != sep,
    decreases s.len(),
{
    if s.len() > 0 {
        lemma_split_on_shape(s.drop_last(), sep);
    }
}

/// The last piece of a path: what follows its final `/`.
pub open spec fn file_name(path: Seq<char>) -> Seq<char> {
    split_on(path, '/').last()
}

/// The number of `/`-separated pieces of a path.
pub open spec fn depth(path: Seq<char>) -> nat {
    split_on(path, '/').len()
}

/// Where the file name of `path` begins: just after its final `/`, or at 0.
pub fn name_start(path: &Vec<char>) -> (start: usize)
    ensures
        start <= path.len(),
        file_name(path@) == path@.skip(start as int),
{
    let mut start: usize = 0;
    let mut i: usize = 0;
    assert(path@.take(0) =~= Seq::<char>::empty());
    assert(path@.subrange(0, 0) =~= Seq::<char>::empty());
    while i < path.len()
        invariant
            start <= i <= path.len(),
            split_on(path@.take(i as int), '/').last() == path@.subrange(start as int, i as int),
        decreases path.len() - i,
    {
        proof {
            let next = path@.take(i + 1);
            assert(next.drop_last() =~= path@.take(i as int));
            assert(next.last() == path@[i as int]);
            lemma_split_on_shape(path@.take(i as int), '/');
        }
        if path[i] == '/' {
            start = i + 1;
            assert(path@.subrange(start as int, i + 1) =~= Seq::<char>::empty());
        } else {
            assert(path@.subrange(start as int, i + 1) =~= path@.subrange(
                start as int,
                i as int,
            ).push(path@[i as int]));
        }
        i += 1;
    }
    assert(path@.take(i as int) =~= path@);
    assert(path@.subrange(start as int, i as int) =~= path@.skip(start as int));
    start
}

/// How often `sep` occurs in `s`: one less than the number of pieces.
pub fn count_of(s: &Vec<char>, sep: char) -> (n: usize)
    ensures
        n + 1 == split_on(s@, sep).len(),
{
    let mut n: usize = 0;
    let mut i: usize = 0;
    assert(s@.take(0) =~= Seq::<char>::empty());
    while i < s.len()
        invariant
            i <= s.len(),
            n <= i,
            n + 1 == split_on(s@.take(i as int), sep).len(),
        decreases s.len() - i,
    {
        proof {
            let next = s@.take(i + 1);
            assert(next.drop_last() =~= s@.take(i as int));
            assert(next.last() == s@[i as int]);
        }
        if s[i] == sep {
            n += 1;
        }
        i += 1;
    }
    assert(s@.take(i as int) =~= s@);
    n
}

/// What marks the boundaries between the runs of a text.
#[derive(Clone, Copy, Debug)]
pub enum Boundary {
    /// Whitespace separates words.
    Whitespace,
    /// Anything that is not a letter or a number separates name segments.
    NonAlphanumeric,
    /// A space or a hyphen separates the parts of an application name.
    SpaceOrHyphen,
}

impl Boundary {
    /// Whether `c` is a boundary character.
    pub open spec fn splits(self, c: char) -> bool {
        match self {
            Boundary::Whitespace => whitespace(c),
            Boundary::NonAlphanumeric => !alphanumeric(c),
            Boundary::SpaceOrHyphen => c == ' ' || c == '-',
        }
    }

    /// Whether `c` is a boundary character.
    pub fn is_boundary(self, c: char) -> (r: bool)
        ensures
            r == self.splits(c),
    {
        match self {
            Boundary::Whitespace => is_whitespace(c),
            Boundary::NonAlphanumeric => !is_alphanumeric(c),
            Boundary::SpaceOrHyphen => c == ' ' || c == '-',
        }
    }
}

/// The maximal runs of non-boundary characters of `s`, in order. No run is
/// empty.
pub open spec fn runs(s: Seq<char>, by: Boundary) -> Seq<Seq<char>>
    decreases s.len(),
{
    if s.len() == 0 {
        Seq::<Seq<char>>::empty()
    } else {
        let init = runs(s.drop_last(), by);
        if by.splits(s.last()) {
            init
        } else if s.len() >= 2 && !by.splits(s[s.len() - 2]) {
            init.drop_last().push(init.last().push(s.last()))
        } else {
            init.push(seq![s.last()])
        }
    }
}

/// Runs are non-empty and hold no boundary character, and a text that ends
/// in a non-boundary character has a run.
pub proof fn lemma_runs_shape(s: Seq<char>, by: Boundary)
    ensures
        runs(s, by).len() <= s.len(),
        forall|i: int| 0 <= i < runs(s, by).len() ==> #[trigger] runs(s, by)[i].len() > 0,
        forall|i: int, k: int|
            0 <= i < runs(s, by).len() && 0 <= k < runs(s, by)[i].len() ==> !by.splits(
                runs(s, by)[i][k],
            ),
        s.len() > 0 && !by.splits(s.last()) ==> runs(s, by).len() > 0,
    decreases s.len(),
{
    if s.len() > 0 {
        lemma_runs_shape(s.drop_last(), by);
    }
}

/// The words of a text: its maximal runs of non-whitespace characters.
pub open spec fn words(s: Seq<char>) -> Seq<Seq<char>> {
    runs(s, Boundary::Whitespace)
}

/// The first character of each run of `s`.
pub open spec fn run_heads(s: Seq<char>, by: Boundary) -> Seq<char> {
    runs(s, by).map_values(|run: Seq<char>| run[0])
}

/// The initials of a name: the first character of each of its alphanumeric
/// segments.
pub open spec fn initials(name: Seq<char>) -> Seq<char> {
    run_heads(name, Boundary::NonAlphanumeric)
}

/// Law: the first character of every run is a character of the text. A
/// keyword of one character that the initials of a name hold is therefore in
/// the name itself.
pub proof fn lemma_heads_are_characters(s: Seq<char>, by: Boundary)
    ensures
        forall|i: int|
            0 <= i < run_heads(s, by).len() ==> s.contains(#[trigger] run_heads(s, by)[i]),
    decreases s.len(),
{
    if s.len() > 0 {
        let init = s.drop_last();
        let before = runs(init, by);
        let after = runs(s, by);
        lemma_heads_are_characters(init, by);
        lemma_runs_shape(init, by);
        lemma_runs_shape(s, by);
        assert forall|i: int| 0 <= i < run_heads(s, by).len() implies s.contains(
            #[trigger] run_heads(s, by)[i],
        ) by {
            let head = after[i][0];
            if i < before.len() && before[i].len() > 0 && before[i][0] == head {
                assert(init.contains(run_heads(init, by)[i]));
                let k = choose|k: int| 0 <= k < init.len() && init[k] == head;
                assert(s[k] == head);
            } else {
                assert(s[s.len() - 1] == head);
            }
        }
    }
}

/// Splits `s` into its maximal runs of non-boundary characters.
pub fn split_runs(s: &Vec<char>, by: Boundary) -> (out: Vec<Vec<char>>)
    ensures
        char_texts(out@) == runs(s@, by),
{
    let mut done: Vec<Vec<char>> = Vec::new();
    let mut cur: Vec<char> = Vec::new();
    let mut i: usize = 0;
    assert(s@.take(0) =~= Seq::<char>::empty());
    assert(char_texts(done@) =~= Seq::<Seq<char>>::empty());
    while i < s.len()
        invariant
            i <= s.len(),
            cur@.len() > 0 <==> i > 0 && !by.splits(s@[i - 1]),
            runs(s@.take(i as int), by) == if cur@.len() > 0 {
                char_texts(done@).push(cur@)
            } else {
                char_texts(done@)
            },
        decreases s.len() - i,
    {
        let c = s[i];
        proof {
            let next = s@.take(i + 1);
            assert(next.drop_last() =~= s@.take(i as int));
            assert(next.last() == c);
            assert(i > 0 ==> next[next.len() - 2] == s@[i - 1]);
        }
        if by.is_boundary(c) {
            if cur.len() > 0 {
                let ghost before = char_texts(done@);
                done.push(cur);
                cur = Vec::new();
                assert(char_texts(done@) =~= before.push(done@.last()@));
            }
        } else {
            let ghost before = char_texts(done@).push(cur@);
            let ghost open = cur@.len() > 0;
            cur.push(c);
            assert(open ==> before.drop_last() =~= char_texts(done@));
            assert(!open ==> cur@ =~= seq![c]);
        }
        i += 1;
    }
    assert(s@.take(i as int) =~= s@);
    if cur.len() > 0 {
        let ghost before = char_texts(done@);
        done.push(cur);
        assert(char_texts(done@) =~= before.push(done@.last()@));
    }
    done
}

/// The first character of each run of `s`.
pub fn heads_of_runs(s: &Vec<char>, by: Boundary) -> (out: Vec<char>)
    ensures
        out@ == run_heads(s@, by),
{
    let pieces = split_runs(s, by);
    proof {
        lemma_runs_shape(s@, by);
    }
    let mut out: Vec<char> = Vec::new();
    let mut i: usize = 0;
    while i < pieces.len()
        invariant
            i <= pieces.len(),
            char_texts(pieces@) == runs(s@, by),
            forall|j: int| 0 <= j < runs(s@, by).len() ==> #[trigger] runs(s@, by)[j].len() > 0,
            out@ == run_heads(s@, by).take(i as int),
        decreases pieces.len() - i,
    {
        assert(char_texts(pieces@)[i as int] == pieces@[i as int]@);
        assert(runs(s@, by)[i as int].len() > 0);
        out.push(pieces[i][0]);
        assert(out@ =~= run_heads(s@, by).take(i + 1));
        i += 1;
    }
    assert(run_heads(s@, by).take(i as int) =~= run_heads(s@, by));
    out
}

/// A text is blank when it holds nothing but whitespace.
pub open spec fn blank(s: Seq<char>) -> bool {
    forall|i: int| 0 <= i < s.len() ==> whitespace(#[trigger] s[i])
}

/// Law: a text is blank exactly when it has no words.
pub proof fn lemma_blank_has_no_words(s: Seq<char>)
    ensures
        blank(s) <==> words(s).len() == 0,
    decreases s.len(),
{
    if s.len() > 0 {
        let init = s.drop_last();
        lemma_blank_has_no_words(init);
        lemma_runs_shape(s, Boundary::Whitespace);
        if whitespace(s.last()) {
            assert forall|i: int| 0 <= i < s.len() && blank(init) implies whitespace(
                #[trigger] s[i],
            ) by {
                if i < init.len() {
                    assert(init[i] == s[i]);
                }
            }
            assert(blank(s) ==> blank(init)) by {
                if blank(s) {
                    assert forall|i: int| 0 <= i < init.len() implies whitespace(
                        #[trigger] init[i],
                    ) by {
                        assert(init[i] == s[i]);
                    }
                }
            }
        } else {
            assert(!whitespace(s[s.len() - 1]));
        }
    }
}

/// Whether `s` holds nothing but whitespace.
pub fn is_blank(s: &Vec<char>) -> (r: bool)
    ensures
        r == blank(s@),
{
    let mut i: usize = 0;
    while i < s.len()
        invariant
            i <= s.len(),
            forall|j: int| 0 <= j < i ==> whitespace(#[trigger] s@[j]),
        decreases s.len() - i,
    {
        if !is_whitespace(s[i]) {
            return false;
        }
        i += 1;
    }
    true
}

/// `s` without its leading whitespace.
pub open spec fn trim_start(s: Seq<char>) -> Seq<char>
    decreases s.len(),
{
    if s.len() > 0 && whitespace(s[0]) {
        trim_start(s.drop_first())
    } else {
        s
    }
}

/// `s` without its trailing whitespace.
pub open spec fn trim_end(s: Seq<char>) -> Seq<char>
    decreases s.len(),
{
    if s.len() > 0 && whitespace(s.last()) {
        trim_end(s.drop_last())
    } else {
        s
    }
}

/// `s` without the whitespace at either end.
pub open spec fn trim(s: Seq<char>) -> Seq<char> {
    trim_end(trim_start(s))
}

/// `s` without the whitespace at either end.
pub fn trimmed(s: &Vec<char>) -> (out: Vec<char>)
    ensures
        out@ == trim(s@),
{
    let mut from: usize = 0;
    assert(s@.skip(0) =~= s@);
    while from < s.len() && is_whitespace(s[from])
        invariant
            from <= s.len(),
            trim_start(s@) == trim_start(s@.skip(from as int)),
        decreases s.len() - from,
    {
        assert(s@.skip(from as int).drop_first() =~= s@.skip(from + 1));
        from += 1;
    }
    let ghost rest = s@.skip(from as int);
    assert(trim_start(s@) == rest);
    let mut to: usize = s.len();
    assert(rest.take(rest.len() as int) =~= rest);
    while to > from && is_whitespace(s[to - 1])
        invariant
            from <= to <= s.len(),
            rest == s@.skip(from as int),
            trim_end(rest) == trim_end(rest.take(to - from)),
        decreases to,
    {
        assert(rest.take(to - from).drop_last() =~= rest.take(to - from - 1));
        to -= 1;
    }
    assert(rest.take(to - from) =~= s@.subrange(from as int, to as int));
    part(s, from, to)
}

/// A line without the carriage return that may precede its line feed.
pub open spec fn strip_cr(line: Seq<char>) -> Seq<char> {
    if line.len() > 0 && line.last() == '\r' {
        line.drop_last()
    } else {
        line
    }
}

/// The lines of a text. A line ends at a line feed, or at a carriage return
/// followed by one; the last line needs no ending, and an ending at the very
/// end opens no further line.
pub open spec fn lines(s: Seq<char>) -> Seq<Seq<char>> {
    let pieces = split_on(s, '\n');
    let ended = pieces.drop_last().map_values(|line: Seq<char>| strip_cr(line));
    if pieces.last().len() == 0 {
        ended
    } else {
        ended.push(pieces.last())
    }
}

/// Splits a text into its lines.
pub fn lines_of(s: &Vec<char>) -> (out: Vec<Vec<char>>)
    ensures
        char_texts(out@) == lines(s@),
{
    let mut done: Vec<Vec<char>> = Vec::new();
    let mut cur: Vec<char> = Vec::new();
    let ghost mut raw: Seq<Seq<char>> = Seq::empty();
    let mut i: usize = 0;
    assert(s@.take(0) =~= Seq::<char>::empty());
    assert(char_texts(done@) =~= raw.map_values(|line: Seq<char>| strip_cr(line)));
    while i < s.len()
        invariant
            i <= s.len(),
            split_on(s@.take(i as int), '\n') == raw.push(cur@),
            char_texts(done@) == raw.map_values(|line: Seq<char>| strip_cr(line)),
        decreases s.len() - i,
    {
        let c = s[i];
        proof {
            let next = s@.take(i + 1);
            assert(next.drop_last() =~= s@.take(i as int));
            assert(next.last() == c);
        }
        if c == '\n' {
            let ghost line = cur@;
            let ghost before = char_texts(done@);
            if cur.len() > 0 && cur[cur.len() - 1] == '\r' {
                cur.pop();
            }
            assert(cur@ == strip_cr(line));
            done.push(cur);
            cur = Vec::new();
            proof {
                assert(char_texts(done@) =~= before.push(strip_cr(line)));
                assert(raw.push(line).map_values(|line: Seq<char>| strip_cr(line)) =~= before.push(
                    strip_cr(line),
                ));
                raw = raw.push(line);
            }
        } else {
            let ghost before = raw.push(cur@);
            cur.push(c);
            assert(before.drop_last() =~= raw);
        }
        i += 1;
    }
    assert(s@.take(i as int) =~= s@);
    assert(raw.push(cur@).drop_last() =~= raw);
    if cur.len() > 0 {
        let ghost before = char_texts(done@);
        done.push(cur);
        assert(char_texts(done@) =~= before.push(done@.last()@));
    }
    done
}

} // verus!
