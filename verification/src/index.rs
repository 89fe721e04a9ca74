//! The path index and the rule that decides when it is rebuilt.
//!
//! The index is replaced as a whole at the end of a scan and never changed
//! in place. Whoever drives the scans polls the index with the volumes that
//! are mounted and the time, performs the scan when one is due, and hands
//! back what the scan printed.

use crate::segment::{lemma_split_on_shape, lines, lines_of, split_on, strip_cr};
use crate::text::{all_chars_of, char_texts, chars_of, is_among, same_chars, string_of, texts};
use vstd::prelude::*;
use vstd::string::StringExecFns;

verus! {

/// A full scan is due when the last one is older than this, in
/// milliseconds.
pub const RESCAN_AFTER_MILLIS: u64 = 600_000;

/// The time between two polls, in milliseconds.
pub const POLL_EVERY_MILLIS: u64 = 30_000;

/// Why a scan is due.
#[derive(Clone, Copy, Debug, PartialEq, Eq, Structural)]
pub enum RescanReason {
    /// A caller asked for it.
    Forced,
    /// A volume was attached or detached.
    VolumesChanged,
    /// The last scan is too old.
    Periodic,
}

/// A path is absolute when it begins with `/`.
pub open spec fn absolute(path: Seq<char>) -> bool {
    path.len() > 0 && path[0] == '/'
}

/// Every path of the list is absolute.
pub open spec fn all_absolute(paths: Seq<Seq<char>>) -> bool {
    forall|i: int| 0 <= i < paths.len() ==> absolute(#[trigger] paths[i])
}

/// Two lists hold the same members, whatever their order.
pub open spec fn same_members(a: Seq<Seq<char>>, b: Seq<Seq<char>>) -> bool {
    forall|x: Seq<char>| a.contains(x) <==> b.contains(x)
}

/// The rule of the rebuild: a scan is due when one was asked for, when the
/// mounted volumes are not those of the last scan, or when more than
/// `RESCAN_AFTER_MILLIS` have passed since the last scan.
pub open spec fn rescan_due(
    forced: bool,
    last_volumes: Seq<Seq<char>>,
    volumes: Seq<Seq<char>>,
    elapsed: int,
) -> Option<RescanReason> {
    if forced {
        Some(RescanReason::Forced)
    } else if !same_members(volumes, last_volumes) {
        Some(RescanReason::VolumesChanged)
    } else if elapsed > RESCAN_AFTER_MILLIS {
        Some(RescanReason::Periodic)
    } else {
        None
    }
}

/// The time that has passed from `last` to `now`; none if the clock went
/// back.
pub open spec fn elapsed(last: int, now: int) -> int {
    if now >= last {
        now - last
    } else {
        0
    }
}

/// The directories that a scan walks: the desktop, downloads and documents
/// of the user, the applications directory and, where there is one, the
/// directory of the mounted volumes.
pub open spec fn scan_roots(home: Seq<char>, with_volumes: bool) -> Seq<Seq<char>> {
    let fixed = seq![
        home + "/Desktop"@,
        home + "/Downloads"@,
        home + "/Documents"@,
        "/Applications"@,
    ];
    if with_volumes {
        fixed.push("/Volumes"@)
    } else {
        fixed
    }
}

/// What is handed to `find` for the walk of one root: everything below the
/// root is printed, but nothing inside a dependency directory, a version
/// control directory, a library directory or the executable directory of a
/// bundle, and no hidden entry.
pub open spec fn walk_arguments(root: Seq<char>) -> Seq<Seq<char>> {
    seq![
        root,
        "("@,
        "-path"@,
        "*/node_modules/*"@,
        "-o"@,
        "-path"@,
        "*/.git/*"@,
        "-o"@,
        "-path"@,
        "*/Library/*"@,
        "-o"@,
        "-path"@,
        "*/Contents/MacOS/*"@,
        "-o"@,
        "-name"@,
        ".*"@,
        ")"@,
        "-prune"@,
        "-o"@,
        "-print"@,
    ]
}

/// The paths that a list of printed lines adds to the index: the absolute
/// ones, but for the root of the walk itself.
pub open spec fn walked(root: Seq<char>, printed: Seq<Seq<char>>) -> Seq<Seq<char>>
    decreases printed.len(),
{
    if printed.len() == 0 {
        Seq::empty()
    } else {
        let init = walked(root, printed.drop_last());
        if absolute(printed.last()) && printed.last() != root {
            init.push(printed.last())
        } else {
            init
        }
    }
}

/// What the walk of one root printed.
#[derive(Debug)]
pub struct WalkOutput {
    /// The directory that was walked.
    pub root: String,
    /// What the walk printed: one path on each line.
    pub printed: String,
}

/// The paths that the walks of a scan add up to, in order.
pub open spec fn scanned(outputs: Seq<WalkOutput>) -> Seq<Seq<char>>
    decreases outputs.len(),
{
    if outputs.len() == 0 {
        Seq::empty()
    } else {
        scanned(outputs.drop_last()) + walked(outputs.last().root@, lines(outputs.last().printed@))
    }
}

/// The text of the index cache: each path followed by a line feed.
pub open spec fn cache_text(paths: Seq<Seq<char>>) -> Seq<char>
    decreases paths.len(),
{
    if paths.len() == 0 {
        Seq::empty()
    } else {
        cache_text(paths.drop_last()) + paths.last() + seq!['\n']
    }
}

/// Walked paths are absolute.
pub proof fn lemma_walked_absolute(root: Seq<char>, printed: Seq<Seq<char>>)
    ensures
        all_absolute(walked(root, printed)),
    decreases printed.len(),
{
    if printed.len() > 0 {
        let init = walked(root, printed.drop_last());
        lemma_walked_absolute(root, printed.drop_last());
        assert forall|i: int| 0 <= i < walked(root, printed).len() implies absolute(
            #[trigger] walked(root, printed)[i],
        ) by {
            if i < init.len() {
                assert(walked(root, printed)[i] == init[i]);
            }
        }
    }
}

/// Scanned paths are absolute.
pub proof fn lemma_scanned_absolute(outputs: Seq<WalkOutput>)
    ensures
        all_absolute(scanned(outputs)),
    decreases outputs.len(),
{
    if outputs.len() > 0 {
        let init = scanned(outputs.drop_last());
        let more = walked(outputs.last().root@, lines(outputs.last().printed@));
        lemma_scanned_absolute(outputs.drop_last());
        lemma_walked_absolute(outputs.last().root@, lines(outputs.last().printed@));
        assert forall|i: int| 0 <= i < scanned(outputs).len() implies absolute(
            #[trigger] scanned(outputs)[i],
        ) by {
            if i < init.len() {
                assert(scanned(outputs)[i] == init[i]);
            } else {
                assert(scanned(outputs)[i] == more[i - init.len()]);
            }
        }
    }
}

/// A path that the cache can hold on a line of its own: it is absolute,
/// holds no line feed and does not end in a carriage return.
pub open spec fn storable(path: Seq<char>) -> bool {
    absolute(path) && !path.contains('\n') && path.last() != '\r'
}

/// Appending a text without separator to a text extends its last piece.
proof fn lemma_split_on_append(s: Seq<char>, more: Seq<char>, sep: char)
    requires
        !more.contains(sep),
    ensures
        split_on(s + more, sep) == split_on(s, sep).drop_last().push(
            split_on(s, sep).last() + more,
        ),
    decreases more.len(),
{
    lemma_split_on_shape(s, sep);
    let pieces = split_on(s, sep);
    if more.len() == 0 {
        assert(s + more =~= s);
        assert(pieces.last() + more =~= pieces.last());
        assert(pieces.drop_last().push(pieces.last()) =~= pieces);
    } else {
        let init = more.drop_last();
        assert(!init.contains(sep)) by {
            if init.contains(sep) {
                let i = choose|i: int| 0 <= i < init.len() && init[i] == sep;
                assert(more[i] == sep);
            }
        }
        assert(more.last() != sep) by {
            assert(more[more.len() - 1] == more.last());
        }
        lemma_split_on_append(s, init, sep);
        assert((s + more).drop_last() =~= s + init);
        assert((s + more).last() == more.last());
        let before = pieces.drop_last().push(pieces.last() + init);
        assert(before.drop_last() =~= pieces.drop_last());
        assert((pieces.last() + init).push(more.last()) =~= pieces.last() + more);
    }
}

/// The text of a cache splits at its line feeds into its paths and an empty
/// rest.
proof fn lemma_cache_text_pieces(paths: Seq<Seq<char>>)
    requires
        forall|i: int| 0 <= i < paths.len() ==> !(#[trigger] paths[i]).contains('\n'),
    ensures
        split_on(cache_text(paths), '\n') == paths.push(Seq::empty()),
    decreases paths.len(),
{
    if paths.len() == 0 {
        assert(split_on(cache_text(paths), '\n') =~= paths.push(Seq::empty()));
    } else {
        let init = paths.drop_last();
        let last = paths.last();
        assert forall|i: int| 0 <= i < init.len() implies !(#[trigger] init[i]).contains(
            '\n',
        ) by {
            assert(init[i] == paths[i]);
        }
        lemma_cache_text_pieces(init);
        lemma_split_on_append(cache_text(init), last, '\n');
        let with_last = cache_text(init) + last;
        let text = cache_text(paths);
        assert(text =~= with_last.push('\n'));
        assert(text.drop_last() =~= with_last);
        assert(init.push(Seq::<char>::empty()).drop_last() =~= init);
        assert(Seq::<char>::empty() + last =~= last);
        assert(init.push(last) =~= paths);
    }
}

/// Law: an index that was written to the cache is read back as it was, as
/// long as each of its paths can stand on a line of its own.
pub proof fn lemma_cache_reads_back(paths: Seq<Seq<char>>)
    requires
        forall|i: int| 0 <= i < paths.len() ==> storable(#[trigger] paths[i]),
    ensures
        lines(cache_text(paths)) == paths,
        walked(Seq::empty(), lines(cache_text(paths))) == paths,
{
    lemma_cache_text_pieces(paths);
    let pieces = split_on(cache_text(paths), '\n');
    assert(pieces.drop_last() =~= paths);
    assert(paths.map_values(|line: Seq<char>| strip_cr(line)) =~= paths);
    lemma_walked_all(paths);
}

/// A walk that printed absolute paths only, from no root, adds them all.
proof fn lemma_walked_all(printed: Seq<Seq<char>>)
    requires
        all_absolute(printed),
    ensures
        walked(Seq::empty(), printed) == printed,
    decreases printed.len(),
{
    if printed.len() > 0 {
        let init = printed.drop_last();
        assert forall|i: int| 0 <= i < init.len() implies absolute(#[trigger] init[i]) by {
            assert(init[i] == printed[i]);
        }
        lemma_walked_all(init);
        assert(absolute(printed[printed.len() - 1]));
        assert(init.push(printed.last()) =~= printed);
    } else {
        assert(walked(Seq::empty(), printed) =~= printed);
    }
}

/// What an index stands for.
pub struct IndexState {
    /// The indexed paths, in the order of the scan.
    pub files: Seq<Seq<char>>,
    /// A scan is under way.
    pub indexing: bool,
    /// A scan was asked for and has not begun.
    pub forced: bool,
    /// The volumes that were mounted when the last scan began.
    pub last_volumes: Seq<Seq<char>>,
    /// When the last scan began, in milliseconds.
    pub last_scan: int,
}

/// The path index with the state of its rebuild.
pub struct GlobalIndex {
    files: Vec<String>,
    is_indexing: bool,
    force_update: bool,
    last_volumes: Vec<String>,
    last_scan: u64,
}

impl View for GlobalIndex {
    type V = IndexState;

    closed spec fn view(&self) -> IndexState {
        IndexState {
            files: texts(self.files@),
            indexing: self.is_indexing,
            forced: self.force_update,
            last_volumes: texts(self.last_volumes@),
            last_scan: self.last_scan as int,
        }
    }
}

/// Whether every member of `a` is a member of `b`.
fn covers(a: &Vec<Vec<char>>, b: &Vec<Vec<char>>) -> (r: bool)
    ensures
        r == (forall|x: Seq<char>| char_texts(a@).contains(x) ==> char_texts(b@).contains(x)),
{
    let mut i: usize = 0;
    while i < a.len()
        invariant
            i <= a.len(),
            forall|j: int| 0 <= j < i ==> char_texts(b@).contains(#[trigger] char_texts(a@)[j]),
        decreases a.len() - i,
    {
        assert(char_texts(a@)[i as int] == a@[i as int]@);
        if !is_among(b, &a[i]) {
            assert(char_texts(a@).contains(char_texts(a@)[i as int]));
            return false;
        }
        i += 1;
    }
    true
}

/// Appends to `files` the paths that the walk of `root` printed.
fn collect(files: &mut Vec<String>, root: &str, printed: &str)
    ensures
        texts(final(files)@) == texts(old(files)@) + walked(root@, lines(printed@)),
{
    let root_chars = chars_of(root);
    let rows = lines_of(&chars_of(printed));
    let ghost start = texts(files@);
    let ghost all = char_texts(rows@);
    let mut i: usize = 0;
    assert(all.take(0) =~= Seq::empty());
    assert(start + walked(root@, all.take(0)) =~= start);
    while i < rows.len()
        invariant
            i <= rows.len(),
            root_chars@ == root@,
            all == char_texts(rows@),
            texts(files@) == start + walked(root@, all.take(i as int)),
        decreases rows.len() - i,
    {
        proof {
            assert(all.take(i + 1).drop_last() =~= all.take(i as int));
            assert(all.take(i + 1).last() == rows@[i as int]@);
        }
        let row = &rows[i];
        if row.len() > 0 && row[0] == '/' && !same_chars(row, &root_chars) {
            let ghost before = texts(files@);
            files.push(string_of(row));
            proof {
                let kept = walked(root@, all.take(i as int));
                assert(texts(files@) =~= before.push(row@));
                assert(start + kept.push(row@) =~= (start + kept).push(row@));
            }
        }
        i += 1;
    }
    assert(all.take(i as int) =~= all);
}

/// The text of the index cache for these paths.
fn render_cache(files: &Vec<String>) -> (text: String)
    ensures
        text@ == cache_text(texts(files@)),
{
    let mut text = String::new();
    let ghost all = texts(files@);
    let mut i: usize = 0;
    assert(all.take(0) =~= Seq::empty());
    while i < files.len()
        invariant
            i <= files.len(),
            all == texts(files@),
            text@ == cache_text(all.take(i as int)),
        decreases files.len() - i,
    {
        proof {
            assert(all.take(i + 1).drop_last() =~= all.take(i as int));
            assert(all.take(i + 1).last() == files@[i as int]@);
            reveal_strlit("\n");
            assert("\n"@ =~= seq!['\n']);
        }
        text.append(files[i].as_str());
        text.append("\n");
        i += 1;
    }
    assert(all.take(i as int) =~= all);
    text
}

/// The directories that a scan walks.
pub fn roots_to_scan(home: &str, with_volumes: bool) -> (roots: Vec<String>)
    ensures
        texts(roots@) == scan_roots(home@, with_volumes),
{
    let mut roots: Vec<String> = Vec::new();
    roots.push(home.to_owned().concat("/Desktop"));
    roots.push(home.to_owned().concat("/Downloads"));
    roots.push(home.to_owned().concat("/Documents"));
    roots.push("/Applications".to_owned());
    if with_volumes {
        roots.push("/Volumes".to_owned());
    }
    assert(texts(roots@) =~= scan_roots(home@, with_volumes));
    roots
}

/// The arguments to hand to `find` for the walk of one root.
pub fn arguments_of_walk(root: &str) -> (arguments: Vec<String>)
    ensures
        texts(arguments@) == walk_arguments(root@),
{
    let arguments = vec![
        root.to_owned(),
        "(".to_owned(),
        "-path".to_owned(),
        "*/node_modules/*".to_owned(),
        "-o".to_owned(),
        "-path".to_owned(),
        "*/.git/*".to_owned(),
        "-o".to_owned(),
        "-path".to_owned(),
        "*/Library/*".to_owned(),
        "-o".to_owned(),
        "-path".to_owned(),
        "*/Contents/MacOS/*".to_owned(),
        "-o".to_owned(),
        "-name".to_owned(),
        ".*".to_owned(),
        ")".to_owned(),
        "-prune".to_owned(),
        "-o".to_owned(),
        "-print".to_owned(),
    ];
    assert(texts(arguments@) =~= walk_arguments(root@));
    arguments
}

impl GlobalIndex {
    /// The index holds absolute paths only.
    #[verifier::type_invariant]
    spec fn holds_absolute_paths(&self) -> bool {
        all_absolute(texts(self.files@))
    }

    /// An empty index: nothing under way, nothing asked for, no volume
    /// seen, the clock at zero.
    pub fn new() -> (index: Self)
        ensures
            index@ == (IndexState {
                files: Seq::empty(),
                indexing: false,
                forced: false,
                last_volumes: Seq::empty(),
                last_scan: 0,
            }),
    {
        let index = GlobalIndex {
            files: Vec::new(),
            is_indexing: false,
            force_update: false,
            last_volumes: Vec::new(),
            last_scan: 0,
        };
        assert(texts(index.files@) =~= Seq::empty());
        assert(texts(index.last_volumes@) =~= Seq::empty());
        index
    }

    /// An index that holds what a cache holds: the absolute paths among the
    /// lines of its text.
    pub fn from_cache(cache: &str) -> (index: Self)
        ensures
            index@ == (IndexState {
                files: walked(Seq::empty(), lines(cache@)),
                indexing: false,
                forced: false,
                last_volumes: Seq::empty(),
                last_scan: 0,
            }),
    {
        let mut files: Vec<String> = Vec::new();
        assert(texts(files@) =~= Seq::empty());
        collect(&mut files, "", cache);
        proof {
            reveal_strlit("");
            assert(""@ =~= Seq::<char>::empty());
            lemma_walked_absolute(Seq::empty(), lines(cache@));
            assert(Seq::<Seq<char>>::empty() + walked(Seq::empty(), lines(cache@)) =~= walked(
                Seq::empty(),
                lines(cache@),
            ));
        }
        let index = GlobalIndex {
            files,
            is_indexing: false,
            force_update: false,
            last_volumes: Vec::new(),
            last_scan: 0,
        };
        assert(texts(index.last_volumes@) =~= Seq::empty());
        index
    }

    /// The indexed paths, all of them absolute.
    pub fn files(&self) -> (files: &Vec<String>)
        ensures
            texts(files@) == self@.files,
            all_absolute(self@.files),
    {
        proof {
            use_type_invariant(self);
        }
        &self.files
    }

    /// Whether a scan is under way.
    pub fn is_indexing(&self) -> (indexing: bool)
        ensures
            indexing == self@.indexing,
    {
        self.is_indexing
    }

    /// Asks for a scan at the next poll.
    pub fn force_update(&mut self)
        ensures
            final(self)@ == (IndexState { forced: true, ..old(self)@ }),
    {
        proof {
            use_type_invariant(&*self);
        }
        self.force_update = true;
    }

    /// One poll of the rebuild. Where a scan is due, the index notes that
    /// one is under way, forgets that one was asked for, and remembers the
    /// volumes and the time; the reason is returned. Otherwise nothing
    /// changes.
    pub fn poll(&mut self, volumes: Vec<String>, now: u64) -> (due: Option<RescanReason>)
        ensures
            due == rescan_due(
                old(self)@.forced,
                old(self)@.last_volumes,
                texts(volumes@),
                elapsed(old(self)@.last_scan, now as int),
            ),
            due is None ==> final(self)@ == old(self)@,
            due is Some ==> final(self)@ == (IndexState {
                files: old(self)@.files,
                indexing: true,
                forced: false,
                last_volumes: texts(volumes@),
                last_scan: now as int,
            }),
    {
        proof {
            use_type_invariant(&*self);
        }
        let passed: u64 = if now >= self.last_scan {
            now - self.last_scan
        } else {
            0
        };
        let due = if self.force_update {
            Some(RescanReason::Forced)
        } else {
            let current = all_chars_of(&volumes);
            let last = all_chars_of(&self.last_volumes);
            if !(covers(&current, &last) && covers(&last, &current)) {
                Some(RescanReason::VolumesChanged)
            } else if passed > RESCAN_AFTER_MILLIS {
                Some(RescanReason::Periodic)
            } else {
                None
            }
        };
        if due.is_some() {
            self.force_update = false;
            self.is_indexing = true;
            self.last_volumes = volumes;
            self.last_scan = now;
        }
        due
    }

    /// The end of a scan. The index is replaced by what the walks printed
    /// and no scan is under way any more. Returns the text to write to the
    /// index cache.
    pub fn finish_scan(&mut self, outputs: &Vec<WalkOutput>) -> (cache: String)
        ensures
            final(self)@ == (IndexState {
                files: scanned(outputs@),
                indexing: false,
                ..old(self)@
            }),
            cache@ == cache_text(scanned(outputs@)),
    {
        let mut files: Vec<String> = Vec::new();
        let mut i: usize = 0;
        assert(outputs@.take(0) =~= Seq::empty());
        assert(texts(files@) =~= Seq::empty());
        while i < outputs.len()
            invariant
                i <= outputs.len(),
                texts(files@) == scanned(outputs@.take(i as int)),
            decreases outputs.len() - i,
        {
            proof {
                assert(outputs@.take(i + 1).drop_last() =~= outputs@.take(i as int));
                assert(outputs@.take(i + 1).last() == outputs@[i as int]);
            }
            collect(&mut files, outputs[i].root.as_str(), outputs[i].printed.as_str());
            i += 1;
        }
        proof {
            assert(outputs@.take(i as int) =~= outputs@);
            lemma_scanned_absolute(outputs@);
        }
        let cache = render_cache(&files);
        self.files = files;
        self.is_indexing = false;
        cache
    }
}

} // verus!
