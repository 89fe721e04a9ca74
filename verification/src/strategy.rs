//! Type filters: what each one asks of the native index and of a path.

use crate::text::{
    char_texts, chars_of, contains, ends_with, has_part, has_suffix, lowercase, same_text,
    to_lowercase,
};
use vstd::prelude::*;
use vstd::string::StringExecFns;

verus! {

/// The kinds of entry a search can be narrowed to.
#[derive(Clone, Copy, Debug, PartialEq, Eq, Structural)]
pub enum TypeFilter {
    All,
    Image,
    Video,
    Audio,
    Pdf,
    Doc,
    Folder,
    App,
}

impl TypeFilter {
    /// The filter that a filter name stands for. A name that is none of
    /// `image`, `video`, `audio`, `pdf`, `doc`, `folder`, `app` filters
    /// nothing.
    pub open spec fn named(name: Seq<char>) -> TypeFilter {
        if name == "image"@ {
            TypeFilter::Image
        } else if name == "video"@ {
            TypeFilter::Video
        } else if name == "audio"@ {
            TypeFilter::Audio
        } else if name == "pdf"@ {
            TypeFilter::Pdf
        } else if name == "doc"@ {
            TypeFilter::Doc
        } else if name == "folder"@ {
            TypeFilter::Folder
        } else if name == "app"@ {
            TypeFilter::App
        } else {
            TypeFilter::All
        }
    }

    /// Reads a filter name.
    pub fn from_name(name: &str) -> (filter: TypeFilter)
        ensures
            filter == TypeFilter::named(name@),
    {
        if same_text(name, "image") {
            TypeFilter::Image
        } else if same_text(name, "video") {
            TypeFilter::Video
        } else if same_text(name, "audio") {
            TypeFilter::Audio
        } else if same_text(name, "pdf") {
            TypeFilter::Pdf
        } else if same_text(name, "doc") {
            TypeFilter::Doc
        } else if same_text(name, "folder") {
            TypeFilter::Folder
        } else if same_text(name, "app") {
            TypeFilter::App
        } else {
            TypeFilter::All
        }
    }

    /// The content-type predicate of the native index for this filter; empty
    /// where nothing is filtered.
    pub open spec fn kind_predicate(self) -> Seq<char> {
        match self {
            TypeFilter::All => ""@,
            TypeFilter::Image => "kMDItemContentTypeTree == 'public.image'"@,
            TypeFilter::Video => "kMDItemContentTypeTree == 'public.movie'"@,
            TypeFilter::Audio => "kMDItemContentTypeTree == 'public.audio'"@,
            TypeFilter::Pdf => "kMDItemContentTypeTree == 'com.adobe.pdf'"@,
            TypeFilter::Doc =>
                "(kMDItemContentTypeTree == 'public.text' || kMDItemContentTypeTree == 'public.content' || kMDItemContentTypeTree == 'com.microsoft.word.doc' || kMDItemContentTypeTree == 'com.adobe.pdf')"@,
            TypeFilter::Folder => "kMDItemContentTypeTree == 'public.folder'"@,
            TypeFilter::App =>
                "(kMDItemContentTypeTree == 'com.apple.application-bundle' || kMDItemContentTypeTree == 'com.apple.systempreference.pane')"@,
        }
    }

    /// The file-name endings that this filter lets through, whatever their
    /// case; empty where it does not go by endings.
    pub open spec fn endings(self) -> Seq<Seq<char>> {
        match self {
            TypeFilter::All => Seq::<Seq<char>>::empty(),
            TypeFilter::Image => seq![
                ".jpg"@,
                ".png"@,
                ".jpeg"@,
                ".gif"@,
                ".webp"@,
                ".bmp"@,
                ".heic"@,
            ],
            TypeFilter::Video => seq![".mp4"@, ".mov"@, ".avi"@, ".mkv"@, ".flv"@, ".wmv"@],
            TypeFilter::Audio => seq![".mp3"@, ".wav"@, ".flac"@, ".aac"@, ".m4a"@],
            TypeFilter::Pdf => seq![".pdf"@],
            TypeFilter::Doc => seq![
                ".pdf"@,
                ".txt"@,
                ".md"@,
                ".doc"@,
                ".docx"@,
                ".xls"@,
                ".xlsx"@,
                ".ppt"@,
                ".pptx"@,
            ],
            TypeFilter::Folder => Seq::<Seq<char>>::empty(),
            TypeFilter::App => seq![".app"@, ".prefPane"@],
        }
    }
}

/// What one type filter means for the two search branches.
pub struct SearchStrategy {
    /// The native index's content-type predicate, empty where none applies.
    pub spotlight_kind: String,
    /// The endings of the paths that the in-memory scan lets through.
    pub extensions: Vec<&'static str>,
}

/// The views of a list of string slices.
pub open spec fn slice_texts(items: Seq<&str>) -> Seq<Seq<char>> {
    items.map_values(|s: &str| s@)
}

/// Whether a lowercased path has one of the given endings.
pub open spec fn has_ending(lowered: Seq<char>, endings: Seq<Seq<char>>) -> bool {
    exists|i: int| 0 <= i < endings.len() && ends_with(lowered, #[trigger] endings[i])
}

/// Whether a lowercased path lies at or inside an application bundle without
/// lying inside the bundle's contents.
pub open spec fn outside_bundle_contents(lowered: Seq<char>) -> bool {
    contains(lowered, ".app"@) && !contains(lowered, ".app/contents/"@)
}

/// The native index's clause for "the file name holds `word`, whatever the
/// case".
pub open spec fn name_clause(word: Seq<char>) -> Seq<char> {
    "kMDItemFSName == '*"@ + word + "*'cd"@
}

/// The name clauses of the words that are not empty, in order.
pub open spec fn word_clauses(words: Seq<Seq<char>>) -> Seq<Seq<char>>
    decreases words.len(),
{
    if words.len() == 0 {
        Seq::<Seq<char>>::empty()
    } else {
        let init = word_clauses(words.drop_last());
        if words.last().len() > 0 {
            init.push(name_clause(words.last()))
        } else {
            init
        }
    }
}

/// The parts, with `sep` between each two neighbours.
pub open spec fn join(parts: Seq<Seq<char>>, sep: Seq<char>) -> Seq<char>
    decreases parts.len(),
{
    if parts.len() == 0 {
        Seq::<char>::empty()
    } else if parts.len() == 1 {
        parts[0]
    } else {
        join(parts.drop_last(), sep) + sep + parts.last()
    }
}

/// The predicate handed to the native index. Every word must occur in the
/// file name; an alias, where there is one, is an alternative to the words
/// together; the content-type predicate, where there is one, must hold as
/// well. With neither words nor alias, only the content-type predicate is
/// left.
pub open spec fn query_text(
    kind: Seq<char>,
    words: Seq<Seq<char>>,
    alias: Option<Seq<char>>,
) -> Seq<char> {
    let clauses = word_clauses(words);
    let all_words = join(clauses, " && "@);
    if clauses.len() == 0 && alias is None {
        kind
    } else {
        let base = match alias {
            Some(name) => if clauses.len() > 0 {
                "(("@ + all_words + ") || "@ + name_clause(name) + ")"@
            } else {
                name_clause(name)
            },
            None => if clauses.len() > 1 {
                "("@ + all_words + ")"@
            } else {
                all_words
            },
        };
        if kind.len() == 0 {
            base
        } else {
            "("@ + base + ") && ("@ + kind + ")"@
        }
    }
}

/// The alias as a text, where there is one.
pub open spec fn alias_text(alias: Option<&String>) -> Option<Seq<char>> {
    match alias {
        Some(name) => Some(name@),
        None => None,
    }
}

/// Appends the name clause of `word` to `query`.
fn push_name_clause(query: &mut String, word: &str)
    ensures
        final(query)@ == old(query)@ + name_clause(word@),
{
    query.append("kMDItemFSName == '*");
    query.append(word);
    query.append("*'cd");
    assert(final(query)@ =~= old(query)@ + name_clause(word@));
}

/// The lowercase forms of a list of texts.
pub open spec fn lowered_all(items: Seq<Seq<char>>) -> Seq<Seq<char>> {
    items.map_values(|item: Seq<char>| lowercase(item))
}

/// Whether a list of endings lets a path through, given the endings and the
/// path in lowercase: always where the list is empty; otherwise where the
/// path has one of the endings, or, for a list that knows `.app`, where the
/// path names a bundle or something beside its contents.
pub open spec fn lowered_endings_accept(
    endings: Seq<Seq<char>>,
    lowered_endings: Seq<Seq<char>>,
    lowered: Seq<char>,
) -> bool {
    ||| endings.len() == 0
    ||| (endings.contains(".app"@) && outside_bundle_contents(lowered))
    ||| has_ending(lowered, lowered_endings)
}

/// Whether a list of endings lets a lowercased path through: the endings
/// count whatever their case.
pub open spec fn endings_accept_lowered(endings: Seq<Seq<char>>, lowered: Seq<char>) -> bool {
    lowered_endings_accept(endings, lowered_all(endings), lowered)
}

/// Whether a list of endings lets a path through: whether it lets its
/// lowercase form through.
pub open spec fn endings_accept(endings: Seq<Seq<char>>, path: Seq<char>) -> bool {
    endings_accept_lowered(endings, lowercase(path))
}

/// Whether a lowercased path has one of the endings.
pub fn ends_in_one_of(lowered: &Vec<char>, endings: &Vec<Vec<char>>) -> (r: bool)
    ensures
        r == has_ending(lowered@, char_texts(endings@)),
{
    let mut i: usize = 0;
    while i < endings.len()
        invariant
            i <= endings.len(),
            forall|j: int| 0 <= j < i ==> !ends_with(lowered@, #[trigger] char_texts(endings@)[j]),
        decreases endings.len() - i,
    {
        assert(char_texts(endings@)[i as int] == endings@[i as int]@);
        if has_suffix(lowered, &endings[i]) {
            return true;
        }
        i += 1;
    }
    false
}

impl SearchStrategy {
    /// The endings as texts.
    pub open spec fn endings(&self) -> Seq<Seq<char>> {
        slice_texts(self.extensions@)
    }

    /// Whether this is the strategy of `filter`.
    pub open spec fn is_for(&self, filter: TypeFilter) -> bool {
        &&& self.spotlight_kind@ == filter.kind_predicate()
        &&& self.endings() == filter.endings()
    }

    /// Whether the strategy lets a path through.
    pub open spec fn accepts(&self, path: Seq<char>) -> bool {
        endings_accept(self.endings(), path)
    }

    /// The strategy of a filter.
    pub fn for_filter(filter: TypeFilter) -> (strategy: Self)
        ensures
            strategy.is_for(filter),
    {
        let strategy = match filter {
            TypeFilter::All => SearchStrategy {
                spotlight_kind: "".to_owned(),
                extensions: Vec::new(),
            },
            TypeFilter::Image => SearchStrategy {
                spotlight_kind: "kMDItemContentTypeTree == 'public.image'".to_owned(),
                extensions: vec![".jpg", ".png", ".jpeg", ".gif", ".webp", ".bmp", ".heic"],
            },
            TypeFilter::Video => SearchStrategy {
                spotlight_kind: "kMDItemContentTypeTree == 'public.movie'".to_owned(),
                extensions: vec![".mp4", ".mov", ".avi", ".mkv", ".flv", ".wmv"],
            },
            TypeFilter::Audio => SearchStrategy {
                spotlight_kind: "kMDItemContentTypeTree == 'public.audio'".to_owned(),
                extensions: vec![".mp3", ".wav", ".flac", ".aac", ".m4a"],
            },
            TypeFilter::Pdf => SearchStrategy {
                spotlight_kind: "kMDItemContentTypeTree == 'com.adobe.pdf'".to_owned(),
                extensions: vec![".pdf"],
            },
            TypeFilter::Doc => SearchStrategy {
                spotlight_kind:
                    "(kMDItemContentTypeTree == 'public.text' || kMDItemContentTypeTree == 'public.content' || kMDItemContentTypeTree == 'com.microsoft.word.doc' || kMDItemContentTypeTree == 'com.adobe.pdf')".to_owned(),
                extensions: vec![
                    ".pdf",
                    ".txt",
                    ".md",
                    ".doc",
                    ".docx",
                    ".xls",
                    ".xlsx",
                    ".ppt",
                    ".pptx",
                ],
            },
            TypeFilter::Folder => SearchStrategy {
                spotlight_kind: "kMDItemContentTypeTree == 'public.folder'".to_owned(),
                extensions: Vec::new(),
            },
            TypeFilter::App => SearchStrategy {
                spotlight_kind:
                    "(kMDItemContentTypeTree == 'com.apple.application-bundle' || kMDItemContentTypeTree == 'com.apple.systempreference.pane')".to_owned(),
                extensions: vec![".app", ".prefPane"],
            },
        };
        assert(strategy.endings() =~= filter.endings());
        strategy
    }

    /// The strategy of the filter that `t` names.
    pub fn from_type(t: &str) -> (strategy: Self)
        ensures
            strategy.is_for(TypeFilter::named(t@)),
    {
        Self::for_filter(TypeFilter::from_name(t))
    }

    /// The predicate to hand to the native index for these words and this
    /// alias.
    pub fn spotlight_query(&self, words: &[&str], alias: Option<&String>) -> (query: String)
        ensures
            query@ == query_text(self.spotlight_kind@, slice_texts(words@), alias_text(alias)),
    {
        let ghost texts = slice_texts(words@);
        let mut all_words = String::new();
        let mut count: usize = 0;
        let mut i: usize = 0;
        assert(texts.take(0) =~= Seq::<Seq<char>>::empty());
        while i < words.len()
            invariant
                i <= words.len(),
                count <= i,
                texts == slice_texts(words@),
                count == word_clauses(texts.take(i as int)).len(),
                all_words@ == join(word_clauses(texts.take(i as int)), " && "@),
            decreases words.len() - i,
        {
            let word = words[i];
            proof {
                let next = texts.take(i + 1);
                assert(next.drop_last() =~= texts.take(i as int));
                assert(next.last() == word@);
            }
            if !word.is_empty() {
                let ghost before = word_clauses(texts.take(i as int));
                if count > 0 {
                    all_words.append(" && ");
                }
                push_name_clause(&mut all_words, word);
                count += 1;
                proof {
                    let after = before.push(name_clause(word@));
                    assert(after.drop_last() =~= before);
                    assert(all_words@ =~= join(after, " && "@));
                }
            }
            i += 1;
        }
        assert(texts.take(i as int) =~= texts);
        if count == 0 && alias.is_none() {
            return self.spotlight_kind.clone();
        }
        let mut base = String::new();
        match alias {
            Some(name) => {
                if count > 0 {
                    base.append("((");
                    base.append(all_words.as_str());
                    base.append(") || ");
                    push_name_clause(&mut base, name.as_str());
                    base.append(")");
                } else {
                    push_name_clause(&mut base, name.as_str());
                }
            },
            None => {
                if count > 1 {
                    base.append("(");
                    base.append(all_words.as_str());
                    base.append(")");
                } else {
                    base.append(all_words.as_str());
                }
            },
        }
        if self.spotlight_kind.as_str().is_empty() {
            assert(base@ =~= query_text(self.spotlight_kind@, texts, alias_text(alias)));
            return base;
        }
        let mut query = String::new();
        query.append("(");
        query.append(base.as_str());
        query.append(") && (");
        query.append(self.spotlight_kind.as_str());
        query.append(")");
        assert(query@ =~= query_text(self.spotlight_kind@, texts, alias_text(alias)));
        query
    }

    /// Whether the strategy lets `path` through.
    pub fn matches_extension(&self, path: &str) -> (r: bool)
        ensures
            r == self.accepts(path@),
    {
        if self.extensions.len() == 0 {
            return true;
        }
        let lowered = to_lowercase(path);
        self.accepts_lowered(&chars_of(lowered.as_str()))
    }

    /// Whether `.app` is one of the endings.
    pub fn knows_bundles(&self) -> (r: bool)
        ensures
            r == self.endings().contains(".app"@),
    {
        let mut i: usize = 0;
        while i < self.extensions.len()
            invariant
                i <= self.extensions.len(),
                forall|j: int| 0 <= j < i ==> self.endings()[j] != ".app"@,
            decreases self.extensions.len() - i,
        {
            assert(self.endings()[i as int] == self.extensions@[i as int]@);
            if same_text(self.extensions[i], ".app") {
                return true;
            }
            i += 1;
        }
        false
    }

    /// The endings in lowercase.
    pub fn lowered_endings(&self) -> (lowered: Vec<Vec<char>>)
        ensures
            char_texts(lowered@) == lowered_all(self.endings()),
    {
        let mut lowered: Vec<Vec<char>> = Vec::new();
        let ghost all = lowered_all(self.endings());
        let mut i: usize = 0;
        assert(char_texts(lowered@) =~= all.take(0));
        while i < self.extensions.len()
            invariant
                i <= self.extensions.len(),
                all == lowered_all(self.endings()),
                char_texts(lowered@) == all.take(i as int),
            decreases self.extensions.len() - i,
        {
            let ghost before = char_texts(lowered@);
            let ending = to_lowercase(self.extensions[i]);
            lowered.push(chars_of(ending.as_str()));
            proof {
                assert(self.endings()[i as int] == self.extensions@[i as int]@);
                assert(char_texts(lowered@) =~= before.push(ending@));
                assert(all.take(i + 1) =~= before.push(ending@));
            }
            i += 1;
        }
        assert(all.take(i as int) =~= all);
        lowered
    }

    /// Whether the strategy lets a path through, given its endings and the
    /// path in lowercase.
    pub fn accepts_with(&self, lowered_endings: &Vec<Vec<char>>, lowered: &Vec<char>) -> (r: bool)
        ensures
            r == lowered_endings_accept(self.endings(), char_texts(lowered_endings@), lowered@),
    {
        if self.extensions.len() == 0 {
            return true;
        }
        if self.knows_bundles() && has_part(lowered, &chars_of(".app")) && !has_part(
            lowered,
            &chars_of(".app/contents/"),
        ) {
            return true;
        }
        ends_in_one_of(lowered, lowered_endings)
    }

    /// Whether the strategy lets a path through, given the path in
    /// lowercase.
    pub fn accepts_lowered(&self, lowered: &Vec<char>) -> (r: bool)
        ensures
            r == endings_accept_lowered(self.endings(), lowered@),
    {
        if self.extensions.len() == 0 {
            return true;
        }
        let endings = self.lowered_endings();
        self.accepts_with(&endings, lowered)
    }
}

} // verus!
