//! The alias table: shorthand tokens and the application names they stand
//! for.
//!
//! The table keeps its entries in a list, in the order of registration, each
//! token once. vstd models the hashing of integers and not of strings, so
//! nothing could be proved of a hash map keyed by tokens.

use crate::builtin::{
    builtin_aliases, design_aliases, design_list, developer_aliases, developer_list,
    media_aliases, media_list, office_aliases, office_list, productivity_aliases,
    productivity_list, system_aliases, system_list,
};
use crate::segment::{heads_of_runs, run_heads, Boundary};
use crate::text::{
    chars_of, ends_with, has_char, has_suffix, lowercase, part, string_of, texts, to_lowercase,
};
use vstd::prelude::*;

verus! {

/// The table is rebuilt after this many milliseconds.
pub const ALIAS_REFRESH_MILLIS: u64 = 3_600_000;

/// A table after one more registration: a token that is already bound keeps
/// its name.
pub open spec fn bind(
    table: Map<Seq<char>, Seq<char>>,
    token: Seq<char>,
    canonical: Seq<char>,
) -> Map<Seq<char>, Seq<char>> {
    if table.contains_key(token) {
        table
    } else {
        table.insert(token, canonical)
    }
}

/// A table after a list of registrations, made in order.
pub open spec fn bind_all(
    table: Map<Seq<char>, Seq<char>>,
    pairs: Seq<(Seq<char>, Seq<char>)>,
) -> Map<Seq<char>, Seq<char>>
    decreases pairs.len(),
{
    if pairs.len() == 0 {
        table
    } else {
        bind(bind_all(table, pairs.drop_last()), pairs.last().0, pairs.last().1)
    }
}

/// The table that a list of registrations builds from nothing: each token
/// bound to the name it was first registered with.
pub open spec fn first_wins(pairs: Seq<(Seq<char>, Seq<char>)>) -> Map<Seq<char>, Seq<char>> {
    bind_all(Map::empty(), pairs)
}

/// Registering one list after another is registering their concatenation.
pub proof fn lemma_bind_all_concat(
    table: Map<Seq<char>, Seq<char>>,
    first: Seq<(Seq<char>, Seq<char>)>,
    second: Seq<(Seq<char>, Seq<char>)>,
)
    ensures
        bind_all(bind_all(table, first), second) == bind_all(table, first + second),
    decreases second.len(),
{
    if second.len() == 0 {
        assert(first + second =~= first);
    } else {
        lemma_bind_all_concat(table, first, second.drop_last());
        assert((first + second).drop_last() =~= first + second.drop_last());
        assert((first + second).last() == second.last());
    }
}

/// Law: first registered wins. A token that a list of registrations binds
/// keeps its name when more registrations follow: no installed application
/// takes a built-in token away.
pub proof fn lemma_first_wins_extends(
    first: Seq<(Seq<char>, Seq<char>)>,
    more: Seq<(Seq<char>, Seq<char>)>,
    token: Seq<char>,
)
    requires
        first_wins(first).contains_key(token),
    ensures
        first_wins(first + more).contains_key(token),
        first_wins(first + more)[token] == first_wins(first)[token],
{
    lemma_bind_all_concat(Map::empty(), first, more);
    lemma_bind_all_keeps(first_wins(first), more, token);
}

/// A token that is bound once stays bound to the same name, whatever is
/// registered afterwards.
pub proof fn lemma_bind_all_keeps(
    table: Map<Seq<char>, Seq<char>>,
    pairs: Seq<(Seq<char>, Seq<char>)>,
    token: Seq<char>,
)
    requires
        table.contains_key(token),
    ensures
        bind_all(table, pairs).contains_key(token),
        bind_all(table, pairs)[token] == table[token],
    decreases pairs.len(),
{
    if pairs.len() > 0 {
        lemma_bind_all_keeps(table, pairs.drop_last(), token);
    }
}

/// The texts of a list of pairs of string slices.
pub open spec fn pair_texts(pairs: Seq<(&'static str, &'static str)>) -> Seq<
    (Seq<char>, Seq<char>),
> {
    pairs.map_values(|p: (&'static str, &'static str)| (p.0@, p.1@))
}

/// What an application with this base name registers: the base name as
/// standing for itself and, where it holds a space or a hyphen, the first
/// characters of its parts, taken together, as standing for it too, if they
/// are more than one.
pub open spec fn base_aliases(base: Seq<char>) -> Seq<(Seq<char>, Seq<char>)> {
    let short = run_heads(base, Boundary::SpaceOrHyphen);
    if (base.contains(' ') || base.contains('-')) && short.len() > 1 {
        seq![(base, base), (short, base)]
    } else {
        seq![(base, base)]
    }
}

/// What one entry of the applications directory registers. An entry whose
/// name ends in `.app` registers what its base name registers: the name
/// without that ending, in lowercase. Any other entry registers nothing.
pub open spec fn application_aliases(file_name: Seq<char>) -> Seq<(Seq<char>, Seq<char>)> {
    if ends_with(file_name, ".app"@) {
        base_aliases(lowercase(file_name.take(file_name.len() - ".app"@.len())))
    } else {
        Seq::empty()
    }
}

/// What the entries of the applications directory register, in order.
pub open spec fn installed_aliases(file_names: Seq<Seq<char>>) -> Seq<(Seq<char>, Seq<char>)>
    decreases file_names.len(),
{
    if file_names.len() == 0 {
        Seq::empty()
    } else {
        installed_aliases(file_names.drop_last()) + application_aliases(file_names.last())
    }
}

/// One token and the name it stands for.
#[derive(Debug)]
pub struct AliasEntry {
    pub token: String,
    pub canonical: String,
}

/// The registrations that a list of entries stands for.
pub open spec fn entry_pairs(entries: Seq<AliasEntry>) -> Seq<(Seq<char>, Seq<char>)> {
    entries.map_values(|e: AliasEntry| (e.token@, e.canonical@))
}

/// No token stands twice in the list.
pub open spec fn distinct_tokens(entries: Seq<AliasEntry>) -> bool {
    forall|i: int, j: int|
        0 <= i < j < entries.len() ==> (#[trigger] entries[i]).token@ != (
        #[trigger] entries[j]).token@
}

/// With every token standing once, the last entry brings a token that the
/// table of the entries before it does not hold.
pub proof fn lemma_last_token_is_new(entries: Seq<AliasEntry>)
    requires
        distinct_tokens(entries),
        entries.len() > 0,
    ensures
        distinct_tokens(entries.drop_last()),
        entry_pairs(entries).drop_last() == entry_pairs(entries.drop_last()),
        entry_pairs(entries).last() == (entries.last().token@, entries.last().canonical@),
        !first_wins(entry_pairs(entries.drop_last())).contains_key(entries.last().token@),
    decreases entries.len(), 0int,
{
    let init = entries.drop_last();
    let last = entries.last();
    assert forall|i: int, j: int| 0 <= i < j < init.len() implies (#[trigger] init[i]).token@ != (
    #[trigger] init[j]).token@ by {
        assert(init[i] == entries[i] && init[j] == entries[j]);
    }
    lemma_distinct_entries(init);
    assert(entry_pairs(entries).drop_last() =~= entry_pairs(init));
    let before = first_wins(entry_pairs(init));
    if before.contains_key(last.token@) {
        let i = choose|i: int| 0 <= i < init.len() && (#[trigger] init[i]).token@ == last.token@;
        assert(init[i] == entries[i]);
        assert(entries[entries.len() - 1] == last);
    }
}

/// With every token standing once, the table holds exactly the tokens of its
/// entries, each with its name.
pub proof fn lemma_distinct_entries(entries: Seq<AliasEntry>)
    requires
        distinct_tokens(entries),
    ensures
        forall|t: Seq<char>|
            first_wins(entry_pairs(entries)).contains_key(t) <==> exists|i: int|
                0 <= i < entries.len() && (#[trigger] entries[i]).token@ == t,
        forall|i: int|
            0 <= i < entries.len() ==> first_wins(entry_pairs(entries))[(
            #[trigger] entries[i]).token@] == entries[i].canonical@,
    decreases entries.len(), 1int,
{
    if entries.len() > 0 {
        let init = entries.drop_last();
        let last = entries.last();
        lemma_last_token_is_new(entries);
        lemma_distinct_entries(init);
        let before = first_wins(entry_pairs(init));
        let after = first_wins(entry_pairs(entries));
        assert(after == bind(before, last.token@, last.canonical@));
        assert forall|t: Seq<char>| after.contains_key(t) implies exists|i: int|
            0 <= i < entries.len() && (#[trigger] entries[i]).token@ == t by {
            if t != last.token@ {
                assert(before.contains_key(t));
                let i = choose|i: int| 0 <= i < init.len() && (#[trigger] init[i]).token@ == t;
                assert(entries[i] == init[i]);
            } else {
                assert(entries[entries.len() - 1].token@ == t);
            }
        }
        assert forall|t: Seq<char>|
            (exists|i: int| 0 <= i < entries.len() && (#[trigger] entries[i]).token@ == t)
            implies after.contains_key(t) by {
            let i = choose|i: int| 0 <= i < entries.len() && (#[trigger] entries[i]).token@ == t;
            if i < entries.len() - 1 {
                assert(init[i].token@ == t);
            }
        }
        assert forall|i: int| 0 <= i < entries.len() implies after[(
        #[trigger] entries[i]).token@] == entries[i].canonical@ by {
            if i < entries.len() - 1 {
                assert(init[i] == entries[i]);
                assert(entries[i].token@ != entries[entries.len() - 1].token@);
            }
        }
    }
}

/// The alias table. Lookups go by the exact token.
pub struct AliasTable {
    entries: Vec<AliasEntry>,
}

impl View for AliasTable {
    type V = Map<Seq<char>, Seq<char>>;

    closed spec fn view(&self) -> Map<Seq<char>, Seq<char>> {
        first_wins(entry_pairs(self.entries@))
    }
}

impl AliasTable {
    /// The representation holds each token once.
    #[verifier::type_invariant]
    spec fn each_token_once(&self) -> bool {
        distinct_tokens(self.entries@)
    }

    /// A table without entries.
    pub fn new() -> (table: Self)
        ensures
            table@ == Map::<Seq<char>, Seq<char>>::empty(),
    {
        let table = AliasTable { entries: Vec::new() };
        assert(entry_pairs(table.entries@) =~= Seq::empty());
        table
    }

    /// The number of tokens in the table.
    pub fn len(&self) -> (n: usize)
        ensures
            n == self@.dom().len(),
            self@.dom().finite(),
    {
        proof {
            use_type_invariant(self);
            lemma_entries_count(self.entries@);
        }
        self.entries.len()
    }

    /// Where the entry of `token` stands, if there is one.
    fn position(&self, token: &String) -> (at: Option<usize>)
        ensures
            match at {
                Some(i) => i < self.entries@.len() && self.entries@[i as int].token@ == token@
                    && self@.contains_key(token@) && self@[token@]
                    == self.entries@[i as int].canonical@,
                None => !self@.contains_key(token@),
            },
    {
        proof {
            use_type_invariant(self);
        }
        let mut i: usize = 0;
        while i < self.entries.len()
            invariant
                i <= self.entries.len(),
                distinct_tokens(self.entries@),
                forall|j: int| 0 <= j < i ==> (#[trigger] self.entries@[j]).token@ != token@,
            decreases self.entries.len() - i,
        {
            if self.entries[i].token == *token {
                proof {
                    lemma_distinct_entries(self.entries@);
                }
                return Some(i);
            }
            i += 1;
        }
        proof {
            lemma_distinct_entries(self.entries@);
        }
        None
    }

    /// The name that `token` stands for, if the table knows the token.
    pub fn resolve(&self, token: &str) -> (name: Option<&String>)
        ensures
            match name {
                Some(canonical) => self@.contains_key(token@) && canonical@ == self@[token@],
                None => !self@.contains_key(token@),
            },
    {
        let key = token.to_owned();
        match self.position(&key) {
            Some(i) => Some(&self.entries[i].canonical),
            None => None,
        }
    }

    /// Registers `token` as standing for `canonical`, unless the token is
    /// bound already.
    pub fn register(&mut self, token: &str, canonical: &str)
        ensures
            final(self)@ == bind(old(self)@, token@, canonical@),
    {
        let key = token.to_owned();
        if self.position(&key).is_none() {
            proof {
                use_type_invariant(&*self);
                lemma_distinct_entries(self.entries@);
            }
            let ghost before = self.entries@;
            let mut entries: Vec<AliasEntry> = Vec::new();
            std::mem::swap(&mut entries, &mut self.entries);
            entries.push(AliasEntry { token: key, canonical: canonical.to_owned() });
            proof {
                assert(entries@.drop_last() =~= before);
                assert(entry_pairs(entries@).drop_last() =~= entry_pairs(before));
                assert(entry_pairs(entries@).last() == (token@, canonical@));
                assert forall|i: int, j: int| 0 <= i < j < entries@.len() implies (
                #[trigger] entries@[i]).token@ != (#[trigger] entries@[j]).token@ by {
                    assert(entries@[i] == before[i]);
                    if j < before.len() {
                        assert(entries@[j] == before[j]);
                    }
                }
            }
            self.entries = entries;
        }
    }

    /// Registers each pair in order.
    pub fn register_all(&mut self, pairs: &[(&'static str, &'static str)])
        ensures
            final(self)@ == bind_all(old(self)@, pair_texts(pairs@)),
    {
        let ghost all = pair_texts(pairs@);
        let mut i: usize = 0;
        assert(all.take(0) =~= Seq::empty());
        while i < pairs.len()
            invariant
                i <= pairs.len(),
                all == pair_texts(pairs@),
                self@ == bind_all(old(self)@, all.take(i as int)),
            decreases pairs.len() - i,
        {
            let pair = pairs[i];
            proof {
                assert(all.take(i + 1).drop_last() =~= all.take(i as int));
                assert(all.take(i + 1).last() == (pair.0@, pair.1@));
            }
            self.register(pair.0, pair.1);
            i += 1;
        }
        assert(all.take(i as int) =~= all);
    }

    /// The table of the built-in aliases.
    pub fn builtin() -> (table: Self)
        ensures
            table@ == first_wins(pair_texts(builtin_aliases())),
    {
        let mut table = AliasTable::new();
        let ghost empty = Map::<Seq<char>, Seq<char>>::empty();
        let ghost a = pair_texts(design_aliases());
        let ghost b = pair_texts(office_aliases());
        let ghost c = pair_texts(media_aliases());
        let ghost d = pair_texts(productivity_aliases());
        let ghost e = pair_texts(developer_aliases());
        let ghost f = pair_texts(system_aliases());
        table.register_all(design_list().as_slice());
        table.register_all(office_list().as_slice());
        table.register_all(media_list().as_slice());
        table.register_all(productivity_list().as_slice());
        table.register_all(developer_list().as_slice());
        table.register_all(system_list().as_slice());
        proof {
            lemma_bind_all_concat(empty, a, b);
            lemma_bind_all_concat(empty, a + b, c);
            lemma_bind_all_concat(empty, a + b + c, d);
            lemma_bind_all_concat(empty, a + b + c + d, e);
            lemma_bind_all_concat(empty, a + b + c + d + e, f);
            assert(pair_texts(builtin_aliases()) =~= a + b + c + d + e + f);
        }
        table
    }

    /// Registers what an application with this base name stands for.
    pub fn register_base(&mut self, base: &str)
        ensures
            final(self)@ == bind_all(old(self)@, base_aliases(base@)),
    {
        let chars = chars_of(base);
        let ghost pair = (base@, base@);
        let ghost start = self@;
        self.register(base, base);
        proof {
            assert(seq![pair].drop_last() =~= Seq::empty());
            assert(bind_all(start, seq![pair].drop_last()) == start);
            assert(seq![pair].last() == pair);
            assert(self@ == bind_all(start, seq![pair]));
        }
        if has_char(&chars, ' ') || has_char(&chars, '-') {
            let short = heads_of_runs(&chars, Boundary::SpaceOrHyphen);
            if short.len() > 1 {
                let short_text = string_of(&short);
                self.register(short_text.as_str(), base);
                proof {
                    let both = seq![pair, (short@, base@)];
                    assert(both.drop_last() =~= seq![pair]);
                    assert(both.last() == (short@, base@));
                }
            }
        }
    }

    /// Registers what one entry of the applications directory stands for.
    pub fn register_application(&mut self, file_name: &str)
        ensures
            final(self)@ == bind_all(old(self)@, application_aliases(file_name@)),
    {
        let name = chars_of(file_name);
        let ending = chars_of(".app");
        if !has_suffix(&name, &ending) {
            return ;
        }
        let stem = string_of(&part(&name, 0, name.len() - ending.len()));
        let base = to_lowercase(stem.as_str());
        self.register_base(base.as_str());
    }

    /// The table of the built-in aliases, extended by what the entries of
    /// the applications directory stand for.
    pub fn rebuild(file_names: &Vec<String>) -> (table: Self)
        ensures
            table@ == first_wins(
                pair_texts(builtin_aliases()) + installed_aliases(texts(file_names@)),
            ),
    {
        let mut table = AliasTable::builtin();
        let ghost fixed = pair_texts(builtin_aliases());
        let ghost names = texts(file_names@);
        let mut i: usize = 0;
        assert(names.take(0) =~= Seq::empty());
        assert(fixed + installed_aliases(names.take(0)) =~= fixed);
        while i < file_names.len()
            invariant
                i <= file_names.len(),
                names == texts(file_names@),
                table@ == first_wins(fixed + installed_aliases(names.take(i as int))),
            decreases file_names.len() - i,
        {
            proof {
                let done = installed_aliases(names.take(i as int));
                let next = application_aliases(names[i as int]);
                assert(names.take(i + 1).drop_last() =~= names.take(i as int));
                assert(names.take(i + 1).last() == file_names@[i as int]@);
                lemma_bind_all_concat(Map::empty(), fixed + done, next);
                assert(fixed + done + next =~= fixed + (done + next));
            }
            table.register_application(file_names[i].as_str());
            i += 1;
        }
        assert(names.take(i as int) =~= names);
        table
    }
}

/// Distinct tokens make as many keys as there are entries.
proof fn lemma_entries_count(entries: Seq<AliasEntry>)
    requires
        distinct_tokens(entries),
    ensures
        first_wins(entry_pairs(entries)).dom().finite(),
        first_wins(entry_pairs(entries)).dom().len() == entries.len(),
    decreases entries.len(),
{
    if entries.len() > 0 {
        let init = entries.drop_last();
        let last = entries.last();
        lemma_last_token_is_new(entries);
        lemma_entries_count(init);
        let before = first_wins(entry_pairs(init));
        assert(first_wins(entry_pairs(entries)).dom() =~= before.dom().insert(last.token@));
    } else {
        assert(first_wins(entry_pairs(entries)).dom() =~= Set::empty());
    }
}

} // verus!
