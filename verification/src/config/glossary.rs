//! Personal glossary: spoken phrases and the exact text that is typed in their place.
//!
//! A glossary entry is a deterministic rewrite: when the transcript, normalized, equals one of
//! the entry's phrases, normalized, the entry's text is typed instead, letter for letter.
//! The entries live in a file of their own, `glossary.toml`, next to `config.toml`.

use crate::text::{join, lowercase, split_words};
use vstd::prelude::*;

verus! {

/// One glossary entry: the phrases that it answers to, and the text that is typed for them.
#[derive(Debug, Clone)]
pub struct GlossaryEntry {
    /// The spoken phrase to recognize. It is normalized (trimmed, lowercased, white space
    /// collapsed) before comparison.
    pub say: String,
    /// Other phrases for the same text.
    pub aliases: Vec<String>,
    /// The exact text to type at the cursor when the transcript matches; `type`, or `text`, in
    /// the file.
    pub text: String,
}

/// What an entry is about: all its phrases, `say` first, and its text.
#[verifier::ext_equal]
pub struct EntryView {
    pub says: Seq<Seq<char>>,
    pub text: Seq<char>,
}

impl View for GlossaryEntry {
    type V = EntryView;

    open spec fn view(&self) -> EntryView {
        EntryView { says: seq![self.say@] + self.aliases.deep_view(), text: self.text@ }
    }
}

/// The parsed glossary file: a `[[glossary]]` array of tables.
#[derive(Debug, Clone)]
pub struct Glossary {
    pub entries: Vec<GlossaryEntry>,
}

impl View for Glossary {
    type V = Seq<EntryView>;

    open spec fn view(&self) -> Seq<EntryView> {
        self.entries@.map_values(|e: GlossaryEntry| e@)
    }
}

/// A phrase as it is compared: white space collapsed and trimmed, and in lower case.
pub open spec fn normalized(s: Seq<char>) -> Seq<char> {
    crate::text::lowercased(crate::text::collapsed(s))
}

/// The phrases of an entry as they are compared.
pub open spec fn phrase_keys(entry: EntryView) -> Seq<Seq<char>> {
    entry.says.map_values(|phrase: Seq<char>| normalized(phrase))
}

/// The phrases of every entry as they are compared.
pub open spec fn all_keys(entries: Seq<EntryView>) -> Seq<Seq<Seq<char>>> {
    entries.map_values(|e: EntryView| phrase_keys(e))
}

/// The first place in `keys` whose list holds `key`.
pub open spec fn first_match(keys: Seq<Seq<Seq<char>>>, key: Seq<char>) -> Option<int>
    decreases keys.len(),
{
    if keys.len() == 0 {
        None
    } else {
        match first_match(keys.drop_last(), key) {
            Some(i) => Some(i),
            None => if keys.last().contains(key) {
                Some(keys.len() - 1)
            } else {
                None
            },
        }
    }
}

/// The text that is typed for a transcript: that of the first entry with a phrase equal to it
/// once both are normalized, and none where there is no such entry.
pub open spec fn replacement(entries: Seq<EntryView>, transcript: Seq<char>) -> Option<Seq<char>> {
    match first_match(all_keys(entries), normalized(transcript)) {
        Some(i) => Some(entries[i].text),
        None => None,
    }
}

/// Collapse white space, trim, and lowercase: how transcripts and phrases are made comparable.
pub fn normalize_glossary_phrase(s: &str) -> (res: String)
    ensures
        res@ == normalized(s@),
        crate::text::ascii(crate::text::joined(crate::text::words(s@), seq![' '])) ==> res@
            == crate::text::ascii_lowercase(
            crate::text::joined(crate::text::words(s@), seq![' ']),
        ),
        !crate::text::ascii(crate::text::joined(crate::text::words(s@), seq![' '])) ==> res@
            == crate::text::unicode_lowercase(
            crate::text::joined(crate::text::words(s@), seq![' ']),
        ),
{
    proof {
        reveal_strlit(" ");
        assert(" "@ == seq![' ']);
    }
    let collapsed: String = join(&split_words(s), " ");
    lowercase(collapsed.as_str())
}

/// The first place in `keys` whose list holds `key`.
pub fn find_key(keys: &Vec<Vec<String>>, key: &str) -> (res: Option<usize>)
    ensures
        match res {
            Some(i) => first_match(keys.deep_view(), key@) == Some(i as int),
            None => first_match(keys.deep_view(), key@) is None,
        },
        match res {
            Some(i) => {
                &&& i < keys.len()
                &&& exists|k: int| 0 <= k < keys[i as int].len() && keys[i as int][k]@ == key@
                &&& forall|j: int, k: int|
                    0 <= j < i && 0 <= k < keys[j].len() ==> (#[trigger] keys[j][k])@ != key@
            },
            None => forall|j: int, k: int|
                0 <= j < keys.len() && 0 <= k < keys[j].len() ==> (#[trigger] keys[j][k])@ != key@,
        },
{
    let wanted: String = key.to_owned();
    let ghost all = keys.deep_view();
    for i in 0..keys.len()
        invariant
            all == keys.deep_view(),
            wanted@ == key@,
            first_match(all.take(i as int), key@) is None,
            forall|j: int, k: int|
                0 <= j < i && 0 <= k < keys[j].len() ==> (#[trigger] keys[j][k])@ != key@,
    {
        let list: &Vec<String> = &keys[i];
        assert(all[i as int] == list.deep_view());
        assert(all.take(i + 1).drop_last() == all.take(i as int));
        for j in 0..list.len()
            invariant
                all == keys.deep_view(),
                i < all.len(),
                all[i as int] == list.deep_view(),
                *list == keys[i as int],
                wanted@ == key@,
                first_match(all.take(i as int), key@) is None,
                forall|l: int, k: int|
                    0 <= l < i && 0 <= k < keys[l].len() ==> (#[trigger] keys[l][k])@ != key@,
                forall|k: int| 0 <= k < j ==> (#[trigger] keys[i as int][k])@ != key@,
                all.take(i + 1).drop_last() == all.take(i as int),
                forall|k: int| 0 <= k < j ==> #[trigger] all[i as int][k] != key@,
        {
            if list[j] == wanted {
                proof {
                    assert(all[i as int][j as int] == key@);
                    lemma_first_match_of_longer(all, key@, i + 1);
                }
                return Some(i);
            }
        }
    }
    assert(all.take(all.len() as int) == all);
    None
}

/// A match among the first lists is the first match among all.
proof fn lemma_first_match_of_longer(keys: Seq<Seq<Seq<char>>>, key: Seq<char>, len: int)
    requires
        0 <= len <= keys.len(),
        first_match(keys.take(len), key) is Some,
    ensures
        first_match(keys, key) == first_match(keys.take(len), key),
    decreases keys.len(),
{
    if len < keys.len() {
        assert(keys.drop_last().take(len) == keys.take(len));
        lemma_first_match_of_longer(keys.drop_last(), key, len);
    } else {
        assert(keys.take(len) == keys);
    }
}

/// `first_match` is the first place of a match, and none only where there is no match.
pub proof fn law_first_match_is_first(keys: Seq<Seq<Seq<char>>>, key: Seq<char>)
    ensures
        match first_match(keys, key) {
            Some(i) => {
                &&& 0 <= i < keys.len()
                &&& keys[i].contains(key)
                &&& forall|j: int| 0 <= j < i ==> !(#[trigger] keys[j]).contains(key)
            },
            None => forall|j: int| 0 <= j < keys.len() ==> !(#[trigger] keys[j]).contains(key),
        },
    decreases keys.len(),
{
    if keys.len() > 0 {
        let rest = keys.drop_last();
        law_first_match_is_first(rest, key);
        assert(forall|j: int| 0 <= j < rest.len() ==> rest[j] == #[trigger] keys[j]);
    }
}

impl Default for Glossary {
    /// A glossary without entries.
    fn default() -> (res: Self)
        ensures
            res@ == Seq::<EntryView>::empty(),
            res.entries.len() == 0,
    {
        Glossary { entries: Vec::new() }
    }
}

impl GlossaryEntry {
    /// The entry for `says`, of which there is at least one, and `text`.
    pub fn new(says: Vec<String>, text: String) -> (res: Self)
        requires
            says.len() > 0,
        ensures
            res@ == (EntryView { says: says.deep_view(), text: text@ }),
            res.say == says[0],
            res.aliases@ == says@.skip(1),
            res.text == text,
    {
        let mut aliases: Vec<String> = says;
        let say: String = aliases.remove(0);
        assert(seq![say@] + aliases.deep_view() == says.deep_view());
        GlossaryEntry { say, aliases, text }
    }

    /// All the phrases of the entry, `say` first.
    pub fn says(&self) -> (res: Vec<String>)
        ensures
            res.deep_view() == self@.says,
            res.len() == 1 + self.aliases.len(),
            res[0]@ == self.say@,
            forall|k: int|
                0 <= k < self.aliases.len() ==> res[k + 1]@ == (#[trigger] self.aliases[k])@,
    {
        let mut res: Vec<String> = Vec::new();
        res.push(self.say.clone());
        for i in 0..self.aliases.len()
            invariant
                res.deep_view() == seq![self.say@] + self.aliases.deep_view().take(i as int),
                res.len() == 1 + i,
                res[0]@ == self.say@,
                forall|k: int| 0 <= k < i ==> res[k + 1]@ == (#[trigger] self.aliases[k])@,
        {
            let ghost found = res.deep_view();
            res.push(self.aliases[i].clone());
            assert(res.deep_view() == found.push(self.aliases[i as int]@));
            assert(self.aliases.deep_view().take(i + 1) == self.aliases.deep_view().take(
                i as int,
            ).push(self.aliases[i as int]@));
        }
        assert(self.aliases.deep_view().take(self.aliases.len() as int) == self.aliases.deep_view());
        res
    }

    /// The phrases of the entry as they are compared.
    fn keys(&self) -> (res: Vec<String>)
        ensures
            res.deep_view() == phrase_keys(self@),
            res.len() == 1 + self.aliases.len(),
            res[0]@ == normalized(self.say@),
            forall|k: int|
                0 <= k < self.aliases.len() ==> res[k + 1]@ == normalized(
                    (#[trigger] self.aliases[k])@,
                ),
    {
        let says: Vec<String> = self.says();
        let mut res: Vec<String> = Vec::new();
        let ghost wanted = phrase_keys(self@);
        for i in 0..says.len()
            invariant
                says.deep_view() == self@.says,
                wanted == phrase_keys(self@),
                res.deep_view() == wanted.take(i as int),
                res.len() == i,
                forall|k: int| 0 <= k < i ==> (#[trigger] res[k])@ == normalized(says[k]@),
        {
            let ghost found = res.deep_view();
            res.push(normalize_glossary_phrase(says[i].as_str()));
            assert(says.deep_view()[i as int] == says[i as int]@);
            assert(res.deep_view() == found.push(wanted[i as int]));
            assert(wanted.take(i + 1) == wanted.take(i as int).push(wanted[i as int]));
        }
        assert(wanted.take(wanted.len() as int) == wanted);
        res
    }
}

impl Glossary {
    /// Look up a transcript (normalized) and return the replacement text, or `None` when
    /// nothing matches.
    pub fn lookup(&self, transcript: &str) -> (res: Option<String>)
        ensures
            match res {
                Some(text) => replacement(self@, transcript@) == Some(text@),
                None => replacement(self@, transcript@) is None,
            },
            match res {
                Some(text) => exists|i: int|
                    {
                        &&& 0 <= i < self.entries.len()
                        &&& text@ == (#[trigger] self.entries[i]).text@
                        &&& normalized(self.entries[i].say@) == normalized(transcript@) || exists|
                            k: int,
                        |
                            0 <= k < self.entries[i].aliases.len() && normalized(
                                (#[trigger] self.entries[i].aliases[k])@,
                            ) == normalized(transcript@)
                        &&& forall|j: int|
                            0 <= j < i ==> normalized((#[trigger] self.entries[j]).say@)
                                != normalized(transcript@)
                        &&& forall|j: int, k: int|
                            0 <= j < i && 0 <= k < self.entries[j].aliases.len() ==> normalized(
                                (#[trigger] self.entries[j].aliases[k])@,
                            ) != normalized(transcript@)
                    },
                None => {
                    &&& forall|j: int|
                        0 <= j < self.entries.len() ==> normalized((#[trigger] self.entries[j]).say@)
                            != normalized(transcript@)
                    &&& forall|j: int, k: int|
                        0 <= j < self.entries.len() && 0 <= k < self.entries[j].aliases.len()
                            ==> normalized((#[trigger] self.entries[j].aliases[k])@) != normalized(
                            transcript@,
                        )
                },
            },
    {
        if self.entries.is_empty() {
            return None;
        }
        let key: String = normalize_glossary_phrase(transcript);
        let mut keys: Vec<Vec<String>> = Vec::new();
        let ghost wanted = all_keys(self@);
        for i in 0..self.entries.len()
            invariant
                wanted == all_keys(self@),
                keys.deep_view() == wanted.take(i as int),
                keys.len() == i,
                forall|j: int|
                    0 <= j < i ==> {
                        &&& (#[trigger] keys[j]).len() == 1 + self.entries[j].aliases.len()
                        &&& keys[j][0]@ == normalized(self.entries[j].say@)
                    },
                forall|j: int, k: int|
                    0 <= j < i && 0 <= k < self.entries[j].aliases.len() ==> keys[j][k + 1]@
                        == normalized((#[trigger] self.entries[j].aliases[k])@),
        {
            let ghost found = keys.deep_view();
            keys.push(self.entries[i].keys());
            assert(wanted[i as int] == phrase_keys(self.entries[i as int]@));
            assert(keys.deep_view() == found.push(wanted[i as int]));
            assert(wanted.take(i + 1) == wanted.take(i as int).push(wanted[i as int]));
        }
        assert(wanted.take(wanted.len() as int) == wanted);
        proof {
            law_first_match_is_first(wanted, key@);
        }
        let found: Option<usize> = find_key(&keys, key.as_str());
        proof {
            let before = match found {
                Some(i) => i as int,
                None => self.entries.len() as int,
            };
            assert forall|j: int| 0 <= j < before implies normalized(
                (#[trigger] self.entries[j]).say@,
            ) != key@ by {
                assert(keys[j].len() == 1 + self.entries[j].aliases.len());
                assert(keys[j][0]@ != key@);
            }
            assert forall|j: int, k: int|
                0 <= j < before && 0 <= k < self.entries[j].aliases.len() implies normalized(
                (#[trigger] self.entries[j].aliases[k])@,
            ) != key@ by {
                assert(keys[j].len() == 1 + self.entries[j].aliases.len());
                assert(keys[j][k + 1]@ != key@);
            }
            if let Some(i) = found {
                let k = choose|k: int|
                    0 <= k < keys[i as int].len() && keys[i as int][k]@ == key@;
                if k > 0 {
                    assert(keys[i as int].len() == 1 + self.entries[i as int].aliases.len());
                    assert(normalized(self.entries[i as int].aliases[k - 1]@) == key@);
                }
            }
        }
        match found {
            Some(i) => Some(self.entries[i].text.clone()),
            None => None,
        }
    }
}

/// The part of a path up to its last `/`, and that `/`: where its file lies.
pub open spec fn directory(path: Seq<char>) -> Seq<char>
    decreases path.len(),
{
    if path.len() == 0 || path.last() == '/' {
        path
    } else {
        directory(path.drop_last())
    }
}

/// The part of a path behind its last `/`.
pub open spec fn file_name(path: Seq<char>) -> Seq<char> {
    path.skip(directory(path).len() as int)
}

proof fn lemma_directory_is_prefix(path: Seq<char>, len: int)
    requires
        0 <= len <= path.len(),
        len == 0 || path[len - 1] == '/',
        forall|i: int| len <= i < path.len() ==> #[trigger] path[i] != '/',
    ensures
        directory(path) == path.take(len),
    decreases path.len(),
{
    if len == path.len() {
        assert(path.take(len) == path);
    } else {
        assert(path[path.len() - 1] != '/');
        lemma_directory_is_prefix(path.drop_last(), len);
        assert(path.drop_last().take(len) == path.take(len));
    }
}

/// The path of the glossary file, which lives next to the `config.toml` at `config_path`:
/// the same directory, and the file name `glossary.toml`.
pub fn glossary_path(config_path: &str) -> (res: String)
    ensures
        res@ == directory(config_path@) + "glossary.toml"@,
        directory(res@) == directory(config_path@),
        file_name(res@) == "glossary.toml"@,
        (forall|i: int| 0 <= i < config_path@.len() ==> #[trigger] config_path@[i] != '/') ==> res@
            == "glossary.toml"@,
        forall|last: int|
            {
                &&& 0 <= last < config_path@.len()
                &&& #[trigger] config_path@[last] == '/'
                &&& forall|i: int| last < i < config_path@.len() ==> #[trigger] config_path@[i] != '/'
            } ==> res@ == config_path@.take(last + 1) + "glossary.toml"@,
{
    let len: usize = config_path.unicode_len();
    let mut kept: usize = 0;
    let mut at: usize = 0;
    for c in it: config_path.chars()
        invariant
            it.seq() == config_path@,
            len == config_path@.len(),
            at == it.index() <= len,
            kept <= at,
            kept == 0 || config_path@[kept - 1] == '/',
            forall|i: int| kept <= i < at ==> #[trigger] config_path@[i] != '/',
    {
        at = at + 1;
        if c == '/' {
            kept = at;
        }
    }
    let mut res: String = config_path.substring_char(0, kept).to_owned();
    res.append("glossary.toml");
    proof {
        reveal_strlit("glossary.toml");
        lemma_directory_is_prefix(config_path@, kept as int);
        assert(res@ == config_path@.take(kept as int) + "glossary.toml"@);
        lemma_directory_is_prefix(res@, kept as int);
        assert(res@.take(kept as int) == config_path@.take(kept as int));
        assert(res@.skip(kept as int) == "glossary.toml"@);
        assert(kept > 0 ==> config_path@[kept - 1] == '/');
        assert forall|last: int|
            {
                &&& 0 <= last < config_path@.len()
                &&& #[trigger] config_path@[last] == '/'
                &&& forall|i: int| last < i < config_path@.len() ==> #[trigger] config_path@[i] != '/'
            } implies res@ == config_path@.take(last + 1) + "glossary.toml"@ by {
            assert(last == kept - 1);
        }
        if forall|i: int| 0 <= i < config_path@.len() ==> #[trigger] config_path@[i] != '/' {
            assert(kept == 0);
        }
    }
    res
}

/// What came of reading and parsing the glossary file.
#[derive(Debug, Clone)]
pub enum GlossaryRead {
    /// The file was read and holds this glossary.
    Parsed(Glossary),
    /// The file was read and is not a glossary, for this reason.
    Malformed(String),
    /// There is no such file.
    Missing,
    /// The file could not be read, for this reason.
    Failed(String),
}

/// Why no glossary could be loaded.
#[derive(Debug, Clone)]
pub enum LoadError {
    /// The file holds something else than a glossary.
    InvalidData(String),
    /// The file could not be read.
    Unreadable(String),
}

/// Load the glossary file, of which `read` says what it held. A missing file is the opt-out, a
/// glossary without entries. A malformed file is an error: the caller decides whether to warn
/// or fail.
pub fn load_glossary_file(path: &str, read: GlossaryRead) -> (res: Result<Glossary, LoadError>)
    ensures
        match read {
            GlossaryRead::Parsed(glossary) => res == Ok::<Glossary, LoadError>(glossary),
            GlossaryRead::Malformed(reason) => {
                &&& res matches Err(LoadError::InvalidData(message))
                &&& message@ == "failed to parse glossary at "@ + path@ + ": "@ + reason@
            },
            GlossaryRead::Missing => res is Ok && res->Ok_0@ == Seq::<EntryView>::empty()
                && res->Ok_0.entries.len() == 0,
            GlossaryRead::Failed(reason) => {
                &&& res matches Err(LoadError::Unreadable(message))
                &&& message@ == reason@
            },
        },
{
    match read {
        GlossaryRead::Parsed(glossary) => Ok(glossary),
        GlossaryRead::Malformed(reason) => {
            let mut message: String = "failed to parse glossary at ".to_owned();
            message.append(path);
            message.append(": ");
            message.append(reason.as_str());
            Err(LoadError::InvalidData(message))
        },
        GlossaryRead::Missing => Ok(Glossary::default()),
        GlossaryRead::Failed(reason) => Err(LoadError::Unreadable(reason)),
    }
}

/// Put an entry for `says`, of which there is at least one, and `text` behind the others.
/// Returns its index.
pub fn add_entry(glossary: &mut Glossary, says: Vec<String>, text: String) -> (res: usize)
    requires
        says.len() > 0,
    ensures
        res == old(glossary)@.len(),
        final(glossary)@ == old(glossary)@.push(
            EntryView { says: says.deep_view(), text: text@ },
        ),
        res == old(glossary).entries.len(),
        final(glossary).entries.len() == res + 1,
        forall|j: int| 0 <= j < res ==> final(glossary).entries[j] == old(glossary).entries[j],
        final(glossary).entries[res as int].say == says[0],
        final(glossary).entries[res as int].aliases@ == says@.skip(1),
        final(glossary).entries[res as int].text == text,
{
    let index: usize = glossary.entries.len();
    let entry: GlossaryEntry = GlossaryEntry::new(says, text);
    glossary.entries.push(entry);
    assert(glossary@ == old(glossary)@.push(entry@));
    index
}

/// Put an entry for `says`, of which there is at least one, and `text` in the place of the entry
/// at `index`.
pub fn replace_entry(glossary: &mut Glossary, index: usize, says: Vec<String>, text: String)
    requires
        index < old(glossary)@.len(),
        says.len() > 0,
    ensures
        final(glossary)@ == old(glossary)@.update(
            index as int,
            EntryView { says: says.deep_view(), text: text@ },
        ),
        final(glossary).entries.len() == old(glossary).entries.len(),
        forall|j: int|
            0 <= j < old(glossary).entries.len() && j != index ==> final(glossary).entries[j]
                == old(glossary).entries[j],
        final(glossary).entries[index as int].say == says[0],
        final(glossary).entries[index as int].aliases@ == says@.skip(1),
        final(glossary).entries[index as int].text == text,
{
    let entry: GlossaryEntry = GlossaryEntry::new(says, text);
    glossary.entries.set(index, entry);
    assert(glossary@ == old(glossary)@.update(index as int, entry@));
}

/// Take the entry at `index` out, and hand it back. Where there is none, nothing changes.
pub fn remove_entry(glossary: &mut Glossary, index: usize) -> (res: Option<GlossaryEntry>)
    ensures
        index < old(glossary)@.len() ==> {
            &&& res matches Some(entry)
            &&& entry@ == old(glossary)@[index as int]
            &&& final(glossary)@ == old(glossary)@.remove(index as int)
        },
        index >= old(glossary)@.len() ==> res is None && final(glossary)@ == old(glossary)@,
        index < old(glossary).entries.len() ==> {
            &&& res == Some(old(glossary).entries[index as int])
            &&& final(glossary).entries@ == old(glossary).entries@.remove(index as int)
        },
        index >= old(glossary).entries.len() ==> res is None && *final(glossary) == *old(glossary),
{
    if index < glossary.entries.len() {
        let entry: GlossaryEntry = glossary.entries.remove(index);
        assert(glossary@ == old(glossary)@.remove(index as int));
        Some(entry)
    } else {
        None
    }
}

/// A glossary without entries replaces nothing.
pub proof fn law_empty_glossary_replaces_nothing(transcript: Seq<char>)
    ensures
        replacement(Seq::empty(), transcript) is None,
{
}

/// White space around a transcript does not matter.
pub proof fn law_lookup_ignores_padding(
    entries: Seq<EntryView>,
    left: Seq<char>,
    transcript: Seq<char>,
    right: Seq<char>,
)
    requires
        crate::text::blank(left),
        crate::text::blank(right),
    ensures
        replacement(entries, left + transcript + right) == replacement(entries, transcript),
{
    crate::text::law_words_ignore_padding(left, transcript, right);
}

/// Between two words of a transcript, one stretch of white space is as good as another.
pub proof fn law_lookup_ignores_width_of_gaps(
    entries: Seq<EntryView>,
    before: Seq<char>,
    gap: Seq<char>,
    other_gap: Seq<char>,
    after: Seq<char>,
)
    requires
        crate::text::blank(gap),
        gap.len() > 0,
        crate::text::blank(other_gap),
        other_gap.len() > 0,
    ensures
        replacement(entries, before + gap + after) == replacement(
            entries,
            before + other_gap + after,
        ),
{
    crate::text::law_words_ignore_width_of_gaps(before, gap, after);
    crate::text::law_words_ignore_width_of_gaps(before, other_gap, after);
}

/// Two texts whose words are of ASCII characters count as the same phrase where, and only where,
/// they have the same words in the same order, capital and small letters being alike.
pub proof fn law_ascii_phrases_match_by_their_words(phrase: Seq<char>, transcript: Seq<char>)
    requires
        crate::text::ascii(crate::text::collapsed(phrase)),
        crate::text::ascii(crate::text::collapsed(transcript)),
    ensures
        normalized(phrase) == normalized(transcript) <==> crate::text::words(
            crate::text::ascii_lowercase(phrase),
        ) == crate::text::words(crate::text::ascii_lowercase(transcript)),
{
    crate::text::law_collapsing_keeps_case(phrase);
    crate::text::law_collapsing_keeps_case(transcript);
    crate::text::law_collapsing_keeps_words(crate::text::ascii_lowercase(phrase));
    crate::text::law_collapsing_keeps_words(crate::text::ascii_lowercase(transcript));
}

/// Two transcripts that differ in capital and small ASCII letters alone, and whose words are of
/// ASCII characters, get the same replacement.
pub proof fn law_lookup_ignores_ascii_case(
    entries: Seq<EntryView>,
    transcript: Seq<char>,
    other: Seq<char>,
)
    requires
        crate::text::ascii(crate::text::collapsed(transcript)),
        crate::text::ascii_lowercase(transcript) == crate::text::ascii_lowercase(other),
    ensures
        normalized(transcript) == normalized(other),
        replacement(entries, transcript) == replacement(entries, other),
{
    lemma_ascii_words_by_lowercase(transcript, other);
    law_ascii_phrases_match_by_their_words(transcript, other);
}

/// Where the words of one of two texts with the same lower case are of ASCII characters, those of
/// the other are.
proof fn lemma_ascii_words_by_lowercase(s: Seq<char>, other: Seq<char>)
    requires
        crate::text::ascii(crate::text::collapsed(s)),
        crate::text::ascii_lowercase(s) == crate::text::ascii_lowercase(other),
    ensures
        crate::text::ascii(crate::text::collapsed(other)),
{
    crate::text::law_collapsing_keeps_case(s);
    crate::text::law_collapsing_keeps_case(other);
    crate::text::law_ascii_case_is_lost_in_lowercase(crate::text::collapsed(s));
    crate::text::law_ascii_case_is_lost_in_lowercase(crate::text::collapsed(other));
}

/// A text whose words are of ASCII characters is normalized to the same phrase when its ASCII
/// letters are all made capital, or all made small, before.
pub proof fn law_normalizing_ignores_ascii_case(s: Seq<char>)
    requires
        crate::text::ascii(crate::text::collapsed(s)),
    ensures
        normalized(crate::text::ascii_uppercase(s)) == normalized(s),
        normalized(crate::text::ascii_lowercase(s)) == normalized(s),
{
    crate::text::law_ascii_case_is_lost_in_lowercase(s);
    law_lookup_ignores_ascii_case(Seq::empty(), s, crate::text::ascii_uppercase(s));
    law_lookup_ignores_ascii_case(Seq::empty(), s, crate::text::ascii_lowercase(s));
}

/// Normalizing a transcript whose words are of ASCII characters twice is normalizing it once, so
/// one that is normalized already gets the replacement of the one that it came from.
pub proof fn law_normalizing_ascii_twice_is_once(entries: Seq<EntryView>, transcript: Seq<char>)
    requires
        crate::text::ascii(crate::text::collapsed(transcript)),
    ensures
        normalized(normalized(transcript)) == normalized(transcript),
        replacement(entries, normalized(transcript)) == replacement(entries, transcript),
{
    let once = crate::text::collapsed(transcript);
    crate::text::law_collapsing_keeps_words(transcript);
    crate::text::law_collapsing_keeps_case(once);
    crate::text::law_ascii_case_is_lost_in_lowercase(once);
}

/// What a text whose words are of ASCII characters is normalized to: its words in small letters
/// with single blanks between them, and nothing where it is blank. A blank text is normalized to
/// nothing whatever its characters are.
pub proof fn law_normalized_ascii_has_the_words_in_small_letters(s: Seq<char>)
    ensures
        crate::text::blank(s) ==> normalized(s).len() == 0,
        crate::text::ascii(crate::text::collapsed(s)) ==> {
            &&& crate::text::words(normalized(s)) == crate::text::words(
                crate::text::ascii_lowercase(s),
            )
            &&& crate::text::collapsed(normalized(s)) == normalized(s)
            &&& normalized(s).len() == 0 ==> crate::text::blank(s)
        },
{
    crate::text::law_collapsing_empties_blank_texts(s);
    crate::text::law_collapsing_keeps_case(s);
    crate::text::law_collapsing_keeps_words(crate::text::ascii_lowercase(s));
}

/// Two texts with white space between them are normalized to the lower case of what each of them
/// collapses to, with one blank between; where the words of both are of ASCII characters, that is
/// what each of them is normalized to, with one blank between.
pub proof fn law_normalizing_makes_a_gap_one_blank(a: Seq<char>, gap: Seq<char>, b: Seq<char>)
    requires
        !crate::text::blank(a),
        !crate::text::blank(b),
        crate::text::blank(gap),
        gap.len() > 0,
    ensures
        normalized(a + gap + b) == crate::text::lowercased(
            crate::text::collapsed(a) + seq![' '] + crate::text::collapsed(b),
        ),
        crate::text::ascii(crate::text::collapsed(a)) && crate::text::ascii(
            crate::text::collapsed(b),
        ) ==> normalized(a + gap + b) == normalized(a) + seq![' '] + normalized(b),
{
    let left = crate::text::collapsed(a);
    let right = crate::text::collapsed(b);
    crate::text::law_collapsing_makes_a_gap_one_blank(a, gap, b);
    if crate::text::ascii(left) && crate::text::ascii(right) {
        assert(crate::text::ascii(left + seq![' '] + right));
        assert(crate::text::ascii_lowercase(left + seq![' '] + right)
            == crate::text::ascii_lowercase(left) + seq![' '] + crate::text::ascii_lowercase(
            right,
        ));
    }
}

/// A new entry answers to each of its phrases, where no entry before it does; and it changes
/// nothing for a transcript that an entry before it answers to, or that it does not answer to
/// itself.
pub proof fn law_added_entry_is_found(
    entries: Seq<EntryView>,
    entry: EntryView,
    transcript: Seq<char>,
)
    ensures
        replacement(entries, transcript) is None && phrase_keys(entry).contains(
            normalized(transcript),
        ) ==> replacement(entries.push(entry), transcript) == Some(entry.text),
        replacement(entries, transcript) is Some || !phrase_keys(entry).contains(
            normalized(transcript),
        ) ==> replacement(entries.push(entry), transcript) == replacement(entries, transcript),
        forall|k: int|
            0 <= k < entry.says.len() ==> phrase_keys(entry).contains(
                normalized(#[trigger] entry.says[k]),
            ),
{
    let key = normalized(transcript);
    let longer = all_keys(entries.push(entry));
    assert(longer.drop_last() == all_keys(entries));
    assert(longer.last() == phrase_keys(entry));
    law_first_match_is_first(all_keys(entries), key);
    assert forall|k: int| 0 <= k < entry.says.len() implies phrase_keys(entry).contains(
        normalized(#[trigger] entry.says[k]),
    ) by {
        assert(phrase_keys(entry)[k] == normalized(entry.says[k]));
    }
}

/// Taking out the entry that was added last gives back the glossary as it was.
pub proof fn law_removing_undoes_adding(entries: Seq<EntryView>, entry: EntryView)
    ensures
        entries.push(entry).remove(entries.len() as int) == entries,
        entries.push(entry)[entries.len() as int] == entry,
{
    assert(entries.push(entry).remove(entries.len() as int) == entries);
}

/// Taking out an entry changes nothing for a transcript that it does not answer to.
pub proof fn law_removing_leaves_other_phrases(
    entries: Seq<EntryView>,
    index: int,
    transcript: Seq<char>,
)
    requires
        0 <= index < entries.len(),
        !phrase_keys(entries[index]).contains(normalized(transcript)),
    ensures
        replacement(entries.remove(index), transcript) == replacement(entries, transcript),
    decreases entries.len(),
{
    let key = normalized(transcript);
    let rest = entries.drop_last();
    assert(all_keys(entries).drop_last() == all_keys(rest));
    assert(all_keys(entries).last() == phrase_keys(entries.last()));
    law_first_match_is_first(all_keys(rest), key);
    if index == entries.len() - 1 {
        assert(entries.remove(index) == rest);
    } else {
        let shorter = entries.remove(index);
        law_removing_leaves_other_phrases(rest, index, transcript);
        assert(shorter.drop_last() == rest.remove(index));
        assert(all_keys(shorter).drop_last() == all_keys(shorter.drop_last()));
        assert(all_keys(shorter).last() == phrase_keys(entries.last()));
        law_first_match_is_first(all_keys(shorter.drop_last()), key);
    }
}

/// A transcript gets a replacement where, and only where, some phrase of some entry is the same
/// once both are normalized; and the replacement is the text of the first entry with such a
/// phrase.
pub proof fn law_lookup_matches_whole_phrases(entries: Seq<EntryView>, transcript: Seq<char>)
    ensures
        match replacement(entries, transcript) {
            Some(text) => exists|i: int, k: int|
                {
                    &&& 0 <= i < entries.len()
                    &&& 0 <= k < entries[i].says.len()
                    &&& normalized(#[trigger] entries[i].says[k]) == normalized(transcript)
                    &&& text == entries[i].text
                    &&& forall|j: int, l: int|
                        0 <= j < i && 0 <= l < entries[j].says.len() ==> normalized(
                            #[trigger] entries[j].says[l],
                        ) != normalized(transcript)
                },
            None => forall|j: int, l: int|
                0 <= j < entries.len() && 0 <= l < entries[j].says.len() ==> normalized(
                    #[trigger] entries[j].says[l],
                ) != normalized(transcript),
        },
{
    let key = normalized(transcript);
    let keys = all_keys(entries);
    law_first_match_is_first(keys, key);
    let before = match first_match(keys, key) {
        Some(i) => i,
        None => entries.len() as int,
    };
    assert forall|j: int, l: int|
        0 <= j < before && 0 <= l < entries[j].says.len() implies normalized(
        #[trigger] entries[j].says[l],
    ) != key by {
        assert(keys[j] == phrase_keys(entries[j]));
        assert(phrase_keys(entries[j])[l] == normalized(entries[j].says[l]));
    }
    if let Some(i) = first_match(keys, key) {
        assert(keys[i] == phrase_keys(entries[i]));
        let k = choose|k: int| 0 <= k < keys[i].len() && keys[i][k] == key;
        assert(normalized(entries[i].says[k]) == key);
    }
}

/// A transcript that is a phrase of an entry, and of no entry before it, gets the text of that
/// entry; and one that is no phrase of any entry gets none.
pub proof fn law_first_entry_with_the_phrase_answers(
    entries: Seq<EntryView>,
    i: int,
    k: int,
    transcript: Seq<char>,
)
    ensures
        ({
            &&& 0 <= i < entries.len()
            &&& 0 <= k < entries[i].says.len()
            &&& normalized(entries[i].says[k]) == normalized(transcript)
            &&& forall|j: int, l: int|
                0 <= j < i && 0 <= l < entries[j].says.len() ==> normalized(
                    #[trigger] entries[j].says[l],
                ) != normalized(transcript)
        }) ==> replacement(entries, transcript) == Some(entries[i].text),
        (forall|j: int, l: int|
            0 <= j < entries.len() && 0 <= l < entries[j].says.len() ==> normalized(
                #[trigger] entries[j].says[l],
            ) != normalized(transcript)) ==> replacement(entries, transcript) is None,
{
    law_lookup_matches_whole_phrases(entries, transcript);
}

/// The keys of an entry are its phrases, each normalized, in their order.
pub proof fn law_keys_are_the_normalized_phrases(entries: Seq<EntryView>, i: int, k: int)
    requires
        0 <= i < entries.len(),
    ensures
        all_keys(entries).len() == entries.len(),
        all_keys(entries)[i].len() == entries[i].says.len(),
        phrase_keys(entries[i]) == all_keys(entries)[i],
        0 <= k < entries[i].says.len() ==> all_keys(entries)[i][k] == normalized(
            entries[i].says[k],
        ),
{
}

/// A phrase is compared by its words with single blanks between them, in lower case: letter by
/// letter where they are of ASCII characters, and by the rules of Unicode where they are not.
pub proof fn law_phrases_are_compared_by_their_words(s: Seq<char>)
    ensures
        ({
            let plain = crate::text::joined(crate::text::words(s), seq![' ']);
            &&& crate::text::ascii(plain) ==> normalized(s) == crate::text::ascii_lowercase(plain)
            &&& !crate::text::ascii(plain) ==> normalized(s) == crate::text::unicode_lowercase(
                plain,
            )
        }),
{
}

/// An entry is seen with its phrases, `say` first and each alias behind it in its order, and with
/// its text; and a glossary is seen with its entries in their order.
pub proof fn law_glossary_is_seen_as_it_is(glossary: Glossary, i: int, k: int)
    requires
        0 <= i < glossary.entries.len(),
    ensures
        glossary@.len() == glossary.entries.len(),
        glossary@[i] == glossary.entries[i]@,
        glossary@[i].says.len() == 1 + glossary.entries[i].aliases.len(),
        glossary@[i].says[0] == glossary.entries[i].say@,
        0 <= k < glossary.entries[i].aliases.len() ==> glossary@[i].says[k + 1]
            == glossary.entries[i].aliases[k]@,
        glossary@[i].text == glossary.entries[i].text@,
{
}

/// A path is its directory and its file name behind it: the directory is empty or ends in `/`, and
/// the file name holds none. There is one way only to split a path so.
pub proof fn law_path_is_directory_and_file_name(path: Seq<char>)
    ensures
        directory(path) + file_name(path) == path,
        directory(path).len() == 0 || directory(path).last() == '/',
        !file_name(path).contains('/'),
    decreases path.len(),
{
    if path.len() == 0 || path.last() == '/' {
        assert(directory(path) + file_name(path) == path);
    } else {
        let rest = path.drop_last();
        law_path_is_directory_and_file_name(rest);
        assert(file_name(path) == file_name(rest).push(path.last()));
        assert(directory(path) + file_name(path) == rest.push(path.last()));
        assert(rest.push(path.last()) == path);
        assert(forall|i: int|
            0 <= i < file_name(rest).len() ==> #[trigger] file_name(rest)[i] != '/') by {
            assert forall|i: int| 0 <= i < file_name(rest).len() implies #[trigger] file_name(
                rest,
            )[i] != '/' by {
                assert(file_name(rest).contains(file_name(rest)[i]));
            }
        }
    }
}

/// A file in a directory lies in that directory, under its name.
pub proof fn law_file_lies_in_its_directory(dir: Seq<char>, name: Seq<char>)
    requires
        dir.len() == 0 || dir.last() == '/',
        !name.contains('/'),
    ensures
        directory(dir + name) == dir,
        file_name(dir + name) == name,
{
    let path = dir + name;
    assert forall|i: int| dir.len() <= i < path.len() implies #[trigger] path[i] != '/' by {
        assert(path[i] == name[i - dir.len()]);
        assert(name.contains(name[i - dir.len()]));
    }
    lemma_directory_is_prefix(path, dir.len() as int);
    assert(path.take(dir.len() as int) == dir);
    assert(path.skip(dir.len() as int) == name);
}

} // verus!
