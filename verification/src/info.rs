//! The header of a fenced code block: a language and `key=value` attributes.

use vstd::prelude::*;
use crate::text::{chars_of, find_char, first_index, split_on, string_of};

verus! {

/// What the header of a fenced code block says: the language it names, if any,
/// and its `key=value` attributes.
pub struct InfoView {
    pub language: Option<Seq<char>>,
    pub attributes: Map<Seq<char>, Seq<char>>,
}

/// The attribute that one token of a header stands for: the text before its
/// first `=` is the key, the text after it the value. A token without `=`, or
/// with nothing before it, stands for none.
pub open spec fn attr_of(token: Seq<char>) -> Option<(Seq<char>, Seq<char>)> {
    let i = first_index(token, '=');
    if 0 < i < token.len() {
        Some((token.take(i), token.skip(i + 1)))
    } else {
        None
    }
}

/// The attributes that a run of tokens stands for. Where a key comes twice,
/// the later token decides its value.
pub open spec fn attrs_of(tokens: Seq<Seq<char>>) -> Map<Seq<char>, Seq<char>>
    decreases tokens.len(),
{
    if tokens.len() == 0 {
        Map::empty()
    } else {
        let before = attrs_of(tokens.drop_last());
        match attr_of(tokens.last()) {
            Some((key, value)) => before.insert(key, value),
            None => before,
        }
    }
}

/// What a header says. Its tokens are the pieces between single spaces. The
/// first token is the language, the others are read as attributes. The empty
/// header names no language; any other header names one, which is the empty
/// text where the header begins with a space.
pub open spec fn fence_info(header: Seq<char>) -> InfoView {
    if header.len() == 0 {
        InfoView { language: None, attributes: Map::empty() }
    } else {
        let tokens = split_on(header, ' ');
        InfoView { language: Some(tokens[0]), attributes: attrs_of(tokens.drop_first()) }
    }
}

/// The map that a list of entries stands for, a later entry deciding over an
/// earlier one with the same key.
spec fn entries_map(entries: Seq<(String, String)>) -> Map<Seq<char>, Seq<char>>
    decreases entries.len(),
{
    if entries.len() == 0 {
        Map::empty()
    } else {
        entries_map(entries.drop_last()).insert(entries.last().0@, entries.last().1@)
    }
}

/// No two entries have the same key.
spec fn keys_distinct(entries: Seq<(String, String)>) -> bool {
    forall|i: int, j: int| 0 <= i < j < entries.len() ==> entries[i].0@ != entries[j].0@
}

/// No entry has the empty key.
spec fn keys_nonempty(entries: Seq<(String, String)>) -> bool {
    forall|i: int| 0 <= i < entries.len() ==> (#[trigger] entries[i]).0@.len() > 0
}

/// A key is in the map exactly when some entry has it.
proof fn lemma_entries_map_domain(entries: Seq<(String, String)>, key: Seq<char>)
    ensures
        entries_map(entries).contains_key(key) <==> exists|i: int|
            0 <= i < entries.len() && (#[trigger] entries[i]).0@ == key,
    decreases entries.len(),
{
    if entries.len() > 0 {
        let front = entries.drop_last();
        lemma_entries_map_domain(front, key);
        if entries_map(entries).contains_key(key) {
            if entries.last().0@ == key {
                assert(entries[entries.len() - 1].0@ == key);
            } else {
                let i = choose|i: int| 0 <= i < front.len() && (#[trigger] front[i]).0@ == key;
                assert(entries[i].0@ == key);
            }
        }
        if exists|i: int| 0 <= i < entries.len() && (#[trigger] entries[i]).0@ == key {
            let i = choose|i: int| 0 <= i < entries.len() && (#[trigger] entries[i]).0@ == key;
            if i < front.len() {
                assert(front[i].0@ == key);
            }
        }
    }
}

/// With distinct keys, the map gives each entry's key that entry's value.
proof fn lemma_entries_map_value(entries: Seq<(String, String)>, i: int)
    requires
        keys_distinct(entries),
        0 <= i < entries.len(),
    ensures
        entries_map(entries).contains_key(entries[i].0@),
        entries_map(entries)[entries[i].0@] == entries[i].1@,
    decreases entries.len(),
{
    if i < entries.len() - 1 {
        lemma_entries_map_value(entries.drop_last(), i);
    }
}

/// With distinct keys, the map has as many keys as there are entries.
proof fn lemma_entries_map_len(entries: Seq<(String, String)>)
    requires
        keys_distinct(entries),
    ensures
        entries_map(entries).dom().finite(),
        entries_map(entries).dom().len() == entries.len(),
    decreases entries.len(),
{
    if entries.len() > 0 {
        let front = entries.drop_last();
        lemma_entries_map_len(front);
        lemma_entries_map_domain(front, entries.last().0@);
    }
}

/// With distinct keys, putting a new value in the place of an entry's value
/// changes the map at that entry's key and nowhere else.
proof fn lemma_entries_map_update(
    entries: Seq<(String, String)>,
    i: int,
    entry: (String, String),
)
    requires
        keys_distinct(entries),
        0 <= i < entries.len(),
        entry.0@ == entries[i].0@,
    ensures
        keys_distinct(entries.update(i, entry)),
        entries_map(entries.update(i, entry)) == entries_map(entries).insert(
            entry.0@,
            entry.1@,
        ),
{
    let after = entries.update(i, entry);
    let left = entries_map(after);
    let right = entries_map(entries).insert(entry.0@, entry.1@);
    assert(keys_distinct(after)) by {
        assert forall|a: int, b: int| 0 <= a < b < after.len() implies after[a].0@
            != after[b].0@ by {
            assert(after[a].0@ == entries[a].0@);
            assert(after[b].0@ == entries[b].0@);
        }
    }
    assert forall|k: Seq<char>| left.contains_key(k) == right.contains_key(k) by {
        lemma_entries_map_domain(after, k);
        lemma_entries_map_domain(entries, k);
        if left.contains_key(k) {
            let j = choose|j: int| 0 <= j < after.len() && (#[trigger] after[j]).0@ == k;
            assert(entries[j].0@ == k);
        }
        if right.contains_key(k) {
            if k == entry.0@ {
                assert(after[i].0@ == k);
            } else {
                let j = choose|j: int| 0 <= j < entries.len() && (#[trigger] entries[j]).0@ == k;
                assert(after[j].0@ == k);
            }
        }
    }
    assert forall|k: Seq<char>| left.contains_key(k) implies left[k] == right[k] by {
        lemma_entries_map_domain(after, k);
        let j = choose|j: int| 0 <= j < after.len() && (#[trigger] after[j]).0@ == k;
        lemma_entries_map_value(after, j);
        if j != i {
            lemma_entries_map_value(entries, j);
        }
    }
    assert(left =~= right);
}

/// Sets the entry for `key` to `value`, in place of the one it had, if any.
fn put(entries: &mut Vec<(String, String)>, key: String, value: String)
    requires
        keys_distinct(old(entries)@),
        keys_nonempty(old(entries)@),
        key@.len() > 0,
    ensures
        keys_distinct(final(entries)@),
        keys_nonempty(final(entries)@),
        entries_map(final(entries)@) == entries_map(old(entries)@).insert(key@, value@),
{
    let ghost before = entries@;
    let mut i: usize = 0;
    while i < entries.len() && !entries[i].0.eq(&key)
        invariant
            i <= entries.len(),
            entries@ == before,
            forall|j: int| 0 <= j < i ==> (#[trigger] before[j]).0@ != key@,
        decreases entries.len() - i,
    {
        i = i + 1;
    }
    if i < entries.len() {
        entries.set(i, (key, value));
        proof {
            lemma_entries_map_update(before, i as int, entries@[i as int]);
        }
    } else {
        entries.push((key, value));
        proof {
            assert(entries@.drop_last() =~= before);
        }
    }
}

/// The header of a fenced code block, read: its language and its attributes.
pub struct CodeBlockInfo {
    language: Option<String>,
    values: Vec<(String, String)>,
}

impl View for CodeBlockInfo {
    type V = InfoView;

    closed spec fn view(&self) -> InfoView {
        InfoView {
            language: match self.language {
                Some(l) => Some(l@),
                None => None,
            },
            attributes: entries_map(self.values@),
        }
    }
}

impl CodeBlockInfo {
    #[verifier::type_invariant]
    spec fn well_formed(self) -> bool {
        keys_distinct(self.values@) && keys_nonempty(self.values@)
    }

    /// Reads the header of a fenced block. An indented block has none.
    pub fn try_from(kind: &BlockKind) -> (r: Result<CodeBlockInfo, CodeBlockInfoErrorType>)
        ensures
            match r {
                Ok(info) => info_of_kind(kind@) == Some(info@),
                Err(e) => info_of_kind(kind@) is None
                    && e == CodeBlockInfoErrorType::IndentedCodeBlock,
            },
    {
        match kind {
            BlockKind::Fenced(header) => Ok(parse_info(header.as_str())),
            BlockKind::Indented => Err(CodeBlockInfoErrorType::IndentedCodeBlock),
        }
    }

    /// The language that the header names.
    pub fn language(&self) -> (r: Option<&String>)
        ensures
            match r {
                Some(l) => self@.language == Some(l@),
                None => self@.language is None,
            },
    {
        self.language.as_ref()
    }

    /// The number of attributes.
    pub fn len(&self) -> (n: usize)
        ensures
            self@.attributes.dom().finite(),
            n == self@.attributes.dom().len(),
    {
        proof {
            use_type_invariant(self);
            lemma_entries_map_len(self.values@);
        }
        self.values.len()
    }

    /// The value of the attribute `key`, if the header has one. It has none
    /// for the empty key.
    pub fn get(&self, key: &str) -> (r: Option<&String>)
        ensures
            match r {
                Some(v) => self@.attributes.contains_key(key@) && self@.attributes[key@] == v@,
                None => !self@.attributes.contains_key(key@),
            },
            key@.len() == 0 ==> r is None,
    {
        proof {
            use_type_invariant(self);
        }
        let mut i: usize = 0;
        while i < self.values.len()
            invariant
                i <= self.values.len(),
                keys_distinct(self.values@),
                keys_nonempty(self.values@),
                forall|j: int| 0 <= j < i ==> (#[trigger] self.values@[j]).0@ != key@,
            decreases self.values.len() - i,
        {
            if self.values[i].0.as_str().eq(key) {
                proof {
                    lemma_entries_map_value(self.values@, i as int);
                }
                return Some(&self.values[i].1);
            }
            i = i + 1;
        }
        proof {
            lemma_entries_map_domain(self.values@, key@);
        }
        None
    }
}

/// One token of `s` begins at `from`: it runs up to the next `sep`, and the
/// rest of `s` is split after that separator.
proof fn lemma_split_on_from(s: Seq<char>, sep: char, from: int, to: int)
    requires
        0 <= from <= to <= s.len(),
        to - from == first_index(s.subrange(from, s.len() as int), sep),
    ensures
        to < s.len() ==> split_on(s.skip(from), sep) == seq![s.subrange(from, to)] + split_on(
            s.skip(to + 1),
            sep,
        ),
        to == s.len() ==> split_on(s.skip(from), sep) == seq![s.subrange(from, to)],
{
    let tail = s.skip(from);
    assert(tail =~= s.subrange(from, s.len() as int));
    assert(tail.take(to - from) =~= s.subrange(from, to));
    if to < s.len() {
        assert(tail.skip(to - from + 1) =~= s.skip(to + 1));
    }
}

/// Reads the header of a fenced code block. Every text is a header: nothing is
/// refused.
pub fn parse_info(header: &str) -> (info: CodeBlockInfo)
    ensures
        info@ == fence_info(header@),
{
    let chars = chars_of(header);
    let n = chars.len();
    let mut values: Vec<(String, String)> = Vec::new();
    if n == 0 {
        return CodeBlockInfo { language: None, values };
    }
    let first_end = find_char(&chars, 0, n, ' ');
    let language = string_of(&chars, 0, first_end);
    let ghost text = header@;
    let ghost done: Seq<Seq<char>> = Seq::empty();
    proof {
        assert(text.skip(0) =~= text);
        lemma_split_on_from(text, ' ', 0, first_end as int);
    }
    let mut pos: usize = first_end;
    while pos < n
        invariant
            chars@ == text,
            n == text.len(),
            pos <= n,
            keys_distinct(values@),
            keys_nonempty(values@),
            entries_map(values@) == attrs_of(done),
            pos < n ==> split_on(text, ' ') == seq![language@] + done + split_on(
                text.skip(pos + 1),
                ' ',
            ),
            pos == n ==> split_on(text, ' ') == seq![language@] + done,
        decreases n - pos,
    {
        let start = pos + 1;
        let end = find_char(&chars, start, n, ' ');
        let eq = find_char(&chars, start, end, '=');
        let ghost token = text.subrange(start as int, end as int);
        proof {
            lemma_split_on_from(text, ' ', start as int, end as int);
            assert(done.push(token).drop_last() =~= done);
            if end < n {
                assert(seq![language@] + done + (seq![token] + split_on(
                    text.skip(end + 1),
                    ' ',
                )) =~= seq![language@] + done.push(token) + split_on(text.skip(end + 1), ' '));
            } else {
                assert(seq![language@] + done + seq![token] =~= seq![language@] + done.push(
                    token,
                ));
            }
            assert(token.take(eq - start) =~= text.subrange(start as int, eq as int));
        }
        if start < eq && eq < end {
            let key = string_of(&chars, start, eq);
            let value = string_of(&chars, eq + 1, end);
            proof {
                assert(token.skip(eq - start + 1) =~= text.subrange(eq + 1, end as int));
            }
            put(&mut values, key, value);
        }
        proof {
            done = done.push(token);
        }
        pos = end;
    }
    proof {
        assert((seq![language@] + done).drop_first() =~= done);
    }
    CodeBlockInfo { language: Some(language), values }
}

/// How a code block is set off from the text around it.
pub enum BlockKind {
    /// By indentation. Such a block has no header.
    Indented,
    /// By fences. The text is the header that follows the opening fence.
    Fenced(String),
}

/// What a `BlockKind` says.
pub enum KindView {
    Indented,
    Fenced(Seq<char>),
}

impl View for BlockKind {
    type V = KindView;

    open spec fn view(&self) -> KindView {
        match self {
            BlockKind::Indented => KindView::Indented,
            BlockKind::Fenced(header) => KindView::Fenced(header@),
        }
    }
}

/// Why a code block has no header to read.
#[derive(Debug, Clone, Copy, PartialEq, Eq, Structural)]
pub enum CodeBlockInfoErrorType {
    /// The block is set off by indentation.
    IndentedCodeBlock,
}

/// What a block of the given kind says in its header, if it has one.
pub open spec fn info_of_kind(kind: KindView) -> Option<InfoView> {
    match kind {
        KindView::Fenced(header) => Some(fence_info(header)),
        KindView::Indented => None,
    }
}

} // verus!
