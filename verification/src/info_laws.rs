//! What holds of every header that is read.

use vstd::prelude::*;
use crate::info::{attr_of, attrs_of, fence_info};
use crate::text::{first_index, lemma_first_index_bounds, split_on};

verus! {

/// The pieces joined again, with one `sep` between each two.
pub open spec fn join_with(pieces: Seq<Seq<char>>, sep: char) -> Seq<char>
    decreases pieces.len(),
{
    if pieces.len() == 0 {
        Seq::empty()
    } else if pieces.len() == 1 {
        pieces[0]
    } else {
        pieces[0] + seq![sep] + join_with(pieces.drop_first(), sep)
    }
}

/// Splitting loses nothing: there is at least one piece, no piece holds the
/// separator, and the pieces joined by the separator are the text again.
pub proof fn lemma_split_on_pieces(s: Seq<char>, sep: char)
    ensures
        split_on(s, sep).len() >= 1,
        forall|i: int, j: int|
            0 <= i < split_on(s, sep).len() && 0 <= j < split_on(s, sep)[i].len() ==> split_on(
                s,
                sep,
            )[i][j] != sep,
        join_with(split_on(s, sep), sep) == s,
    decreases s.len(),
{
    lemma_first_index_bounds(s, sep);
    let at = first_index(s, sep);
    if at < s.len() {
        let rest = s.skip(at + 1);
        lemma_split_on_pieces(rest, sep);
        let pieces = split_on(s, sep);
        assert(pieces.drop_first() =~= split_on(rest, sep));
        assert(s.take(at) + seq![sep] + rest =~= s);
        assert forall|i: int, j: int|
            0 <= i < pieces.len() && 0 <= j < pieces[i].len() implies pieces[i][j] != sep by {
            if i > 0 {
                assert(pieces[i] == split_on(rest, sep)[i - 1]);
            }
        }
    }
}

/// Only the empty header names no language.
pub proof fn lemma_language_present(header: Seq<char>)
    ensures
        fence_info(header).language is None <==> header.len() == 0,
{
}

/// An attribute is there exactly when some token gives it, and its value is
/// the one that the last such token gives.
pub proof fn lemma_attrs_of_last_token(tokens: Seq<Seq<char>>, key: Seq<char>)
    ensures
        attrs_of(tokens).contains_key(key) <==> exists|i: int|
            0 <= i < tokens.len() && attr_of(#[trigger] tokens[i]) is Some && attr_of(
                tokens[i],
            )->Some_0.0 == key,
        forall|i: int|
            0 <= i < tokens.len() && attr_of(#[trigger] tokens[i]) is Some && attr_of(
                tokens[i],
            )->Some_0.0 == key && (forall|j: int|
                i < j < tokens.len() && attr_of(#[trigger] tokens[j]) is Some ==> attr_of(
                    tokens[j],
                )->Some_0.0 != key) ==> attrs_of(tokens)[key] == attr_of(tokens[i])->Some_0.1,
    decreases tokens.len(),
{
    if tokens.len() > 0 {
        let front = tokens.drop_last();
        let last = tokens.len() - 1;
        lemma_attrs_of_last_token(front, key);
        if attrs_of(tokens).contains_key(key) {
            if attr_of(tokens[last]) is Some && attr_of(tokens[last])->Some_0.0 == key {
            } else {
                let i = choose|i: int|
                    0 <= i < front.len() && attr_of(#[trigger] front[i]) is Some && attr_of(
                        front[i],
                    )->Some_0.0 == key;
                assert(tokens[i] == front[i]);
            }
        }
        if exists|i: int|
            0 <= i < tokens.len() && attr_of(#[trigger] tokens[i]) is Some && attr_of(
                tokens[i],
            )->Some_0.0 == key {
            let i = choose|i: int|
                0 <= i < tokens.len() && attr_of(#[trigger] tokens[i]) is Some && attr_of(
                    tokens[i],
                )->Some_0.0 == key;
            if i < last {
                assert(front[i] == tokens[i]);
            }
        }
        assert forall|i: int|
            0 <= i < tokens.len() && attr_of(#[trigger] tokens[i]) is Some && attr_of(
                tokens[i],
            )->Some_0.0 == key && (forall|j: int|
                i < j < tokens.len() && attr_of(#[trigger] tokens[j]) is Some ==> attr_of(
                    tokens[j],
                )->Some_0.0 != key) implies attrs_of(tokens)[key] == attr_of(
            tokens[i],
        )->Some_0.1 by {
            if i < last {
                assert(front[i] == tokens[i]);
                assert forall|j: int|
                    i < j < front.len() && attr_of(#[trigger] front[j]) is Some implies attr_of(
                    front[j],
                )->Some_0.0 != key by {
                    assert(front[j] == tokens[j]);
                }
            }
        }
    }
}

/// No attribute has the empty key, and no key holds `=`.
pub proof fn lemma_attr_keys(tokens: Seq<Seq<char>>)
    ensures
        forall|key: Seq<char>| #[trigger]
            attrs_of(tokens).contains_key(key) ==> key.len() > 0 && forall|j: int|
                0 <= j < key.len() ==> key[j] != '=',
    decreases tokens.len(),
{
    if tokens.len() > 0 {
        let token = tokens.last();
        lemma_attr_keys(tokens.drop_last());
        lemma_first_index_bounds(token, '=');
        assert forall|key: Seq<char>| #[trigger]
            attrs_of(tokens).contains_key(key) implies key.len() > 0 && forall|j: int|
            0 <= j < key.len() ==> key[j] != '=' by {
            if attr_of(token) is Some && attr_of(token)->Some_0.0 == key {
                assert forall|j: int| 0 <= j < key.len() implies key[j] != '=' by {
                    assert(key[j] == token[j]);
                }
            } else {
                assert(attrs_of(tokens.drop_last()).contains_key(key));
            }
        }
    }
}

/// What a header says never holds an attribute with the empty key.
pub proof fn lemma_fence_info_keys_nonempty(header: Seq<char>)
    ensures
        forall|key: Seq<char>| #[trigger]
            fence_info(header).attributes.contains_key(key) ==> key.len() > 0,
{
    if header.len() > 0 {
        lemma_attr_keys(split_on(header, ' ').drop_first());
    }
}

} // verus!
