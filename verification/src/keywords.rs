use vstd::prelude::*;
use radix_trie::Trie;
use crate::token::TokenType;

verus! {

/// `Trie` of `radix_trie`, a dictionary keyed by byte strings. Nothing of
/// what it holds is visible here but through [`trie_entries`].
#[verifier::external_type_specification]
#[verifier::external_body]
#[verifier::reject_recursive_types(K)]
#[verifier::reject_recursive_types(V)]
pub struct ExTrie<K, V>(Trie<K, V>);

/// The entries of a dictionary: for each word that it holds, as bytes, the
/// kind that the word stands for.
pub uninterp spec fn trie_entries(trie: Trie<Vec<u8>, TokenType>) -> Map<Seq<u8>, TokenType>;

/// The entries of a dictionary that holds nothing.
pub open spec fn no_entries() -> Map<Seq<u8>, TokenType> {
    Map::empty()
}

/// `Trie::new` of `radix_trie`: a dictionary without entries.
#[verifier::external_body]
pub(crate) fn trie_new() -> (dict: Trie<Vec<u8>, TokenType>)
    ensures
        trie_entries(dict) == no_entries(),
{
    Trie::new()
}

/// `Trie::insert` of `radix_trie`: afterwards the dictionary holds `kind`
/// for `word`, and for every other word what it held before. Returns what it
/// held for `word` before, if anything.
#[verifier::external_body]
pub(crate) fn trie_insert(
    trie: &mut Trie<Vec<u8>, TokenType>,
    word: Vec<u8>,
    kind: TokenType,
) -> (previous: Option<TokenType>)
    ensures
        trie_entries(*final(trie)) == trie_entries(*old(trie)).insert(word@, kind),
        previous == (if trie_entries(*old(trie)).contains_key(word@) {
            Some(trie_entries(*old(trie))[word@])
        } else {
            None
        }),
{
    trie.insert(word, kind)
}

/// `Trie::get` of `radix_trie`: what the dictionary holds for `word`, if
/// anything.
#[verifier::external_body]
pub(crate) fn trie_get(trie: &Trie<Vec<u8>, TokenType>, word: &[u8]) -> (kind: Option<TokenType>)
    ensures
        kind == (if trie_entries(*trie).contains_key(word@) {
            Some(trie_entries(*trie)[word@])
        } else {
            None
        }),
{
    trie.get(word).copied()
}

} // verus!
