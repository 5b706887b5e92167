//! What ids decode to, token by token.
use super::bytes;
use super::model;
use super::model::TokenizerModel;
use vstd::prelude::*;
use vstd::utf8::*;

verus! {

/// **A character of a token stands for a byte, or for itself**: for the byte that has this
/// character, where there is one, and otherwise for its own encoding.
pub proof fn a_character_stands_for_its_byte(c: char, b: u8)
    ensures
        model::char_bytes(bytes::byte_char(b)) == seq![b],
        (forall|x: u8| #[trigger] bytes::byte_char(x) != c) ==> model::char_bytes(c)
            == encode_utf8(seq![c]),
{
    bytes::byte_char_round_trip(b);
}

proof fn lemma_token_flatten(t: Seq<char>)
    ensures
        model::token_bytes(t) == Seq::new(t.len(), |j: int| model::char_bytes(t[j])).flatten(),
    decreases t.len(),
{
    let parts = Seq::new(t.len(), |j: int| model::char_bytes(t[j]));
    if t.len() > 0 {
        let init = t.drop_last();
        lemma_token_flatten(init);
        let shorter = Seq::new(init.len(), |j: int| model::char_bytes(init[j]));
        assert(parts =~= shorter.push(model::char_bytes(t.last())));
        shorter.lemma_flatten_push(model::char_bytes(t.last()));
    } else {
        assert(parts =~= seq![]);
    }
}

/// **Ids decode token by token, character by character.** The bytes of each follow one another, and
/// an id that has no token gives none.
pub proof fn ids_decode_token_by_token(m: TokenizerModel, ids: Seq<u32>)
    ensures
        model::ids_bytes(m, ids) == Seq::new(
            ids.len(),
            |k: int|
                if ids[k] < m.tokens.len() {
                    Seq::new(
                        m.tokens[ids[k] as int].len(),
                        |j: int| model::char_bytes(m.tokens[ids[k] as int][j]),
                    ).flatten()
                } else {
                    seq![]
                },
        ).flatten(),
    decreases ids.len(),
{
    let parts = Seq::new(ids.len(), |k: int| model::id_bytes(m, ids[k]));
    let spelled = Seq::new(
        ids.len(),
        |k: int|
            if ids[k] < m.tokens.len() {
                Seq::new(
                    m.tokens[ids[k] as int].len(),
                    |j: int| model::char_bytes(m.tokens[ids[k] as int][j]),
                ).flatten()
            } else {
                seq![]
            },
    );
    assert forall|k: int| 0 <= k < ids.len() implies parts[k] == spelled[k] by {
        if ids[k] < m.tokens.len() {
            let t = m.tokens[ids[k] as int];
            lemma_token_flatten(t);
            assert(Seq::new(t.len(), |j: int| model::char_bytes(t[j])) =~= Seq::new(
                m.tokens[ids[k] as int].len(),
                |j: int| model::char_bytes(m.tokens[ids[k] as int][j]),
            ));
        }
    }
    assert(parts =~= spelled);
    lemma_ids_flatten(m, ids);
}

proof fn lemma_ids_flatten(m: TokenizerModel, ids: Seq<u32>)
    ensures
        model::ids_bytes(m, ids) == Seq::new(
            ids.len(),
            |k: int| model::id_bytes(m, ids[k]),
        ).flatten(),
    decreases ids.len(),
{
    let parts = Seq::new(ids.len(), |k: int| model::id_bytes(m, ids[k]));
    if ids.len() > 0 {
        let init = ids.drop_last();
        lemma_ids_flatten(m, init);
        let shorter = Seq::new(init.len(), |k: int| model::id_bytes(m, init[k]));
        assert(parts =~= shorter.push(model::id_bytes(m, ids.last())));
        shorter.lemma_flatten_push(model::id_bytes(m, ids.last()));
    } else {
        assert(parts =~= seq![]);
    }
}

} // verus!
