//! What holds of tokenizers that were loaded.
use super::added;
use super::bpe;
use super::bytes;
use super::laws;
use super::load;
use super::model;
use super::model::TokenizerModel;
use super::table_laws;
use super::vocabulary;
use crate::pyjson::value::Json;
use crate::text;
use vstd::prelude::*;
use vstd::utf8::*;

verus! {

// ---------------------------------------------------------------------------
// spelling
// ---------------------------------------------------------------------------
/// Whether a text that is stored as it is decodes to itself: its characters are not taken
/// for those that stand for other bytes.
///
/// Decoding goes character by character, and it does not know an added token from a token of
/// the vocabulary: each character of the byte alphabet becomes the byte that it stands for. A
/// printable ASCII character stands for itself, and one outside the alphabet is encoded, so a
/// text of such characters comes back. One in the alphabet beyond ASCII does not: `é` stands for
/// the byte `0xe9`, so an added token `é` encodes to its id, and that id decodes to the lone
/// byte `0xe9`, which is no UTF-8 and reads as U+FFFD. What is said of loading and absorbing
/// leaves such tokens out, because of them it would be false.
pub open spec fn plainly_spelled(t: Seq<char>) -> bool {
    model::token_bytes(t) == encode_utf8(t)
}

proof fn lemma_ascii_char(c: char)
    requires
        (c as u32) < 0x80,
    ensures
        model::char_bytes(c) == encode_utf8(seq![c]),
{
    let one = seq![c];
    if 33 <= c as u32 <= 126 {
        let b = c as u8;
        assert(bytes::byte_char(b) == c);
        bytes::byte_char_round_trip(b);
        assert(one.drop_first() =~= seq![]);
        assert(encode_utf8(one.drop_first()) =~= seq![]);
        let u = c as u32;
        assert(u & 0x7f == u) by (bit_vector)
            requires
                u < 0x80,
        ;
        assert(encode_utf8(one) =~= seq![b]);
    } else {
        assert(bytes::char_byte(c) is None) by {
            assert forall|b: u8| bytes::byte_char(b) != c by {
                bytes::byte_chars_are_printable(b);
            }
        }
    }
}

/// An ASCII text is plainly spelled.
pub proof fn ascii_is_plainly_spelled(t: Seq<char>)
    requires
        forall|i: int| 0 <= i < t.len() ==> (#[trigger] t[i] as u32) < 0x80,
    ensures
        plainly_spelled(t),
    decreases t.len(),
{
    if t.len() > 0 {
        let head = t.drop_last();
        assert forall|i: int| 0 <= i < head.len() implies (#[trigger] head[i] as u32) < 0x80 by {
            assert(head[i] == t[i]);
        }
        ascii_is_plainly_spelled(head);
        let last = t[t.len() - 1];
        lemma_ascii_char(last);
        laws::lemma_encode_concat(head, seq![last]);
        assert(head + seq![last] =~= t);
    }
}

// ---------------------------------------------------------------------------
// ids and texts
// ---------------------------------------------------------------------------
/// Whether no id stands for two texts.
pub open spec fn ids_name_one_text(list: Seq<(Seq<char>, u32)>) -> bool {
    forall|i: int, j: int|
        #![trigger list[i], list[j]]
        0 <= i < list.len() && 0 <= j < list.len() && list[i].1 == list[j].1 ==> list[i].0
            == list[j].0
}

/// The entries of a document, as they are stored: the vocabulary, then the added tokens.
pub open spec fn stored_entries(doc: Json, section: Json) -> Seq<(Seq<char>, u32)> {
    let entries = match section.member("vocab"@) {
        Some(Json::Object(m)) => match vocabulary::vocab_entries(m) {
            Ok(e) => e,
            Err(_) => seq![],
        },
        _ => seq![],
    };
    let more = match doc.member("added_tokens"@) {
        Some(Json::Array(a)) => match vocabulary::added_entries(a) {
            Ok(e) => e,
            Err(_) => seq![],
        },
        _ => seq![],
    };
    vocabulary::stored(entries + more)
}

proof fn lemma_vocab_entries_are_ids(m: Seq<(Seq<char>, Json)>)
    ensures
        vocabulary::vocab_entries(m) matches Ok(e) ==> forall|k: int|
            0 <= k < e.len() ==> 0 <= (#[trigger] e[k]).1,
    decreases m.len(),
{
    if m.len() > 0 {
        lemma_vocab_entries_are_ids(m.drop_last());
    }
}

proof fn lemma_added_entries_are_ids(a: Seq<Json>)
    ensures
        vocabulary::added_entries(a) matches Ok(e) ==> forall|k: int|
            0 <= k < e.len() ==> 0 <= (#[trigger] e[k]).1,
    decreases a.len(),
{
    if a.len() > 0 {
        lemma_added_entries_are_ids(a.drop_last());
    }
}

/// Each text of the vocabulary stands at its id.
proof fn lemma_vocab_slots(e: Seq<(Seq<char>, int)>, n: int, room: nat)
    requires
        0 <= n <= e.len(),
        room >= vocabulary::room_for(e),
        forall|k: int| 0 <= k < e.len() ==> 0 <= (#[trigger] e[k]).1,
        ids_name_one_text(vocabulary::stored(e)),
    ensures
        ({
            let vocab = vocabulary::vocab_map(e);
            let slots = vocabulary::vocab_slots(e.take(n), vocab, room);
            &&& slots.len() == room
            &&& forall|k: int|
                0 <= k < n ==> vocab[(#[trigger] e[k]).0] < room && slots[vocab[e[k].0] as int]
                    == Some(e[k].0)
            &&& forall|id: int|
                0 <= id < room && (#[trigger] slots[id]) is Some ==> vocab.contains_key(
                    slots[id]->0,
                ) && vocab[slots[id]->0] == id
        }),
    decreases n,
{
    let vocab = vocabulary::vocab_map(e);
    let s = vocabulary::stored(e);
    if n > 0 {
        lemma_vocab_slots(e, n - 1, room);
        let d = e.take(n);
        assert(d.drop_last() =~= e.take(n - 1));
        let t = e[n - 1].0;
        assert(d.last() == e[n - 1]);
        vocabulary::lemma_vocab_map(e, t);
        let at = choose|k: int|
            0 <= k < e.len() && (#[trigger] e[k]).0 == t && vocab[t] == vocabulary::word(e[k].1);
        assert(e[n - 1].0 == t);
        vocabulary::lemma_room(e, at);
        assert(vocabulary::word(e[at].1) <= e[at].1);
        let slots = vocabulary::vocab_slots(d, vocab, room);
        assert forall|k: int| 0 <= k < n implies vocab[(#[trigger] e[k]).0] < room
            && slots[vocab[e[k].0] as int] == Some(e[k].0) by {
            if k < n - 1 && vocab[e[k].0] == vocab[t] {
                vocabulary::lemma_vocab_map(e, e[k].0);
                let other = choose|j: int|
                    0 <= j < e.len() && (#[trigger] e[j]).0 == e[k].0 && vocab[e[k].0]
                        == vocabulary::word(e[j].1);
                assert(s[other] == (e[other].0, vocabulary::word(e[other].1)));
                assert(s[at] == (e[at].0, vocabulary::word(e[at].1)));
                assert(e[k].0 == t);
            }
        }
    }
}

/// Each added token stands at its id, and nothing that stood somewhere has moved.
proof fn lemma_fill(slots: Seq<Option<Seq<char>>>, list: Seq<(Seq<char>, u32)>, n: int)
    requires
        0 <= n <= list.len(),
        forall|k: int| 0 <= k < list.len() ==> (#[trigger] list[k]).1 < slots.len(),
        ids_name_one_text(list),
        forall|k: int|
            0 <= k < list.len() && slots[(#[trigger] list[k]).1 as int] is Some
                ==> slots[list[k].1 as int] == Some(list[k].0),
    ensures
        ({
            let filled = vocabulary::fill_slots(slots, list.take(n));
            &&& filled.len() == slots.len()
            &&& forall|k: int|
                0 <= k < n ==> filled[(#[trigger] list[k]).1 as int] == Some(list[k].0)
            &&& forall|id: int|
                0 <= id < slots.len() && slots[id] is Some ==> #[trigger] filled[id] == slots[id]
            &&& forall|k: int|
                0 <= k < list.len() && filled[(#[trigger] list[k]).1 as int] is Some
                    ==> filled[list[k].1 as int] == Some(list[k].0)
        }),
    decreases n,
{
    if n > 0 {
        lemma_fill(slots, list, n - 1);
        let d = list.take(n);
        assert(d.drop_last() =~= list.take(n - 1));
        assert(d.last() == list[n - 1]);
    } else {
        assert(list.take(0) =~= seq![]);
    }
}

proof fn lemma_none_missing(vocab: Map<Seq<char>, u32>, n: nat)
    requires
        n <= 256,
        vocabulary::missing_below(vocab, n) == 0,
    ensures
        forall|b: u8| b < n ==> vocab.contains_key(seq![#[trigger] bytes::byte_char(b)]),
    decreases n,
{
    if n > 0 {
        lemma_none_missing(vocab, (n - 1) as nat);
    }
}

/// Each merge of the table is of two texts of the vocabulary, and gives their
/// concatenation.
proof fn lemma_merge_table(a: Seq<Json>, vocab: Map<Seq<char>, u32>, key: u64)
    requires
        vocabulary::merge_table(a, vocab) is Ok,
        vocabulary::merge_table(a, vocab)->Ok_0.contains_key(key),
    ensures
        exists|l: Seq<char>, r: Seq<char>|
            {
                &&& #[trigger] vocab.contains_key(l)
                &&& #[trigger] vocab.contains_key(r)
                &&& vocab.contains_key(l + r)
                &&& key == bpe::pair_key(vocab[l], vocab[r])
                &&& vocabulary::merge_table(a, vocab)->Ok_0[key].1 == vocab[l + r]
            },
    decreases a.len(),
{
    if a.len() > 0 {
        let shorter = a.drop_last();
        let before = vocabulary::merge_table(shorter, vocab)->Ok_0;
        let entry = vocabulary::merge_entry(a.last(), a.len() - 1, vocab)->Ok_0;
        if key == entry.0 {
            let (l, r) = vocabulary::merge_sides(a.last(), a.len() - 1)->Ok_0;
            assert(vocab.contains_key(l) && vocab.contains_key(r));
        } else {
            lemma_merge_table(shorter, vocab, key);
            let (l, r) = choose|l: Seq<char>, r: Seq<char>|
                {
                    &&& #[trigger] vocab.contains_key(l)
                    &&& #[trigger] vocab.contains_key(r)
                    &&& vocab.contains_key(l + r)
                    &&& key == bpe::pair_key(vocab[l], vocab[r])
                    &&& before[key].1 == vocab[l + r]
                };
            assert(vocab.contains_key(l) && vocab.contains_key(r));
        }
    }
}

proof fn lemma_in_order_names_one_text(list: Seq<(Seq<char>, u32)>)
    requires
        ids_name_one_text(list),
    ensures
        ids_name_one_text(added::in_order(list)),
{
    let sorted = added::in_order(list);
    laws::lemma_in_order_len(list);
    assert forall|i: int, j: int|
        #![trigger sorted[i], sorted[j]]
        0 <= i < sorted.len() && 0 <= j < sorted.len() && sorted[i].1 == sorted[j].1 implies sorted[i].0
        == sorted[j].0 by {
        laws::lemma_in_order_from(list, i);
        laws::lemma_in_order_from(list, j);
        let a = choose|a: int| 0 <= a < list.len() && sorted[i] == #[trigger] list[a];
        let b = choose|b: int| 0 <= b < list.len() && sorted[j] == #[trigger] list[b];
        assert(list[a].0 == list[b].0);
    }
}

/// Each text of a document whose ids stand for one text each is the token of its id.
proof fn lemma_tokens_of_tables(
    section: Json,
    e: Seq<(Seq<char>, int)>,
    more: Seq<(Seq<char>, int)>,
)
    requires
        load::tables_of(section, e, more) is Ok,
        forall|k: int| 0 <= k < e.len() ==> 0 <= (#[trigger] e[k]).1,
        forall|k: int| 0 <= k < more.len() ==> 0 <= (#[trigger] more[k]).1,
        ids_name_one_text(vocabulary::stored(e + more)),
    ensures
        ({
            let m = load::tables_of(section, e, more)->Ok_0;
            let vocab = vocabulary::vocab_map(e);
            &&& forall|x: Seq<char>| #[trigger]
                vocab.contains_key(x) ==> vocab[x] < m.tokens.len() && m.tokens[vocab[x] as int]
                    == x
            &&& forall|k: int|
                0 <= k < m.added.len() ==> (#[trigger] m.added[k]).1 < m.tokens.len()
                    && m.tokens[m.added[k].1 as int] == m.added[k].0
        }),
{
    let m = load::tables_of(section, e, more)->Ok_0;
    let all = e + more;
    let stored = vocabulary::stored(all);
    let vocab = vocabulary::vocab_map(e);
    let room = vocabulary::room_for(all);
    let unsorted = vocabulary::stored(more);
    let list = added::in_order(unsorted);
    load::lemma_added_room(e, more);
    laws::lemma_in_order_len(unsorted);
    // the vocabulary
    assert forall|i: int, j: int|
        #![trigger vocabulary::stored(e)[i], vocabulary::stored(e)[j]]
        0 <= i < e.len() && 0 <= j < e.len() && vocabulary::stored(e)[i].1 == vocabulary::stored(
            e,
        )[j].1 implies vocabulary::stored(e)[i].0 == vocabulary::stored(e)[j].0 by {
        assert(stored[i] == vocabulary::stored(e)[i]);
        assert(stored[j] == vocabulary::stored(e)[j]);
    }
    lemma_vocab_slots(e, e.len() as int, room as nat);
    assert(e.take(e.len() as int) =~= e);
    let slots = vocabulary::vocab_slots(e, vocab, room as nat);
    // the added tokens
    assert forall|i: int, j: int|
        #![trigger unsorted[i], unsorted[j]]
        0 <= i < unsorted.len() && 0 <= j < unsorted.len() && unsorted[i].1 == unsorted[j].1 implies unsorted[i].0
        == unsorted[j].0 by {
        assert(stored[e.len() + i] == unsorted[i]);
        assert(stored[e.len() + j] == unsorted[j]);
    }
    lemma_in_order_names_one_text(unsorted);
    assert forall|k: int|
        0 <= k < list.len() && slots[(#[trigger] list[k]).1 as int] is Some implies slots[list[k].1 as int]
        == Some(list[k].0) by {
        laws::lemma_in_order_from(unsorted, k);
        let a = choose|a: int| 0 <= a < unsorted.len() && list[k] == #[trigger] unsorted[a];
        assert(stored[e.len() + a] == unsorted[a]);
        let text = slots[list[k].1 as int]->0;
        vocabulary::lemma_vocab_map(e, text);
        let b = choose|b: int|
            0 <= b < e.len() && (#[trigger] e[b]).0 == text && vocab[text] == vocabulary::word(
                e[b].1,
            );
        assert(stored[b] == (e[b].0, vocabulary::word(e[b].1)));
    }
    lemma_fill(slots, list, list.len() as int);
    assert(list.take(list.len() as int) =~= list);
    let filled = vocabulary::fill_slots(slots, list);
    // a text of the vocabulary is the token of its id
    assert forall|x: Seq<char>| #[trigger] vocab.contains_key(x) implies vocab[x] < m.tokens.len()
        && m.tokens[vocab[x] as int] == x by {
        vocabulary::lemma_vocab_map(e, x);
        let k = choose|k: int| 0 <= k < e.len() && (#[trigger] e[k]).0 == x;
        assert(slots[vocab[e[k].0] as int] == Some(e[k].0));
        assert(filled[vocab[x] as int] == slots[vocab[x] as int]);
    }
    assert forall|k: int| 0 <= k < m.added.len() implies (#[trigger] m.added[k]).1 < m.tokens.len()
        && m.tokens[m.added[k].1 as int] == m.added[k].0 by {
        assert(filled[list[k].1 as int] == Some(list[k].0));
    }
}

/// The tables of a document whose ids stand for one text each are faithful.
proof fn lemma_tables_are_faithful(
    section: Json,
    e: Seq<(Seq<char>, int)>,
    more: Seq<(Seq<char>, int)>,
    marks: bool,
)
    requires
        load::tables_of(section, e, more) is Ok,
        forall|k: int| 0 <= k < e.len() ==> 0 <= (#[trigger] e[k]).1,
        forall|k: int| 0 <= k < more.len() ==> 0 <= (#[trigger] more[k]).1,
        ids_name_one_text(vocabulary::stored(e + more)),
        forall|k: int| 0 <= k < more.len() ==> plainly_spelled((#[trigger] more[k]).0),
    ensures
        ({
            let t = load::tables_of(section, e, more)->Ok_0;
            laws::faithful(
                TokenizerModel {
                    byte_ids: t.byte_ids,
                    tokens: t.tokens,
                    merges: t.merges,
                    added: t.added,
                    marks,
                },
            )
        }),
{
    let t = load::tables_of(section, e, more)->Ok_0;
    let m = TokenizerModel {
        byte_ids: t.byte_ids,
        tokens: t.tokens,
        merges: t.merges,
        added: t.added,
        marks,
    };
    let vocab = vocabulary::vocab_map(e);
    let unsorted = vocabulary::stored(more);
    let list = added::in_order(unsorted);
    load::lemma_added_room(e, more);
    lemma_tokens_of_tables(section, e, more);
    lemma_none_missing(vocab, 256);
    assert forall|b: u8|
        (#[trigger] m.byte_ids[b as int]) < m.tokens.len() && m.tokens[m.byte_ids[b as int] as int]
            == seq![bytes::byte_char(b)] by {
        assert(b < 256);
        assert(vocab.contains_key(seq![bytes::byte_char(b)]));
        assert((b as int) as u8 == b);
        let x = seq![bytes::byte_char(b)];
        assert(m.byte_ids[b as int] == vocab[x]);
        assert(m.tokens[vocab[x] as int] == x);
    }
    assert forall|l: u32, r: u32| #[trigger]
        m.merges.contains_key(bpe::pair_key(l, r)) implies {
        let id = m.merges[bpe::pair_key(l, r)].1;
        l < m.tokens.len() && r < m.tokens.len() && id < m.tokens.len() && m.tokens[id as int]
            == m.tokens[l as int] + m.tokens[r as int]
    } by {
        let key = bpe::pair_key(l, r);
        let a = section.member("merges"@)->0->Array_0;
        lemma_merge_table(a, vocab, key);
        let (x, y) = choose|x: Seq<char>, y: Seq<char>|
            {
                &&& #[trigger] vocab.contains_key(x)
                &&& #[trigger] vocab.contains_key(y)
                &&& vocab.contains_key(x + y)
                &&& key == bpe::pair_key(vocab[x], vocab[y])
                &&& m.merges[key].1 == vocab[x + y]
            };
        bpe::pair_keys_differ(l, r, vocab[x], vocab[y]);
        assert(m.tokens[vocab[x] as int] == x);
        assert(m.tokens[vocab[y] as int] == y);
        assert(m.tokens[vocab[x + y] as int] == x + y);
    }
    assert forall|k: int| 0 <= k < m.added.len() implies (#[trigger] m.added[k]).1 < m.tokens.len()
        && model::id_bytes(m, m.added[k].1) == encode_utf8(m.added[k].0) by {
        laws::lemma_in_order_from(unsorted, k);
        let a = choose|a: int| 0 <= a < unsorted.len() && list[k] == #[trigger] unsorted[a];
        assert(plainly_spelled(more[a].0));
        assert(m.tokens[list[k].1 as int] == list[k].0);
    }
}

/// Whatever tokenizer was loaded, its added tokens are in the order in which they are tried:
/// longest first.
pub proof fn loaded_tokens_are_in_order(doc: Json, normalizer: Seq<char>)
    requires
        load::loaded(doc, normalizer) is Ok,
    ensures
        laws::is_in_order(load::loaded(doc, normalizer)->Ok_0.0.added),
{
    let more: Seq<(Seq<char>, int)> = match doc.member("added_tokens"@) {
        Some(Json::Array(a)) => vocabulary::added_entries(a)->Ok_0,
        _ => seq![],
    };
    laws::in_order_sorts(vocabulary::stored(more));
}

/// A config leaves added tokens that are in order in order, whatever it adds.
pub proof fn configuring_keeps_the_order(m: TokenizerModel, doc: Json)
    requires
        laws::is_in_order(m.added),
    ensures
        laws::is_in_order(load::configured(m, doc).added),
{
    laws::absorbing_is_idempotent(m, load::config_tokens(doc));
}

/// A tokenizer that was loaded spells what it stands for, and tries its added tokens
/// longest first, where no id of the document stands for two texts and its added tokens
/// are plainly spelled: what it encodes decodes to the normal form of the text.
pub proof fn loaded_tokenizer_is_faithful(doc: Json, normalizer: Seq<char>)
    requires
        load::loaded(doc, normalizer) is Ok,
        ids_name_one_text(stored_entries(doc, doc.member("model"@)->0)),
        forall|k: int|
            0 <= k < load::loaded(doc, normalizer)->Ok_0.0.added.len() ==> plainly_spelled(
                (#[trigger] load::loaded(doc, normalizer)->Ok_0.0.added[k]).0,
            ),
    ensures
        laws::faithful(load::loaded(doc, normalizer)->Ok_0.0),
        laws::is_in_order(load::loaded(doc, normalizer)->Ok_0.0.added),
{
    let m = load::loaded(doc, normalizer)->Ok_0.0;
    let section = doc.member("model"@)->0;
    let members = section.member("vocab"@)->0->Object_0;
    let e = vocabulary::vocab_entries(members)->Ok_0;
    let more: Seq<(Seq<char>, int)> = match doc.member("added_tokens"@) {
        Some(Json::Array(a)) => vocabulary::added_entries(a)->Ok_0,
        _ => seq![],
    };
    lemma_vocab_entries_are_ids(members);
    match doc.member("added_tokens"@) {
        Some(Json::Array(a)) => {
            lemma_added_entries_are_ids(a);
        },
        _ => {},
    }
    let unsorted = vocabulary::stored(more);
    laws::in_order_sorts(unsorted);
    laws::lemma_in_order_len(unsorted);
    assert forall|k: int| 0 <= k < more.len() implies plainly_spelled((#[trigger] more[k]).0) by {
        broadcast use vstd::seq_lib::group_to_multiset_ensures;

        let x = unsorted[k];
        assert(unsorted.contains(x));
        assert(unsorted.to_multiset().count(x) > 0);
        assert(m.added.contains(x));
        let j = choose|j: int| 0 <= j < m.added.len() && m.added[j] == x;
        assert(plainly_spelled(m.added[j].0));
    }
    lemma_tables_are_faithful(section, e, more, m.marks);
}

/// Where no id of the document stands for two texts, each text of the vocabulary is the token of
/// the id that its last entry gives, and each added token is that of its id.
pub proof fn every_text_is_the_token_of_its_id(doc: Json, normalizer: Seq<char>, i: int)
    requires
        load::loaded(doc, normalizer) is Ok,
        ids_name_one_text(stored_entries(doc, doc.member("model"@)->0)),
        ({
            let members = doc.member("model"@)->0.member("vocab"@)->0->Object_0;
            &&& 0 <= i < members.len()
            &&& forall|j: int| i < j < members.len() ==> (#[trigger] members[j]).0 != members[i].0
            &&& members[i].1->Int_0 <= u32::MAX
        }),
    ensures
        ({
            let m = load::loaded(doc, normalizer)->Ok_0.0;
            let members = doc.member("model"@)->0.member("vocab"@)->0->Object_0;
            let id = members[i].1->Int_0;
            &&& 0 <= id < m.tokens.len()
            &&& m.tokens[id] == members[i].0
            &&& forall|k: int|
                0 <= k < m.added.len() ==> (#[trigger] m.added[k]).1 < m.tokens.len()
                    && m.tokens[m.added[k].1 as int] == m.added[k].0
        }),
{
    let section = doc.member("model"@)->0;
    let members = section.member("vocab"@)->0->Object_0;
    let e = vocabulary::vocab_entries(members)->Ok_0;
    let more: Seq<(Seq<char>, int)> = match doc.member("added_tokens"@) {
        Some(Json::Array(a)) => vocabulary::added_entries(a)->Ok_0,
        _ => seq![],
    };
    lemma_vocab_entries_are_ids(members);
    match doc.member("added_tokens"@) {
        Some(Json::Array(a)) => {
            lemma_added_entries_are_ids(a);
        },
        _ => {},
    }
    lemma_tokens_of_tables(section, e, more);
    table_laws::lemma_entries(members);
    assert(e[i].0 == members[i].0);
    assert forall|j: int| i < j < e.len() implies (#[trigger] e[j]).0 != e[i].0 by {
        assert(members[j].0 != members[i].0);
    }
    table_laws::lemma_lookup(e, i);
    let vocab = vocabulary::vocab_map(e);
    assert(vocab.contains_key(e[i].0));
    assert(load::loaded(doc, normalizer)->Ok_0.0.tokens[vocab[e[i].0] as int] == e[i].0);
}

// ---------------------------------------------------------------------------
// absorbing
// ---------------------------------------------------------------------------
/// Whether `q` is `m` with tokens of `extra` added, behind the ids of `m`.
spec fn extends(m: TokenizerModel, q: TokenizerModel, extra: Seq<(Seq<char>, u32)>) -> bool {
    &&& q.byte_ids == m.byte_ids
    &&& q.merges == m.merges
    &&& q.tokens.len() >= m.tokens.len()
    &&& q.added.len() >= m.added.len()
    &&& forall|i: int| 0 <= i < m.tokens.len() ==> #[trigger] q.tokens[i] == m.tokens[i]
    &&& forall|i: int|
        m.tokens.len() <= i < q.tokens.len() && (#[trigger] q.tokens[i]).len() > 0 ==> exists|k: int|
            0 <= k < extra.len() && (#[trigger] extra[k]).1 == i && q.tokens[i] == extra[k].0
    &&& forall|k: int| 0 <= k < m.added.len() ==> #[trigger] q.added[k] == m.added[k]
    &&& forall|j: int|
        m.added.len() <= j < q.added.len() ==> exists|k: int|
            0 <= k < extra.len() && (#[trigger] extra[k]) == #[trigger] q.added[j]
    &&& forall|j: int|
        m.added.len() <= j < q.added.len() ==> (#[trigger] q.added[j]).1 < q.tokens.len()
            && q.tokens[q.added[j].1 as int] == q.added[j].0
}

proof fn lemma_extends(m: TokenizerModel, extra: Seq<(Seq<char>, u32)>, n: int)
    requires
        0 <= n <= extra.len(),
        ids_name_one_text(extra),
        forall|k: int| 0 <= k < extra.len() ==> (#[trigger] extra[k]).1 >= m.tokens.len(),
    ensures
        extends(m, model::with_all_added(m, extra.take(n)), extra),
    decreases n,
{
    if n == 0 {
        assert(extra.take(0) =~= seq![]);
    } else {
        lemma_extends(m, extra, n - 1);
        let d = extra.take(n);
        assert(d.drop_last() =~= extra.take(n - 1));
        assert(d.last() == extra[n - 1]);
        let p = model::with_all_added(m, extra.take(n - 1));
        let q = model::with_all_added(m, d);
        let (t, id) = extra[n - 1];
        if !added::has_added(p.added, t) {
            assert(q.added == p.added.push(extra[n - 1]));
            let old_len = p.tokens.len();
            if id < old_len && p.tokens[id as int].len() > 0 {
                let k = choose|k: int|
                    0 <= k < extra.len() && (#[trigger] extra[k]).1 == id && p.tokens[id as int]
                        == extra[k].0;
                assert(extra[k].0 == t);
            }
            assert(q.tokens[id as int] == t);
            assert forall|i: int| 0 <= i < old_len && i != id implies #[trigger] q.tokens[i]
                == p.tokens[i] by {}
            assert forall|i: int|
                m.tokens.len() <= i < q.tokens.len() && (#[trigger] q.tokens[i]).len()
                    > 0 implies exists|k: int|
                0 <= k < extra.len() && (#[trigger] extra[k]).1 == i && q.tokens[i]
                    == extra[k].0 by {
                if i == id {
                    assert(extra[n - 1].1 == i);
                } else {
                    assert(i < old_len);
                    assert(p.tokens[i].len() > 0);
                }
            }
            assert forall|j: int| m.added.len() <= j < q.added.len() implies exists|k: int|
                0 <= k < extra.len() && (#[trigger] extra[k]) == #[trigger] q.added[j] by {
                if j < p.added.len() {
                    assert(p.added[j] == q.added[j]);
                } else {
                    assert(extra[n - 1] == q.added[j]);
                }
            }
            assert forall|j: int| m.added.len() <= j < q.added.len() implies (#[trigger] q.added[j]).1
                < q.tokens.len() && q.tokens[q.added[j].1 as int] == q.added[j].0 by {
                if j < p.added.len() {
                    assert(p.added[j] == q.added[j]);
                    assert(p.added[j].0 != t);
                    let k = choose|k: int| 0 <= k < extra.len() && (#[trigger] extra[k]) == p.added[j];
                    assert(p.added[j].1 != id) by {
                        if p.added[j].1 == id {
                            assert(extra[k].0 == extra[n - 1].0);
                        }
                    }
                }
            }
        }
    }
}

/// A tokenizer that spells what it stands for still does so once it has absorbed tokens
/// whose ids are behind its own, each for one text and plainly spelled.
pub proof fn absorbing_keeps_faith(m: TokenizerModel, extra: Seq<(Seq<char>, u32)>)
    requires
        laws::faithful(m),
        ids_name_one_text(extra),
        forall|k: int|
            0 <= k < extra.len() ==> (#[trigger] extra[k]).1 >= m.tokens.len() && plainly_spelled(
                extra[k].0,
            ),
    ensures
        laws::faithful(model::absorbed(m, extra)),
        laws::is_in_order(model::absorbed(m, extra).added),
{
    let n = extra.len() as int;
    lemma_extends(m, extra, n);
    assert(extra.take(n) =~= extra);
    let all = model::with_all_added(m, extra);
    let q = model::absorbed(m, extra);
    laws::in_order_sorts(all.added);
    laws::lemma_in_order_len(all.added);
    assert forall|b: u8|
        (#[trigger] q.byte_ids[b as int]) < q.tokens.len() && q.tokens[q.byte_ids[b as int] as int]
            == seq![bytes::byte_char(b)] by {
        assert(m.byte_ids[b as int] < m.tokens.len());
        assert(q.tokens[q.byte_ids[b as int] as int] == m.tokens[m.byte_ids[b as int] as int]);
    }
    assert forall|k: int| 0 <= k < q.added.len() implies (#[trigger] q.added[k]).1 < q.tokens.len()
        && model::id_bytes(q, q.added[k].1) == encode_utf8(q.added[k].0) by {
        laws::lemma_in_order_from(all.added, k);
        let j = choose|j: int| 0 <= j < all.added.len() && q.added[k] == #[trigger] all.added[j];
        if j < m.added.len() {
            assert(m.added[j].1 < m.tokens.len());
            assert(q.tokens[m.added[j].1 as int] == m.tokens[m.added[j].1 as int]);
        } else {
            let i = choose|i: int| 0 <= i < extra.len() && (#[trigger] extra[i]) == all.added[j];
            assert(plainly_spelled(extra[i].0));
        }
    }
    assert forall|l: u32, r: u32| #[trigger]
        q.merges.contains_key(bpe::pair_key(l, r)) implies {
        let id = q.merges[bpe::pair_key(l, r)].1;
        l < q.tokens.len() && r < q.tokens.len() && id < q.tokens.len() && q.tokens[id as int]
            == q.tokens[l as int] + q.tokens[r as int]
    } by {
        assert(m.merges.contains_key(bpe::pair_key(l, r)));
        let id = m.merges[bpe::pair_key(l, r)].1;
        assert(q.tokens[id as int] == m.tokens[id as int]);
        assert(q.tokens[l as int] == m.tokens[l as int]);
        assert(q.tokens[r as int] == m.tokens[r as int]);
    }
}

/// What a config does to a tokenizer, as loaded or otherwise. The tokens that were there keep
/// their ids; each text that only the config lists becomes an added token, with the id that
/// its first entry gives; there are as many more as there are new texts; a class that starts
/// with `Qwen2` switches the joining of marks off, and any other leaves it as it was. Bytes,
/// merges and the strings of ids that have one stay.
pub proof fn configuring_adds_and_switches(m: TokenizerModel, doc: Json)
    ensures
        forall|x: (Seq<char>, u32)| #[trigger]
            load::configured(m, doc).added.contains(x) <==> {
                ||| m.added.contains(x)
                ||| !added::has_added(m.added, x.0) && exists|i: int| #[trigger]
                    added::is_first(load::config_tokens(doc), i) && load::config_tokens(doc)[i] == x
            },
        load::configured(m, doc).added.len() == m.added.len() + added::new_texts(
            m.added,
            load::config_tokens(doc),
        ).len(),
        load::configured(m, doc).marks == (m.marks && !text::has_prefix(
            vocabulary::text_or_empty(doc, "tokenizer_class"@),
            "Qwen2"@,
        )),
        load::configured(m, doc).byte_ids == m.byte_ids,
        load::configured(m, doc).merges == m.merges,
        forall|id: int|
            0 <= id < m.tokens.len() && (#[trigger] m.tokens[id]).len() > 0 ==> id
                < load::configured(m, doc).tokens.len() && load::configured(m, doc).tokens[id]
                == m.tokens[id],
{
    let extra = load::config_tokens(doc);
    laws::absorbing_adds_what_is_new(m, extra);
    if !(doc.member("added_tokens_decoder"@) is Some && doc.member("added_tokens_decoder"@)->0
        is Object) {
        assert(extra =~= seq![]);
        assert(added::new_texts(m.added, extra) =~= Set::empty());
    }
}

} // verus!
