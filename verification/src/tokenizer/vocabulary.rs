//! The tables of a `tokenizer.json`: the vocabulary, the added tokens, the merges.
use super::bpe;
use super::bpe::key_of_pair;
use super::bytes;
use super::bytes::byte_to_char_table;
use crate::pyjson::value;
use crate::pyjson::value::{Json, Value};
use crate::text;
use crate::text::{debug_text, push_decimal, push_text, split_once, str_chars, to_owned_text, to_text};
use std::collections::HashMap;
use vstd::hash_map::StringHashMap;
use vstd::prelude::*;

verus! {

broadcast use vstd::std_specs::hash::group_hash_axioms;

// ---------------------------------------------------------------------------
// entries
// ---------------------------------------------------------------------------
/// The text of the member named `key`, where it is one.
pub open spec fn text_member(v: Json, key: Seq<char>) -> Option<Seq<char>> {
    match v.member(key) {
        Some(Json::Str(s)) => Some(s),
        _ => None,
    }
}

/// The text of the member named `key`, and nothing where it is none.
pub open spec fn text_or_empty(v: Json, key: Seq<char>) -> Seq<char> {
    match text_member(v, key) {
        Some(s) => s,
        None => seq![],
    }
}

/// The non-negative integer that `v` is, where it is one.
pub open spec fn id_in(v: Json) -> Option<int> {
    match v {
        Json::Int(i) => if 0 <= i <= u64::MAX {
            Some(i)
        } else {
            None
        },
        _ => None,
    }
}

/// An id as it is stored.
pub open spec fn word(id: int) -> u32 {
    (id % 0x1_0000_0000) as u32
}

/// The entries of a vocabulary, and the first error where one has one.
pub open spec fn vocab_entries(m: Seq<(Seq<char>, Json)>) -> Result<
    Seq<(Seq<char>, int)>,
    Seq<char>,
>
    decreases m.len(),
{
    if m.len() == 0 {
        Ok(seq![])
    } else {
        match vocab_entries(m.drop_last()) {
            Err(e) => Err(e),
            Ok(before) => match id_in(m.last().1) {
                Some(id) => Ok(before.push((m.last().0, id))),
                None => Err(
                    "vocab entry "@ + text::debug_form(m.last().0) + " has a non-integer id"@,
                ),
            },
        }
    }
}

/// One added token.
pub open spec fn added_entry(v: Json) -> Result<(Seq<char>, int), Seq<char>> {
    match text_member(v, "content"@) {
        None => Err("an added token has no content"@),
        Some(content) => {
            let id = match v.member("id"@) {
                Some(n) => id_in(n),
                None => None,
            };
            match id {
                Some(id) => Ok((content, id)),
                None => Err("added token "@ + text::debug_form(content) + " has no id"@),
            }
        },
    }
}

/// The entries of a list of added tokens, and the first error where one has one.
pub open spec fn added_entries(a: Seq<Json>) -> Result<Seq<(Seq<char>, int)>, Seq<char>>
    decreases a.len(),
{
    if a.len() == 0 {
        Ok(seq![])
    } else {
        match added_entries(a.drop_last()) {
            Err(e) => Err(e),
            Ok(before) => match added_entry(a.last()) {
                Err(e) => Err(e),
                Ok(entry) => Ok(before.push(entry)),
            },
        }
    }
}

/// How many ids it takes to have room for all of the entries: one more than the highest.
pub open spec fn room_for(entries: Seq<(Seq<char>, int)>) -> int
    decreases entries.len(),
{
    if entries.len() == 0 {
        1
    } else {
        let room = room_for(entries.drop_last());
        if room > entries.last().1 {
            room
        } else {
            entries.last().1 + 1
        }
    }
}

/// The entries with their ids as they are stored.
pub open spec fn stored(entries: Seq<(Seq<char>, int)>) -> Seq<(Seq<char>, u32)> {
    entries.map_values(|e: (Seq<char>, int)| (e.0, word(e.1)))
}

/// The vocabulary: for a text that is there twice the last entry counts.
pub open spec fn vocab_map(entries: Seq<(Seq<char>, int)>) -> Map<Seq<char>, u32>
    decreases entries.len(),
{
    if entries.len() == 0 {
        Map::empty()
    } else {
        vocab_map(entries.drop_last()).insert(entries.last().0, word(entries.last().1))
    }
}

// ---------------------------------------------------------------------------
// the token of each id
// ---------------------------------------------------------------------------
/// The tokens of the vocabulary, each at its id: of two with one id the later entry counts.
pub open spec fn vocab_slots(
    entries: Seq<(Seq<char>, int)>,
    vocab: Map<Seq<char>, u32>,
    room: nat,
) -> Seq<Option<Seq<char>>>
    decreases entries.len(),
{
    if entries.len() == 0 {
        Seq::new(room, |k: int| None)
    } else {
        let t = entries.last().0;
        vocab_slots(entries.drop_last(), vocab, room).update(vocab[t] as int, Some(t))
    }
}

/// The added tokens at the ids that are still free.
pub open spec fn fill_slots(
    slots: Seq<Option<Seq<char>>>,
    list: Seq<(Seq<char>, u32)>,
) -> Seq<Option<Seq<char>>>
    decreases list.len(),
{
    if list.len() == 0 {
        slots
    } else {
        let before = fill_slots(slots, list.drop_last());
        let id = list.last().1 as int;
        if before[id] is None {
            before.update(id, Some(list.last().0))
        } else {
            before
        }
    }
}

/// The token strings: an id without a token has the empty string.
pub open spec fn slot_texts(slots: Seq<Option<Seq<char>>>) -> Seq<Seq<char>> {
    slots.map_values(
        |s: Option<Seq<char>>|
            match s {
                Some(t) => t,
                None => Seq::<char>::empty(),
            },
    )
}

// ---------------------------------------------------------------------------
// bytes
// ---------------------------------------------------------------------------
/// How many of the bytes below `n` have no token of their own.
pub open spec fn missing_below(vocab: Map<Seq<char>, u32>, n: nat) -> nat
    decreases n,
{
    if n == 0 {
        0
    } else if vocab.contains_key(seq![bytes::byte_char((n - 1) as u8)]) {
        missing_below(vocab, (n - 1) as nat)
    } else {
        missing_below(vocab, (n - 1) as nat) + 1
    }
}

/// The id of each byte.
pub open spec fn byte_ids(vocab: Map<Seq<char>, u32>) -> Seq<u32> {
    Seq::new(256, |b: int| vocab[seq![bytes::byte_char(b as u8)]])
}

// ---------------------------------------------------------------------------
// merges
// ---------------------------------------------------------------------------
/// `merge {rank}`
pub open spec fn merge_name(rank: int) -> Seq<char> {
    "merge "@ + text::decimal(rank as nat)
}

/// The two sides of a merge: `["a", "b"]`, or the string `"a b"`.
pub open spec fn merge_sides(m: Json, rank: int) -> Result<(Seq<char>, Seq<char>), Seq<char>> {
    match m {
        Json::Str(s) => if text::has_text(s, " "@) {
            Ok((text::before_first(s, " "@), text::after_first(s, " "@)))
        } else {
            Err(merge_name(rank) + " is "@ + text::debug_form(s) + ", which has no space"@)
        },
        Json::Array(p) => if p.len() == 2 {
            Ok((side_text(p[0]), side_text(p[1])))
        } else {
            Err(merge_name(rank) + " is not a pair"@)
        },
        _ => Err(merge_name(rank) + " has an unknown shape"@),
    }
}

/// A text, and nothing for anything else.
pub open spec fn side_text(v: Json) -> Seq<char> {
    match v {
        Json::Str(s) => s,
        _ => seq![],
    }
}

/// One merge: the key of the pair, and what becomes of it.
pub open spec fn merge_entry(m: Json, rank: int, vocab: Map<Seq<char>, u32>) -> Result<
    (u64, (u32, u32)),
    Seq<char>,
> {
    match merge_sides(m, rank) {
        Err(e) => Err(e),
        Ok((left, right)) => if !vocab.contains_key(left) {
            Err(merge_name(rank) + ": "@ + text::debug_form(left) + " is not in the vocab"@)
        } else if !vocab.contains_key(right) {
            Err(merge_name(rank) + ": "@ + text::debug_form(right) + " is not in the vocab"@)
        } else if !vocab.contains_key(left + right) {
            Err(
                merge_name(rank) + ": "@ + text::debug_form(left) + "+"@ + text::debug_form(right)
                    + " has no vocabulary entry"@,
            )
        } else {
            Ok((bpe::pair_key(vocab[left], vocab[right]), (word(rank), vocab[left + right])))
        },
    }
}

/// The merge table, and the first error where a merge has one. For a pair that is there
/// twice the last merge counts.
pub open spec fn merge_table(a: Seq<Json>, vocab: Map<Seq<char>, u32>) -> Result<
    Map<u64, (u32, u32)>,
    Seq<char>,
>
    decreases a.len(),
{
    if a.len() == 0 {
        Ok(Map::empty())
    } else {
        match merge_table(a.drop_last(), vocab) {
            Err(e) => Err(e),
            Ok(before) => match merge_entry(a.last(), a.len() - 1, vocab) {
                Err(e) => Err(e),
                Ok((key, m)) => Ok(before.insert(key, m)),
            },
        }
    }
}

// ---------------------------------------------------------------------------
// reading them
// ---------------------------------------------------------------------------
/// Entries that were read.
pub open spec fn entries_view(list: Seq<(String, u64)>) -> Seq<(Seq<char>, int)> {
    list.map_values(|e: (String, u64)| (e.0@, e.1 as int))
}

/// Text made of three parts.
fn joined(a: &str, b: &str, c: &str) -> (r: String)
    ensures
        r@ == a@ + b@ + c@,
{
    let mut out = to_owned_text(a);
    push_text(&mut out, b);
    push_text(&mut out, c);
    out
}

/// The text of the member named `key`, where it is one.
pub(crate) fn get_text<'a>(v: &'a Value, key: &str) -> (r: Option<&'a str>)
    ensures
        match r {
            Some(s) => text_member(v@, key@) == Some(s@),
            None => text_member(v@, key@) is None,
        },
{
    match v.get(key) {
        Some(m) => m.as_str(),
        None => None,
    }
}

/// The text of the member named `key`, and nothing where it is none.
pub(crate) fn get_text_or_empty<'a>(v: &'a Value, key: &str) -> (r: &'a str)
    ensures
        r@ == text_or_empty(v@, key@),
{
    match get_text(v, key) {
        Some(s) => s,
        None => {
            proof {
                reveal_strlit("");
            }
            let empty: &'static str = "";
            assert(empty@ =~= seq![]);
            empty
        },
    }
}

/// The entries of a vocabulary.
pub(crate) fn read_vocab(kv: &Vec<(String, Value)>) -> (r: Result<Vec<(String, u64)>, String>)
    ensures
        match (r, vocab_entries(value::json_members(kv@))) {
            (Ok(v), Ok(s)) => entries_view(v@) == s,
            (Err(e), Err(s)) => e@ == s,
            _ => false,
        },
{
    let ghost m = value::json_members(kv@);
    let mut out: Vec<(String, u64)> = Vec::new();
    let mut i: usize = 0;
    assert(m.take(0) =~= seq![]);
    assert(entries_view(out@) =~= seq![]);
    while i < kv.len()
        invariant
            i <= kv.len(),
            m == value::json_members(kv@),
            vocab_entries(m.take(i as int)) == Ok::<_, Seq<char>>(entries_view(out@)),
        decreases kv.len() - i,
    {
        let ghost before = entries_view(out@);
        proof {
            assert(m.take(i + 1).drop_last() =~= m.take(i as int));
            assert(m.take(i + 1).last() == m[i as int]);
        }
        match kv[i].1.as_u64() {
            Some(id) => {
                out.push((kv[i].0.clone(), id));
                assert(entries_view(out@) =~= before.push((m[i as int].0, id as int)));
            },
            None => {
                let shown = debug_text(kv[i].0.as_str());
                proof {
                    lemma_vocab_error(m, i + 1);
                }
                return Err(joined("vocab entry ", shown.as_str(), " has a non-integer id"));
            },
        }
        i += 1;
    }
    assert(m.take(i as int) =~= m);
    Ok(out)
}

/// An error in front is the error of the whole.
proof fn lemma_vocab_error(m: Seq<(Seq<char>, Json)>, n: int)
    requires
        0 <= n <= m.len(),
        vocab_entries(m.take(n)) is Err,
    ensures
        vocab_entries(m) == vocab_entries(m.take(n)),
    decreases m.len(),
{
    if n == m.len() {
        assert(m.take(n) =~= m);
    } else {
        assert(m.drop_last().take(n) =~= m.take(n));
        lemma_vocab_error(m.drop_last(), n);
    }
}

/// One added token.
fn read_added_entry(v: &Value) -> (r: Result<(String, u64), String>)
    ensures
        match (r, added_entry(v@)) {
            (Ok(e), Ok(s)) => (e.0@, e.1 as int) == s,
            (Err(e), Err(s)) => e@ == s,
            _ => false,
        },
{
    match get_text(v, "content") {
        None => Err(to_owned_text("an added token has no content")),
        Some(content) => {
            let id: Option<u64> = match v.get("id") {
                Some(n) => n.as_u64(),
                None => None,
            };
            match id {
                Some(id) => Ok((to_owned_text(content), id)),
                None => {
                    let shown = debug_text(content);
                    Err(joined("added token ", shown.as_str(), " has no id"))
                },
            }
        },
    }
}

/// The entries of a list of added tokens.
pub(crate) fn read_added(a: &[Value]) -> (r: Result<Vec<(String, u64)>, String>)
    ensures
        match (r, added_entries(value::json_items(a@))) {
            (Ok(v), Ok(s)) => entries_view(v@) == s,
            (Err(e), Err(s)) => e@ == s,
            _ => false,
        },
{
    let ghost m = value::json_items(a@);
    let mut out: Vec<(String, u64)> = Vec::new();
    let mut i: usize = 0;
    assert(m.take(0) =~= seq![]);
    assert(entries_view(out@) =~= seq![]);
    while i < a.len()
        invariant
            i <= a.len(),
            m == value::json_items(a@),
            added_entries(m.take(i as int)) == Ok::<_, Seq<char>>(entries_view(out@)),
        decreases a.len() - i,
    {
        let ghost before = entries_view(out@);
        proof {
            assert(m.take(i + 1).drop_last() =~= m.take(i as int));
            assert(m.take(i + 1).last() == m[i as int]);
        }
        match read_added_entry(&a[i]) {
            Ok(entry) => {
                let ghost e = (entry.0@, entry.1 as int);
                out.push(entry);
                assert(entries_view(out@) =~= before.push(e));
            },
            Err(e) => {
                proof {
                    lemma_added_error(m, i + 1);
                }
                return Err(e);
            },
        }
        i += 1;
    }
    assert(m.take(i as int) =~= m);
    Ok(out)
}

proof fn lemma_added_error(m: Seq<Json>, n: int)
    requires
        0 <= n <= m.len(),
        added_entries(m.take(n)) is Err,
    ensures
        added_entries(m) == added_entries(m.take(n)),
    decreases m.len(),
{
    if n == m.len() {
        assert(m.take(n) =~= m);
    } else {
        assert(m.drop_last().take(n) =~= m.take(n));
        lemma_added_error(m.drop_last(), n);
    }
}

/// An id as it is stored.
fn stored_id(id: u64) -> (r: u32)
    ensures
        r == word(id as int),
{
    (id % 0x1_0000_0000) as u32
}

/// The entries with their ids as they are stored.
pub(crate) fn stored_entries(entries: &Vec<(String, u64)>) -> (r: Vec<(String, u32)>)
    ensures
        super::added::added_view(r@) == stored(entries_view(entries@)),
{
    let ghost e = entries_view(entries@);
    let mut out: Vec<(String, u32)> = Vec::new();
    let mut i: usize = 0;
    while i < entries.len()
        invariant
            i <= entries.len(),
            e == entries_view(entries@),
            out.len() == i,
            forall|k: int| 0 <= k < i ==> super::added::added_view(out@)[k] == stored(e)[k],
        decreases entries.len() - i,
    {
        let ghost before = super::added::added_view(out@);
        out.push((entries[i].0.clone(), stored_id(entries[i].1)));
        proof {
            let now = super::added::added_view(out@);
            assert(now[i as int] == stored(e)[i as int]);
            assert forall|k: int| 0 <= k < i + 1 implies now[k] == stored(e)[k] by {
                if k < i {
                    assert(now[k] == before[k]);
                }
            }
        }
        i += 1;
    }
    assert(super::added::added_view(out@) =~= stored(e));
    out
}

/// How many ids it takes to have room for all of the entries, where that can be counted.
pub(crate) fn room_of(entries: &Vec<(String, u64)>) -> (r: Option<usize>)
    ensures
        match r {
            Some(n) => n == room_for(entries_view(entries@)),
            None => room_for(entries_view(entries@)) > usize::MAX,
        },
{
    let ghost e = entries_view(entries@);
    let mut room: usize = 1;
    let mut i: usize = 0;
    while i < entries.len()
        invariant
            i <= entries.len(),
            e == entries_view(entries@),
            room == room_for(e.take(i as int)),
        decreases entries.len() - i,
    {
        proof {
            assert(e.take(i + 1).drop_last() =~= e.take(i as int));
            assert(e.take(i + 1).last() == e[i as int]);
        }
        let id: u64 = entries[i].1;
        if id >= room as u64 {
            if id >= usize::MAX as u64 {
                proof {
                    lemma_room_prefix(e, i + 1);
                }
                return None;
            }
            room = id as usize + 1;
        }
        i += 1;
    }
    assert(e.take(i as int) =~= e);
    Some(room)
}

pub proof fn lemma_room_prefix(e: Seq<(Seq<char>, int)>, n: int)
    requires
        0 <= n <= e.len(),
    ensures
        room_for(e.take(n)) <= room_for(e),
    decreases e.len(),
{
    if n == e.len() {
        assert(e.take(n) =~= e);
    } else {
        assert(e.drop_last().take(n) =~= e.take(n));
        lemma_room_prefix(e.drop_last(), n);
    }
}

/// Every entry has room.
pub proof fn lemma_room(e: Seq<(Seq<char>, int)>, k: int)
    requires
        0 <= k < e.len(),
    ensures
        e[k].1 < room_for(e),
    decreases e.len(),
{
    if k < e.len() - 1 {
        lemma_room(e.drop_last(), k);
        assert(e.drop_last()[k] == e[k]);
    }
}

/// The vocabulary.
pub(crate) fn build_vocab(entries: &Vec<(String, u64)>) -> (r: StringHashMap<u32>)
    ensures
        r@ == vocab_map(entries_view(entries@)),
{
    let ghost e = entries_view(entries@);
    let mut vocab: StringHashMap<u32> = StringHashMap::new();
    let mut i: usize = 0;
    while i < entries.len()
        invariant
            i <= entries.len(),
            e == entries_view(entries@),
            vocab@ == vocab_map(e.take(i as int)),
        decreases entries.len() - i,
    {
        proof {
            assert(e.take(i + 1).drop_last() =~= e.take(i as int));
            assert(e.take(i + 1).last() == e[i as int]);
        }
        vocab.insert(entries[i].0.clone(), stored_id(entries[i].1));
        i += 1;
    }
    assert(e.take(i as int) =~= e);
    vocab
}

/// What the vocabulary says of the text of an entry is the id of one of the entries.
pub proof fn lemma_vocab_map(e: Seq<(Seq<char>, int)>, t: Seq<char>)
    ensures
        vocab_map(e).contains_key(t) <==> exists|k: int| 0 <= k < e.len() && (#[trigger] e[k]).0
            == t,
        vocab_map(e).contains_key(t) ==> exists|k: int|
            0 <= k < e.len() && (#[trigger] e[k]).0 == t && vocab_map(e)[t] == word(e[k].1),
    decreases e.len(),
{
    if e.len() > 0 {
        let shorter = e.drop_last();
        lemma_vocab_map(shorter, t);
        if e.last().0 == t {
            assert(e[e.len() - 1].0 == t);
        } else {
            if vocab_map(shorter).contains_key(t) {
                let k = choose|k: int|
                    0 <= k < shorter.len() && (#[trigger] shorter[k]).0 == t && vocab_map(
                        shorter,
                    )[t] == word(shorter[k].1);
                assert(e[k] == shorter[k]);
            }
            if exists|k: int| 0 <= k < e.len() && (#[trigger] e[k]).0 == t {
                let k = choose|k: int| 0 <= k < e.len() && (#[trigger] e[k]).0 == t;
                assert(shorter[k] == e[k]);
            }
        }
    }
}

/// The id of an entry's text has room.
proof fn lemma_vocab_room(e: Seq<(Seq<char>, int)>, i: int)
    requires
        0 <= i < e.len(),
        forall|k: int| 0 <= k < e.len() ==> 0 <= (#[trigger] e[k]).1,
    ensures
        vocab_map(e).contains_key(e[i].0),
        vocab_map(e)[e[i].0] < room_for(e),
{
    let t = e[i].0;
    lemma_vocab_map(e, t);
    assert(e[i].0 == t);
    let k = choose|k: int|
        0 <= k < e.len() && (#[trigger] e[k]).0 == t && vocab_map(e)[t] == word(e[k].1);
    lemma_room(e, k);
    assert(word(e[k].1) <= e[k].1);
}

/// Slots that were filled.
pub open spec fn slots_view(slots: Seq<Option<String>>) -> Seq<Option<Seq<char>>> {
    slots.map_values(
        |s: Option<String>|
            match s {
                Some(t) => Some(t@),
                None => None,
            },
    )
}

/// The tokens of the vocabulary, each at its id.
pub(crate) fn build_slots(
    entries: &Vec<(String, u64)>,
    vocab: &StringHashMap<u32>,
    room: usize,
) -> (r: Vec<Option<String>>)
    requires
        vocab@ == vocab_map(entries_view(entries@)),
        room >= room_for(entries_view(entries@)),
    ensures
        slots_view(r@) == vocab_slots(entries_view(entries@), vocab@, room as nat),
        r.len() == room,
{
    let ghost e = entries_view(entries@);
    let mut out: Vec<Option<String>> = Vec::new();
    let mut n: usize = 0;
    while n < room
        invariant
            n <= room,
            out.len() == n,
            forall|k: int| 0 <= k < n ==> (#[trigger] out@[k]) is None,
        decreases room - n,
    {
        out.push(None);
        n += 1;
    }
    assert(slots_view(out@) =~= vocab_slots(e.take(0), vocab@, room as nat));
    let mut i: usize = 0;
    while i < entries.len()
        invariant
            i <= entries.len(),
            e == entries_view(entries@),
            vocab@ == vocab_map(e),
            room >= room_for(e),
            out.len() == room,
            slots_view(out@) == vocab_slots(e.take(i as int), vocab@, room as nat),
        decreases entries.len() - i,
    {
        let ghost before = slots_view(out@);
        proof {
            assert(e.take(i + 1).drop_last() =~= e.take(i as int));
            assert(e.take(i + 1).last() == e[i as int]);
            lemma_vocab_room(e, i as int);
            assert(e[i as int].0 == entries[i as int].0@);
        }
        if let Some(id) = vocab.get(entries[i].0.as_str()) {
            out.set(*id as usize, Some(entries[i].0.clone()));
            assert(slots_view(out@) =~= before.update(*id as int, Some(e[i as int].0)));
        }
        i += 1;
    }
    assert(e.take(i as int) =~= e);
    out
}

/// Puts the added tokens at the ids that are still free.
pub(crate) fn fill(slots: &mut Vec<Option<String>>, list: &Vec<(String, u32)>)
    requires
        forall|k: int| 0 <= k < list.len() ==> (#[trigger] list[k]).1 < old(slots).len(),
    ensures
        slots_view(final(slots)@) == fill_slots(
            slots_view(old(slots)@),
            super::added::added_view(list@),
        ),
        final(slots).len() == old(slots).len(),
{
    let ghost first = slots_view(slots@);
    let ghost size = slots.len();
    let ghost l = super::added::added_view(list@);
    let mut i: usize = 0;
    assert(l.take(0) =~= seq![]);
    while i < list.len()
        invariant
            i <= list.len(),
            slots.len() == size,
            forall|k: int| 0 <= k < list.len() ==> (#[trigger] list[k]).1 < size,
            l == super::added::added_view(list@),
            slots_view(slots@) == fill_slots(first, l.take(i as int)),
        decreases list.len() - i,
    {
        let ghost before = slots_view(slots@);
        proof {
            assert(l.take(i + 1).drop_last() =~= l.take(i as int));
            assert(l.take(i + 1).last() == l[i as int]);
            assert(list[i as int].1 < size);
        }
        let id: usize = list[i].1 as usize;
        assert(before[id as int] is None <==> slots@[id as int] is None);
        if slots[id].is_none() {
            slots.set(id, Some(list[i].0.clone()));
            assert(slots_view(slots@) =~= before.update(id as int, Some(l[i as int].0)));
        }
        i += 1;
    }
    assert(l.take(i as int) =~= l);
}

/// The token strings.
pub(crate) fn slot_strings(slots: &Vec<Option<String>>) -> (r: Vec<String>)
    ensures
        super::model::texts(r@) == slot_texts(slots_view(slots@)),
{
    let ghost s = slot_texts(slots_view(slots@));
    let mut out: Vec<String> = Vec::new();
    let mut i: usize = 0;
    while i < slots.len()
        invariant
            i <= slots.len(),
            s == slot_texts(slots_view(slots@)),
            out.len() == i,
            forall|k: int| 0 <= k < i ==> super::model::texts(out@)[k] == s[k],
        decreases slots.len() - i,
    {
        let ghost before = super::model::texts(out@);
        let t: String = match &slots[i] {
            Some(t) => t.clone(),
            None => String::new(),
        };
        assert(t@ == s[i as int]);
        out.push(t);
        proof {
            let now = super::model::texts(out@);
            assert forall|k: int| 0 <= k < i + 1 implies now[k] == s[k] by {
                if k < i {
                    assert(now[k] == before[k]);
                }
            }
        }
        i += 1;
    }
    assert(super::model::texts(out@) =~= s);
    out
}

/// The id of each byte, and how many bytes have none.
pub(crate) fn read_byte_ids(vocab: &StringHashMap<u32>) -> (r: ([u32; 256], usize))
    ensures
        r.1 == missing_below(vocab@, 256),
        r.1 == 0 ==> r.0@ == byte_ids(vocab@),
{
    let table: [char; 256] = byte_to_char_table();
    let mut ids: [u32; 256] = [0;256];
    let mut missing: usize = 0;
    let mut b: usize = 0;
    while b < 256
        invariant
            b <= 256,
            forall|x: u8| #[trigger] table@[x as int] == bytes::byte_char(x),
            missing == missing_below(vocab@, b as nat),
            missing <= b,
            missing == 0 ==> forall|k: int| 0 <= k < b ==> ids@[k] == byte_ids(vocab@)[k],
        decreases 256 - b,
    {
        let ghost before = ids@;
        let mut one = String::new();
        one.push(table[b]);
        proof {
            assert(table@[(b as u8) as int] == bytes::byte_char(b as u8));
            assert(one@ =~= seq![bytes::byte_char(b as u8)]);
        }
        match vocab.get(one.as_str()) {
            Some(id) => {
                ids[b] = *id;
            },
            None => {
                missing += 1;
            },
        }
        b += 1;
    }
    assert(missing == 0 ==> ids@ =~= byte_ids(vocab@));
    (ids, missing)
}

/// The start of a message about a merge.
fn merge_message(rank: usize) -> (r: String)
    ensures
        r@ == merge_name(rank as int),
{
    let mut out = to_owned_text("merge ");
    push_decimal(&mut out, rank as u128);
    out
}

/// The two sides of a merge.
fn read_sides(m: &Value, rank: usize) -> (r: Result<(String, String), String>)
    ensures
        match (r, merge_sides(m@, rank as int)) {
            (Ok(p), Ok(s)) => (p.0@, p.1@) == s,
            (Err(e), Err(s)) => e@ == s,
            _ => false,
        },
{
    match m {
        Value::Str(s) => {
            let c = str_chars(s.as_str());
            match split_once(c.as_slice(), " ") {
                Some((a, b)) => Ok((to_text(a), to_text(b))),
                None => {
                    let mut e = merge_message(rank);
                    push_text(&mut e, " is ");
                    let shown = debug_text(s.as_str());
                    push_text(&mut e, shown.as_str());
                    push_text(&mut e, ", which has no space");
                    Err(e)
                },
            }
        },
        Value::Array(p) => {
            proof {
                value::lemma_array_view(*p);
            }
            if p.len() == 2 {
                Ok((side(&p[0]), side(&p[1])))
            } else {
                let mut e = merge_message(rank);
                push_text(&mut e, " is not a pair");
                Err(e)
            }
        },
        _ => {
            let mut e = merge_message(rank);
            push_text(&mut e, " has an unknown shape");
            Err(e)
        },
    }
}

/// A text, and nothing for anything else.
fn side(v: &Value) -> (r: String)
    ensures
        r@ == side_text(v@),
{
    match v.as_str() {
        Some(s) => to_owned_text(s),
        None => String::new(),
    }
}

/// What is wrong with a merge one of whose sides is not in the vocabulary.
fn side_error(rank: usize, text: &str) -> (r: String)
    ensures
        r@ == merge_name(rank as int) + ": "@ + text::debug_form(text@) + " is not in the vocab"@,
{
    let mut e = merge_message(rank);
    push_text(&mut e, ": ");
    let shown = debug_text(text);
    push_text(&mut e, shown.as_str());
    push_text(&mut e, " is not in the vocab");
    e
}

/// One merge.
fn read_merge(m: &Value, rank: usize, vocab: &StringHashMap<u32>) -> (r: Result<
    (u64, (u32, u32)),
    String,
>)
    ensures
        match (r, merge_entry(m@, rank as int, vocab@)) {
            (Ok(p), Ok(s)) => p == s,
            (Err(e), Err(s)) => e@ == s,
            _ => false,
        },
{
    let (left, right) = match read_sides(m, rank) {
        Ok(p) => p,
        Err(e) => {
            return Err(e);
        },
    };
    let li: u32 = match vocab.get(left.as_str()) {
        Some(id) => *id,
        None => {
            return Err(side_error(rank, left.as_str()));
        },
    };
    let ri: u32 = match vocab.get(right.as_str()) {
        Some(id) => *id,
        None => {
            return Err(side_error(rank, right.as_str()));
        },
    };
    let mut both = left.clone();
    push_text(&mut both, right.as_str());
    match vocab.get(both.as_str()) {
        Some(id) => Ok((key_of_pair(li, ri), (stored_id(rank as u64), *id))),
        None => {
            let mut e = merge_message(rank);
            push_text(&mut e, ": ");
            let a = debug_text(left.as_str());
            push_text(&mut e, a.as_str());
            push_text(&mut e, "+");
            let b = debug_text(right.as_str());
            push_text(&mut e, b.as_str());
            push_text(&mut e, " has no vocabulary entry");
            Err(e)
        },
    }
}

/// The merge table.
pub(crate) fn read_merges(a: &[Value], vocab: &StringHashMap<u32>) -> (r: Result<
    HashMap<u64, (u32, u32)>,
    String,
>)
    ensures
        match (r, merge_table(value::json_items(a@), vocab@)) {
            (Ok(t), Ok(s)) => t@ == s,
            (Err(e), Err(s)) => e@ == s,
            _ => false,
        },
{
    let ghost m = value::json_items(a@);
    let mut table: HashMap<u64, (u32, u32)> = HashMap::new();
    let mut i: usize = 0;
    assert(m.take(0) =~= seq![]);
    while i < a.len()
        invariant
            i <= a.len(),
            m == value::json_items(a@),
            merge_table(m.take(i as int), vocab@) == Ok::<_, Seq<char>>(table@),
        decreases a.len() - i,
    {
        proof {
            assert(m.take(i + 1).drop_last() =~= m.take(i as int));
            assert(m.take(i + 1).last() == m[i as int]);
        }
        match read_merge(&a[i], i, vocab) {
            Ok((key, entry)) => {
                table.insert(key, entry);
            },
            Err(e) => {
                proof {
                    lemma_merge_error(m, vocab@, i + 1);
                }
                return Err(e);
            },
        }
        i += 1;
    }
    assert(m.take(i as int) =~= m);
    Ok(table)
}

proof fn lemma_merge_error(m: Seq<Json>, vocab: Map<Seq<char>, u32>, n: int)
    requires
        0 <= n <= m.len(),
        merge_table(m.take(n), vocab) is Err,
    ensures
        merge_table(m, vocab) == merge_table(m.take(n), vocab),
    decreases m.len(),
{
    if n == m.len() {
        assert(m.take(n) =~= m);
    } else {
        assert(m.drop_last().take(n) =~= m.take(n));
        lemma_merge_error(m.drop_last(), vocab, n);
    }
}

} // verus!
