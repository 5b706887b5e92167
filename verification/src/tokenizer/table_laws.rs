//! What a loaded tokenizer holds, in terms of the document it was loaded from.
use super::bpe;
use super::bytes;
use super::laws;
use super::load;
use super::vocabulary;
use crate::pyjson::value::Json;
use crate::search;
use crate::text;
use vstd::prelude::*;

verus! {

pub(crate) proof fn lemma_entries(m: Seq<(Seq<char>, Json)>)
    ensures
        match vocabulary::vocab_entries(m) {
            Ok(e) => e.len() == m.len() && forall|k: int|
                #![trigger e[k]]
                #![trigger m[k]]
                0 <= k < m.len() ==> e[k].0 == m[k].0 && m[k].1 == Json::Int(e[k].1) && 0 <= e[k].1
                    <= u64::MAX,
            Err(_) => exists|k: int|
                0 <= k < m.len() && !((#[trigger] m[k]).1 matches Json::Int(i) && 0 <= i
                    <= u64::MAX),
        },
    decreases m.len(),
{
    if m.len() > 0 {
        let init = m.drop_last();
        lemma_entries(init);
        match vocabulary::vocab_entries(init) {
            Ok(before) => {
                if let Ok(e) = vocabulary::vocab_entries(m) {
                    assert forall|k: int| 0 <= k < m.len() implies e[k].0 == m[k].0 && m[k].1
                        == Json::Int(e[k].1) && 0 <= e[k].1 <= u64::MAX by {
                        if k < init.len() {
                            assert(init[k] == m[k]);
                            assert(e[k] == before[k]);
                        }
                    }
                } else {
                    assert(m[m.len() - 1] == m.last());
                }
            },
            Err(_) => {
                let k = choose|k: int|
                    0 <= k < init.len() && !((#[trigger] init[k]).1 matches Json::Int(i) && 0 <= i
                        <= u64::MAX);
                assert(m[k] == init[k]);
            },
        }
    }
}

pub(crate) proof fn lemma_lookup(e: Seq<(Seq<char>, int)>, i: int)
    requires
        0 <= i < e.len(),
        forall|j: int| i < j < e.len() ==> (#[trigger] e[j]).0 != e[i].0,
    ensures
        vocabulary::vocab_map(e).contains_key(e[i].0),
        vocabulary::vocab_map(e)[e[i].0] == vocabulary::word(e[i].1),
    decreases e.len(),
{
    if i < e.len() - 1 {
        assert(e[e.len() - 1].0 != e[i].0);
        assert forall|j: int| i < j < e.drop_last().len() implies (#[trigger] e.drop_last()[j]).0
            != e.drop_last()[i].0 by {
            assert(e[j].0 != e[i].0);
        }
        lemma_lookup(e.drop_last(), i);
    }
}

proof fn lemma_merge_at(a: Seq<Json>, vocab: Map<Seq<char>, u32>, k: int)
    requires
        vocabulary::merge_table(a, vocab) is Ok,
        0 <= k < a.len(),
    ensures
        vocabulary::merge_entry(a[k], k, vocab) is Ok,
        (forall|j: int|
            k < j < a.len() ==> vocabulary::merge_entry(#[trigger] a[j], j, vocab)->Ok_0.0
                != vocabulary::merge_entry(a[k], k, vocab)->Ok_0.0) ==> {
            let (key, entry) = vocabulary::merge_entry(a[k], k, vocab)->Ok_0;
            let table = vocabulary::merge_table(a, vocab)->Ok_0;
            table.contains_key(key) && table[key] == entry
        },
    decreases a.len(),
{
    let init = a.drop_last();
    if k < init.len() {
        lemma_merge_at(init, vocab, k);
        assert(init[k] == a[k]);
        if forall|j: int|
            k < j < a.len() ==> vocabulary::merge_entry(#[trigger] a[j], j, vocab)->Ok_0.0
                != vocabulary::merge_entry(a[k], k, vocab)->Ok_0.0 {
            assert forall|j: int| k < j < init.len() implies vocabulary::merge_entry(
                #[trigger] init[j],
                j,
                vocab,
            )->Ok_0.0 != vocabulary::merge_entry(init[k], k, vocab)->Ok_0.0 by {
                assert(init[j] == a[j]);
            }
            assert(a[a.len() - 1] == a.last());
        }
    }
}

proof fn lemma_keys_are_listed(a: Seq<Json>, vocab: Map<Seq<char>, u32>, key: u64)
    requires
        vocabulary::merge_table(a, vocab) is Ok,
        vocabulary::merge_table(a, vocab)->Ok_0.contains_key(key),
    ensures
        exists|k: int|
            0 <= k < a.len() && vocabulary::merge_entry(#[trigger] a[k], k, vocab)->Ok_0.0 == key,
    decreases a.len(),
{
    if a.len() > 0 {
        let init = a.drop_last();
        if vocabulary::merge_entry(a.last(), a.len() - 1, vocab)->Ok_0.0 == key {
            assert(a[a.len() - 1] == a.last());
        } else {
            lemma_keys_are_listed(init, vocab, key);
            let k = choose|k: int|
                0 <= k < init.len() && vocabulary::merge_entry(#[trigger] init[k], k, vocab)->Ok_0.0
                    == key;
            assert(a[k] == init[k]);
        }
    }
}

/// **What is loaded is byte-level BPE**: the model says so, has no unknown token and no byte
/// fallback, the text is normalized to NFC, cut by one of the two patterns and spelled in
/// bytes. Marks join letters exactly with the pattern that says so.
pub proof fn what_is_loaded_is_byte_level(doc: Json, normalizer: Seq<char>)
    requires
        load::loaded(doc, normalizer) is Ok,
    ensures
        ({
            let m = load::loaded(doc, normalizer)->Ok_0.0;
            let model = doc.member("model"@)->0;
            let subs = doc.member("pre_tokenizer"@)->0.member("pretokenizers"@)->0->Array_0;
            let pattern = subs[0].member("pattern"@)->0.member("Regex"@);
            &&& doc.member("model"@) is Some
            &&& model.member("type"@) == Some(Json::Str("BPE"@))
            &&& model.member("byte_fallback"@) != Some(Json::Bool(true))
            &&& !(model.member("unk_token"@) matches Some(Json::Str(_)))
            &&& model.member("vocab"@) matches Some(Json::Object(_))
            &&& model.member("merges"@) matches Some(Json::Array(_))
            &&& doc.member("normalizer"@) matches Some(n) && n.member("type"@) == Some(
                Json::Str("NFC"@),
            )
            &&& doc.member("decoder"@) matches Some(d) && d.member("type"@) == Some(
                Json::Str("ByteLevel"@),
            )
            &&& subs.len() == 2
            &&& subs[1].member("type"@) == Some(Json::Str("ByteLevel"@))
            &&& pattern == Some(Json::Str(load::PRETOKENIZE_REGEX_WITH_MARKS@)) || pattern == Some(
                Json::Str(load::PRETOKENIZE_REGEX_NO_MARKS@),
            )
            &&& m.marks <==> pattern == Some(Json::Str(load::PRETOKENIZE_REGEX_WITH_MARKS@))
        }),
{
    reveal_strlit("BPE");
    reveal_strlit("NFC");
    reveal_strlit("ByteLevel");
    let none = Seq::<char>::empty();
    assert("BPE"@ != none && "NFC"@ != none && "ByteLevel"@ != none) by {
        assert("BPE"@.len() == 3 && "NFC"@.len() == 3 && "ByteLevel"@.len() == 9);
    }
}

/// **A byte is spelled by the token of its character**: its id is that of the last entry of the
/// vocabulary with that text.
pub proof fn bytes_have_the_ids_of_their_characters(
    doc: Json,
    normalizer: Seq<char>,
    b: u8,
    i: int,
)
    requires
        load::loaded(doc, normalizer) is Ok,
        ({
            let members = doc.member("model"@)->0.member("vocab"@)->0->Object_0;
            &&& 0 <= i < members.len()
            &&& members[i].0 == seq![bytes::byte_char(b)]
            &&& forall|j: int| i < j < members.len() ==> (#[trigger] members[j]).0 != members[i].0
            &&& members[i].1->Int_0 <= u32::MAX
        }),
    ensures
        ({
            let m = load::loaded(doc, normalizer)->Ok_0.0;
            let members = doc.member("model"@)->0.member("vocab"@)->0->Object_0;
            m.byte_ids.len() == 256 && members[i].1 == Json::Int(m.byte_ids[b as int] as int)
        }),
{
    let members = doc.member("model"@)->0.member("vocab"@)->0->Object_0;
    let e = vocabulary::vocab_entries(members)->Ok_0;
    lemma_entries(members);
    assert(e[i].0 == members[i].0);
    assert forall|j: int| i < j < e.len() implies (#[trigger] e[j]).0 != e[i].0 by {
        assert(members[j].0 != members[i].0);
    }
    lemma_lookup(e, i);
}

/// **A merge ranks by its place in the list.** A pair of texts, given as such or with a space
/// between them, becomes what the two are together, at the rank of the last merge that lists the
/// pair. `i`, `j` and `n` are the last entries of the vocabulary for the two and for both.
pub proof fn a_merge_ranks_by_its_place(
    doc: Json,
    normalizer: Seq<char>,
    k: int,
    i: int,
    j: int,
    n: int,
)
    requires
        load::loaded(doc, normalizer) is Ok,
        ({
            let members = doc.member("model"@)->0.member("vocab"@)->0->Object_0;
            let merges = doc.member("model"@)->0.member("merges"@)->0->Array_0;
            let vocab = vocabulary::vocab_map(vocabulary::vocab_entries(members)->Ok_0);
            &&& 0 <= i < members.len()
            &&& 0 <= j < members.len()
            &&& 0 <= n < members.len()
            &&& forall|x: int| i < x < members.len() ==> (#[trigger] members[x]).0 != members[i].0
            &&& forall|x: int| j < x < members.len() ==> (#[trigger] members[x]).0 != members[j].0
            &&& forall|x: int| n < x < members.len() ==> (#[trigger] members[x]).0 != members[n].0
            &&& members[n].0 == members[i].0 + members[j].0
            &&& members[i].1->Int_0 <= u32::MAX
            &&& members[j].1->Int_0 <= u32::MAX
            &&& members[n].1->Int_0 <= u32::MAX
            &&& 0 <= k < merges.len() <= u32::MAX
            &&& merges[k] == Json::Array(
                seq![Json::Str(members[i].0), Json::Str(members[j].0)],
            ) || (merges[k] == Json::Str(members[i].0 + seq![' '] + members[j].0)
                && !members[i].0.contains(' '))
            &&& forall|x: int|
                k < x < merges.len() ==> vocabulary::merge_entry(#[trigger] merges[x], x, vocab)->Ok_0.0
                    != bpe::pair_key(members[i].1->Int_0 as u32, members[j].1->Int_0 as u32)
        }),
    ensures
        ({
            let m = load::loaded(doc, normalizer)->Ok_0.0;
            let members = doc.member("model"@)->0.member("vocab"@)->0->Object_0;
            let key = bpe::pair_key(members[i].1->Int_0 as u32, members[j].1->Int_0 as u32);
            m.merges.contains_key(key) && m.merges[key] == (
                k as u32,
                members[n].1->Int_0 as u32,
            )
        }),
{
    let members = doc.member("model"@)->0.member("vocab"@)->0->Object_0;
    let merges = doc.member("model"@)->0.member("merges"@)->0->Array_0;
    let e = vocabulary::vocab_entries(members)->Ok_0;
    let vocab = vocabulary::vocab_map(e);
    lemma_entries(members);
    assert(e[i].0 == members[i].0 && e[j].0 == members[j].0 && e[n].0 == members[n].0);
    assert forall|x: int| i < x < e.len() implies (#[trigger] e[x]).0 != e[i].0 by {
        assert(members[x].0 != members[i].0);
    }
    assert forall|x: int| j < x < e.len() implies (#[trigger] e[x]).0 != e[j].0 by {
        assert(members[x].0 != members[j].0);
    }
    assert forall|x: int| n < x < e.len() implies (#[trigger] e[x]).0 != e[n].0 by {
        assert(members[x].0 != members[n].0);
    }
    lemma_lookup(e, i);
    lemma_lookup(e, j);
    lemma_lookup(e, n);
    lemma_merge_at(merges, vocab, k);
    let left = members[i].0;
    let right = members[j].0;
    if let Json::Str(s) = merges[k] {
        reveal_strlit(" ");
        let sep = " "@;
        assert(sep =~= seq![' ']);
        assert(s.subrange(left.len() as int, left.len() + 1int) =~= sep);
        assert(text::matches_at(s, sep, left.len() as int));
        assert forall|x: int| 0 <= x < left.len() implies !#[trigger] text::matches_at(
            s,
            sep,
            x,
        ) by {
            if text::matches_at(s, sep, x) {
                assert(s.subrange(x, x + 1)[0] == sep[0]);
                assert(left[x] == ' ');
            }
        }
        search::lemma_first_is(s, sep, left.len() as int);
        assert(text::before_first(s, sep) =~= left);
        assert(text::after_first(s, sep) =~= right);
    }
}

/// **Every merge comes from the list**: there is none for a pair that no merge lists.
pub proof fn no_merge_is_made_up(doc: Json, normalizer: Seq<char>, key: u64) -> (k: int)
    requires
        load::loaded(doc, normalizer) is Ok,
        load::loaded(doc, normalizer)->Ok_0.0.merges.contains_key(key),
    ensures
        ({
            let members = doc.member("model"@)->0.member("vocab"@)->0->Object_0;
            let merges = doc.member("model"@)->0.member("merges"@)->0->Array_0;
            let vocab = vocabulary::vocab_map(vocabulary::vocab_entries(members)->Ok_0);
            let (left, right) = vocabulary::merge_sides(merges[k], k)->Ok_0;
            &&& 0 <= k < merges.len()
            &&& vocab.contains_key(left)
            &&& vocab.contains_key(right)
            &&& key == bpe::pair_key(vocab[left], vocab[right])
        }),
{
    let members = doc.member("model"@)->0.member("vocab"@)->0->Object_0;
    let merges = doc.member("model"@)->0.member("merges"@)->0->Array_0;
    let vocab = vocabulary::vocab_map(vocabulary::vocab_entries(members)->Ok_0);
    lemma_keys_are_listed(merges, vocab, key);
    let k = choose|k: int|
        0 <= k < merges.len() && vocabulary::merge_entry(#[trigger] merges[k], k, vocab)->Ok_0.0
            == key;
    lemma_merge_at(merges, vocab, k);
    k
}

proof fn lemma_added(a: Seq<Json>)
    requires
        vocabulary::added_entries(a) is Ok,
    ensures
        vocabulary::added_entries(a)->Ok_0.len() == a.len(),
        forall|k: int|
            #![trigger a[k]]
            0 <= k < a.len() ==> a[k].member("content"@) == Some(
                Json::Str(vocabulary::added_entries(a)->Ok_0[k].0),
            ) && a[k].member("id"@) == Some(Json::Int(vocabulary::added_entries(a)->Ok_0[k].1))
                && 0 <= vocabulary::added_entries(a)->Ok_0[k].1 <= u64::MAX,
    decreases a.len(),
{
    if a.len() > 0 {
        let init = a.drop_last();
        lemma_added(init);
        assert forall|k: int| 0 <= k < a.len() implies (#[trigger] a[k]).member("content"@)
            == Some(Json::Str(vocabulary::added_entries(a)->Ok_0[k].0)) && a[k].member("id"@)
            == Some(Json::Int(vocabulary::added_entries(a)->Ok_0[k].1)) && 0
            <= vocabulary::added_entries(a)->Ok_0[k].1 <= u64::MAX by {
            if k < init.len() {
                assert(init[k] == a[k]);
            }
        }
    }
}

/// **The added tokens are those of the list**, each with its text and its id, and as often.
pub proof fn the_listed_tokens_are_added(doc: Json, normalizer: Seq<char>)
    requires
        load::loaded(doc, normalizer) is Ok,
        doc.member("added_tokens"@) matches Some(Json::Array(a)) ==> forall|k: int|
            0 <= k < a.len() ==> (#[trigger] a[k]).member("id"@)->0->Int_0 <= u32::MAX,
    ensures
        ({
            let m = load::loaded(doc, normalizer)->Ok_0.0;
            match doc.member("added_tokens"@) {
                Some(Json::Array(a)) => m.added.to_multiset() == Seq::new(
                    a.len(),
                    |k: int|
                        (
                            a[k].member("content"@)->0->Str_0,
                            a[k].member("id"@)->0->Int_0 as u32,
                        ),
                ).to_multiset(),
                _ => m.added.len() == 0,
            }
        }),
{
    match doc.member("added_tokens"@) {
        Some(Json::Array(a)) => {
            lemma_added(a);
            let more = vocabulary::added_entries(a)->Ok_0;
            laws::in_order_sorts(vocabulary::stored(more));
            assert(vocabulary::stored(more) =~= Seq::new(
                a.len(),
                |k: int|
                    (a[k].member("content"@)->0->Str_0, a[k].member("id"@)->0->Int_0 as u32),
            ));
        },
        _ => {
            laws::lemma_in_order_len(vocabulary::stored(seq![]));
        },
    }
}

/// **The tokens that a config adds** are the entries of its list whose key is an id and that have a
/// text, in order: the text of an entry is the entry where it is one, and its `content` where that
/// is one.
pub proof fn a_config_adds_the_entries_of_its_list(m: Seq<(Seq<char>, Json)>)
    ensures
        load::decoder_tokens(m) == m.filter(
            |x: (Seq<char>, Json)|
                load::written_u32(x.0) is Some && (x.1 is Str || (x.1.member("content"@) is Some
                    && x.1.member("content"@)->0 is Str)),
        ).map_values(
            |x: (Seq<char>, Json)|
                (
                    if x.1 is Str {
                        x.1->Str_0
                    } else {
                        x.1.member("content"@)->0->Str_0
                    },
                    load::written_u32(x.0)->0,
                ),
        ),
    decreases m.len(),
{
    reveal(Seq::filter);
    let keep = |x: (Seq<char>, Json)|
        load::written_u32(x.0) is Some && (x.1 is Str || (x.1.member("content"@) is Some
            && x.1.member("content"@)->0 is Str));
    let token = |x: (Seq<char>, Json)|
        (
            if x.1 is Str {
                x.1->Str_0
            } else {
                x.1.member("content"@)->0->Str_0
            },
            load::written_u32(x.0)->0,
        );
    if m.len() > 0 {
        a_config_adds_the_entries_of_its_list(m.drop_last());
        let before = m.drop_last().filter(keep);
        if keep(m.last()) {
            assert(before.push(m.last()).map_values(token) =~= before.map_values(token).push(
                token(m.last()),
            ));
        }
    } else {
        assert(m.filter(keep).map_values(token) =~= seq![]);
    }
}

} // verus!
