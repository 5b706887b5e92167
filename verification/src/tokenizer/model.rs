//! The tokenizer itself: text to ids and back.
use super::added;
use super::added::{contains_added, find_added, ordered};
use super::bpe;
use super::bpe::merge_all;
use super::bytes;
use super::bytes::byte_of_char;
use super::scanner;
use super::scanner::scan;
use crate::text::{chars_string, str_chars};
use crate::unicode_gc::normal;
use crate::unicode_gc::normal::normalize;
use std::collections::HashMap;
use vstd::prelude::*;
use vstd::slice::slice_subrange;
use vstd::utf8::*;

verus! {

broadcast use vstd::std_specs::hash::group_hash_axioms;

/// A byte-level BPE tokenizer.
pub struct Tokenizer {
    /// The id of each single-byte token.
    byte_char_id: [u32; 256],
    /// id -> token string.
    id_to_token: Vec<String>,
    /// `(left_id, right_id)` -> `(rank, merged_id)`, from the merge table.
    merge: HashMap<u64, (u32, u32)>,
    /// Added tokens, longest first so the longest match wins.
    added: Vec<(String, u32)>,
    /// Whether a combining mark joins the letters around it.
    marks_join_letters: bool,
}

/// What a tokenizer knows.
#[verifier::ext_equal]
pub ghost struct TokenizerModel {
    /// The id of each byte.
    pub byte_ids: Seq<u32>,
    /// The string of each id. An id without a token has the empty string.
    pub tokens: Seq<Seq<char>>,
    /// From the key of a pair of ids to the rank of their merge and the id of the result.
    pub merges: Map<u64, (u32, u32)>,
    /// The added tokens, in the order in which they are tried.
    pub added: Seq<(Seq<char>, u32)>,
    /// Whether combining marks join letters.
    pub marks: bool,
}

/// The contents of a list of strings.
pub open spec fn texts(list: Seq<String>) -> Seq<Seq<char>> {
    list.map_values(|s: String| s@)
}

impl View for Tokenizer {
    type V = TokenizerModel;

    closed spec fn view(&self) -> TokenizerModel {
        TokenizerModel {
            byte_ids: self.byte_char_id@,
            tokens: texts(self.id_to_token@),
            merges: self.merge@,
            added: added::added_view(self.added@),
            marks: self.marks_join_letters,
        }
    }
}

// ---------------------------------------------------------------------------
// encoding
// ---------------------------------------------------------------------------
/// The ids of single bytes.
pub open spec fn byte_symbols(byte_ids: Seq<u32>, b: Seq<u8>) -> Seq<u32> {
    b.map_values(|x: u8| byte_ids[x as int])
}

/// The ids of one piece: its bytes, merged.
pub open spec fn piece_ids(m: TokenizerModel, piece: Seq<char>) -> Seq<u32> {
    bpe::merged(m.merges, byte_symbols(m.byte_ids, encode_utf8(piece)))
}

/// The ids of the pieces `p` of `c`, one after the other.
pub open spec fn pieces_ids(m: TokenizerModel, c: Seq<char>, p: Seq<(int, int)>) -> Seq<u32>
    decreases p.len(),
{
    if p.len() == 0 {
        seq![]
    } else {
        pieces_ids(m, c, p.drop_last()) + piece_ids(m, c.subrange(p.last().0, p.last().1))
    }
}

/// The ids of a run of text without added tokens.
pub open spec fn plain_ids(m: TokenizerModel, c: Seq<char>) -> Seq<u32> {
    pieces_ids(m, c, scanner::pieces(c, 0, m.marks))
}

/// The ids of `c` from `i` on, with the plain run that reaches `i` having begun at `start`:
/// an added token is one id, and what is between added tokens is plain.
pub open spec fn ids_from(m: TokenizerModel, c: Seq<char>, start: int, i: int) -> Seq<u32>
    decreases c.len() - i,
{
    if i >= c.len() {
        plain_ids(m, c.subrange(start, c.len() as int))
    } else {
        match added::first_added(m.added, 0, c, i) {
            Some(k) => {
                proof {
                    added::lemma_first_added(m.added, 0, c, i);
                }
                let j = i + m.added[k].0.len();
                plain_ids(m, c.subrange(start, i)) + seq![m.added[k].1] + ids_from(m, c, j, j)
            },
            None => ids_from(m, c, start, i + 1),
        }
    }
}

/// The ids of a text: those of its normal form.
pub open spec fn text_ids(m: TokenizerModel, s: Seq<char>) -> Seq<u32> {
    ids_from(m, normal::normal_form(s), 0, 0)
}

// ---------------------------------------------------------------------------
// decoding
// ---------------------------------------------------------------------------
/// The bytes that one character of a token string stands for. A character that is not one
/// of the 256 stands for itself: an added token is stored as plain text, not byte-level
/// encoded.
pub open spec fn char_bytes(c: char) -> Seq<u8> {
    match bytes::char_byte(c) {
        Some(b) => seq![b],
        None => encode_utf8(seq![c]),
    }
}

/// The bytes of a token string.
pub open spec fn token_bytes(t: Seq<char>) -> Seq<u8>
    decreases t.len(),
{
    if t.len() == 0 {
        seq![]
    } else {
        token_bytes(t.drop_last()) + char_bytes(t.last())
    }
}

/// The bytes of the token with that id: none where there is no such token.
pub open spec fn id_bytes(m: TokenizerModel, id: u32) -> Seq<u8> {
    if id < m.tokens.len() {
        token_bytes(m.tokens[id as int])
    } else {
        seq![]
    }
}

/// The bytes of a run of ids.
pub open spec fn ids_bytes(m: TokenizerModel, ids: Seq<u32>) -> Seq<u8>
    decreases ids.len(),
{
    if ids.len() == 0 {
        seq![]
    } else {
        ids_bytes(m, ids.drop_last()) + id_bytes(m, ids.last())
    }
}

/// What `String::from_utf8_lossy` makes of bytes: the text they encode, with U+FFFD in
/// place of what is no UTF-8.
pub uninterp spec fn lossy_text(b: Seq<u8>) -> Seq<char>;

/// `String::from_utf8_lossy`: its result depends on the bytes alone, and `lossy_text`
/// names it. Bytes that are valid UTF-8 give the text that they encode.
#[verifier::external_body]
fn text_of_bytes(b: &[u8]) -> (r: String)
    ensures
        r@ == lossy_text(b@),
        valid_utf8(b@) ==> r@ == decode_utf8(b@),
{
    String::from_utf8_lossy(b).into_owned()
}

// ---------------------------------------------------------------------------
// added tokens
// ---------------------------------------------------------------------------
/// `tokens` with `t` at `id`, unless there is a token already.
pub open spec fn with_token(tokens: Seq<Seq<char>>, id: int, t: Seq<char>) -> Seq<Seq<char>> {
    let room = if id < tokens.len() {
        tokens
    } else {
        tokens + Seq::new((id + 1 - tokens.len()) as nat, |k: int| Seq::<char>::empty())
    };
    if room[id].len() == 0 {
        room.update(id, t)
    } else {
        room
    }
}

/// The tokenizer once it has one more added token, not yet in its place. A token that it
/// has already is passed over.
pub open spec fn with_added(m: TokenizerModel, t: Seq<char>, id: u32) -> TokenizerModel {
    if added::has_added(m.added, t) {
        m
    } else {
        TokenizerModel {
            tokens: with_token(m.tokens, id as int, t),
            added: m.added.push((t, id)),
            ..m
        }
    }
}

/// The same for a list of added tokens, one after the other.
pub open spec fn with_all_added(m: TokenizerModel, extra: Seq<(Seq<char>, u32)>) -> TokenizerModel
    decreases extra.len(),
{
    if extra.len() == 0 {
        m
    } else {
        with_added(with_all_added(m, extra.drop_last()), extra.last().0, extra.last().1)
    }
}

/// The tokenizer once it has absorbed `extra`.
pub open spec fn absorbed(m: TokenizerModel, extra: Seq<(Seq<char>, u32)>) -> TokenizerModel {
    let all = with_all_added(m, extra);
    TokenizerModel { added: added::in_order(all.added), ..all }
}

impl Tokenizer {
    /// A tokenizer from its parts.
    pub(crate) fn new(
        byte_char_id: [u32; 256],
        id_to_token: Vec<String>,
        merge: HashMap<u64, (u32, u32)>,
        added_tokens: Vec<(String, u32)>,
        marks_join_letters: bool,
    ) -> (r: Tokenizer)
        ensures
            r@ == (TokenizerModel {
                byte_ids: byte_char_id@,
                tokens: texts(id_to_token@),
                merges: merge@,
                added: added::added_view(added_tokens@),
                marks: marks_join_letters,
            }),
    {
        Tokenizer {
            byte_char_id,
            id_to_token,
            merge,
            added: added_tokens,
            marks_join_letters,
        }
    }

    /// How many ids there are, from 0 on.
    pub fn vocab_size(&self) -> (r: usize)
        ensures
            r == self@.tokens.len(),
    {
        self.id_to_token.len()
    }

    /// The vocabulary string for an id, before byte-level decoding.
    pub fn token_str(&self, id: u32) -> (r: Option<&str>)
        ensures
            match r {
                Some(t) => id < self@.tokens.len() && t@ == self@.tokens[id as int],
                None => id >= self@.tokens.len(),
            },
    {
        if (id as usize) < self.id_to_token.len() {
            Some(self.id_to_token[id as usize].as_str())
        } else {
            None
        }
    }

    /// How many added tokens there are.
    pub fn added_tokens(&self) -> (r: usize)
        ensures
            r == self@.added.len(),
    {
        self.added.len()
    }

    /// BPE over one pre-tokenized piece.
    fn bpe(&self, piece: &str) -> (r: Vec<u32>)
        ensures
            r@ == piece_ids(self@, piece@),
    {
        let b: &[u8] = piece.as_bytes();
        let mut syms: Vec<u32> = Vec::new();
        let mut i: usize = 0;
        while i < b.len()
            invariant
                i <= b.len(),
                syms@ == byte_symbols(self@.byte_ids, b@.take(i as int)),
            decreases b.len() - i,
        {
            syms.push(self.byte_char_id[b[i] as usize]);
            i += 1;
            assert(syms@ =~= byte_symbols(self@.byte_ids, b@.take(i as int)));
        }
        assert(b@.take(i as int) =~= b@);
        merge_all(&self.merge, &mut syms);
        syms
    }

    /// Encodes a run of text without added tokens.
    fn encode_plain(&self, c: &[char], out: &mut Vec<u32>)
        ensures
            final(out)@ == old(out)@ + plain_ids(self@, c@),
    {
        let ranges = scan(c, self.marks_join_letters);
        let ghost p = scanner::int_ranges(ranges@);
        let ghost before = out@;
        proof {
            super::pattern::pieces_cover_the_text(c@, 0, self@.marks);
            assert(before + pieces_ids(self@, c@, p.take(0)) =~= before);
        }
        let mut k: usize = 0;
        while k < ranges.len()
            invariant
                k <= ranges.len(),
                p == scanner::int_ranges(ranges@),
                forall|j: int| 0 <= j < p.len() ==> 0 <= (#[trigger] p[j]).0 < p[j].1 <= c.len(),
                out@ == before + pieces_ids(self@, c@, p.take(k as int)),
            decreases ranges.len() - k,
        {
            let ghost done = p.take(k + 1);
            let ghost so_far = out@;
            proof {
                assert(done.drop_last() =~= p.take(k as int));
                assert(done.last() == p[k as int]);
            }
            let piece = chars_string(c, ranges[k].0, ranges[k].1);
            let mut ids = self.bpe(piece.as_str());
            let ghost new_ids = ids@;
            out.append(&mut ids);
            proof {
                assert(so_far + new_ids =~= before + (pieces_ids(self@, c@, p.take(k as int))
                    + new_ids));
            }
            k += 1;
        }
        assert(p.take(k as int) =~= p);
    }

    /// Encode, without any special tokens added (the checkpoint sets
    /// `add_bos_token` false, and there is no BOS token at all).
    ///
    /// Added tokens are matched on the normalized text and never reach the
    /// pre-tokenizer or the BPE. Longest match wins.
    pub fn encode(&self, text: &str) -> (r: Vec<u32>)
        ensures
            r@ == text_ids(self@, text@),
    {
        let given = str_chars(text);
        let normalized = normalize(given.as_slice());
        let c: &[char] = normalized.as_slice();
        let mut out: Vec<u32> = Vec::new();
        let mut i: usize = 0;
        let mut plain_start: usize = 0;
        let ghost all = ids_from(self@, c@, 0, 0);
        assert(out@ + all =~= all);
        while i < c.len()
            invariant
                plain_start <= i <= c.len(),
                all == out@ + ids_from(self@, c@, plain_start as int, i as int),
            decreases c.len() - i,
        {
            match find_added(self.added.as_slice(), c, i) {
                Some(k) => {
                    let ghost before = out@;
                    let ghost j = i + self@.added[k as int].0.len();
                    proof {
                        added::lemma_first_added(self@.added, 0, c@, i as int);
                    }
                    self.encode_plain(slice_subrange(c, plain_start, i), &mut out);
                    out.push(self.added[k].1);
                    let token = str_chars(self.added[k].0.as_str());
                    proof {
                        let plain = plain_ids(self@, c@.subrange(plain_start as int, i as int));
                        let id = seq![self@.added[k as int].1];
                        let rest = ids_from(self@, c@, j, j);
                        assert(out@ =~= before + plain + id);
                        assert(before + (plain + id + rest) =~= out@ + rest);
                    }
                    i += token.len();
                    plain_start = i;
                },
                None => {
                    i += 1;
                },
            }
        }
        self.encode_plain(slice_subrange(c, plain_start, c.len()), &mut out);
        out
    }

    /// Whether combining marks join letter runs.
    pub fn marks_join_letters(&self) -> (r: bool)
        ensures
            r == self@.marks,
    {
        self.marks_join_letters
    }

    /// Override the mark handling.
    ///
    /// Exists because one checkpoint ships both patterns and the choice is made
    /// outside `tokenizer.json`: `AutoTokenizer` reads `tokenizer_class` from
    /// `tokenizer_config.json` and lets that class rebuild the pre-tokenizer. A caller
    /// that knows which one it is emulating can say so.
    pub fn set_marks_join_letters(&mut self, v: bool)
        ensures
            final(self)@ == (TokenizerModel { marks: v, ..old(self)@ }),
    {
        self.marks_join_letters = v;
    }

    /// Puts `token` at `id`, unless there is a token already.
    fn put_token(&mut self, id: u32, token: &String)
        requires
            id < usize::MAX,
        ensures
            final(self)@ == (TokenizerModel {
                tokens: with_token(old(self)@.tokens, id as int, token@),
                ..old(self)@
            }),
    {
        let i: usize = id as usize;
        let ghost before = self@;
        while self.id_to_token.len() <= i
            invariant
                i < usize::MAX,
                before.tokens.len() <= self@.tokens.len(),
                self@.tokens.len() <= i + 1 || self@.tokens == before.tokens,
                self@ == (TokenizerModel { tokens: self@.tokens, ..before }),
                self@.tokens == before.tokens + Seq::new(
                    (self@.tokens.len() - before.tokens.len()) as nat,
                    |k: int| Seq::<char>::empty(),
                ),
            decreases i + 1 - self.id_to_token.len(),
        {
            let ghost now = self@.tokens;
            self.id_to_token.push(String::new());
            assert(self@.tokens =~= now.push(Seq::<char>::empty()));
            assert(self@.tokens =~= before.tokens + Seq::new(
                (self@.tokens.len() - before.tokens.len()) as nat,
                |k: int| Seq::<char>::empty(),
            ));
        }
        assert(self@.tokens =~= if i < before.tokens.len() {
            before.tokens
        } else {
            before.tokens + Seq::new(
                (i + 1 - before.tokens.len()) as nat,
                |k: int| Seq::<char>::empty(),
            )
        });
        let ghost room = self@.tokens;
        if self.id_to_token[i].as_str().is_empty() {
            self.id_to_token.set(i, token.clone());
            assert(self@.tokens =~= room.update(i as int, token@));
        }
    }

    /// Merge in added tokens that only `tokenizer_config.json` knows about.
    ///
    /// The two files can disagree, and the config is the one that wins: `AutoTokenizer`
    /// loads `tokenizer.json` and then applies the config's `added_tokens_decoder` on top,
    /// so a token that only the config lists is a *single* id when the model is served.
    /// Reading only `tokenizer.json` does not fail; it silently splits such a token into
    /// pieces, and nothing about the output looks wrong.
    ///
    /// A token that is there already keeps its id: it is what the tokenizer was built with.
    ///
    /// Returns how many were new.
    pub fn absorb_added_tokens(&mut self, extra: &[(String, u32)]) -> (r: usize)
        requires
            forall|k: int| 0 <= k < extra.len() ==> (#[trigger] extra[k]).1 < usize::MAX,
        ensures
            final(self)@ == absorbed(old(self)@, added::added_view(extra@)),
            r == final(self)@.added.len() - old(self)@.added.len(),
            r == added::new_texts(old(self)@.added, added::added_view(extra@)).len(),
    {
        let ghost before = self@;
        let ghost view = added::added_view(extra@);
        let mut added_new: usize = 0;
        let mut i: usize = 0;
        assert(view.take(0) =~= seq![]);
        while i < extra.len()
            invariant
                i <= extra.len(),
                forall|k: int| 0 <= k < extra.len() ==> (#[trigger] extra[k]).1 < usize::MAX,
                view == added::added_view(extra@),
                self@ == with_all_added(before, view.take(i as int)),
                added_new == self@.added.len() - before.added.len(),
                added_new <= i,
            decreases extra.len() - i,
        {
            proof {
                assert(view.take(i + 1).drop_last() =~= view.take(i as int));
                assert(view.take(i + 1).last() == view[i as int]);
            }
            if !contains_added(self.added.as_slice(), extra[i].0.as_str()) {
                let ghost now = self@;
                self.put_token(extra[i].1, &extra[i].0);
                self.added.push((extra[i].0.clone(), extra[i].1));
                added_new += 1;
                assert(self@.added =~= now.added.push(view[i as int]));
            }
            i += 1;
        }
        assert(view.take(i as int) =~= view);
        let ghost all = self@;
        // The scan takes the longest match at each position, so the order is restored
        // rather than left in config order.
        self.added = ordered(self.added.as_slice());
        proof {
            super::laws::lemma_in_order_len(all.added);
            super::laws::lemma_absorbing_counts(before, view);
        }
        added_new
    }

    /// Decode ids back to text.
    ///
    /// Errors are replaced rather than raised: a token may hold only part of a
    /// multi-byte character, so any prefix of a sequence is decodable and the result
    /// is the concatenation of the bytes actually present.
    pub fn decode(&self, ids: &[u32]) -> (r: String)
        ensures
            r@ == lossy_text(ids_bytes(self@, ids@)),
            valid_utf8(ids_bytes(self@, ids@)) ==> r@ == decode_utf8(ids_bytes(self@, ids@)),
    {
        let mut out: Vec<u8> = Vec::new();
        let mut i: usize = 0;
        assert(ids@.take(0) =~= seq![]);
        while i < ids.len()
            invariant
                i <= ids.len(),
                out@ == ids_bytes(self@, ids@.take(i as int)),
            decreases ids.len() - i,
        {
            proof {
                assert(ids@.take(i + 1).drop_last() =~= ids@.take(i as int));
                assert(ids@.take(i + 1).last() == ids@[i as int]);
            }
            if let Some(token) = self.token_str(ids[i]) {
                push_token_bytes(token, &mut out);
            }
            i += 1;
            assert(out@ =~= ids_bytes(self@, ids@.take(i as int)));
        }
        assert(ids@.take(i as int) =~= ids@);
        text_of_bytes(out.as_slice())
    }
}

/// Appends the bytes of a token string.
fn push_token_bytes(token: &str, out: &mut Vec<u8>)
    ensures
        final(out)@ == old(out)@ + token_bytes(token@),
{
    let c = str_chars(token);
    let ghost before = out@;
    let mut i: usize = 0;
    assert(before + token_bytes(c@.take(0)) =~= before);
    while i < c.len()
        invariant
            i <= c.len(),
            out@ == before + token_bytes(c@.take(i as int)),
        decreases c.len() - i,
    {
        let ghost so_far = out@;
        proof {
            assert(c@.take(i + 1).drop_last() =~= c@.take(i as int));
            assert(c@.take(i + 1).last() == c@[i as int]);
        }
        match byte_of_char(c[i]) {
            Some(b) => {
                out.push(b);
            },
            None => {
                let one = chars_string(c.as_slice(), i, i + 1);
                out.extend_from_slice(one.as_str().as_bytes());
                assert(one@ =~= seq![c@[i as int]]);
            },
        }
        i += 1;
        assert(out@ =~= before + token_bytes(c@.take(i as int)));
    }
    assert(c@.take(i as int) =~= c@);
}

} // verus!
