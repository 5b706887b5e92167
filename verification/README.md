# gdn

The gated delta net of Qwen3.5 and the text around it, verified with
[Verus](https://github.com/verus-lang/verus).

`src/` is the library. Its functions carry contracts that are proved; the few that call the
standard library or `serde_json` where no specification exists state what they claim of the
call, and are marked `external_body`. It covers two halves:

- **Text**: a byte-level BPE tokenizer with Unicode NFC normalization, the chat template and
  its inverse, and JSON the way Python reads and writes it.
- **Numbers**: the shape of the model's computation -- products, the causal convolution, the
  mixer and its state, the stack, the cache, greedy decoding -- and the decisions of the
  sampler. The library is generic in its values and takes arithmetic on single values and
  rows as arguments; floats themselves are outside.

What holds of the library as a whole stands as public proof functions beside the code they
speak of, in files named `laws.rs` where there are many. Some of them:

- `mixer::laws::mixer_continues`, `model::laws::model_continues`: running in chunks with a
  carried state gives exactly what running at once gives.
- `model::decode_laws`: greedy decoding gives the same tokens with a cache as without, and a
  stop token only cuts it short.
- `tokenizer::laws::decoding_gives_the_normal_form`: decoding the ids of a text gives its
  normal form.
- `tokenizer::laws::added_token_cuts_the_text`: the leftmost, longest added token is one id,
  and what is round it is encoded on its own.
- `tokenizer::pattern::scanner_matches_pattern`: the hand-written scanner splits a text as the
  pre-tokenizer's regular expression does.
- `chatparse::laws`: what was rendered parses back.
- `unicode_gc::laws`, `unicode_gc::part_laws`: the normal form is stable, canonically
  equivalent texts share it, and parts of a text in normal form are in normal form.

`app/` is ordinary Rust around the library: floating point, files, threads and the two
programs, `chatcheck` and `qwenrun`. `tests/` runs the library.
