//! Decisions of the transcription pipeline: which timestamp granularity a
//! request asks for, how the texts of consecutive chunks are merged into one
//! transcript, and the name of the temporary audio file.

use vstd::prelude::*;

verus! {

/// The granularity of the timestamps that the model attaches to the text.
#[derive(Clone, Copy, Debug, PartialEq, Eq, Structural)]
pub enum TimestampMode {
    Words,
    Sentences,
    Tokens,
}

/// The granularity asked for by its name: `"sentences"`, `"tokens"`, and
/// words for any other name.
pub open spec fn timestamp_mode_named(name: Seq<char>) -> TimestampMode {
    if name == "sentences"@ {
        TimestampMode::Sentences
    } else if name == "tokens"@ {
        TimestampMode::Tokens
    } else {
        TimestampMode::Words
    }
}

/// The granularity asked for by `name` (see [`timestamp_mode_named`]).
pub fn parse_timestamp_mode(name: &str) -> (mode: TimestampMode)
    ensures
        mode == timestamp_mode_named(name@),
{
    if crate::text::str_equal(name, "sentences") {
        TimestampMode::Sentences
    } else if crate::text::str_equal(name, "tokens") {
        TimestampMode::Tokens
    } else {
        TimestampMode::Words
    }
}

/// The transcript `all` followed by the text `next` of the next chunk, with a
/// space between them when both are non-empty.
pub open spec fn merge_text(all: Seq<char>, next: Seq<char>) -> Seq<char> {
    if all.len() > 0 && next.len() > 0 {
        all + seq![' '] + next
    } else {
        all + next
    }
}

/// Appends the text of the next chunk to the transcript (see [`merge_text`]).
pub fn append_transcript(all: &mut String, next: &str)
    ensures
        final(all)@ == merge_text(old(all)@, next@),
{
    let all_len = all.as_str().unicode_len();
    let next_len = next.unicode_len();
    if all_len > 0 && next_len > 0 {
        crate::text::push_char(all, ' ');
    }
    all.append(next);
}

/// The transcript made of the chunk texts `texts`, merged one after another
/// from an empty transcript.
pub open spec fn merged_transcript(texts: Seq<Seq<char>>) -> Seq<char>
    decreases texts.len(),
{
    if texts.len() == 0 {
        Seq::empty()
    } else {
        merge_text(merged_transcript(texts.drop_last()), texts.last())
    }
}

/// `parts` joined with `sep` between consecutive parts.
pub open spec fn join_with(parts: Seq<Seq<char>>, sep: Seq<char>) -> Seq<char>
    decreases parts.len(),
{
    if parts.len() == 0 {
        Seq::empty()
    } else if parts.len() == 1 {
        parts[0]
    } else {
        join_with(parts.drop_last(), sep) + sep + parts.last()
    }
}

/// Whether a text is non-empty.
pub open spec fn non_empty(t: Seq<char>) -> bool {
    t.len() > 0
}

proof fn lemma_join_non_empty(parts: Seq<Seq<char>>, sep: Seq<char>)
    requires
        parts.len() > 0,
        forall|i: int| 0 <= i < parts.len() ==> #[trigger] parts[i].len() > 0,
    ensures
        join_with(parts, sep).len() > 0,
    decreases parts.len(),
{
    if parts.len() > 1 {
        lemma_join_non_empty(parts.drop_last(), sep);
    }
}

/// Merging the chunk texts one after another gives the non-empty texts
/// joined by single spaces: empty chunk texts leave no trace.
pub proof fn lemma_merged_transcript_joins_non_empty_texts(texts: Seq<Seq<char>>)
    ensures
        merged_transcript(texts) == join_with(texts.filter(|t: Seq<char>| non_empty(t)), seq![' ']),
    decreases texts.len(),
{
    let pred = |t: Seq<char>| non_empty(t);
    reveal_with_fuel(Seq::<_>::filter, 1);
    if texts.len() > 0 {
        let prev = texts.drop_last();
        lemma_merged_transcript_joins_non_empty_texts(prev);
        let f = prev.filter(pred);
        let t = texts.last();
        assert(texts.filter(pred) == if pred(t) { f.push(t) } else { f });
        if t.len() > 0 {
            assert(f.push(t).drop_last() =~= f);
            if f.len() > 0 {
                assert forall|i: int| 0 <= i < f.len() implies #[trigger] f[i].len() > 0 by {
                    prev.lemma_filter_pred(pred, i);
                }
                lemma_join_non_empty(f, seq![' ']);
            } else {
                assert(join_with(f.push(t), seq![' ']) == t);
                assert(merged_transcript(prev).len() == 0);
                assert(merged_transcript(texts) =~= t);
            }
        } else {
            assert(merged_transcript(texts) =~= merged_transcript(prev));
        }
    }
}

/// Appends the chunk texts one after another to an empty transcript (see
/// [`merged_transcript`]).
pub fn merge_transcripts(texts: &Vec<String>) -> (all: String)
    ensures
        all@ == merged_transcript(texts@.map_values(|t: String| t@)),
{
    let ghost views = texts@.map_values(|t: String| t@);
    let mut all = String::new();
    let mut i: usize = 0;
    assert(views.take(0) =~= Seq::<Seq<char>>::empty());
    while i < texts.len()
        invariant
            i <= texts@.len(),
            views == texts@.map_values(|t: String| t@),
            all@ == merged_transcript(views.take(i as int)),
        decreases texts@.len() - i,
    {
        append_transcript(&mut all, texts[i].as_str());
        assert(views.take(i + 1).drop_last() =~= views.take(i as int));
        i = i + 1;
    }
    assert(views.take(texts@.len() as int) =~= views);
    all
}

/// Whether `id` is the hyphenated lower-case text of a version 4 UUID:
/// 36 characters, hyphens at positions 8, 13, 18 and 23, lower-case
/// hexadecimal digits elsewhere, and the version digit `4` at position 14.
pub open spec fn is_uuid_v4_text(id: Seq<char>) -> bool {
    &&& id.len() == 36
    &&& forall|i: int|
        0 <= i < 36 ==> if i == 8 || i == 13 || i == 18 || i == 23 {
            #[trigger] id[i] == '-'
        } else {
            ('0' <= id[i] <= '9') || ('a' <= id[i] <= 'f')
        }
    &&& id[14] == '4'
}

/// The lower-case hexadecimal digit of `n` (for `0 <= n < 16`).
pub open spec fn hex_digit(n: int) -> char {
    if n < 10 {
        crate::text::digit_char(n)
    } else if n == 10 {
        'a'
    } else if n == 11 {
        'b'
    } else if n == 12 {
        'c'
    } else if n == 13 {
        'd'
    } else if n == 14 {
        'e'
    } else {
        'f'
    }
}

/// The bytes of the version 4 UUID built from the random bytes `random`:
/// byte 6 carries the version 4 in its high half, and the two high bits of
/// byte 8 hold the RFC 4122 variant `10`.
pub open spec fn uuid_v4_bytes(random: Seq<u8>) -> Seq<u8> {
    random.update(6, (random[6] & 0x0f) | 0x40).update(8, (random[8] & 0x3f) | 0x80)
}

/// Which half-byte a character of the hyphenated text shows, for a position
/// that is not a hyphen.
pub open spec fn nibble_index(i: int) -> int {
    if i < 8 {
        i
    } else if i < 13 {
        i - 1
    } else if i < 18 {
        i - 2
    } else if i < 23 {
        i - 3
    } else {
        i - 4
    }
}

/// Half-byte `k` of `bytes`: the high half of byte `k / 2` for even `k`, the
/// low half for odd `k`.
pub open spec fn nibble(bytes: Seq<u8>, k: int) -> u8 {
    if k % 2 == 0 {
        bytes[k / 2] >> 4u8
    } else {
        bytes[k / 2] & 0x0f
    }
}

/// The hyphenated lower-case text of the UUID with the bytes `bytes`: 32
/// hexadecimal digits, two per byte, high half first, in groups of 8, 4, 4,
/// 4 and 12 separated by hyphens.
pub open spec fn hyphenated_text(bytes: Seq<u8>) -> Seq<char> {
    Seq::new(
        36,
        |i: int|
            if i == 8 || i == 13 || i == 18 || i == 23 {
                '-'
            } else {
                hex_digit(nibble(bytes, nibble_index(i)) as int)
            },
    )
}

/// The text of the version 4 UUID built from the random bytes `random`
/// (`uuid::Builder::from_random_bytes`, then `to_string`).
///
/// Trusted: the contract claims what the `uuid` crate's source shows: the
/// builder sets the version and variant bits (`with_version`,
/// `with_variant`) and `Display` writes the lower-case hyphenated form
/// (`format_hyphenated`). Nothing in the call draws randomness or panics.
#[verifier::external_body]
fn uuid_v4_text(random: [u8; 16]) -> (id: String)
    ensures
        id@ == hyphenated_text(uuid_v4_bytes(random@)),
{
    uuid::Builder::from_random_bytes(random).into_uuid().to_string()
}

proof fn lemma_half_bytes(x: u8)
    ensures
        x >> 4u8 < 16,
        x & 0x0f < 16,
        ((x & 0x0f) | 0x40) >> 4u8 == 4,
{
    assert(x >> 4u8 < 16) by (bit_vector);
    assert(x & 0x0f < 16) by (bit_vector);
    assert(((x & 0x0f) | 0x40) >> 4u8 == 4) by (bit_vector);
}

/// The text of every version 4 UUID has the shape [`is_uuid_v4_text`].
pub proof fn lemma_uuid_v4_text_shape(random: Seq<u8>)
    requires
        random.len() == 16,
    ensures
        is_uuid_v4_text(hyphenated_text(uuid_v4_bytes(random))),
{
    let bytes = uuid_v4_bytes(random);
    let id = hyphenated_text(bytes);
    assert forall|i: int| 0 <= i < 36 implies if i == 8 || i == 13 || i == 18 || i == 23 {
        #[trigger] id[i] == '-'
    } else {
        ('0' <= id[i] <= '9') || ('a' <= id[i] <= 'f')
    } by {
        if !(i == 8 || i == 13 || i == 18 || i == 23) {
            let k = nibble_index(i);
            lemma_half_bytes(bytes[k / 2]);
            assert(nibble(bytes, k) < 16);
        }
    }
    lemma_half_bytes(random[6]);
    assert(nibble_index(14) == 12);
    assert(bytes[6] == (random[6] & 0x0f) | 0x40);
    assert(nibble(bytes, 12) == 4);
}

/// The name of the temporary audio file for the identifier `id`.
pub fn wav_file_name(id: &str) -> (name: String)
    ensures
        name@ == id@ + ".wav"@,
{
    let mut name = String::from_str(id);
    name.append(".wav");
    name
}

/// The name of a temporary audio file: the version 4 UUID built from the
/// random bytes `random`, followed by `.wav`.
pub fn temp_wav_name(random: [u8; 16]) -> (name: String)
    ensures
        name@ == hyphenated_text(uuid_v4_bytes(random@)) + ".wav"@,
        is_uuid_v4_text(name@.take(36)),
        name@.skip(36) == ".wav"@,
{
    let id = uuid_v4_text(random);
    let name = wav_file_name(id.as_str());
    proof {
        lemma_uuid_v4_text_shape(random@);
    }
    assert(name@.take(36) =~= id@);
    assert(name@.skip(36) =~= ".wav"@);
    name
}

} // verus!
