//! Text carried in a packet: UTF-8 strings, and name-lists, whose names are
//! the comma-separated fields of a string.

use crate::error::FramingError;
use vstd::prelude::*;
use vstd::slice::{slice_subrange, slice_to_vec};
use vstd::utf8::*;

verus! {

/// The byte that separates the names of a name-list.
pub const COMMA: u8 = 0x2c;

/// The byte that ends a line.
pub const LF: u8 = 0x0a;

/// The byte that may stand before the end of a line.
pub const CR: u8 = 0x0d;

/// An ordered list of algorithm names, in the order of preference in which
/// the peer sent them.
#[derive(Debug, Clone, PartialEq, Eq)]
pub struct NameList {
    /// The names, first preference first.
    pub names: Vec<String>,
}

impl View for NameList {
    type V = Seq<Seq<char>>;

    open spec fn view(&self) -> Seq<Seq<char>> {
        self.names@.map_values(|name: String| name@)
    }
}

/// The number of bytes of `s` that stand before its first `stop`: the whole
/// length if there is none.
pub open spec fn run_len(s: Seq<u8>, stop: u8) -> nat
    decreases s.len(),
{
    if s.len() == 0 || s[0] == stop {
        0
    } else {
        1 + run_len(s.drop_first(), stop)
    }
}

/// The number of bytes of `s` that stand before its first separator.
pub open spec fn field_len(s: Seq<u8>) -> nat {
    run_len(s, COMMA)
}

/// The fields of `s`: the runs of bytes that its separators part, in order.
/// There is one more field than there are separators, so a sequence without
/// one is a single field, and fields may be empty.
pub open spec fn fields(s: Seq<u8>) -> Seq<Seq<u8>>
    decreases s.len(),
{
    let n = field_len(s) as int;
    if n >= s.len() {
        seq![s]
    } else {
        seq![s.take(n)] + fields(s.skip(n + 1))
    }
}

/// The fields joined again, a separator between each two.
pub open spec fn joined(parts: Seq<Seq<u8>>) -> Seq<u8>
    decreases parts.len(),
{
    if parts.len() == 0 {
        Seq::empty()
    } else if parts.len() == 1 {
        parts[0]
    } else {
        parts[0] + seq![COMMA] + joined(parts.drop_first())
    }
}

/// Whether every part is valid UTF-8.
pub open spec fn all_utf8(parts: Seq<Seq<u8>>) -> bool {
    forall|k: int| 0 <= k < parts.len() ==> valid_utf8(#[trigger] parts[k])
}

/// Whether no part holds a separator.
pub open spec fn comma_free(parts: Seq<Seq<u8>>) -> bool {
    forall|k: int| 0 <= k < parts.len() ==> !(#[trigger] parts[k]).contains(COMMA)
}

/// The text of each part.
pub open spec fn texts_of(parts: Seq<Seq<u8>>) -> Seq<Seq<char>> {
    parts.map_values(|part: Seq<u8>| decode_utf8(part))
}

/// The names that the body of a name-list spells: none for an empty body,
/// else the text of each of its fields.
pub open spec fn names_of(body: Seq<u8>) -> Seq<Seq<char>> {
    if body.len() == 0 {
        Seq::empty()
    } else {
        texts_of(fields(body))
    }
}

/// The names joined again as text, a comma between each two.
pub open spec fn joined_text(names: Seq<Seq<char>>) -> Seq<char>
    decreases names.len(),
{
    if names.len() == 0 {
        Seq::empty()
    } else if names.len() == 1 {
        names[0]
    } else {
        names[0] + seq![','] + joined_text(names.drop_first())
    }
}

/// Whether no name holds a comma.
pub open spec fn comma_free_text(names: Seq<Seq<char>>) -> bool {
    forall|k: int| 0 <= k < names.len() ==> !(#[trigger] names[k]).contains(',')
}

/// Counts the bytes of `s` that stand before its first `stop`.
pub fn find_byte(s: &[u8], stop: u8) -> (n: usize)
    ensures
        n == run_len(s@, stop),
{
    let mut i: usize = 0;
    proof {
        assert(s@.take(0).len() == 0);
    }
    while i < s.len() && s[i] != stop
        invariant
            i <= s.len(),
            !s@.take(i as int).contains(stop),
        decreases s.len() - i,
    {
        proof {
            let run = s@.take(i + 1);
            assert forall|k: int| 0 <= k < run.len() implies #[trigger] run[k] != stop by {
                if k < i {
                    assert(s@.take(i as int)[k] == run[k]);
                    assert(s@.take(i as int).contains(s@.take(i as int)[k]));
                }
            }
        }
        i = i + 1;
    }
    proof {
        lemma_run_len_is(s@, stop, i as int);
    }
    i
}

/// The text that `bytes` encode, if they are valid UTF-8.
pub fn decode_text(bytes: Vec<u8>) -> (r: Result<String, FramingError>)
    ensures
        valid_utf8(bytes@) ==> r is Ok && r->Ok_0@ == decode_utf8(bytes@),
        !valid_utf8(bytes@) ==> r == Err::<String, FramingError>(FramingError::Encoding),
{
    match string_from_utf8(bytes) {
        Ok(text) => Ok(text),
        Err(_) => Err(FramingError::Encoding),
    }
}

/// Parts the body of a name-list at its commas and decodes each name. An
/// empty body is the empty list. The body has to be valid UTF-8 as a whole;
/// the names keep their order and none is dropped, merged or deduplicated.
pub fn parse_name_list(body: &[u8]) -> (r: Result<NameList, FramingError>)
    ensures
        valid_utf8(body@) ==> r is Ok && r->Ok_0@ == names_of(body@),
        !valid_utf8(body@) ==> r == Err::<NameList, FramingError>(FramingError::Encoding),
{
    let mut names: Vec<String> = Vec::new();
    if body.len() == 0 {
        assert(names@.map_values(|name: String| name@) == names_of(body@));
        return Ok(NameList { names });
    }
    let ghost all = fields(body@);
    proof {
        lemma_utf8_fields(body@);
        assert(body@.skip(0) == body@);
    }
    let mut start: usize = 0;
    loop
        invariant
            all == fields(body@),
            0 < body.len(),
            start <= body.len(),
            names.len() < all.len(),
            all == all.take(names.len() as int) + fields(body@.skip(start as int)),
            forall|k: int|
                0 <= k < names.len() ==> valid_utf8(#[trigger] all[k]) && names[k]@ == decode_utf8(
                    all[k],
                ),
            valid_utf8(body@) <==> all_utf8(all),
        decreases body.len() - start,
    {
        let tail = slice_subrange(body, start, body.len());
        let n = find_byte(tail, COMMA);
        proof {
            lemma_run_len(tail@, COMMA);
        }
        let field = slice_to_vec(slice_subrange(tail, 0, n));
        proof {
            assert(tail@ == body@.skip(start as int));
            assert(field@ == tail@.take(n as int));
            assert(n == tail.len() ==> tail@.take(n as int) == tail@);
            assert(fields(tail@)[0] == field@);
            assert(all[names.len() as int] == field@);
        }
        match string_from_utf8(field) {
            Ok(name) => {
                names.push(name);
            },
            Err(_) => {
                return Err(FramingError::Encoding);
            },
        }
        if n == tail.len() {
            proof {
                assert(all.len() == names.len());
                assert(all_utf8(all));
                let texts = names@.map_values(|name: String| name@);
                assert forall|k: int| 0 <= k < texts.len() implies texts[k] == texts_of(all)[k] by {
                    assert(names[k]@ == decode_utf8(all[k]));
                }
                assert(texts == names_of(body@));
            }
            return Ok(NameList { names });
        }
        proof {
            assert(tail@.skip(n + 1) == body@.skip(start + n + 1));
            lemma_joined_fields(tail@.skip(n + 1));
            assert(all.take(names.len() as int) == all.take(names.len() - 1).push(
                tail@.take(n as int),
            ));
        }
        start = start + n + 1;
    }
}

/// The error of `String::from_utf8`, declared so that it can pass through
/// verified code, which only tells it from success.
#[verifier::external_type_specification]
#[verifier::external_body]
pub struct ExFromUtf8Error(std::string::FromUtf8Error);

/// `String::from_utf8`: succeeds exactly on valid UTF-8, and the string then
/// holds the text that the bytes encode.
#[verifier::external_body]
fn string_from_utf8(bytes: Vec<u8>) -> (r: Result<String, std::string::FromUtf8Error>)
    ensures
        r is Ok <==> valid_utf8(bytes@),
        r matches Ok(text) ==> text@ == decode_utf8(bytes@),
{
    String::from_utf8(bytes)
}

/// `run_len` is where the first `stop` stands, or the length if there is
/// none.
pub proof fn lemma_run_len(s: Seq<u8>, stop: u8)
    ensures
        run_len(s, stop) <= s.len(),
        !s.take(run_len(s, stop) as int).contains(stop),
        run_len(s, stop) < s.len() ==> s[run_len(s, stop) as int] == stop,
    decreases s.len(),
{
    if s.len() == 0 || s[0] == stop {
        assert(s.take(0).len() == 0);
    } else {
        let t = s.drop_first();
        lemma_run_len(t, stop);
        let n = run_len(t, stop) as int;
        let head = s.take(n + 1);
        assert forall|k: int| 0 <= k < head.len() implies #[trigger] head[k] != stop by {
            if k > 0 {
                assert(t.take(n)[k - 1] == s[k]);
                assert(t.take(n).contains(t.take(n)[k - 1]));
            }
        }
    }
}

/// A run without a `stop` that a `stop` or the end follows is the run before
/// the first `stop`.
pub proof fn lemma_run_len_is(s: Seq<u8>, stop: u8, n: int)
    requires
        0 <= n <= s.len(),
        !s.take(n).contains(stop),
        n < s.len() ==> s[n] == stop,
    ensures
        run_len(s, stop) == n,
    decreases n,
{
    if n == 0 {
    } else {
        assert(s.take(n)[0] == s[0]);
        assert(s.take(n).contains(s[0]));
        let t = s.drop_first();
        let head = t.take(n - 1);
        assert forall|k: int| 0 <= k < head.len() implies #[trigger] head[k] != stop by {
            assert(s.take(n)[k + 1] == t[k]);
            assert(s.take(n).contains(s.take(n)[k + 1]));
        }
        lemma_run_len_is(t, stop, n - 1);
    }
}

/// Bytes added behind a run that holds no `stop` lengthen the run by their
/// own.
pub proof fn lemma_run_len_concat(s: Seq<u8>, more: Seq<u8>, stop: u8)
    requires
        run_len(s, stop) == s.len(),
    ensures
        run_len(s + more, stop) == s.len() + run_len(more, stop),
    decreases s.len(),
{
    if s.len() == 0 {
        assert(s + more == more);
    } else {
        assert((s + more).drop_first() == s.drop_first() + more);
        lemma_run_len_concat(s.drop_first(), more, stop);
    }
}

/// Joining the fields gives the sequence back, and no field holds a separator.
pub proof fn lemma_joined_fields(s: Seq<u8>)
    ensures
        fields(s).len() >= 1,
        joined(fields(s)) == s,
        comma_free(fields(s)),
    decreases s.len(),
{
    lemma_run_len(s, COMMA);
    let n = field_len(s) as int;
    if n >= s.len() {
        assert(s.take(n) == s);
    } else {
        let rest = s.skip(n + 1);
        lemma_joined_fields(rest);
        let parts = fields(s);
        assert(parts.drop_first() == fields(rest));
        assert(joined(parts) == s.take(n) + seq![COMMA] + rest);
        assert(s.take(n) + seq![COMMA] + rest == s);
    }
}

/// The fields are the only way to part a sequence at its separators: parts
/// without a separator that join to `s` are the fields of `s`.
pub proof fn lemma_fields_unique(s: Seq<u8>, parts: Seq<Seq<u8>>)
    requires
        parts.len() >= 1,
        joined(parts) == s,
        comma_free(parts),
    ensures
        parts == fields(s),
    decreases parts.len(),
{
    if parts.len() == 1 {
        assert(s.take(s.len() as int) == s);
        lemma_run_len_is(s, COMMA, s.len() as int);
    } else {
        let n = parts[0].len() as int;
        let rest = parts.drop_first();
        assert(s == parts[0] + seq![COMMA] + joined(rest));
        assert(s.take(n) == parts[0]);
        assert(s[n] == COMMA);
        lemma_run_len_is(s, COMMA, n);
        assert(s.skip(n + 1) == joined(rest));
        assert(comma_free(rest)) by {
            assert forall|k: int| 0 <= k < rest.len() implies !(#[trigger] rest[k]).contains(
                COMMA,
            ) by {
                assert(rest[k] == parts[k + 1]);
            }
        }
        lemma_fields_unique(s.skip(n + 1), rest);
        assert(parts == seq![parts[0]] + rest);
    }
}

/// A separator is a character of its own: a sequence with a separator at
/// `i` is valid UTF-8 exactly if what stands before it and what stands after
/// it are, and its text is the two texts with a comma between them.
pub proof fn lemma_utf8_around_comma(s: Seq<u8>, i: int)
    requires
        0 <= i < s.len(),
        s[i] == COMMA,
    ensures
        valid_utf8(s) <==> valid_utf8(s.take(i)) && valid_utf8(s.skip(i + 1)),
        valid_utf8(s) ==> decode_utf8(s) == decode_utf8(s.take(i)) + seq![','] + decode_utf8(
            s.skip(i + 1),
        ),
{
    let before = s.take(i);
    let from = s.skip(i);
    let after = s.skip(i + 1);
    assert(valid_first_scalar(from));
    assert(pop_first_scalar(from) == after);
    assert(decode_first_scalar(from) == 0x2c) by {
        assert(0x2cu8 & 0x7f == 0x2c) by (bit_vector);
    }
    if valid_utf8(s) {
        is_char_boundary_iff_not_is_continuation_byte(s, i);
        valid_utf8_split(s, i);
        decode_utf8_split(s, i);
        assert(s.subrange(0, i) == before);
        assert(s.subrange(i, s.len() as int) == from);
        assert(decode_utf8(from) == seq![','] + decode_utf8(after));
    }
    if valid_utf8(before) && valid_utf8(after) {
        assert(valid_utf8(from));
        valid_utf8_concat(before, from);
        assert(before + from == s);
    }
}

/// A sequence is valid UTF-8 exactly if each of its fields is.
pub proof fn lemma_utf8_fields(s: Seq<u8>)
    ensures
        valid_utf8(s) <==> all_utf8(fields(s)),
    decreases s.len(),
{
    lemma_run_len(s, COMMA);
    let n = field_len(s) as int;
    if n >= s.len() {
        assert(s.take(n) == s);
        assert(fields(s)[0] == s);
    } else {
        let rest = s.skip(n + 1);
        lemma_utf8_around_comma(s, n);
        lemma_utf8_fields(rest);
        let parts = fields(s);
        assert(parts[0] == s.take(n));
        assert forall|k: int| 0 <= k < fields(rest).len() implies fields(rest)[k] == parts[k + 1] by {
        }
        if all_utf8(parts) {
            assert forall|k: int| 0 <= k < fields(rest).len() implies valid_utf8(
                #[trigger] fields(rest)[k],
            ) by {
                assert(valid_utf8(parts[k + 1]));
            }
        }
        if valid_utf8(s) {
            assert forall|k: int| 0 <= k < parts.len() implies valid_utf8(#[trigger] parts[k]) by {
                if k > 0 {
                    assert(valid_utf8(fields(rest)[k - 1]));
                }
            }
        }
    }
}

/// Text whose bytes hold no separator holds no comma.
pub proof fn lemma_text_without_comma(s: Seq<u8>)
    requires
        valid_utf8(s),
        !s.contains(COMMA),
    ensures
        !decode_utf8(s).contains(','),
    decreases s.len(),
{
    if s.len() > 0 {
        let rest = pop_first_scalar(s);
        assert forall|k: int| 0 <= k < rest.len() implies #[trigger] rest[k] != COMMA by {
            assert(rest[k] == s[k + length_of_first_scalar(s)]);
            assert(s.contains(s[k + length_of_first_scalar(s)]));
        }
        lemma_text_without_comma(rest);
        let text = decode_utf8(s);
        assert(text[0] != ',') by {
            decode_utf8_first_scalar(s);
            if text[0] == ',' {
                assert(0x2cu32 & 0x7f == 0x2c) by (bit_vector);
                assert(take_first_scalar(s) == seq![COMMA]);
                assert(take_first_scalar(s)[0] == s[0]);
                assert(s.contains(s[0]));
            }
        }
        assert forall|k: int| 0 <= k < text.len() implies #[trigger] text[k] != ',' by {
            if k > 0 {
                assert(decode_utf8(rest)[k - 1] == text[k]);
                assert(decode_utf8(rest).contains(decode_utf8(rest)[k - 1]));
            }
        }
    }
}

/// The text of the fields, joined by commas, is the text of the whole, and
/// no field's text holds a comma.
pub proof fn lemma_fields_text(s: Seq<u8>)
    requires
        valid_utf8(s),
    ensures
        joined_text(texts_of(fields(s))) == decode_utf8(s),
        comma_free_text(texts_of(fields(s))),
    decreases s.len(),
{
    lemma_run_len(s, COMMA);
    lemma_utf8_fields(s);
    let n = field_len(s) as int;
    let texts = texts_of(fields(s));
    if n >= s.len() {
        assert(s.take(n) == s);
        lemma_text_without_comma(s);
    } else {
        let rest = s.skip(n + 1);
        lemma_utf8_around_comma(s, n);
        lemma_fields_text(rest);
        lemma_text_without_comma(s.take(n));
        let rest_texts = texts_of(fields(rest));
        assert(texts.drop_first() == rest_texts);
        assert(texts[0] == decode_utf8(s.take(n)));
        lemma_joined_fields(rest);
        assert forall|k: int| 0 <= k < texts.len() implies !(#[trigger] texts[k]).contains(
            ',',
        ) by {
            if k > 0 {
                assert(texts[k] == rest_texts[k - 1]);
            }
        }
    }
}

/// The names of a name-list, joined by commas, spell the text of its body,
/// and no name holds a comma: the list is the text parted at its commas.
pub proof fn lemma_names_of(body: Seq<u8>)
    requires
        valid_utf8(body),
    ensures
        joined_text(names_of(body)) == decode_utf8(body),
        comma_free_text(names_of(body)),
        body.len() > 0 ==> names_of(body).len() == fields(body).len(),
{
    if body.len() > 0 {
        lemma_fields_text(body);
    }
}

} // verus!
