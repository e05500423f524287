//! Lemmas on lines and tokens, from which the decoder and the laws of the
//! trailer are proved.

use crate::wire::{
    after_line, all_text, encoded, ends_line, fields, first_line, flushed, intact, join,
    line_body, line_of, line_stop, plain, texts, trailer_of, well_formed, Halt, LINE_SEPARATOR,
    TOKEN_SEPARATOR,
};
use vstd::prelude::*;
use vstd::utf8::{
    char_is_scalar, encode_scalar, encode_utf8, encode_utf8_decode_utf8, encode_utf8_valid_utf8,
    is_scalar, valid_utf8,
};

verus! {

/// Cutting always leaves at least the last field.
pub proof fn lemma_fields_nonempty(body: Seq<u8>)
    ensures
        fields(body).len() >= 1,
    decreases body.len(),
{
    if body.len() > 0 {
        lemma_fields_nonempty(body.drop_last());
    }
}

/// The fields that a separator closed within the first `n` bytes stay what
/// they are, however the body goes on.
pub proof fn lemma_fields_prefix(body: Seq<u8>, n: int)
    requires
        0 <= n <= body.len(),
    ensures
        fields(body.take(n)).len() <= fields(body).len(),
        forall|i: int|
            0 <= i < fields(body.take(n)).len() - 1 ==> #[trigger] fields(body)[i] == fields(
                body.take(n),
            )[i],
    decreases body.len() - n,
{
    if n == body.len() {
        assert(body.take(n) =~= body);
    } else {
        let shorter = body.drop_last();
        assert(shorter.take(n) =~= body.take(n));
        lemma_fields_prefix(shorter, n);
        lemma_fields_nonempty(shorter);
        lemma_fields_nonempty(body.take(n));
    }
}

/// Where the first line stops: within the input, behind elements that do
/// not end a line, and at one that does unless the input ran out.
pub proof fn lemma_line_stop(input: Seq<Option<u8>>)
    ensures
        line_stop(input) <= input.len(),
        forall|j: int| 0 <= j < line_stop(input) ==> !ends_line(#[trigger] input[j]),
        line_stop(input) < input.len() ==> ends_line(input[line_stop(input) as int]),
    decreases input.len(),
{
    if input.len() == 0 || ends_line(input[0]) {
    } else {
        let tail = input.skip(1);
        lemma_line_stop(tail);
        assert forall|j: int| 0 <= j < line_stop(input) implies !ends_line(
            #[trigger] input[j],
        ) by {
            if j > 0 {
                assert(input[j] == tail[j - 1]);
            }
        }
        assert(line_stop(tail) < tail.len() ==> input[line_stop(input) as int] == tail[line_stop(
            tail,
        ) as int]);
    }
}

/// The first line stops at `n` if nothing before `n` ends a line and either
/// the element at `n` does or the input is `n` long.
pub proof fn lemma_line_stop_at(input: Seq<Option<u8>>, n: int)
    requires
        0 <= n <= input.len(),
        forall|j: int| 0 <= j < n ==> !ends_line(#[trigger] input[j]),
        n < input.len() ==> ends_line(input[n]),
    ensures
        line_stop(input) == n,
{
    lemma_line_stop(input);
    if line_stop(input) < n {
        assert(!ends_line(input[line_stop(input) as int]));
    } else if line_stop(input) > n {
        assert(!ends_line(input[n]));
    }
}

/// The first line stops no earlier than behind `n` elements none of which
/// ends a line.
pub proof fn lemma_line_stop_from(input: Seq<Option<u8>>, n: int)
    requires
        0 <= n <= input.len(),
        forall|j: int| 0 <= j < n ==> !ends_line(#[trigger] input[j]),
    ensures
        n <= line_stop(input) <= input.len(),
{
    lemma_line_stop(input);
    if line_stop(input) < n {
        assert(!ends_line(input[line_stop(input) as int]));
    }
}

/// The bytes of a scalar other than the two reserved characters are other
/// than the two reserved bytes.
proof fn lemma_scalar_bytes(scalar: u32)
    requires
        is_scalar(scalar),
        scalar != 0,
        scalar != 10,
    ensures
        encode_scalar(scalar).len() >= 1,
        forall|j: int|
            0 <= j < encode_scalar(scalar).len() ==> #[trigger] encode_scalar(scalar)[j]
                != TOKEN_SEPARATOR && encode_scalar(scalar)[j] != LINE_SEPARATOR,
{
    assert(scalar <= 0x7F ==> (scalar & 0x7F) as u8 == scalar) by (bit_vector);
    assert((0xC0u8 | ((scalar >> 6) & 0x1F) as u8) >= 0x80) by (bit_vector);
    assert((0xE0u8 | ((scalar >> 12) & 0x0F) as u8) >= 0x80) by (bit_vector);
    assert((0xF0u8 | ((scalar >> 18) & 0x7) as u8) >= 0x80) by (bit_vector);
    assert((0x80u8 | (scalar & 0x3F) as u8) >= 0x80) by (bit_vector);
    assert((0x80u8 | ((scalar >> 6) & 0x3F) as u8) >= 0x80) by (bit_vector);
    assert((0x80u8 | ((scalar >> 12) & 0x3F) as u8) >= 0x80) by (bit_vector);
}

/// A character other than the two reserved ones has a code other than the
/// two reserved bytes.
proof fn lemma_char_code(c: char)
    ensures
        c != '\0' ==> c as u32 != 0,
        c != '\n' ==> c as u32 != 10,
{
}

/// A plain text is encoded without the two reserved bytes, and in at least
/// one byte unless it is empty.
pub proof fn lemma_plain_bytes(text: Seq<char>)
    requires
        plain(text),
    ensures
        text.len() > 0 ==> encode_utf8(text).len() > 0,
        forall|j: int|
            0 <= j < encode_utf8(text).len() ==> #[trigger] encode_utf8(text)[j]
                != TOKEN_SEPARATOR && encode_utf8(text)[j] != LINE_SEPARATOR,
    decreases text.len(),
{
    if text.len() > 0 {
        let first = text[0] as u32;
        char_is_scalar(text[0]);
        lemma_char_code(text[0]);
        lemma_scalar_bytes(first);
        lemma_plain_bytes(text.drop_first());
        let head = encode_scalar(first);
        let tail = encode_utf8(text.drop_first());
        assert forall|j: int| 0 <= j < encode_utf8(text).len() implies #[trigger] encode_utf8(
            text,
        )[j] != TOKEN_SEPARATOR && encode_utf8(text)[j] != LINE_SEPARATOR by {
            if j < head.len() {
                assert(encode_utf8(text)[j] == head[j]);
            } else {
                assert(encode_utf8(text)[j] == tail[j - head.len()]);
            }
        }
    }
}

/// Bytes without a token separator, put behind a body, lengthen its last
/// field and add none.
pub proof fn lemma_fields_append(body: Seq<u8>, more: Seq<u8>)
    requires
        forall|j: int| 0 <= j < more.len() ==> more[j] != TOKEN_SEPARATOR,
    ensures
        fields(body + more) == fields(body).drop_last().push(fields(body).last() + more),
    decreases more.len(),
{
    lemma_fields_nonempty(body);
    if more.len() == 0 {
        assert(body + more =~= body);
        assert(fields(body).last() + more =~= fields(body).last());
        assert(fields(body).drop_last().push(fields(body).last()) =~= fields(body));
    } else {
        let shorter = more.drop_last();
        lemma_fields_append(body, shorter);
        assert((body + more).drop_last() =~= body + shorter);
        let before = fields(body + shorter);
        assert(before.drop_last() =~= fields(body).drop_last());
        assert(before.last().push(more.last()) =~= fields(body).last() + more);
    }
}

/// Cutting undoes joining, where no token holds a token separator.
pub proof fn lemma_fields_join(tokens: Seq<Seq<u8>>)
    requires
        tokens.len() >= 1,
        forall|i: int, j: int|
            0 <= i < tokens.len() && 0 <= j < tokens[i].len() ==> tokens[i][j] != TOKEN_SEPARATOR,
    ensures
        fields(join(tokens)) == tokens,
    decreases tokens.len(),
{
    let empty = Seq::<u8>::empty();
    if tokens.len() == 1 {
        lemma_fields_append(empty, tokens[0]);
        assert(empty + tokens[0] =~= tokens[0]);
        assert(fields(empty) =~= seq![empty]);
        assert(fields(empty).drop_last().push(fields(empty).last() + tokens[0]) =~= tokens);
    } else {
        let init = tokens.drop_last();
        lemma_fields_join(init);
        let closed = join(init) + seq![TOKEN_SEPARATOR];
        assert(closed.drop_last() =~= join(init));
        assert(fields(closed) == init.push(empty));
        lemma_fields_append(closed, tokens.last());
        assert(init.push(empty).drop_last().push(empty + tokens.last()) =~= tokens);
    }
}

/// Joining adds no line separator.
pub proof fn lemma_join_no_line_end(tokens: Seq<Seq<u8>>)
    requires
        forall|i: int, j: int|
            0 <= i < tokens.len() && 0 <= j < tokens[i].len() ==> tokens[i][j] != LINE_SEPARATOR,
    ensures
        forall|j: int| 0 <= j < join(tokens).len() ==> join(tokens)[j] != LINE_SEPARATOR,
    decreases tokens.len(),
{
    if tokens.len() >= 2 {
        let init = tokens.drop_last();
        lemma_join_no_line_end(init);
        let head = join(init);
        assert forall|j: int| 0 <= j < join(tokens).len() implies join(tokens)[j]
            != LINE_SEPARATOR by {
            if j < head.len() {
                assert(join(tokens)[j] == head[j]);
            } else if j == head.len() {
                assert(join(tokens)[j] == TOKEN_SEPARATOR);
            } else {
                assert(join(tokens)[j] == tokens.last()[j - head.len() - 1]);
            }
        }
    }
}

/// A well-formed line, whatever follows it, is read back as its tokens, and
/// what follows it is what is left.
pub proof fn lemma_line_read_back(tokens: Seq<Seq<char>>, after: Seq<Option<u8>>)
    requires
        well_formed(tokens),
    ensures
        first_line(intact(line_of(tokens)) + after) == Ok::<Seq<Seq<char>>, Halt>(tokens),
        after_line(intact(line_of(tokens)) + after) == after,
{
    let cut = encoded(tokens);
    let body = join(cut);
    let input = intact(line_of(tokens)) + after;
    assert forall|i: int, j: int| 0 <= i < cut.len() && 0 <= j < cut[i].len() implies cut[i][j]
        != TOKEN_SEPARATOR && cut[i][j] != LINE_SEPARATOR by {
        lemma_plain_bytes(tokens[i]);
    }
    lemma_fields_join(cut);
    lemma_join_no_line_end(cut);
    assert forall|j: int| 0 <= j < body.len() implies !ends_line(#[trigger] input[j]) by {
        assert(input[j] == Some(body[j]));
    }
    assert(input[body.len() as int] == Some(LINE_SEPARATOR));
    lemma_line_stop_at(input, body.len() as int);
    assert(line_body(input) =~= body);
    lemma_plain_bytes(tokens.last());
    assert(cut.last() == encode_utf8(tokens.last()));
    assert(flushed(cut) == cut);
    assert forall|i: int| 0 <= i < cut.len() implies valid_utf8(#[trigger] cut[i]) by {
        encode_utf8_valid_utf8(tokens[i]);
    }
    assert(all_text(cut.drop_last())) by {
        assert forall|i: int| 0 <= i < cut.drop_last().len() implies valid_utf8(
            #[trigger] cut.drop_last()[i],
        ) by {
            assert(cut.drop_last()[i] == cut[i]);
        }
    }
    assert(texts(cut) =~= tokens) by {
        assert forall|i: int| 0 <= i < cut.len() implies texts(cut)[i] == tokens[i] by {
            encode_utf8_decode_utf8(tokens[i]);
        }
    }
    assert(input.skip(body.len() + 1int) =~= after);
}

/// One more token is joined on behind a token separator.
pub proof fn lemma_join_push(tokens: Seq<Seq<u8>>, token: Seq<u8>)
    requires
        tokens.len() >= 1,
    ensures
        join(tokens.push(token)) == join(tokens) + seq![TOKEN_SEPARATOR] + token,
{
    assert(tokens.push(token).drop_last() =~= tokens);
}

/// The line of the tokens `x`, `y` and `z`, byte by byte.
pub proof fn lemma_line_of_three(x: Seq<char>, y: Seq<char>, z: Seq<char>)
    ensures
        line_of(seq![x, y, z]) == encode_utf8(x) + seq![TOKEN_SEPARATOR] + encode_utf8(y)
            + seq![TOKEN_SEPARATOR] + encode_utf8(z) + seq![LINE_SEPARATOR],
{
    let first = seq![encode_utf8(x)];
    assert(join(first) == encode_utf8(x));
    lemma_join_push(first, encode_utf8(y));
    lemma_join_push(first.push(encode_utf8(y)), encode_utf8(z));
    assert(encoded(seq![x, y, z]) =~= first.push(encode_utf8(y)).push(encode_utf8(z)));
}

/// The line of the one token `x`, byte by byte.
pub proof fn lemma_line_of_one(x: Seq<char>)
    ensures
        line_of(seq![x]) == encode_utf8(x) + seq![LINE_SEPARATOR],
{
    assert(encoded(seq![x]) =~= seq![encode_utf8(x)]);
}

/// The trailer of two commands is the line of the first and then the line
/// of the second.
pub proof fn lemma_trailer_of_two(one: Seq<Seq<char>>, two: Seq<Seq<char>>)
    ensures
        trailer_of(seq![one, two]) == line_of(one) + line_of(two),
{
    let both = seq![one, two];
    assert(both.skip(1) =~= seq![two]);
    assert(seq![two].skip(1) =~= Seq::<Seq<Seq<char>>>::empty());
    assert(trailer_of(seq![two]) =~= line_of(two)) by {
        assert(trailer_of(seq![two]) == line_of(two) + trailer_of(seq![two].skip(1)));
    }
}

} // verus!
