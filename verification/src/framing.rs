//! The framing of a cassette: its text is a stream of documents with a
//! separator line between each two.

use vstd::prelude::*;
use vstd::utf8::*;
use vstd::string::StringSliceAdditionalSpecFns;
use crate::text::joined;

verus! {

/// The line that stands between two documents, with the line breaks around
/// it.
pub const SEPARATOR: &'static str = "\n---\n";

/// The bytes of the separator: a line feed, three hyphens, a line feed.
pub open spec fn separator() -> Seq<u8> {
    seq![10u8, 45u8, 45u8, 45u8, 10u8]
}

/// Whether a separator stands in `bytes` from position `i` on.
pub open spec fn separator_at(bytes: Seq<u8>, i: int) -> bool {
    &&& 0 <= i
    &&& i + 5 <= bytes.len()
    &&& bytes[i] == 10
    &&& bytes[i + 1] == 45
    &&& bytes[i + 2] == 45
    &&& bytes[i + 3] == 45
    &&& bytes[i + 4] == 10
}

/// The documents of `bytes` from `start` on, where no separator begins
/// between `start` and `pos`: the text is read from left to right, and
/// every separator that is met ends a document.
pub open spec fn pieces(bytes: Seq<u8>, start: int, pos: int) -> Seq<Seq<u8>>
    decreases bytes.len() - pos,
{
    if start < 0 || pos < start || pos + 5 > bytes.len() {
        seq![bytes.subrange(start, bytes.len() as int)]
    } else if separator_at(bytes, pos) {
        seq![bytes.subrange(start, pos)] + pieces(bytes, pos + 5, pos + 5)
    } else {
        pieces(bytes, start, pos + 1)
    }
}

/// The documents of a cassette: what stands before the first separator,
/// between each two, and after the last. A text without separator is one
/// document.
pub open spec fn split(bytes: Seq<u8>) -> Seq<Seq<u8>> {
    pieces(bytes, 0, 0)
}

/// The documents put together, with a separator between each two.
pub open spec fn join(documents: Seq<Seq<u8>>) -> Seq<u8>
    decreases documents.len(),
{
    if documents.len() == 0 {
        Seq::empty()
    } else if documents.len() == 1 {
        documents[0]
    } else {
        documents[0] + separator() + join(documents.drop_first())
    }
}

/// The encodings of a list of texts.
pub open spec fn bytes_of(texts: Seq<Seq<char>>) -> Seq<Seq<u8>> {
    texts.map_values(|text: Seq<char>| encode_utf8(text))
}

/// `pieces` gives at least one document.
pub proof fn lemma_pieces_len(bytes: Seq<u8>, start: int, pos: int)
    ensures
        pieces(bytes, start, pos).len() >= 1,
    decreases bytes.len() - pos,
{
    if start < 0 || pos < start || pos + 5 > bytes.len() {
    } else if separator_at(bytes, pos) {
        lemma_pieces_len(bytes, pos + 5, pos + 5);
    } else {
        lemma_pieces_len(bytes, start, pos + 1);
    }
}

/// The documents from `start` on, joined, are the text from `start` on.
pub proof fn lemma_join_pieces(bytes: Seq<u8>, start: int, pos: int)
    requires
        0 <= start <= pos <= bytes.len(),
    ensures
        join(pieces(bytes, start, pos)) == bytes.subrange(start, bytes.len() as int),
    decreases bytes.len() - pos,
{
    if pos + 5 > bytes.len() {
    } else if separator_at(bytes, pos) {
        let rest = pieces(bytes, pos + 5, pos + 5);
        let all = seq![bytes.subrange(start, pos)] + rest;
        lemma_pieces_len(bytes, pos + 5, pos + 5);
        lemma_join_pieces(bytes, pos + 5, pos + 5);
        assert(all.drop_first() =~= rest);
        assert(bytes.subrange(pos, pos + 5) =~= separator());
        assert(bytes.subrange(start, pos) + bytes.subrange(pos, pos + 5) + bytes.subrange(
            pos + 5,
            bytes.len() as int,
        ) =~= bytes.subrange(start, bytes.len() as int));
    } else {
        lemma_join_pieces(bytes, start, pos + 1);
    }
}

/// Splitting a text into its documents loses nothing: joined again, they
/// are the text.
pub proof fn lemma_join_split(bytes: Seq<u8>)
    ensures
        join(split(bytes)) == bytes,
{
    lemma_join_pieces(bytes, 0, 0);
    assert(bytes.subrange(0, bytes.len() as int) =~= bytes);
}

/// Whether a line feed with three hyphens after it stands in `bytes` from
/// position `i` on: the separator without its last byte.
pub open spec fn marker_at(bytes: Seq<u8>, i: int) -> bool {
    &&& 0 <= i
    &&& i + 4 <= bytes.len()
    &&& bytes[i] == 10
    &&& bytes[i + 1] == 45
    &&& bytes[i + 2] == 45
    &&& bytes[i + 3] == 45
}

/// Whether no line of a document begins with three hyphens, but for the
/// first line.
pub open spec fn holds_no_marker(bytes: Seq<u8>) -> bool {
    forall|i: int| !marker_at(bytes, i)
}

/// The documents of a text are found in the same way when other text
/// stands before it.
pub proof fn lemma_pieces_shift(before: Seq<u8>, bytes: Seq<u8>, start: int, pos: int)
    requires
        0 <= start <= pos <= bytes.len(),
    ensures
        pieces(before + bytes, before.len() + start, before.len() + pos) == pieces(bytes, start, pos),
    decreases bytes.len() - pos,
{
    let all = before + bytes;
    if pos + 5 > bytes.len() {
        assert(all.subrange(before.len() + start, all.len() as int) =~= bytes.subrange(
            start,
            bytes.len() as int,
        ));
    } else {
        assert(all[before.len() + pos] == bytes[pos]);
        assert(all[before.len() + pos + 1] == bytes[pos + 1]);
        assert(all[before.len() + pos + 2] == bytes[pos + 2]);
        assert(all[before.len() + pos + 3] == bytes[pos + 3]);
        assert(all[before.len() + pos + 4] == bytes[pos + 4]);
        if separator_at(bytes, pos) {
            assert(separator_at(all, before.len() + pos));
            lemma_pieces_shift(before, bytes, pos + 5, pos + 5);
            assert(all.subrange(before.len() + start, before.len() + pos) =~= bytes.subrange(start, pos));
        } else {
            assert(!separator_at(all, before.len() + pos));
            lemma_pieces_shift(before, bytes, start, pos + 1);
        }
    }
}

/// A text that begins with a document without marker, and goes on with a
/// separator or not at all, has that document as its first.
pub proof fn lemma_first_piece(document: Seq<u8>, rest: Seq<u8>, pos: int)
    requires
        holds_no_marker(document),
        0 <= pos <= document.len(),
        rest.len() == 0 || separator_at(document + rest, document.len() as int),
    ensures
        pieces(document + rest, 0, pos) == if rest.len() == 0 {
            seq![document]
        } else {
            seq![document] + pieces(document + rest, document.len() as int + 5, document.len() as int + 5)
        },
    decreases document.len() - pos,
{
    let all = document + rest;
    if rest.len() == 0 {
        assert(all =~= document);
        if pos + 5 > all.len() {
            assert(all.subrange(0, all.len() as int) =~= document);
        } else {
            assert(!separator_at(all, pos)) by {
                if separator_at(all, pos) {
                    assert(marker_at(document, pos));
                }
            }
            lemma_first_piece(document, rest, pos + 1);
        }
    } else if pos == document.len() {
        assert(all.subrange(0, pos) =~= document);
    } else {
        assert(!separator_at(all, pos)) by {
            if separator_at(all, pos) {
                if pos + 4 <= document.len() {
                    assert(all[pos] == document[pos]);
                    assert(all[pos + 1] == document[pos + 1]);
                    assert(all[pos + 2] == document[pos + 2]);
                    assert(all[pos + 3] == document[pos + 3]);
                    assert(marker_at(document, pos));
                } else {
                    assert(all[document.len() as int] == 10);
                }
            }
        }
        lemma_first_piece(document, rest, pos + 1);
    }
}

/// Documents of which no line but the first begins with three hyphens are
/// found again when the text that joins them is split.
pub proof fn lemma_split_join(documents: Seq<Seq<u8>>)
    requires
        documents.len() >= 1,
        forall|i: int| 0 <= i < documents.len() ==> holds_no_marker(#[trigger] documents[i]),
    ensures
        split(join(documents)) == documents,
    decreases documents.len(),
{
    let first = documents[0];
    if documents.len() == 1 {
        let rest = Seq::<u8>::empty();
        lemma_first_piece(first, rest, 0);
        assert(first + rest =~= first);
        assert(seq![first] =~= documents);
    } else {
        let tail = documents.drop_first();
        assert forall|i: int| 0 <= i < tail.len() implies holds_no_marker(#[trigger] tail[i]) by {
            assert(tail[i] == documents[i + 1]);
        }
        lemma_split_join(tail);
        let rest = separator() + join(tail);
        let all = first + rest;
        assert(join(documents) =~= all);
        assert(separator_at(all, first.len() as int)) by {
            assert(all[first.len() as int] == separator()[0]);
            assert(all[first.len() as int + 1] == separator()[1]);
            assert(all[first.len() as int + 2] == separator()[2]);
            assert(all[first.len() as int + 3] == separator()[3]);
            assert(all[first.len() as int + 4] == separator()[4]);
        }
        lemma_first_piece(first, rest, 0);
        let before = first + separator();
        assert(before + join(tail) =~= all);
        lemma_pieces_shift(before, join(tail), 0, 0);
        assert(seq![first] + tail =~= documents);
    }
}

/// What `join` gives when a document is added at the end.
pub proof fn lemma_join_push(documents: Seq<Seq<u8>>, last: Seq<u8>)
    requires
        documents.len() >= 1,
    ensures
        join(documents.push(last)) == join(documents) + separator() + last,
    decreases documents.len(),
{
    let all = documents.push(last);
    if documents.len() == 1 {
        assert(all.drop_first() =~= seq![last]);
        assert(join(seq![last]) == last);
    } else {
        lemma_join_push(documents.drop_first(), last);
        assert(all.drop_first() =~= documents.drop_first().push(last));
        assert(documents[0] + separator() + (join(documents.drop_first()) + separator() + last) =~= (
        documents[0] + separator() + join(documents.drop_first())) + separator() + last);
    }
}

/// The encoding of two texts in a row is the one encoding after the other.
pub proof fn lemma_encode_concat(a: Seq<char>, b: Seq<char>)
    ensures
        encode_utf8(a + b) == encode_utf8(a) + encode_utf8(b),
    decreases a.len(),
{
    if a.len() == 0 {
        assert(a + b =~= b);
        assert(encode_utf8(a) + encode_utf8(b) =~= encode_utf8(b));
    } else {
        lemma_encode_concat(a.drop_first(), b);
        assert((a + b).drop_first() =~= a.drop_first() + b);
        assert((a + b)[0] == a[0]);
        assert(encode_scalar(a[0] as u32) + (encode_utf8(a.drop_first()) + encode_utf8(b)) =~= (
        encode_scalar(a[0] as u32) + encode_utf8(a.drop_first())) + encode_utf8(b));
    }
}

/// The separator's text is encoded as the separator's bytes.
pub proof fn lemma_separator_bytes()
    ensures
        encode_utf8(SEPARATOR@) == separator(),
{
    reveal_strlit("\n---\n");
    let text = SEPARATOR@;
    assert(text.len() == 5);
    assert(text[0] == '\n' && text[1] == '-' && text[2] == '-' && text[3] == '-' && text[4] == '\n');
    assert(is_ascii_chars(text));
    is_ascii_chars_encode_utf8(text);
    assert(encode_utf8(text) =~= separator());
}

/// Texts put in a row with the separator between each two are encoded as
/// their encodings, joined.
pub proof fn lemma_joined_bytes(texts: Seq<Seq<char>>)
    ensures
        encode_utf8(joined(texts, SEPARATOR@)) == join(bytes_of(texts)),
    decreases texts.len(),
{
    if texts.len() == 0 {
        assert(bytes_of(texts) =~= Seq::<Seq<u8>>::empty());
    } else if texts.len() == 1 {
        assert(bytes_of(texts)[0] == encode_utf8(texts[0]));
    } else {
        let front = texts.drop_last();
        lemma_joined_bytes(front);
        lemma_encode_concat(joined(front, SEPARATOR@), SEPARATOR@);
        lemma_encode_concat(joined(front, SEPARATOR@) + SEPARATOR@, texts.last());
        lemma_separator_bytes();
        lemma_join_push(bytes_of(front), encode_utf8(texts.last()));
        assert(bytes_of(front).push(encode_utf8(texts.last())) =~= bytes_of(texts));
    }
}

/// A line feed in a text is a character of its own: the text can be cut
/// before it and after it.
pub proof fn lemma_cut_at_line_feed(bytes: Seq<u8>, i: int)
    requires
        valid_utf8(bytes),
        0 <= i < bytes.len(),
        bytes[i] == 10,
    ensures
        is_char_boundary(bytes, i),
        is_char_boundary(bytes, i + 1),
{
    let b = bytes[i];
    assert(!is_continuation_byte(10u8)) by (bit_vector);
    assert(is_leading_byte_width_1(10u8)) by (bit_vector);
    is_char_boundary_iff_not_is_continuation_byte(bytes, i);
    if i + 1 == bytes.len() {
        is_char_boundary_start_end_of_seq(bytes);
    } else {
        valid_utf8_split(bytes, i);
        let tail = bytes.subrange(i, bytes.len() as int);
        assert(tail[0] == 10);
        assert(length_of_first_scalar(tail) == 1);
        let after = pop_first_scalar(tail);
        assert(after =~= bytes.subrange(i + 1, bytes.len() as int));
        assert(valid_utf8(after));
        assert(after.len() > 0);
        assert(valid_first_scalar(after));
        assert(after[0] == bytes[i + 1]);
        lemma_first_byte_leads(after);
        is_char_boundary_iff_not_is_continuation_byte(bytes, i + 1);
    }
}

/// A text does not begin in the middle of a character.
proof fn lemma_first_byte_leads(bytes: Seq<u8>)
    requires
        bytes.len() > 0,
        valid_first_scalar(bytes),
    ensures
        !is_continuation_byte(bytes[0]),
{
    let b = bytes[0];
    assert(is_leading_byte_width_1(b) || is_leading_byte_width_2(b) || is_leading_byte_width_3(b)
        || is_leading_byte_width_4(b));
    assert((b & 0x80 == 0 || b & 0xe0 == 0xc0 || b & 0xf0 == 0xe0 || b & 0xf8 == 0xf0) ==> !(b & 0xc0
        == 0x80)) by (bit_vector);
}

/// The part of a text between two places where it can be cut.
fn slice_text(text: &str, from: usize, to: usize) -> (part: &str)
    requires
        from <= to <= text.spec_bytes().len(),
        is_char_boundary(text.spec_bytes(), from as int),
        is_char_boundary(text.spec_bytes(), to as int),
    ensures
        part.spec_bytes() == text.spec_bytes().subrange(from as int, to as int),
{
    let ghost all = text.spec_bytes();
    let (head, _) = text.split_at(to);
    proof {
        encode_utf8_valid_utf8(text@);
        encode_utf8_valid_utf8(head@);
        if from == to {
            is_char_boundary_start_end_of_seq(head.spec_bytes());
        } else {
            is_char_boundary_iff_not_is_continuation_byte(all, from as int);
            assert(head.spec_bytes()[from as int] == all[from as int]);
            is_char_boundary_iff_not_is_continuation_byte(head.spec_bytes(), from as int);
        }
    }
    let (_, part) = head.split_at(from);
    assert(part.spec_bytes() =~= all.subrange(from as int, to as int));
    part
}

/// Splits the text of a cassette into its documents.
pub fn split_documents(text: &str) -> (documents: Vec<String>)
    ensures
        bytes_of(documents.deep_view()) == split(encode_utf8(text@)),
{
    let bytes = text.as_bytes();
    let n = bytes.len();
    let ghost all = text.spec_bytes();
    let mut documents: Vec<String> = Vec::new();
    let mut start: usize = 0;
    let mut pos: usize = 0;
    proof {
        encode_utf8_valid_utf8(text@);
        is_char_boundary_start_end_of_seq(all);
        assert(bytes_of(documents.deep_view()) =~= Seq::<Seq<u8>>::empty());
        assert(Seq::<Seq<u8>>::empty() + split(all) =~= split(all));
    }
    while n >= 5 && pos <= n - 5
        invariant
            all == text.spec_bytes(),
            bytes@ == all,
            n == all.len(),
            valid_utf8(all),
            start <= pos <= n,
            is_char_boundary(all, start as int),
            bytes_of(documents.deep_view()) + pieces(all, start as int, pos as int) == split(all),
        decreases n - pos,
    {
        if bytes[pos] == 10 && bytes[pos + 1] == 45 && bytes[pos + 2] == 45 && bytes[pos + 3] == 45
            && bytes[pos + 4] == 10 {
            proof {
                lemma_cut_at_line_feed(all, pos as int);
                lemma_cut_at_line_feed(all, pos + 4);
            }
            let part = slice_text(text, start, pos);
            let ghost before = bytes_of(documents.deep_view());
            documents.push(part.to_owned());
            proof {
                assert(separator_at(all, pos as int));
                assert(bytes_of(documents.deep_view()) =~= before.push(all.subrange(start as int, pos as int)));
                assert(before.push(all.subrange(start as int, pos as int)) + pieces(all, pos + 5, pos + 5)
                    =~= before + (seq![all.subrange(start as int, pos as int)] + pieces(
                    all,
                    pos + 5,
                    pos + 5,
                )));
            }
            start = pos + 5;
            pos = start;
        } else {
            assert(!separator_at(all, pos as int));
            pos += 1;
        }
    }
    proof {
        is_char_boundary_start_end_of_seq(all);
    }
    let part = slice_text(text, start, n);
    let ghost before = bytes_of(documents.deep_view());
    documents.push(part.to_owned());
    proof {
        assert(bytes_of(documents.deep_view()) =~= before.push(all.subrange(start as int, n as int)));
        assert(before.push(all.subrange(start as int, n as int)) =~= before + seq![
            all.subrange(start as int, n as int),
        ]);
    }
    documents
}

/// Puts documents together into the text of a cassette, with a separator
/// between each two.
pub fn join_documents(documents: &Vec<String>) -> (text: String)
    ensures
        encode_utf8(text@) == join(bytes_of(documents.deep_view())),
{
    let mut text = String::new();
    let ghost all = bytes_of(documents.deep_view());
    let mut i: usize = 0;
    proof {
        assert(all.subrange(0, 0) =~= Seq::<Seq<u8>>::empty());
        assert(encode_utf8(text@) =~= Seq::<u8>::empty());
    }
    while i < documents.len()
        invariant
            i <= documents.len(),
            all == bytes_of(documents.deep_view()),
            encode_utf8(text@) == join(all.subrange(0, i as int)),
        decreases documents.len() - i,
    {
        let ghost before = text@;
        if i > 0 {
            text.append(SEPARATOR);
            proof {
                lemma_encode_concat(before, SEPARATOR@);
                lemma_separator_bytes();
            }
        }
        let ghost middle = text@;
        text.append(documents[i].as_str());
        proof {
            lemma_encode_concat(middle, documents@[i as int]@);
            let done = all.subrange(0, i + 1);
            assert(done =~= all.subrange(0, i as int).push(all[i as int]));
            assert(all[i as int] == encode_utf8(documents@[i as int]@));
            if i > 0 {
                lemma_join_push(all.subrange(0, i as int), all[i as int]);
            } else {
                assert(join(done) == all[0]);
                assert(Seq::<u8>::empty() + all[0] =~= all[0]);
            }
        }
        i += 1;
    }
    assert(all.subrange(0, i as int) =~= all);
    text
}

} // verus!
