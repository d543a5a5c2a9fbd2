//! Small operations on strings that the routing and certificate rules share.

use vstd::prelude::*;
use vstd::string::*;
use vstd::utf8::*;

verus! {

/// Whether `prefix` is a byte prefix of `text`, both in their UTF-8 encoding.
pub open spec fn has_prefix(text: Seq<char>, prefix: Seq<char>) -> bool {
    encode_utf8(prefix).is_prefix_of(encode_utf8(text))
}

/// For texts of ASCII characters the byte prefix is the prefix of the
/// characters.
pub proof fn lemma_ascii_prefix(text: Seq<char>, prefix: Seq<char>)
    requires
        is_ascii_chars(text),
        is_ascii_chars(prefix),
    ensures
        has_prefix(text, prefix) <==> prefix.is_prefix_of(text),
{
    is_ascii_chars_encode_utf8(text);
    is_ascii_chars_encode_utf8(prefix);
    let t = encode_utf8(text);
    let p = encode_utf8(prefix);
    if prefix.len() <= text.len() {
        if p.is_prefix_of(t) {
            assert forall|i: int| 0 <= i < prefix.len() implies prefix[i] == text[i] by {
                assert(p[i] == t.subrange(0, p.len() as int)[i]);
                assert(prefix[i] as u8 == text[i] as u8);
            }
            assert(prefix =~= text.subrange(0, prefix.len() as int));
        }
        if prefix.is_prefix_of(text) {
            assert forall|i: int| 0 <= i < p.len() implies p[i] == t[i] by {
                assert(prefix[i] == text.subrange(0, prefix.len() as int)[i]);
            }
            assert(p =~= t.subrange(0, p.len() as int));
        }
    }
}

/// Tests whether `text` begins with `prefix`, byte for byte.
pub fn starts_with(text: &str, prefix: &str) -> (found: bool)
    ensures
        found == has_prefix(text@, prefix@),
{
    let t = text.as_bytes();
    let p = prefix.as_bytes();
    if p.len() > t.len() {
        return false;
    }
    let mut i: usize = 0;
    while i < p.len()
        invariant
            i <= p.len() <= t.len(),
            p@ == encode_utf8(prefix@),
            t@ == encode_utf8(text@),
            forall|k: int| 0 <= k < i ==> p@[k] == t@[k],
        decreases p.len() - i,
    {
        if p[i] != t[i] {
            assert(t@.subrange(0, p@.len() as int)[i as int] == t@[i as int]);
            return false;
        }
        i += 1;
    }
    true
}

/// Tests whether two strings hold the same text.
pub fn same_text(a: &str, b: &str) -> (same: bool)
    ensures
        same == (a@ == b@),
{
    let x = a.as_bytes();
    let y = b.as_bytes();
    proof {
        encode_utf8_decode_utf8(a@);
        encode_utf8_decode_utf8(b@);
    }
    if x.len() != y.len() {
        return false;
    }
    let mut i: usize = 0;
    while i < x.len()
        invariant
            i <= x.len(),
            x.len() == y.len(),
            x@ == encode_utf8(a@),
            y@ == encode_utf8(b@),
            decode_utf8(encode_utf8(a@)) == a@,
            decode_utf8(encode_utf8(b@)) == b@,
            forall|k: int| 0 <= k < i ==> x@[k] == y@[k],
        decreases x.len() - i,
    {
        if x[i] != y[i] {
            return false;
        }
        i += 1;
    }
    assert(x@ =~= y@);
    true
}

/// The pieces between the separators of `text`, in their order. A text
/// without separators is one piece; two separators in a row, or one at either
/// end, give an empty piece.
pub open spec fn pieces(text: Seq<char>, sep: char) -> Seq<Seq<char>>
    decreases text.len(),
{
    if text.len() == 0 {
        seq![Seq::empty()]
    } else {
        let before = pieces(text.drop_last(), sep);
        if text.last() == sep {
            before.push(Seq::empty())
        } else {
            before.drop_last().push(before.last().push(text.last()))
        }
    }
}

/// The pieces of `text` that are not empty.
pub open spec fn filled_pieces(text: Seq<char>, sep: char) -> Seq<Seq<char>> {
    pieces(text, sep).filter(|piece: Seq<char>| piece.len() > 0)
}

/// The pieces put together again, with `sep` between each two.
pub open spec fn joined(parts: Seq<Seq<char>>, sep: char) -> Seq<char>
    decreases parts.len(),
{
    if parts.len() == 0 {
        Seq::empty()
    } else if parts.len() == 1 {
        parts[0]
    } else {
        joined(parts.drop_last(), sep).push(sep) + parts.last()
    }
}

/// Splitting loses nothing and cuts at every separator: there is always a
/// piece, no piece holds the separator, and the pieces joined by it are the
/// text.
pub proof fn lemma_pieces_split_the_text(text: Seq<char>, sep: char)
    ensures
        pieces(text, sep).len() >= 1,
        forall|i: int, j: int|
            0 <= i < pieces(text, sep).len() && 0 <= j < pieces(text, sep)[i].len() ==> pieces(
                text,
                sep,
            )[i][j] != sep,
        joined(pieces(text, sep), sep) == text,
    decreases text.len(),
{
    if text.len() > 0 {
        let shorter = text.drop_last();
        let before = pieces(shorter, sep);
        let all = pieces(text, sep);
        lemma_pieces_split_the_text(shorter, sep);
        if text.last() == sep {
            assert(all.drop_last() == before);
            assert(joined(all, sep) == joined(before, sep).push(sep) + Seq::<char>::empty());
            assert(joined(all, sep) =~= text);
        } else {
            let grown = before.last().push(text.last());
            assert(all.last() == grown);
            assert(all.drop_last() == before.drop_last());
            if before.len() == 1 {
                assert(joined(all, sep) =~= text);
            } else {
                assert(joined(before, sep) == joined(before.drop_last(), sep).push(sep)
                    + before.last());
                assert(joined(all, sep) == joined(before.drop_last(), sep).push(sep) + grown);
                assert(joined(all, sep) =~= joined(before, sep).push(text.last()));
                assert(joined(all, sep) =~= text);
            }
        }
    } else {
        assert(joined(pieces(text, sep), sep) =~= text);
    }
}

/// Filtering a list with one more item keeps that item exactly when it passes.
pub proof fn lemma_filter_push<A>(list: Seq<A>, item: A, pred: spec_fn(A) -> bool)
    ensures
        list.push(item).filter(pred) == if pred(item) {
            list.filter(pred).push(item)
        } else {
            list.filter(pred)
        },
{
    reveal(Seq::filter);
    assert(list.push(item).drop_last() == list);
}

/// Splits `text` at every `sep` and returns the pieces that are not empty, in
/// their order. Nothing is trimmed.
pub fn split_filled(text: &str, sep: char) -> (found: Vec<String>)
    ensures
        found.deep_view() == filled_pieces(text@, sep),
{
    let n = text.unicode_len();
    let mut found: Vec<String> = Vec::new();
    let mut start: usize = 0;
    let mut i: usize = 0;
    let ghost filled = |piece: Seq<char>| piece.len() > 0;
    proof {
        assert(text@.take(0) == Seq::<char>::empty());
        assert(text@.subrange(0, 0) == Seq::<char>::empty());
        assert(pieces(text@.take(0), sep).drop_last() == Seq::<Seq<char>>::empty());
        reveal(Seq::filter);
        assert(found.deep_view() == Seq::<Seq<char>>::empty());
    }
    while i < n
        invariant
            start <= i <= n,
            n == text@.len(),
            filled == |piece: Seq<char>| piece.len() > 0,
            pieces(text@.take(i as int), sep).len() >= 1,
            pieces(text@.take(i as int), sep).last() == text@.subrange(start as int, i as int),
            found.deep_view() == pieces(text@.take(i as int), sep).drop_last().filter(filled),
        decreases n - i,
    {
        let ghost before = pieces(text@.take(i as int), sep);
        proof {
            assert(text@.take(i + 1).drop_last() == text@.take(i as int));
            assert(text@.take(i + 1).last() == text@[i as int]);
        }
        if text.get_char(i) == sep {
            proof {
                assert(before.push(Seq::empty()).drop_last() == before);
                assert(before == before.drop_last().push(before.last()));
                lemma_filter_push(before.drop_last(), before.last(), filled);
            }
            if start < i {
                let ghost earlier = found.deep_view();
                let piece = text.substring_char(start, i).to_owned();
                found.push(piece);
                assert(found.deep_view() == earlier.push(piece@));
            }
            start = i + 1;
            assert(text@.subrange(start as int, i + 1) == Seq::<char>::empty());
        } else {
            proof {
                let grown = before.drop_last().push(before.last().push(text@[i as int]));
                assert(grown.drop_last() == before.drop_last());
                assert(text@.subrange(start as int, i + 1) == text@.subrange(
                    start as int,
                    i as int,
                ).push(text@[i as int]));
            }
        }
        i += 1;
    }
    proof {
        let all = pieces(text@, sep);
        assert(text@.take(n as int) == text@);
        assert(all == all.drop_last().push(all.last()));
        lemma_filter_push(all.drop_last(), all.last(), filled);
    }
    if start < n {
        let ghost earlier = found.deep_view();
        let piece = text.substring_char(start, n).to_owned();
        found.push(piece);
        assert(found.deep_view() == earlier.push(piece@));
    }
    found
}

/// The character of a decimal digit.
pub open spec fn digit_char(d: nat) -> char
    recommends
        d < 10,
{
    if d == 0 {
        '0'
    } else if d == 1 {
        '1'
    } else if d == 2 {
        '2'
    } else if d == 3 {
        '3'
    } else if d == 4 {
        '4'
    } else if d == 5 {
        '5'
    } else if d == 6 {
        '6'
    } else if d == 7 {
        '7'
    } else if d == 8 {
        '8'
    } else {
        '9'
    }
}

/// The decimal numeral of `n`, without leading zeros.
pub open spec fn decimal(n: nat) -> Seq<char>
    decreases n,
{
    if n < 10 {
        seq![digit_char(n)]
    } else {
        decimal(n / 10).push(digit_char(n % 10))
    }
}

/// The numeral of one digit.
fn digit_text(d: u32) -> (text: &'static str)
    requires
        d < 10,
    ensures
        text@ == seq![digit_char(d as nat)],
{
    proof {
        reveal_strlit("0");
        reveal_strlit("1");
        reveal_strlit("2");
        reveal_strlit("3");
        reveal_strlit("4");
        reveal_strlit("5");
        reveal_strlit("6");
        reveal_strlit("7");
        reveal_strlit("8");
        reveal_strlit("9");
    }
    let text = if d == 0 {
        "0"
    } else if d == 1 {
        "1"
    } else if d == 2 {
        "2"
    } else if d == 3 {
        "3"
    } else if d == 4 {
        "4"
    } else if d == 5 {
        "5"
    } else if d == 6 {
        "6"
    } else if d == 7 {
        "7"
    } else if d == 8 {
        "8"
    } else {
        "9"
    };
    assert(text@ =~= seq![digit_char(d as nat)]);
    text
}

/// Writes `n` as a decimal numeral.
pub fn to_decimal(n: u32) -> (text: String)
    ensures
        text@ == decimal(n as nat),
    decreases n,
{
    if n < 10 {
        digit_text(n).to_owned()
    } else {
        let mut text = to_decimal(n / 10);
        text.append(digit_text(n % 10));
        assert(text@ =~= decimal(n as nat));
        text
    }
}

} // verus!
