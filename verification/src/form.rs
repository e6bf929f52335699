//! `application/x-www-form-urlencoded` text: how pairs are written into a query
//! string, and what a server reads from one.

use crate::search::{cut, first_where, lemma_first_where, lemma_pieces_of_join, pieces};
use crate::text::among;
use vstd::prelude::*;
use vstd::utf8::{encode_scalar, encode_utf8, leading_byte_width_1};

verus! {

/// A name and its value.
pub type Pair = (Seq<char>, Seq<char>);

// ---------------------------------------------------------------------------
// Writing
// ---------------------------------------------------------------------------

/// The bytes that are written as they are: ASCII letters and digits, and
/// `*`, `-`, `.`, `_`.
pub open spec fn unescaped(b: u8) -> bool {
    ||| 0x30 <= b <= 0x39
    ||| 0x41 <= b <= 0x5a
    ||| 0x61 <= b <= 0x7a
    ||| b == 0x2a
    ||| b == 0x2d
    ||| b == 0x2e
    ||| b == 0x5f
}

/// A hexadecimal digit, in capitals.
pub open spec fn hex_digit(n: int) -> char {
    if n < 10 {
        (0x30 + n) as char
    } else {
        (0x41 + n - 10) as char
    }
}

/// How a byte is written: as it is, as `+` for a space, or as `%` and two
/// hexadecimal digits.
pub open spec fn form_byte(b: u8) -> Seq<char> {
    if unescaped(b) {
        seq![b as char]
    } else if b == 0x20 {
        seq!['+']
    } else {
        seq!['%', hex_digit(b as int / 16), hex_digit(b as int % 16)]
    }
}

/// How bytes are written, one after the other.
pub open spec fn form_bytes(bytes: Seq<u8>) -> Seq<char>
    decreases bytes.len(),
{
    if bytes.len() == 0 {
        Seq::empty()
    } else {
        form_byte(bytes[0]) + form_bytes(bytes.drop_first())
    }
}

/// How a text is written: byte by byte, in UTF-8.
pub open spec fn form_text(s: Seq<char>) -> Seq<char> {
    form_bytes(encode_utf8(s))
}

/// How a pair is written.
pub open spec fn form_pair(pair: Pair) -> Seq<char> {
    form_text(pair.0) + seq!['='] + form_text(pair.1)
}

/// A query string with pairs added to it, each separated by `&` from what goes
/// before.
pub open spec fn form_query(query: Seq<char>, pairs: Seq<Pair>) -> Seq<char>
    decreases pairs.len(),
{
    if pairs.len() == 0 {
        query
    } else {
        let before = if query.len() > 0 {
            query.push('&')
        } else {
            query
        };
        form_query(before + form_pair(pairs[0]), pairs.drop_first())
    }
}

proof fn lemma_form_bytes_step(bytes: Seq<u8>, i: int)
    requires
        0 <= i < bytes.len(),
    ensures
        form_bytes(bytes.skip(i)).len() == form_byte(bytes[i]).len() + form_bytes(
            bytes.skip(i + 1),
        ).len(),
{
    assert(bytes.skip(i).drop_first() =~= bytes.skip(i + 1));
}

/// How many characters it takes to write `s`.
pub fn form_text_len(s: &str) -> (r: u128)
    ensures
        r == form_text(s@).len(),
        r <= 3 * usize::MAX,
{
    let bytes = s.as_bytes();
    let n: usize = bytes.len();
    let mut total: u128 = 0;
    let mut i: usize = 0;
    assert(bytes@.skip(0) =~= bytes@);
    while i < n
        invariant
            i <= n,
            n == bytes@.len(),
            total <= 3 * i,
            total + form_bytes(bytes@.skip(i as int)).len() == form_bytes(bytes@).len(),
        decreases n - i,
    {
        let b: u8 = bytes[i];
        proof {
            lemma_form_bytes_step(bytes@, i as int);
        }
        let plain = (0x30 <= b && b <= 0x39) || (0x41 <= b && b <= 0x5a) || (0x61 <= b && b
            <= 0x7a) || b == 0x2a || b == 0x2d || b == 0x2e || b == 0x5f || b == 0x20;
        total += if plain {
            1
        } else {
            3
        };
        i += 1;
    }
    total
}

// ---------------------------------------------------------------------------
// Reading
// ---------------------------------------------------------------------------

/// What a hexadecimal digit counts for.
pub open spec fn hex_value(c: char) -> Option<int> {
    let u = c as int;
    if 0x30 <= u <= 0x39 {
        Some(u - 0x30)
    } else if 0x41 <= u <= 0x46 {
        Some(u - 0x41 + 10)
    } else if 0x61 <= u <= 0x66 {
        Some(u - 0x61 + 10)
    } else {
        None
    }
}

/// `s` starts with `%` and two hexadecimal digits.
pub open spec fn escape_first(s: Seq<char>) -> bool {
    s.len() > 2 && s[0] == '%' && hex_value(s[1]) is Some && hex_value(s[2]) is Some
}

/// The bytes that a server reads from a name or a value.
pub open spec fn read_bytes(s: Seq<char>) -> Seq<u8>
    decreases s.len(),
{
    if s.len() == 0 {
        Seq::empty()
    } else if s[0] == '+' {
        seq![0x20u8] + read_bytes(s.drop_first())
    } else if escape_first(s) {
        seq![(hex_value(s[1])->Some_0 * 16 + hex_value(s[2])->Some_0) as u8] + read_bytes(s.skip(3))
    } else {
        encode_scalar(s[0] as u32) + read_bytes(s.drop_first())
    }
}

/// The name and the value, as bytes, that a server reads from a piece of a
/// query string.
pub open spec fn read_pair(piece: Seq<char>) -> (Seq<u8>, Seq<u8>) {
    match cut(piece, '=') {
        Some((name, value)) => (read_bytes(name), read_bytes(value)),
        None => (read_bytes(piece), Seq::empty()),
    }
}

/// The pairs that a server reads from pieces of a query string; empty ones say
/// nothing.
pub open spec fn read_pieces(parts: Seq<Seq<char>>) -> Seq<(Seq<u8>, Seq<u8>)>
    decreases parts.len(),
{
    if parts.len() == 0 {
        Seq::empty()
    } else {
        let before = read_pieces(parts.drop_last());
        if parts.last().len() == 0 {
            before
        } else {
            before.push(read_pair(parts.last()))
        }
    }
}

/// The pairs that a server reads from a query string.
pub open spec fn read_query(query: Seq<char>) -> Seq<(Seq<u8>, Seq<u8>)> {
    read_pieces(pieces(query, among(seq!['&'])))
}

/// Pairs of texts as the bytes that they are in UTF-8.
pub open spec fn pairs_as_bytes(pairs: Seq<Pair>) -> Seq<(Seq<u8>, Seq<u8>)> {
    Seq::new(pairs.len(), |i: int| (encode_utf8(pairs[i].0), encode_utf8(pairs[i].1)))
}

// ---------------------------------------------------------------------------
// Laws
// ---------------------------------------------------------------------------

/// The characters that a written name or value is made of.
pub open spec fn form_char(c: char) -> bool {
    let u = c as int;
    ||| 0x30 <= u <= 0x39
    ||| 0x41 <= u <= 0x5a
    ||| 0x61 <= u <= 0x7a
    ||| c == '*'
    ||| c == '-'
    ||| c == '.'
    ||| c == '_'
    ||| c == '+'
    ||| c == '%'
}

proof fn lemma_form_bytes_chars(bytes: Seq<u8>)
    ensures
        forall|i: int|
            0 <= i < form_bytes(bytes).len() ==> form_char(#[trigger] form_bytes(bytes)[i]),
    decreases bytes.len(),
{
    if bytes.len() > 0 {
        let first = form_byte(bytes[0]);
        let rest = form_bytes(bytes.drop_first());
        lemma_form_bytes_chars(bytes.drop_first());
        assert forall|i: int| 0 <= i < form_bytes(bytes).len() implies form_char(
            #[trigger] form_bytes(bytes)[i],
        ) by {
            if i >= first.len() {
                assert(form_bytes(bytes)[i] == rest[i - first.len()]);
            } else {
                assert(form_bytes(bytes)[i] == first[i]);
            }
        }
    }
}

/// Nothing that means something in a URL is left in a written name or value: it
/// holds letters, digits, `*`, `-`, `.`, `_`, `+` and `%`, and so no `&`, `=`,
/// `#` or `?`.
pub proof fn lemma_written_text_is_plain(s: Seq<char>)
    ensures
        forall|i: int| 0 <= i < form_text(s).len() ==> form_char(#[trigger] form_text(s)[i]),
{
    lemma_form_bytes_chars(encode_utf8(s));
}

proof fn lemma_read_written_byte(b: u8, rest: Seq<char>)
    ensures
        read_bytes(form_byte(b) + rest) == seq![b] + read_bytes(rest),
{
    let s = form_byte(b) + rest;
    if unescaped(b) {
        assert(s.drop_first() =~= rest);
        assert(s[0] == b as char);
        let u = b as char as u32;
        assert(u == b);
        assert(leading_byte_width_1(u) == b) by {
            assert(leading_byte_width_1(u) == (u & 0x7F) as u8);
            assert((u & 0x7F) as u8 == b) by (bit_vector)
                requires
                    u == b,
                    b < 0x80,
            ;
        }
        assert(encode_scalar(u) =~= seq![b]);
    } else if b == 0x20 {
        assert(s.drop_first() =~= rest);
    } else {
        assert(s.skip(3) =~= rest);
        assert(s[1] == hex_digit(b as int / 16));
        assert(s[2] == hex_digit(b as int % 16));
        assert(hex_value(s[1]) == Some(b as int / 16));
        assert(hex_value(s[2]) == Some(b as int % 16));
        assert((b as int / 16) * 16 + b as int % 16 == b);
    }
}

proof fn lemma_read_written_bytes(bytes: Seq<u8>)
    ensures
        read_bytes(form_bytes(bytes)) == bytes,
    decreases bytes.len(),
{
    if bytes.len() > 0 {
        let rest = bytes.drop_first();
        lemma_read_written_bytes(rest);
        lemma_read_written_byte(bytes[0], form_bytes(rest));
        assert(seq![bytes[0]] + rest =~= bytes);
    }
}

/// A server reads back from a written text the text itself, byte for byte.
pub proof fn lemma_text_reads_back(s: Seq<char>)
    ensures
        read_bytes(form_text(s)) == encode_utf8(s),
{
    lemma_read_written_bytes(encode_utf8(s));
}

proof fn lemma_pair_reads_back(pair: Pair)
    ensures
        read_pair(form_pair(pair)) == (encode_utf8(pair.0), encode_utf8(pair.1)),
        first_where(form_pair(pair), among(seq!['&'])) is None,
{
    let name = form_text(pair.0);
    let value = form_text(pair.1);
    let written = form_pair(pair);
    lemma_written_text_is_plain(pair.0);
    lemma_written_text_is_plain(pair.1);
    assert forall|i: int| 0 <= i < written.len() implies (i != name.len() ==> form_char(
        #[trigger] written[i],
    )) by {
        if i < name.len() {
            assert(written[i] == name[i]);
        } else if i > name.len() {
            assert(written[i] == value[i - name.len() - 1]);
        }
    }
    assert(written[name.len() as int] == '=');
    let eq = among(seq!['=']);
    let amp = among(seq!['&']);
    lemma_first_where(written, eq);
    lemma_first_where(written, amp);
    assert(seq!['='].contains('=')) by {
        assert(seq!['='][0] == '=');
    }
    assert(eq(written[name.len() as int]));
    let at = first_where(written, eq)->Some_0;
    assert(at == name.len()) by {
        if at < name.len() {
            assert(form_char(written[at]));
        }
    }
    assert(written.take(at) =~= name);
    assert(written.skip(at + 1) =~= value);
    lemma_text_reads_back(pair.0);
    lemma_text_reads_back(pair.1);
}

proof fn lemma_read_pieces_of_concat(a: Seq<Seq<char>>, b: Seq<Seq<char>>)
    ensures
        read_pieces(a + b) == read_pieces(a) + read_pieces(b),
    decreases b.len(),
{
    if b.len() == 0 {
        assert(a + b =~= a);
        assert(read_pieces(a) + read_pieces(b) =~= read_pieces(a));
    } else {
        assert((a + b).drop_last() =~= a + b.drop_last());
        lemma_read_pieces_of_concat(a, b.drop_last());
        assert(read_pieces(a + b) =~= read_pieces(a) + read_pieces(b));
    }
}

proof fn lemma_one_more_pair_reads_back(query: Seq<char>, pair: Pair)
    ensures
        ({
            let before = if query.len() > 0 {
                query.push('&')
            } else {
                query
            };
            read_query(before + form_pair(pair)) == read_query(query).push(
                (encode_utf8(pair.0), encode_utf8(pair.1)),
            )
        }),
{
    let amp = among(seq!['&']);
    let written = form_pair(pair);
    lemma_pair_reads_back(pair);
    assert(pieces(written, amp) =~= seq![written]);
    assert(written.len() > 0);
    assert(seq![written].drop_last() =~= Seq::<Seq<char>>::empty());
    reveal_with_fuel(read_pieces, 2);
    assert(read_query(written) =~= seq![read_pair(written)]);
    if query.len() > 0 {
        assert(seq!['&'].contains('&')) by {
            assert(seq!['&'][0] == '&');
        }
        lemma_pieces_of_join(query, '&', written, amp);
        lemma_read_pieces_of_concat(pieces(query, amp), pieces(written, amp));
        assert(query.push('&') + written =~= query + seq!['&'] + written);
        assert(read_query(query) + seq![read_pair(written)] =~= read_query(query).push(
            read_pair(written),
        ));
    } else {
        assert(query + written =~= written);
        assert(pieces(query, amp) =~= seq![query]);
        assert(seq![query].drop_last() =~= Seq::<Seq<char>>::empty());
        assert(read_query(query) =~= Seq::empty());
        assert(read_query(query).push(read_pair(written)) =~= seq![read_pair(written)]);
    }
}

/// A server reads from a query string exactly the pairs that were written into
/// it, byte for byte and in order, behind those that were there before. No
/// character of a name or a value can end it early or stand for another pair.
pub proof fn lemma_pairs_read_back(query: Seq<char>, pairs: Seq<Pair>)
    ensures
        read_query(form_query(query, pairs)) == read_query(query) + pairs_as_bytes(pairs),
    decreases pairs.len(),
{
    if pairs.len() == 0 {
        assert(read_query(query) + pairs_as_bytes(pairs) =~= read_query(query));
    } else {
        let before = if query.len() > 0 {
            query.push('&')
        } else {
            query
        };
        let rest = pairs.drop_first();
        lemma_one_more_pair_reads_back(query, pairs[0]);
        lemma_pairs_read_back(before + form_pair(pairs[0]), rest);
        assert(read_query(query).push((encode_utf8(pairs[0].0), encode_utf8(pairs[0].1)))
            + pairs_as_bytes(rest) =~= read_query(query) + pairs_as_bytes(pairs));
    }
}

/// Pairs add no `#` to a query string, so that no part of them can end up in
/// the fragment of a URL.
pub proof fn lemma_pairs_add_no_hash(query: Seq<char>, pairs: Seq<Pair>)
    requires
        !query.contains('#'),
    ensures
        !form_query(query, pairs).contains('#'),
    decreases pairs.len(),
{
    if pairs.len() > 0 {
        let before = if query.len() > 0 {
            query.push('&')
        } else {
            query
        };
        let name = form_text(pairs[0].0);
        let value = form_text(pairs[0].1);
        let next = before + form_pair(pairs[0]);
        lemma_written_text_is_plain(pairs[0].0);
        lemma_written_text_is_plain(pairs[0].1);
        assert(!next.contains('#')) by {
            if next.contains('#') {
                let i = choose|i: int| 0 <= i < next.len() && next[i] == '#';
                let k = i - before.len();
                if i < before.len() {
                    assert(before[i] == '#');
                    assert(i < query.len());
                    assert(query[i] == '#');
                } else if k < name.len() {
                    assert(name[k] == '#');
                } else if k > name.len() {
                    assert(value[k - name.len() - 1] == '#');
                }
            }
        }
        lemma_pairs_add_no_hash(next, pairs.drop_first());
    }
}

/// Letters, digits and `*-._` are written as they are, a space as `+`, and every
/// other byte as `%` and its two hexadecimal digits in capitals, one byte after
/// the other.
pub proof fn lemma_how_bytes_are_written(b: u8, bytes: Seq<u8>)
    ensures
        'a' <= b as char <= 'z' || 'A' <= b as char <= 'Z' || '0' <= b as char <= '9'
            || "*-._"@.contains(b as char) ==> form_byte(b) == seq![b as char],
        b as char == ' ' ==> form_byte(b) == seq!['+'],
        !('a' <= b as char <= 'z' || 'A' <= b as char <= 'Z' || '0' <= b as char <= '9'
            || "*-._"@.contains(b as char) || b as char == ' ') ==> form_byte(b) == seq![
            '%',
            "0123456789ABCDEF"@[b as int / 16],
            "0123456789ABCDEF"@[b as int % 16],
        ],
        form_bytes(Seq::empty()).len() == 0,
        form_bytes(bytes.push(b)) == form_bytes(bytes) + form_byte(b),
    decreases bytes.len(),
{
    reveal_strlit("*-._");
    reveal_strlit("0123456789ABCDEF");
    let marks = "*-._"@;
    assert(marks.len() == 4 && marks[0] == '*' && marks[1] == '-' && marks[2] == '.' && marks[3]
        == '_');
    let all = bytes.push(b);
    if bytes.len() == 0 {
        reveal_with_fuel(form_bytes, 2);
        assert(all.drop_first() =~= Seq::<u8>::empty());
        assert(form_bytes(all) =~= form_bytes(bytes) + form_byte(b));
    } else {
        assert(all.drop_first() =~= bytes.drop_first().push(b));
        lemma_how_bytes_are_written(b, bytes.drop_first());
        assert(form_bytes(all) =~= form_bytes(bytes) + form_byte(b));
    }
}

} // verus!
