//! Byte strings: comparison, splitting and joining, words between
//! whitespace, and decimal numbers.
use vstd::prelude::*;

verus! {

/// Carriage return.
pub const CR: u8 = 13;

/// Line feed.
pub const LF: u8 = 10;

/// The space character.
pub const SPACE: u8 = 32;

/// The colon that ends a header name.
pub const COLON: u8 = 58;

/// The slash that separates the segments of a path.
pub const SLASH: u8 = 47;

/// The plus sign that may lead a number.
pub const PLUS: u8 = 43;

/// The digit zero; the other nine digits follow it.
pub const ZERO: u8 = 48;

/// Whether `b` is ASCII whitespace: tab, line feed, vertical tab, form feed,
/// carriage return or space.
pub open spec fn is_whitespace(b: u8) -> bool {
    (9 <= b && b <= 13) || b == SPACE
}

/// Whether `b` is a decimal digit.
pub open spec fn is_digit(b: u8) -> bool {
    ZERO <= b && b <= ZERO + 9
}

/// The end of a line on the wire: carriage return, line feed.
pub open spec fn crlf() -> Seq<u8> {
    seq![CR, LF]
}

/// The decimal digits of `n`, most significant first, without leading zeros.
pub open spec fn decimal(n: nat) -> Seq<u8>
    decreases n,
{
    if n < 10 {
        seq![(ZERO + n) as u8]
    } else {
        decimal(n / 10).push((ZERO + n % 10) as u8)
    }
}

/// The pieces of `s` between occurrences of `sep`. There is always at least
/// one piece; `k` separators give `k + 1` pieces, some of which may be empty.
pub open spec fn split(s: Seq<u8>, sep: u8) -> Seq<Seq<u8>>
    decreases s.len(),
{
    if s.len() == 0 {
        seq![Seq::<u8>::empty()]
    } else {
        let before = split(s.drop_last(), sep);
        if s.last() == sep {
            before.push(Seq::<u8>::empty())
        } else {
            before.update(before.len() - 1, before.last().push(s.last()))
        }
    }
}

/// The words of `line`: its longest runs of bytes that are not whitespace,
/// in the order in which they stand.
pub open spec fn tokens(line: Seq<u8>) -> Seq<Seq<u8>>
    decreases line.len(),
{
    if line.len() == 0 {
        Seq::<Seq<u8>>::empty()
    } else {
        let before = tokens(line.drop_last());
        if is_whitespace(line.last()) {
            before
        } else if line.len() >= 2 && !is_whitespace(line[line.len() - 2]) {
            before.update(before.len() - 1, before.last().push(line.last()))
        } else {
            before.push(seq![line.last()])
        }
    }
}

/// The number that a string of digits writes.
pub open spec fn digits_value(digits: Seq<u8>) -> nat
    decreases digits.len(),
{
    if digits.len() == 0 {
        0
    } else {
        digits_value(digits.drop_last()) * 10 + (digits.last() - ZERO) as nat
    }
}

/// Whether every byte of `text` is a decimal digit.
pub open spec fn all_digits(text: Seq<u8>) -> bool {
    forall|i: int| 0 <= i < text.len() ==> is_digit(#[trigger] text[i])
}

/// `text` without the `+` that it may start with.
pub open spec fn unsigned_part(text: Seq<u8>) -> Seq<u8> {
    if text.len() > 0 && text[0] == PLUS {
        text.skip(1)
    } else {
        text
    }
}

/// The number that `text` writes: one or more decimal digits, which a single
/// `+` may precede. Nothing else is a number: no sign alone, no blank, no
/// other character before, between or after the digits.
pub open spec fn parsed_number(text: Seq<u8>) -> Option<nat> {
    let digits = unsigned_part(text);
    if digits.len() > 0 && all_digits(digits) {
        Some(digits_value(digits))
    } else {
        None
    }
}

/// The pieces written one after the other with `sep` between neighbours.
pub open spec fn join(parts: Seq<Seq<u8>>, sep: u8) -> Seq<u8>
    decreases parts.len(),
{
    if parts.len() == 0 {
        Seq::<u8>::empty()
    } else if parts.len() == 1 {
        parts[0]
    } else {
        join(parts.drop_last(), sep).push(sep) + parts.last()
    }
}

/// The byte strings that a list of vectors holds.
pub open spec fn views(parts: Seq<Vec<u8>>) -> Seq<Seq<u8>> {
    Seq::new(parts.len(), |i: int| parts[i]@)
}

/// Splitting never yields an empty list of pieces.
pub proof fn lemma_split_nonempty(s: Seq<u8>, sep: u8)
    ensures
        split(s, sep).len() >= 1,
    decreases s.len(),
{
    if s.len() > 0 {
        lemma_split_nonempty(s.drop_last(), sep);
    }
}

/// No piece of a split holds the separator.
pub proof fn lemma_split_pieces_lack_separator(s: Seq<u8>, sep: u8)
    ensures
        forall|i: int, j: int|
            0 <= i < split(s, sep).len() && 0 <= j < split(s, sep)[i].len() ==> split(
                s,
                sep,
            )[i][j] != sep,
    decreases s.len(),
{
    if s.len() > 0 {
        lemma_split_pieces_lack_separator(s.drop_last(), sep);
        lemma_split_nonempty(s.drop_last(), sep);
    }
}

/// Joining the pieces of a split with the same separator gives the bytes back.
pub proof fn lemma_join_split(s: Seq<u8>, sep: u8)
    ensures
        join(split(s, sep), sep) == s,
    decreases s.len(),
{
    if s.len() > 0 {
        let before = split(s.drop_last(), sep);
        lemma_join_split(s.drop_last(), sep);
        lemma_split_nonempty(s.drop_last(), sep);
        if s.last() == sep {
            assert(before.push(Seq::<u8>::empty()).drop_last() == before);
            assert(s == s.drop_last().push(sep));
        } else {
            let grown = before.update(before.len() - 1, before.last().push(s.last()));
            if before.len() > 1 {
                assert(grown.drop_last() == before.drop_last());
            }
            assert(s == s.drop_last().push(s.last()));
        }
    }
}

/// A byte string without the separator is its own single piece.
pub proof fn lemma_split_without_separator(s: Seq<u8>, sep: u8)
    requires
        forall|i: int| 0 <= i < s.len() ==> s[i] != sep,
    ensures
        split(s, sep) == seq![s],
    decreases s.len(),
{
    if s.len() > 0 {
        lemma_split_without_separator(s.drop_last(), sep);
        assert(s == s.drop_last().push(s.last()));
        assert(seq![s.drop_last()].update(0, s) == seq![s]);
    } else {
        assert(s == Seq::<u8>::empty());
    }
}

/// Splitting distributes over a separator: the pieces of `a`, then those of `b`.
pub proof fn lemma_split_concat(a: Seq<u8>, b: Seq<u8>, sep: u8)
    ensures
        split(a.push(sep) + b, sep) == split(a, sep) + split(b, sep),
    decreases b.len(),
{
    let whole = a.push(sep) + b;
    if b.len() == 0 {
        assert(whole == a.push(sep));
        assert(whole.drop_last() == a);
    } else {
        lemma_split_concat(a, b.drop_last(), sep);
        lemma_split_nonempty(b.drop_last(), sep);
        assert(whole.drop_last() == a.push(sep) + b.drop_last());
    }
}

/// A line that ends inside a word has at least that word.
pub proof fn lemma_tokens_open_word(line: Seq<u8>)
    requires
        line.len() > 0,
        !is_whitespace(line.last()),
    ensures
        tokens(line).len() >= 1,
        tokens(line).last().len() >= 1,
    decreases line.len(),
{
    if line.len() >= 2 && !is_whitespace(line[line.len() - 2]) {
        lemma_tokens_open_word(line.drop_last());
    }
}

/// Every word is non-empty and free of whitespace.
pub proof fn lemma_tokens_are_words(line: Seq<u8>)
    ensures
        forall|i: int| 0 <= i < tokens(line).len() ==> (#[trigger] tokens(line)[i]).len() >= 1,
        forall|i: int, j: int|
            0 <= i < tokens(line).len() && 0 <= j < tokens(line)[i].len() ==> !is_whitespace(
                #[trigger] tokens(line)[i][j],
            ),
    decreases line.len(),
{
    if line.len() > 0 {
        let before = tokens(line.drop_last());
        lemma_tokens_are_words(line.drop_last());
        if is_whitespace(line.last()) {
        } else if line.len() >= 2 && !is_whitespace(line[line.len() - 2]) {
            lemma_tokens_open_word(line.drop_last());
            let grown = before.last().push(line.last());
            assert forall|i: int, j: int|
                0 <= i < tokens(line).len() && 0 <= j < tokens(line)[i].len() implies !is_whitespace(
                #[trigger] tokens(line)[i][j],
            ) by {
                if i == before.len() - 1 {
                    if j < before.last().len() {
                        assert(grown[j] == before[i][j]);
                    }
                } else {
                    assert(tokens(line)[i] == before[i]);
                }
            }
        } else {
            assert forall|i: int, j: int|
                0 <= i < tokens(line).len() && 0 <= j < tokens(line)[i].len() implies !is_whitespace(
                #[trigger] tokens(line)[i][j],
            ) by {
                if i < before.len() {
                    assert(tokens(line)[i] == before[i]);
                }
            }
        }
    }
}

/// The digits of a number's start write no more than the digits of the whole.
pub proof fn lemma_digits_value_grows(digits: Seq<u8>, k: int)
    requires
        0 <= k <= digits.len(),
        all_digits(digits),
    ensures
        digits_value(digits.take(k)) <= digits_value(digits),
    decreases digits.len(),
{
    if k == digits.len() {
        assert(digits.take(k) == digits);
    } else {
        lemma_digits_value_grows(digits.drop_last(), k);
        assert(digits.drop_last().take(k) == digits.take(k));
        assert(is_digit(digits[digits.len() - 1]));
    }
}

/// A number written by [`decimal`] reads back as itself.
pub proof fn lemma_decimal_round_trip(n: nat)
    ensures
        decimal(n).len() >= 1,
        all_digits(decimal(n)),
        digits_value(decimal(n)) == n,
        parsed_number(decimal(n)) == Some(n),
    decreases n,
{
    if n < 10 {
        assert(decimal(n).drop_last() == Seq::<u8>::empty());
        assert(digits_value(decimal(n).drop_last()) == 0);
    } else {
        lemma_decimal_round_trip(n / 10);
        assert(decimal(n).drop_last() == decimal(n / 10));
        assert(decimal(n)[0] == decimal(n / 10)[0]);
    }
    assert(is_digit(decimal(n)[0]));
}

/// Tests a byte for ASCII whitespace.
pub fn whitespace(b: u8) -> (yes: bool)
    ensures
        yes == is_whitespace(b),
{
    (9 <= b && b <= 13) || b == SPACE
}

/// Compares two byte strings.
pub fn bytes_eq(a: &[u8], b: &[u8]) -> (same: bool)
    ensures
        same == (a@ == b@),
{
    if a.len() != b.len() {
        return false;
    }
    let mut i: usize = 0;
    while i < a.len()
        invariant
            a.len() == b.len(),
            i <= a.len(),
            forall|k: int| 0 <= k < i ==> a@[k] == b@[k],
        decreases a.len() - i,
    {
        if a[i] != b[i] {
            return false;
        }
        i += 1;
    }
    assert(a@ =~= b@);
    true
}

/// Appends the decimal digits of `n` to `out`.
pub fn write_decimal(n: usize, out: &mut Vec<u8>)
    ensures
        final(out)@ == old(out)@ + decimal(n as nat),
    decreases n,
{
    if n >= 10 {
        write_decimal(n / 10, out);
    }
    let digit: u8 = ZERO + (n % 10) as u8;
    out.push(digit);
}

/// Reads a number: see [`parsed_number`]. A number that does not fit into a
/// `usize` is not read.
pub fn parse_number(text: &[u8]) -> (number: Option<usize>)
    ensures
        number == match parsed_number(text@) {
            Some(n) => if n <= usize::MAX {
                Some(n as usize)
            } else {
                None
            },
            None => None,
        },
{
    let start: usize = if text.len() > 0 && text[0] == PLUS {
        1
    } else {
        0
    };
    if start == text.len() {
        return None;
    }
    let ghost digits = text@.skip(start as int);
    let mut value: usize = 0;
    let mut i: usize = start;
    proof {
        assert(digits == unsigned_part(text@));
        assert(digits.take(0) == Seq::<u8>::empty());
    }
    while i < text.len()
        invariant
            start <= i <= text.len(),
            digits == text@.skip(start as int),
            digits == unsigned_part(text@),
            all_digits(digits.take(i - start)),
            value == digits_value(digits.take(i - start)),
        decreases text.len() - i,
    {
        let b = text[i];
        let ghost upto = digits.take(i - start + 1);
        proof {
            assert(upto.drop_last() == digits.take(i - start));
            assert(upto.last() == b);
        }
        if b < ZERO || b > ZERO + 9 {
            assert(!is_digit(digits[i - start]));
            return None;
        }
        let grown = match value.checked_mul(10) {
            Some(tenfold) => tenfold.checked_add((b - ZERO) as usize),
            None => None,
        };
        match grown {
            Some(next) => {
                value = next;
            },
            None => {
                proof {
                    if all_digits(digits) {
                        lemma_digits_value_grows(digits, i - start + 1);
                    }
                }
                return None;
            },
        }
        i += 1;
    }
    proof {
        assert(digits.take(i - start) == digits);
    }
    Some(value)
}

/// Splits `line` into its words: see [`tokens`].
pub fn split_whitespace(line: &[u8]) -> (words: Vec<Vec<u8>>)
    ensures
        views(words@) == tokens(line@),
{
    let mut words: Vec<Vec<u8>> = Vec::new();
    let mut i: usize = 0;
    proof {
        assert(views(words@) == tokens(line@.take(0)));
    }
    while i < line.len()
        invariant
            i <= line.len(),
            views(words@) == tokens(line@.take(i as int)),
        decreases line.len() - i,
    {
        let ghost before = tokens(line@.take(i as int));
        let ghost upto = line@.take(i + 1);
        proof {
            assert(upto.drop_last() == line@.take(i as int));
        }
        let b = line[i];
        if whitespace(b) {
        } else if i > 0 && !whitespace(line[i - 1]) {
            proof {
                lemma_tokens_open_word(line@.take(i as int));
            }
            let popped = words.pop();
            let mut word = popped.unwrap();
            word.push(b);
            words.push(word);
            proof {
                assert(views(words@) == before.update(before.len() - 1, before.last().push(b)));
            }
        } else {
            let mut word: Vec<u8> = Vec::new();
            word.push(b);
            words.push(word);
            proof {
                assert(word@ == seq![b]);
                assert(views(words@) == before.push(seq![b]));
            }
        }
        i += 1;
    }
    proof {
        assert(line@.take(i as int) == line@);
    }
    words
}

/// Splits `s` at every `sep`.
pub fn split_bytes(s: &[u8], sep: u8) -> (parts: Vec<Vec<u8>>)
    ensures
        views(parts@) == split(s@, sep),
        parts.len() >= 1,
{
    let mut parts: Vec<Vec<u8>> = Vec::new();
    let mut piece: Vec<u8> = Vec::new();
    let mut i: usize = 0;
    while i < s.len()
        invariant
            i <= s.len(),
            views(parts@).push(piece@) == split(s@.take(i as int), sep),
        decreases s.len() - i,
    {
        let ghost before = split(s@.take(i as int), sep);
        proof {
            assert(s@.take(i + 1).drop_last() == s@.take(i as int));
        }
        if s[i] == sep {
            let ghost grown = views(parts@).push(piece@);
            parts.push(piece);
            piece = Vec::new();
            proof {
                assert(views(parts@) == grown);
            }
        } else {
            piece.push(s[i]);
            proof {
                assert(views(parts@).push(piece@) == before.update(
                    before.len() - 1,
                    before.last().push(s@[i as int]),
                ));
            }
        }
        i += 1;
    }
    let ghost grown = views(parts@).push(piece@);
    parts.push(piece);
    proof {
        assert(s@.take(i as int) == s@);
        assert(views(parts@) == grown);
    }
    parts
}

/// Joins `parts` with `sep` between neighbours.
pub fn join_bytes(parts: &[Vec<u8>], sep: u8) -> (joined: Vec<u8>)
    ensures
        joined@ == join(views(parts@), sep),
{
    let mut joined: Vec<u8> = Vec::new();
    let mut i: usize = 0;
    while i < parts.len()
        invariant
            i <= parts.len(),
            joined@ == join(views(parts@).take(i as int), sep),
        decreases parts.len() - i,
    {
        proof {
            let upto = views(parts@).take(i + 1);
            assert(upto.drop_last() == views(parts@).take(i as int));
            assert(upto.last() == parts@[i as int]@);
        }
        if i > 0 {
            joined.push(sep);
        }
        joined.extend_from_slice(parts[i].as_slice());
        i += 1;
    }
    proof {
        assert(views(parts@).take(i as int) == views(parts@));
    }
    joined
}

} // verus!
