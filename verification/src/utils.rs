//! Text utilities: splitting a string at a delimiter, joining pieces

use vstd::prelude::*;

verus! {

/// Does the two-character delimiter `a`, `b` stand at place `i` of `s`?
pub open spec fn delimiter_at(s: Seq<char>, i: int, a: char, b: char) -> bool {
    0 <= i && i + 1 < s.len() && s[i] == a && s[i + 1] == b
}

/// The first place at or after `from` where the delimiter stands, or the
/// length of `s` where it stands nowhere from there on.
pub open spec fn first_delimiter(s: Seq<char>, from: int, a: char, b: char) -> int
    decreases s.len() - from,
{
    if from < 0 || from >= s.len() {
        s.len() as int
    } else if delimiter_at(s, from, a, b) {
        from
    } else {
        first_delimiter(s, from + 1, a, b)
    }
}

/// The pieces into which the delimiter cuts the part of `s` that begins at
/// `from`: what stands before the first delimiter, then the pieces of what
/// follows it. Delimiters are found left to right and do not overlap. There
/// is always at least one piece, and a piece may be empty.
pub open spec fn pieces_from(s: Seq<char>, from: int, a: char, b: char) -> Seq<Seq<char>>
    decreases s.len() - from,
{
    let d = first_delimiter(s, from, a, b);
    if from < 0 || from > s.len() {
        seq![Seq::<char>::empty()]
    } else if d + 1 >= s.len() || d < from {
        seq![s.subrange(from, s.len() as int)]
    } else {
        seq![s.subrange(from, d)] + pieces_from(s, d + 2, a, b)
    }
}

/// The pieces into which the two-character delimiter `a`, `b` cuts `s`.
pub open spec fn split_pieces(s: Seq<char>, a: char, b: char) -> Seq<Seq<char>> {
    pieces_from(s, 0, a, b)
}

/// The pieces joined again, with `separator` between each two.
pub open spec fn joined(pieces: Seq<Seq<char>>, separator: char) -> Seq<char>
    decreases pieces.len(),
{
    if pieces.len() == 0 {
        Seq::<char>::empty()
    } else if pieces.len() == 1 {
        pieces[0]
    } else {
        joined(pieces.drop_last(), separator) + seq![separator] + pieces.last()
    }
}

/// The first delimiter at or after `from` lies between `from` and the end,
/// the delimiter stands there unless it is the end, and it stands nowhere
/// before.
pub proof fn lemma_first_delimiter(s: Seq<char>, from: int, a: char, b: char)
    requires
        0 <= from <= s.len(),
    ensures
        from <= first_delimiter(s, from, a, b) <= s.len(),
        first_delimiter(s, from, a, b) < s.len() ==> delimiter_at(
            s,
            first_delimiter(s, from, a, b),
            a,
            b,
        ),
        forall|i: int| from <= i < first_delimiter(s, from, a, b) ==> !delimiter_at(s, i, a, b),
    decreases s.len() - from,
{
    if from < s.len() && !delimiter_at(s, from, a, b) {
        lemma_first_delimiter(s, from + 1, a, b);
    }
}

/// A place `d` at or after `from` where the delimiter stands, or the end,
/// with no delimiter between `from` and `d`, is the first delimiter.
pub proof fn lemma_first_delimiter_is(s: Seq<char>, from: int, d: int, a: char, b: char)
    requires
        0 <= from <= d <= s.len(),
        d < s.len() ==> delimiter_at(s, d, a, b),
        forall|i: int| from <= i < d ==> !delimiter_at(s, i, a, b),
    ensures
        first_delimiter(s, from, a, b) == d,
    decreases d - from,
{
    if from < d {
        lemma_first_delimiter_is(s, from + 1, d, a, b);
    }
}

/// Every string has at least one piece.
pub proof fn lemma_pieces_nonempty(s: Seq<char>, from: int, a: char, b: char)
    ensures
        pieces_from(s, from, a, b).len() >= 1,
{
}

/// The place of the first delimiter of `s` at or after `from`; `n` is the
/// length of `s` in characters.
pub fn find_delimiter(s: &str, from: usize, n: usize, a: char, b: char) -> (d: usize)
    requires
        n == s@.len(),
        from <= n,
    ensures
        d == first_delimiter(s@, from as int, a, b),
        from <= d <= n,
{
    let mut i: usize = from;
    while i < n
        invariant
            n == s@.len(),
            from <= i <= n,
            forall|j: int| from <= j < i ==> !delimiter_at(s@, j, a, b),
        decreases n - i,
    {
        if i + 1 < n && s.get_char(i) == a && s.get_char(i + 1) == b {
            proof {
                lemma_first_delimiter_is(s@, from as int, i as int, a, b);
            }
            return i;
        }
        i += 1;
    }
    proof {
        lemma_first_delimiter_is(s@, from as int, n as int, a, b);
    }
    n
}

/// Cut `s` at each two-character delimiter `a`, `b`. The pieces borrow
/// from `s`.
pub fn split<'a>(s: &'a str, a: char, b: char) -> (pieces: Vec<&'a str>)
    ensures
        pieces@.len() == split_pieces(s@, a, b).len(),
        forall|i: int| 0 <= i < pieces@.len() ==> (#[trigger] pieces@[i])@ == split_pieces(
            s@,
            a,
            b,
        )[i],
{
    let n = s.unicode_len();
    let mut pieces: Vec<&'a str> = Vec::new();
    let mut start: usize = 0;
    let ghost mut done: Seq<Seq<char>> = Seq::empty();
    loop
        invariant
            n == s@.len(),
            start <= n,
            done.len() == pieces@.len(),
            forall|i: int| 0 <= i < pieces@.len() ==> (#[trigger] pieces@[i])@ == done[i],
            split_pieces(s@, a, b) == done + pieces_from(s@, start as int, a, b),
        decreases n - start,
    {
        let d = find_delimiter(s, start, n, a, b);
        let piece = s.substring_char(start, d);
        pieces.push(piece);
        proof {
            lemma_first_delimiter(s@, start as int, a, b);
            let rest = pieces_from(s@, start as int, a, b);
            if d >= n {
                assert(rest == seq![s@.subrange(start as int, n as int)]);
                assert(done + rest =~= done.push(piece@));
            } else {
                assert(rest == seq![s@.subrange(start as int, d as int)] + pieces_from(
                    s@,
                    d + 2,
                    a,
                    b,
                ));
                assert(done + rest =~= done.push(piece@) + pieces_from(s@, d + 2, a, b));
            }
            done = done.push(piece@);
        }
        if d >= n {
            proof {
                assert(split_pieces(s@, a, b) =~= done);
            }
            return pieces;
        }
        start = d + 2;
    }
}

} // verus!
