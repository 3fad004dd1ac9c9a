//! Text as sequences of characters: cutting at a separator, joining again,
//! and comparing without regard to ASCII case.
use vstd::prelude::*;

verus! {

/// The pieces of `s` between occurrences of `sep`. There is always at least
/// one piece; a separator at either end of `s` leaves an empty piece there.
pub open spec fn split(s: Seq<char>, sep: char) -> Seq<Seq<char>>
    decreases s.len(),
{
    if s.len() == 0 {
        seq![Seq::<char>::empty()]
    } else {
        let before = split(s.drop_last(), sep);
        if s.last() == sep {
            before.push(Seq::<char>::empty())
        } else {
            before.drop_last().push(before.last().push(s.last()))
        }
    }
}

/// The pieces written one after the other with `sep` between neighbours.
pub open spec fn join(parts: Seq<Seq<char>>, sep: char) -> Seq<char>
    decreases parts.len(),
{
    if parts.len() == 0 {
        Seq::<char>::empty()
    } else if parts.len() == 1 {
        parts[0]
    } else {
        join(parts.drop_last(), sep) + seq![sep] + parts.last()
    }
}

/// Whether no piece holds the separator.
pub open spec fn free_of(parts: Seq<Seq<char>>, sep: char) -> bool {
    forall|i: int, j: int| 0 <= i < parts.len() && 0 <= j < parts[i].len() ==> parts[i][j] != sep
}

/// Cutting never leaves fewer than one piece, and no piece holds the separator.
pub proof fn lemma_split_pieces(s: Seq<char>, sep: char)
    ensures
        split(s, sep).len() >= 1,
        free_of(split(s, sep), sep),
    decreases s.len(),
{
    if s.len() > 0 {
        lemma_split_pieces(s.drop_last(), sep);
    }
}

/// Joining the pieces of a text gives the text back.
pub proof fn lemma_join_split(s: Seq<char>, sep: char)
    ensures
        join(split(s, sep), sep) == s,
    decreases s.len(),
{
    if s.len() > 0 {
        let t = s.drop_last();
        let before = split(t, sep);
        lemma_split_pieces(t, sep);
        lemma_join_split(t, sep);
        assert(s == t.push(s.last()));
        if s.last() == sep {
            let pieces = before.push(Seq::<char>::empty());
            assert(pieces.drop_last() == before);
            assert(join(pieces, sep) == t + seq![sep] + Seq::<char>::empty());
            assert(join(pieces, sep) == s);
        } else {
            let grown = before.last().push(s.last());
            let pieces = before.drop_last().push(grown);
            assert(pieces.drop_last() == before.drop_last());
            if before.len() == 1 {
                assert(join(pieces, sep) == grown);
                assert(join(before, sep) == before.last());
            } else {
                assert(join(pieces, sep) == join(before.drop_last(), sep) + seq![sep] + grown);
                assert(join(before, sep) == join(before.drop_last(), sep) + seq![sep]
                    + before.last());
                assert(join(pieces, sep) == join(before, sep).push(s.last()));
            }
        }
    }
}

/// Cutting a text that was put together from two texts with one separator
/// between them gives the pieces of the first followed by those of the second.
pub proof fn lemma_split_concat(a: Seq<char>, b: Seq<char>, sep: char)
    ensures
        split(a + seq![sep] + b, sep) == split(a, sep) + split(b, sep),
    decreases b.len(),
{
    let whole = a + seq![sep] + b;
    lemma_split_pieces(a, sep);
    lemma_split_pieces(b, sep);
    if b.len() == 0 {
        assert(whole.drop_last() == a);
        assert(split(whole, sep) == split(a, sep).push(Seq::<char>::empty()));
        assert(split(b, sep) == seq![Seq::<char>::empty()]);
        assert(split(a, sep).push(Seq::<char>::empty()) == split(a, sep) + split(b, sep));
    } else {
        let shorter = b.drop_last();
        lemma_split_concat(a, shorter, sep);
        lemma_split_pieces(shorter, sep);
        assert(whole.drop_last() == a + seq![sep] + shorter);
        assert(whole.last() == b.last());
        let left = split(a, sep);
        let right = split(shorter, sep);
        let before = left + right;
        if b.last() == sep {
            assert(before.push(Seq::<char>::empty()) == left + right.push(Seq::<char>::empty()));
        } else {
            assert(before.last() == right.last());
            assert(before.drop_last() == left + right.drop_last());
            assert(before.drop_last().push(before.last().push(b.last())) == left
                + right.drop_last().push(right.last().push(b.last())));
        }
    }
}

/// Cutting what was joined from pieces that hold no separator gives the
/// pieces back, provided there is at least one piece.
pub proof fn lemma_split_join(parts: Seq<Seq<char>>, sep: char)
    requires
        parts.len() >= 1,
        free_of(parts, sep),
    ensures
        split(join(parts, sep), sep) == parts,
    decreases parts.len(),
{
    lemma_split_whole(parts.last(), sep);
    if parts.len() == 1 {
        assert(parts == seq![parts[0]]);
    } else {
        let front = parts.drop_last();
        assert(free_of(front, sep)) by {
            assert forall|i: int, j: int| 0 <= i < front.len() && 0 <= j < front[i].len()
                implies front[i][j] != sep by {
                assert(front[i] == parts[i]);
            }
        }
        lemma_split_join(front, sep);
        lemma_split_concat(join(front, sep), parts.last(), sep);
        assert(front + seq![parts.last()] == parts);
    }
}

/// A text that holds no separator is its own single piece.
pub proof fn lemma_split_whole(s: Seq<char>, sep: char)
    requires
        forall|j: int| 0 <= j < s.len() ==> s[j] != sep,
    ensures
        split(s, sep) == seq![s],
    decreases s.len(),
{
    if s.len() > 0 {
        lemma_split_whole(s.drop_last(), sep);
        let before = split(s.drop_last(), sep);
        assert(before.drop_last().push(before.last().push(s.last())) == seq![s]) by {
            assert(before.last().push(s.last()) == s);
        }
    } else {
        assert(s == Seq::<char>::empty());
    }
}

/// The characters of `s`, in order.
pub fn characters(s: &str) -> (out: Vec<char>)
    ensures
        out@ == s@,
{
    let mut out: Vec<char> = Vec::new();
    for c in it: s.chars()
        invariant
            it.seq() == s@,
            out@ == it.seq().take(it.index() as int),
    {
        out.push(c);
    }
    out
}

/// Whether two texts hold the same characters.
pub fn same_text(a: &str, b: &str) -> (same: bool)
    ensures
        same == (a@ == b@),
{
    let x = characters(a);
    let y = characters(b);
    if x.len() != y.len() {
        return false;
    }
    let mut i: usize = 0;
    while i < x.len()
        invariant
            x@ == a@,
            y@ == b@,
            x.len() == y.len(),
            i <= x.len(),
            forall|k: int| 0 <= k < i ==> x@[k] == y@[k],
        decreases x.len() - i,
    {
        if x[i] != y[i] {
            return false;
        }
        i = i + 1;
    }
    assert(x@ =~= y@);
    true
}

/// The first piece is no longer than the text it was cut from.
pub proof fn lemma_first_piece_length(s: Seq<char>, sep: char)
    ensures
        split(s, sep).len() >= 1,
        split(s, sep)[0].len() <= s.len(),
        split(s, sep).len() == 1 ==> split(s, sep)[0] == s,
        split(s, sep).len() > 1 ==> split(s, sep)[0].len() < s.len(),
    decreases s.len(),
{
    if s.len() > 0 {
        lemma_first_piece_length(s.drop_last(), sep);
        let before = split(s.drop_last(), sep);
        if s.last() != sep && before.len() == 1 {
            assert(before[0].push(s.last()) == s);
        }
    } else {
        assert(s == Seq::<char>::empty());
    }
}

/// Cuts `s` at every occurrence of `sep`.
pub fn split_text(s: &str, sep: char) -> (out: Vec<String>)
    ensures
        out.deep_view() == split(s@, sep),
{
    let chars = characters(s);
    let n = chars.len();
    let mut out: Vec<String> = Vec::new();
    let mut start: usize = 0;
    let mut i: usize = 0;
    assert(s@.take(0) == Seq::<char>::empty());
    assert(out.deep_view().push(s@.subrange(0, 0)) == seq![Seq::<char>::empty()]);
    while i < n
        invariant
            chars@ == s@,
            n == chars.len(),
            start <= i <= n,
            out.deep_view().push(s@.subrange(start as int, i as int)) == split(
                s@.take(i as int),
                sep,
            ),
        decreases n - i,
    {
        let ghost done = out.deep_view();
        let ghost current = s@.subrange(start as int, i as int);
        let c = chars[i];
        proof {
            assert(s@.take(i + 1).drop_last() == s@.take(i as int));
            assert(s@.take(i + 1).last() == c);
        }
        if c == sep {
            let piece = s.substring_char(start, i).to_owned();
            out.push(piece);
            start = i + 1;
            proof {
                assert(out.deep_view() == done.push(current));
                assert(s@.subrange(i + 1, i + 1) == Seq::<char>::empty());
            }
        } else {
            proof {
                assert(s@.subrange(start as int, i + 1) == current.push(c));
                assert(done.push(current).drop_last() == done);
            }
        }
        i = i + 1;
    }
    let ghost done = out.deep_view();
    let piece = s.substring_char(start, n).to_owned();
    out.push(piece);
    proof {
        assert(s@.take(n as int) == s@);
        assert(out.deep_view() == done.push(s@.subrange(start as int, n as int)));
    }
    out
}

/// Joins the pieces of `parts` from index `from` on, with `/` between them.
/// Nothing is joined where `from` lies behind the last piece.
pub fn join_from(parts: &Vec<String>, from: usize) -> (out: String)
    ensures
        from <= parts.len() ==> out@ == join(
            parts.deep_view().subrange(from as int, parts.len() as int),
            '/',
        ),
        from > parts.len() ==> out@ == Seq::<char>::empty(),
{
    let mut out = String::new();
    if from > parts.len() {
        return out;
    }
    let mut i: usize = from;
    proof {
        reveal_strlit("/");
        assert(parts.deep_view().subrange(from as int, from as int) == Seq::<Seq<char>>::empty());
    }
    while i < parts.len()
        invariant
            from <= i <= parts.len(),
            "/"@ == seq!['/'],
            out@ == join(parts.deep_view().subrange(from as int, i as int), '/'),
        decreases parts.len() - i,
    {
        let ghost so_far = parts.deep_view().subrange(from as int, i as int);
        let ghost next = parts.deep_view().subrange(from as int, i + 1);
        proof {
            assert(next.drop_last() == so_far);
            assert(next.last() == parts[i as int]@);
        }
        if i > from {
            out.append("/");
        }
        out.append(parts[i].as_str());
        i = i + 1;
    }
    proof {
        assert(parts.deep_view().subrange(from as int, i as int) == parts.deep_view().subrange(
            from as int,
            parts.len() as int,
        ));
    }
    out
}

/// The lower-case form of an ASCII capital letter; any other character itself.
pub open spec fn lower(c: char) -> char {
    if 'A' <= c && c <= 'Z' {
        ((c as u8) + 32) as char
    } else {
        c
    }
}

/// Whether two texts are equal once ASCII capitals are read as lower case.
pub open spec fn same_ignoring_case(a: Seq<char>, b: Seq<char>) -> bool {
    a.map_values(|c: char| lower(c)) == b.map_values(|c: char| lower(c))
}

/// The lower-case form of `c` where it is an ASCII capital letter.
pub fn to_lower(c: char) -> (r: char)
    ensures
        r == lower(c),
{
    if c >= 'A' && c <= 'Z' {
        ((c as u8) + 32) as char
    } else {
        c
    }
}

/// Compares two texts without regard to the case of ASCII letters.
pub fn eq_ignoring_case(a: &str, b: &str) -> (same: bool)
    ensures
        same == same_ignoring_case(a@, b@),
{
    let x = characters(a);
    let y = characters(b);
    let ghost lx = a@.map_values(|c: char| lower(c));
    let ghost ly = b@.map_values(|c: char| lower(c));
    if x.len() != y.len() {
        assert(lx.len() != ly.len());
        return false;
    }
    let mut i: usize = 0;
    while i < x.len()
        invariant
            x@ == a@,
            y@ == b@,
            x.len() == y.len(),
            i <= x.len(),
            lx == a@.map_values(|c: char| lower(c)),
            ly == b@.map_values(|c: char| lower(c)),
            forall|k: int| 0 <= k < i ==> lx[k] == ly[k],
        decreases x.len() - i,
    {
        if to_lower(x[i]) != to_lower(y[i]) {
            assert(lx[i as int] != ly[i as int]);
            return false;
        }
        i = i + 1;
    }
    assert(lx =~= ly);
    true
}

} // verus!
