//! Character-level text operations used throughout the crawler.
//!
//! Every operation works on the characters of a string (its `Seq<char>` view)
//! and follows the behaviour of the corresponding method of `str`.
use vstd::prelude::*;
use vstd::utf8::is_ascii_chars;

verus! {

broadcast use vstd::string::group_string_axioms;

// ---------------------------------------------------------------------------
// Specifications
// ---------------------------------------------------------------------------

/// `p` occurs in `s` starting at index `i`.
pub open spec fn occurs_at(s: Seq<char>, p: Seq<char>, i: int) -> bool {
    0 <= i && i + p.len() <= s.len() && s.subrange(i, i + p.len()) == p
}

/// `p` is a substring of `s` (the empty string is a substring of everything).
pub open spec fn text_contains(s: Seq<char>, p: Seq<char>) -> bool {
    exists|i: int| occurs_at(s, p, i)
}

/// `s` ends with `p`.
pub open spec fn text_ends_with(s: Seq<char>, p: Seq<char>) -> bool {
    p.len() <= s.len() && s.skip(s.len() - p.len()) == p
}

/// Left-to-right, non-overlapping replacement of every occurrence of the
/// pattern `p` in `s` by `r`, as `str::replace` does. The empty pattern
/// occurs before every character and at the end.
pub open spec fn replaced(s: Seq<char>, p: Seq<char>, r: Seq<char>) -> Seq<char>
    decreases s.len(),
{
    if p.len() == 0 {
        if s.len() == 0 {
            r
        } else {
            r + seq![s[0]] + replaced(s.skip(1), p, r)
        }
    } else if s.len() < p.len() {
        s
    } else if s.take(p.len() as int) == p {
        r + replaced(s.skip(p.len() as int), p, r)
    } else {
        seq![s[0]] + replaced(s.skip(1), p, r)
    }
}

/// `s` with every character that occurs in `cs` left out.
pub open spec fn without_chars(s: Seq<char>, cs: Seq<char>) -> Seq<char>
    decreases s.len(),
{
    if s.len() == 0 {
        s
    } else if cs.contains(s.last()) {
        without_chars(s.drop_last(), cs)
    } else {
        without_chars(s.drop_last(), cs).push(s.last())
    }
}

/// The characters with the Unicode `White_Space` property, which is what
/// `char::is_whitespace` tests.
pub open spec fn is_white_space(c: char) -> bool {
    ||| '\u{9}' <= c <= '\u{d}'
    ||| c == ' '
    ||| c == '\u{85}'
    ||| c == '\u{a0}'
    ||| c == '\u{1680}'
    ||| '\u{2000}' <= c <= '\u{200a}'
    ||| c == '\u{2028}'
    ||| c == '\u{2029}'
    ||| c == '\u{202f}'
    ||| c == '\u{205f}'
    ||| c == '\u{3000}'
}

/// `s` without its leading white space.
pub open spec fn trim_start(s: Seq<char>) -> Seq<char>
    decreases s.len(),
{
    if s.len() > 0 && is_white_space(s[0]) {
        trim_start(s.drop_first())
    } else {
        s
    }
}

/// `s` without its trailing white space.
pub open spec fn trim_end(s: Seq<char>) -> Seq<char>
    decreases s.len(),
{
    if s.len() > 0 && is_white_space(s.last()) {
        trim_end(s.drop_last())
    } else {
        s
    }
}

/// `s` without leading and trailing white space, as `str::trim` gives it.
pub open spec fn trimmed(s: Seq<char>) -> Seq<char> {
    trim_end(trim_start(s))
}

/// The pieces of `s` between the occurrences of `c`, as `str::split` with a
/// `char` pattern gives them (the empty string gives one empty piece).
pub open spec fn split_on(s: Seq<char>, c: char) -> Seq<Seq<char>>
    decreases s.len(),
{
    if s.len() == 0 {
        seq![Seq::<char>::empty()]
    } else {
        let prev = split_on(s.drop_last(), c);
        if s.last() == c {
            prev.push(Seq::<char>::empty())
        } else {
            prev.update(prev.len() - 1, prev.last().push(s.last()))
        }
    }
}

/// The parts joined, with `sep` between every two of them.
pub open spec fn joined(parts: Seq<Seq<char>>, sep: Seq<char>) -> Seq<char>
    decreases parts.len(),
{
    if parts.len() == 0 {
        Seq::<char>::empty()
    } else if parts.len() == 1 {
        parts[0]
    } else {
        joined(parts.drop_last(), sep) + sep + parts.last()
    }
}

/// `s` without one trailing carriage return.
pub open spec fn strip_cr(s: Seq<char>) -> Seq<char> {
    if s.len() > 0 && s.last() == '\r' {
        s.drop_last()
    } else {
        s
    }
}

/// The lines of `s`, as `str::lines` gives them: split at `\n`, a `\r`
/// before a `\n` is dropped, and a final empty line is not a line.
pub open spec fn text_lines(s: Seq<char>) -> Seq<Seq<char>> {
    if s.len() == 0 {
        Seq::<Seq<char>>::empty()
    } else {
        let pieces = split_on(s, '\n');
        let body = Seq::new((pieces.len() - 1) as nat, |i: int| strip_cr(pieces[i]));
        if pieces.last().len() == 0 {
            body
        } else {
            body.push(pieces.last())
        }
    }
}

// ---------------------------------------------------------------------------
// Lemmas
// ---------------------------------------------------------------------------

proof fn lemma_split_on_nonempty(s: Seq<char>, c: char)
    ensures
        split_on(s, c).len() >= 1,
    decreases s.len(),
{
    if s.len() > 0 {
        lemma_split_on_nonempty(s.drop_last(), c);
    }
}

proof fn lemma_joined_extend_last(parts: Seq<Seq<char>>, sep: Seq<char>, x: char)
    requires
        parts.len() >= 1,
    ensures
        joined(parts.update(parts.len() - 1, parts.last().push(x)), sep) == joined(parts, sep).push(
            x,
        ),
{
    let upd = parts.update(parts.len() - 1, parts.last().push(x));
    if parts.len() == 1 {
        assert(joined(upd, sep) == upd[0]);
    } else {
        assert(upd.drop_last() =~= parts.drop_last());
        assert(joined(upd, sep) == joined(upd.drop_last(), sep) + sep + upd.last());
        assert(joined(upd, sep) =~= joined(parts, sep).push(x));
    }
}

/// Joining the pieces of a split with the separator gives back the text.
pub proof fn lemma_join_split(s: Seq<char>, c: char)
    ensures
        joined(split_on(s, c), seq![c]) == s,
    decreases s.len(),
{
    if s.len() > 0 {
        let prev = split_on(s.drop_last(), c);
        lemma_join_split(s.drop_last(), c);
        lemma_split_on_nonempty(s.drop_last(), c);
        if s.last() == c {
            let parts = prev.push(Seq::<char>::empty());
            assert(parts.drop_last() =~= prev);
            assert(joined(parts, seq![c]) == joined(prev, seq![c]) + seq![c] + parts.last());
            assert(joined(parts, seq![c]) =~= s);
        } else {
            lemma_joined_extend_last(prev, seq![c], s.last());
            assert(s.drop_last().push(s.last()) =~= s);
        }
    }
}

/// Splitting a text that ends in the separator gives the pieces of the text
/// before it and an empty last piece.
pub proof fn lemma_split_on_push_separator(x: Seq<char>, c: char)
    ensures
        split_on(x.push(c), c) == split_on(x, c).push(Seq::<char>::empty()),
{
    assert(x.push(c).drop_last() =~= x);
}

/// Appending characters other than the separator extends the last piece.
pub proof fn lemma_split_on_append_plain(x: Seq<char>, y: Seq<char>, c: char)
    requires
        !y.contains(c),
    ensures
        split_on(x + y, c) == split_on(x, c).update(
            split_on(x, c).len() - 1,
            split_on(x, c).last() + y,
        ),
    decreases y.len(),
{
    lemma_split_on_nonempty(x, c);
    if y.len() == 0 {
        assert(x + y =~= x);
        assert(split_on(x, c).last() + y =~= split_on(x, c).last());
        assert(split_on(x, c).update(split_on(x, c).len() - 1, split_on(x, c).last() + y)
            =~= split_on(x, c));
    } else {
        let y0 = y.drop_last();
        assert(!y0.contains(c)) by {
            if y0.contains(c) {
                let k = choose|k: int| 0 <= k < y0.len() && y0[k] == c;
                assert(y[k] == c);
            }
        }
        lemma_split_on_append_plain(x, y0, c);
        assert((x + y).drop_last() =~= x + y0);
        assert((x + y).last() == y.last());
        assert(y.last() != c) by {
            assert(y[y.len() - 1] == y.last());
        }
        lemma_split_on_nonempty(x + y0, c);
        let prev = split_on(x + y0, c);
        assert(split_on(x + y, c) == prev.update(prev.len() - 1, prev.last().push(y.last())));
        let sx = split_on(x, c);
        assert(prev.len() == sx.len());
        assert(prev.last() == sx.last() + y0);
        assert((sx.last() + y0).push(y.last()) =~= sx.last() + y);
        assert(split_on(x + y, c) =~= split_on(x, c).update(
            split_on(x, c).len() - 1,
            split_on(x, c).last() + y,
        ));
    }
}

/// Splitting the parts joined by the separator gives back the parts, when
/// no part holds the separator.
pub proof fn lemma_split_joined(parts: Seq<Seq<char>>, c: char)
    requires
        parts.len() > 0,
        forall|i: int| 0 <= i < parts.len() ==> !(#[trigger] parts[i]).contains(c),
    ensures
        split_on(joined(parts, seq![c]), c) == parts,
    decreases parts.len(),
{
    let empty = Seq::<char>::empty();
    assert(!parts.last().contains(c)) by {
        assert(parts[parts.len() - 1] == parts.last());
    }
    if parts.len() == 1 {
        lemma_split_on_append_plain(empty, parts[0], c);
        assert(empty + parts[0] =~= parts[0]);
        assert(split_on(empty, c) =~= seq![empty]);
        assert(seq![empty].update(0, empty + parts[0]) =~= parts);
    } else {
        let init = parts.drop_last();
        assert forall|i: int| 0 <= i < init.len() implies !(#[trigger] init[i]).contains(c) by {
            assert(init[i] == parts[i]);
        }
        lemma_split_joined(init, c);
        let j = joined(init, seq![c]);
        assert(joined(parts, seq![c]) == j + seq![c] + parts.last());
        assert(j + seq![c] =~= j.push(c));
        lemma_split_on_push_separator(j, c);
        lemma_split_on_append_plain(j.push(c), parts.last(), c);
        assert(init.push(empty).update(init.len() as int, empty + parts.last()) =~= parts);
    }
}

/// Reading the lines of links joined by line breaks gives back the links,
/// when no link holds a line break, none but the last ends in a carriage
/// return, and the last is not empty.
pub proof fn lemma_lines_of_joined(parts: Seq<Seq<char>>)
    requires
        parts.len() == 0 || parts.last().len() > 0,
        forall|i: int| 0 <= i < parts.len() ==> !(#[trigger] parts[i]).contains('\n'),
        forall|i: int|
            0 <= i < parts.len() - 1 ==> (#[trigger] parts[i]).len() == 0 || parts[i].last() != '\r',
    ensures
        text_lines(joined(parts, "\n"@)) == parts,
{
    reveal_strlit("\n");
    assert("\n"@ =~= seq!['\n']);
    if parts.len() > 0 {
        lemma_split_joined(parts, '\n');
        let s = joined(parts, seq!['\n']);
        assert(s.len() > 0) by {
            lemma_split_on_empty_text();
            if s.len() == 0 {
                assert(s =~= Seq::<char>::empty());
                assert(parts == seq![Seq::<char>::empty()]);
                assert(parts.last() == Seq::<char>::empty());
            }
        }
        assert(text_lines(s) =~= parts) by {
            assert forall|i: int| 0 <= i < parts.len() - 1 implies strip_cr(parts[i]) == parts[i] by {}
        }
    }
}

proof fn lemma_split_on_empty_text()
    ensures
        split_on(Seq::<char>::empty(), '\n') == seq![Seq::<char>::empty()],
{
}

/// No piece of a split holds the separator.
pub proof fn lemma_split_pieces_free_of_separator(s: Seq<char>, c: char)
    ensures
        forall|i: int| 0 <= i < split_on(s, c).len() ==> !(#[trigger] split_on(s, c)[i]).contains(c),
    decreases s.len(),
{
    if s.len() > 0 {
        lemma_split_pieces_free_of_separator(s.drop_last(), c);
        lemma_split_on_nonempty(s.drop_last(), c);
        let prev = split_on(s.drop_last(), c);
        if s.last() != c {
            assert forall|i: int| 0 <= i < split_on(s, c).len() implies !(
            #[trigger] split_on(s, c)[i]).contains(c) by {
                if i == prev.len() - 1 {
                    let piece = prev.last().push(s.last());
                    assert(split_on(s, c)[i] == piece);
                    if piece.contains(c) {
                        let k = choose|k: int| 0 <= k < piece.len() && piece[k] == c;
                        assert(prev.last()[k] == c);
                    }
                } else {
                    assert(split_on(s, c)[i] == prev[i]);
                }
            }
        } else {
            assert forall|i: int| 0 <= i < split_on(s, c).len() implies !(
            #[trigger] split_on(s, c)[i]).contains(c) by {
                if i < prev.len() {
                    assert(split_on(s, c)[i] == prev[i]);
                } else {
                    assert(split_on(s, c)[i] == Seq::<char>::empty());
                }
            }
        }
    }
}

/// Leaving out a set of characters leaves none of them behind.
pub proof fn lemma_without_chars_free(s: Seq<char>, cs: Seq<char>)
    ensures
        forall|i: int|
            0 <= i < without_chars(s, cs).len() ==> !cs.contains(#[trigger] without_chars(s, cs)[i]),
    decreases s.len(),
{
    if s.len() > 0 {
        lemma_without_chars_free(s.drop_last(), cs);
        let prev = without_chars(s.drop_last(), cs);
        if !cs.contains(s.last()) {
            assert forall|i: int| 0 <= i < without_chars(s, cs).len() implies !cs.contains(
                #[trigger] without_chars(s, cs)[i],
            ) by {
                if i < prev.len() {
                    assert(without_chars(s, cs)[i] == prev[i]);
                }
            }
        }
    }
}

/// Leaving out characters that do not occur changes nothing.
pub proof fn lemma_without_absent_chars(s: Seq<char>, cs: Seq<char>)
    requires
        forall|i: int| 0 <= i < s.len() ==> !cs.contains(#[trigger] s[i]),
    ensures
        without_chars(s, cs) == s,
    decreases s.len(),
{
    if s.len() > 0 {
        lemma_without_absent_chars(s.drop_last(), cs);
        assert(s.drop_last().push(s.last()) =~= s);
    }
}

proof fn lemma_trim_start_no_lead(s: Seq<char>)
    ensures
        trim_start(s).len() > 0 ==> !is_white_space(trim_start(s)[0]),
        exists|k: int| 0 <= k <= s.len() && trim_start(s) == s.skip(k),
    decreases s.len(),
{
    if s.len() > 0 && is_white_space(s[0]) {
        lemma_trim_start_no_lead(s.drop_first());
        let k = choose|k: int|
            0 <= k <= s.drop_first().len() && trim_start(s.drop_first()) == s.drop_first().skip(k);
        assert(s.drop_first().skip(k) =~= s.skip(k + 1));
    } else {
        assert(s.skip(0) =~= s);
    }
}

proof fn lemma_trim_end_no_trail(s: Seq<char>)
    ensures
        trim_end(s).len() > 0 ==> !is_white_space(trim_end(s).last()),
        trim_end(s).len() > 0 ==> trim_end(s)[0] == s[0],
        trim_end(s).len() <= s.len(),
    decreases s.len(),
{
    if s.len() > 0 && is_white_space(s.last()) {
        lemma_trim_end_no_trail(s.drop_last());
    }
}

/// A trimmed text starts and ends with a character that is not white space.
pub proof fn lemma_trimmed_edges(s: Seq<char>)
    ensures
        trimmed(s).len() > 0 ==> !is_white_space(trimmed(s)[0]) && !is_white_space(
            trimmed(s).last(),
        ),
{
    lemma_trim_start_no_lead(s);
    lemma_trim_end_no_trail(trim_start(s));
}

proof fn lemma_trim_start_fixed(s: Seq<char>)
    requires
        s.len() > 0 ==> !is_white_space(s[0]),
    ensures
        trim_start(s) == s,
{
}

proof fn lemma_trim_end_fixed(s: Seq<char>)
    requires
        s.len() > 0 ==> !is_white_space(s.last()),
    ensures
        trim_end(s) == s,
{
}

/// Trimming twice is trimming once.
pub proof fn lemma_trimmed_idempotent(s: Seq<char>)
    ensures
        trimmed(trimmed(s)) == trimmed(s),
{
    lemma_trimmed_edges(s);
    lemma_trim_start_fixed(trimmed(s));
    lemma_trim_end_fixed(trimmed(s));
}

/// Every character of `w` is white space.
pub open spec fn all_white_space(w: Seq<char>) -> bool {
    forall|i: int| 0 <= i < w.len() ==> is_white_space(#[trigger] w[i])
}

proof fn lemma_trim_start_skips_white(w: Seq<char>, x: Seq<char>)
    requires
        all_white_space(w),
    ensures
        trim_start(w + x) == trim_start(x),
    decreases w.len(),
{
    if w.len() == 0 {
        assert(w + x =~= x);
    } else {
        assert((w + x)[0] == w[0]);
        assert((w + x).drop_first() =~= w.drop_first() + x);
        assert forall|i: int| 0 <= i < w.drop_first().len() implies is_white_space(
            #[trigger] w.drop_first()[i],
        ) by {
            assert(w.drop_first()[i] == w[i + 1]);
        }
        lemma_trim_start_skips_white(w.drop_first(), x);
    }
}

proof fn lemma_trim_end_skips_white(x: Seq<char>, w: Seq<char>)
    requires
        all_white_space(w),
    ensures
        trim_end(x + w) == trim_end(x),
    decreases w.len(),
{
    if w.len() == 0 {
        assert(x + w =~= x);
    } else {
        assert((x + w).last() == w.last());
        assert((x + w).drop_last() =~= x + w.drop_last());
        assert forall|i: int| 0 <= i < w.drop_last().len() implies is_white_space(
            #[trigger] w.drop_last()[i],
        ) by {
            assert(w.drop_last()[i] == w[i]);
        }
        assert(is_white_space(w[w.len() - 1]));
        lemma_trim_end_skips_white(x, w.drop_last());
    }
}

proof fn lemma_trim_start_before_white(u: Seq<char>, w: Seq<char>)
    requires
        all_white_space(w),
    ensures
        trim_start(u).len() > 0 ==> trim_start(u + w) == trim_start(u) + w,
        trim_start(u).len() == 0 ==> trim_start(u + w).len() == 0,
    decreases u.len(),
{
    if u.len() == 0 {
        assert(u + w =~= w + Seq::<char>::empty());
        lemma_trim_start_skips_white(w, Seq::<char>::empty());
    } else {
        assert((u + w)[0] == u[0]);
        if is_white_space(u[0]) {
            assert((u + w).drop_first() =~= u.drop_first() + w);
            lemma_trim_start_before_white(u.drop_first(), w);
        }
    }
}

/// White space around a text does not change what trimming gives.
pub proof fn lemma_trimmed_padding(w1: Seq<char>, u: Seq<char>, w2: Seq<char>)
    requires
        all_white_space(w1),
        all_white_space(w2),
    ensures
        trimmed(w1 + u + w2) == trimmed(u),
{
    assert(w1 + u + w2 =~= w1 + (u + w2));
    lemma_trim_start_skips_white(w1, u + w2);
    lemma_trim_start_before_white(u, w2);
    if trim_start(u).len() > 0 {
        lemma_trim_end_skips_white(trim_start(u), w2);
    }
}

proof fn lemma_ascii_lower_white(c: char)
    ensures
        is_white_space(ascii_lower_char(c)) == is_white_space(c),
{
    if 'A' <= c <= 'Z' {
        let l = ascii_lower_char(c);
        assert('a' <= l <= 'z');
    }
}

proof fn lemma_trim_start_ascii_lower(s: Seq<char>)
    ensures
        trim_start(ascii_lowercase(s)) == ascii_lowercase(trim_start(s)),
        is_ascii_chars(s) ==> is_ascii_chars(trim_start(s)),
    decreases s.len(),
{
    if s.len() > 0 {
        lemma_ascii_lower_white(s[0]);
        assert(ascii_lowercase(s)[0] == ascii_lower_char(s[0]));
        if is_white_space(s[0]) {
            assert(ascii_lowercase(s).drop_first() =~= ascii_lowercase(s.drop_first()));
            lemma_trim_start_ascii_lower(s.drop_first());
            if is_ascii_chars(s) {
                assert(is_ascii_chars(s.drop_first())) by {
                    assert forall|i: int| 0 <= i < s.drop_first().len() implies '\0' <= #[trigger] s.drop_first()[i] <= '\u{7f}' by {
                        assert(s.drop_first()[i] == s[i + 1]);
                    }
                }
            }
        }
    }
}

proof fn lemma_trim_end_ascii_lower(s: Seq<char>)
    ensures
        trim_end(ascii_lowercase(s)) == ascii_lowercase(trim_end(s)),
        is_ascii_chars(s) ==> is_ascii_chars(trim_end(s)),
    decreases s.len(),
{
    if s.len() > 0 {
        lemma_ascii_lower_white(s.last());
        assert(ascii_lowercase(s).last() == ascii_lower_char(s.last()));
        if is_white_space(s.last()) {
            assert(ascii_lowercase(s).drop_last() =~= ascii_lowercase(s.drop_last()));
            lemma_trim_end_ascii_lower(s.drop_last());
            if is_ascii_chars(s) {
                assert(is_ascii_chars(s.drop_last())) by {
                    assert forall|i: int| 0 <= i < s.drop_last().len() implies '\0' <= #[trigger] s.drop_last()[i] <= '\u{7f}' by {
                        assert(s.drop_last()[i] == s[i]);
                    }
                }
            }
        }
    }
}

/// Trimming and ASCII lowercasing can be done in either order, and a
/// trimmed ASCII text is ASCII.
pub proof fn lemma_trimmed_ascii_lower(s: Seq<char>)
    ensures
        trimmed(ascii_lowercase(s)) == ascii_lowercase(trimmed(s)),
        is_ascii_chars(s) ==> is_ascii_chars(trimmed(s)),
{
    lemma_trim_start_ascii_lower(s);
    lemma_trim_end_ascii_lower(trim_start(s));
}

/// A substring of a substring is a substring.
pub proof fn lemma_contains_transitive(s: Seq<char>, m: Seq<char>, p: Seq<char>)
    requires
        text_contains(s, m),
        text_contains(m, p),
    ensures
        text_contains(s, p),
{
    let i = choose|i: int| occurs_at(s, m, i);
    let j = choose|j: int| occurs_at(m, p, j);
    assert(s.subrange(i + j, i + j + p.len()) =~= m.subrange(j, j + p.len()));
    assert(occurs_at(s, p, i + j));
}

/// Replacing a pattern that does not occur changes nothing.
pub proof fn lemma_replace_absent(s: Seq<char>, p: Seq<char>, r: Seq<char>)
    requires
        p.len() > 0,
        !text_contains(s, p),
    ensures
        replaced(s, p, r) == s,
    decreases s.len(),
{
    if s.len() >= p.len() {
        assert(s.take(p.len() as int) == s.subrange(0, p.len() as int));
        assert(!occurs_at(s, p, 0));
        assert(!text_contains(s.skip(1), p)) by {
            if text_contains(s.skip(1), p) {
                let i = choose|i: int| occurs_at(s.skip(1), p, i);
                assert(s.subrange(i + 1, i + 1 + p.len()) =~= s.skip(1).subrange(i, i + p.len()));
                assert(occurs_at(s, p, i + 1));
            }
        }
        lemma_replace_absent(s.skip(1), p, r);
        assert(seq![s[0]] + s.skip(1) =~= s);
    }
}

proof fn lemma_replaced_step_match(s: Seq<char>, p: Seq<char>, r: Seq<char>, i: int)
    requires
        p.len() > 0,
        occurs_at(s, p, i),
    ensures
        replaced(s.skip(i), p, r) == r + replaced(s.skip(i + p.len()), p, r),
{
    assert(s.skip(i).take(p.len() as int) =~= s.subrange(i, i + p.len()));
    assert(s.skip(i).skip(p.len() as int) =~= s.skip(i + p.len()));
}

proof fn lemma_replaced_step_other(s: Seq<char>, p: Seq<char>, r: Seq<char>, i: int)
    requires
        p.len() > 0,
        0 <= i < s.len(),
        !occurs_at(s, p, i),
    ensures
        replaced(s.skip(i), p, r) == seq![s[i]] + replaced(s.skip(i + 1), p, r),
{
    assert(s.skip(i).skip(1) =~= s.skip(i + 1));
    if s.len() - i >= p.len() {
        assert(s.skip(i).take(p.len() as int) =~= s.subrange(i, i + p.len()));
    } else {
        assert(replaced(s.skip(i + 1), p, r) == s.skip(i + 1));
        assert(s.skip(i) =~= seq![s[i]] + s.skip(i + 1));
    }
}

// ---------------------------------------------------------------------------
// Executable operations
// ---------------------------------------------------------------------------

/// Appends one character to a string (`String::push`).
#[verifier::external_body]
fn push_char(s: &mut String, c: char)
    ensures
        final(s)@ == old(s)@.push(c),
{
    s.push(c);
}

/// The characters of `s`, in order.
pub fn to_chars(s: &str) -> (v: Vec<char>)
    ensures
        v@ == s@,
{
    let mut v: Vec<char> = Vec::new();
    for c in it: s.chars()
        invariant
            v@ == it.seq().take(it.index() as int),
            it.seq() == s@,
    {
        v.push(c);
    }
    v
}

/// The string made of the characters `v[from..to]`.
pub fn string_from_range(v: &Vec<char>, from: usize, to: usize) -> (s: String)
    requires
        from <= to <= v.len(),
    ensures
        s@ == v@.subrange(from as int, to as int),
{
    let mut s = String::new();
    let mut i = from;
    while i < to
        invariant
            from <= i <= to <= v.len(),
            s@ == v@.subrange(from as int, i as int),
        decreases to - i,
    {
        push_char(&mut s, v[i]);
        i += 1;
        assert(s@ =~= v@.subrange(from as int, i as int));
    }
    s
}

/// The string made of the characters of `v`.
pub fn string_from_chars(v: &Vec<char>) -> (s: String)
    ensures
        s@ == v@,
{
    let s = string_from_range(v, 0, v.len());
    assert(v@.subrange(0, v.len() as int) =~= v@);
    s
}

/// Whether `p` occurs in `s` at index `i`.
fn chars_match_at(s: &Vec<char>, p: &Vec<char>, i: usize) -> (b: bool)
    requires
        i <= s.len(),
    ensures
        b == occurs_at(s@, p@, i as int),
{
    if p.len() > s.len() - i {
        return false;
    }
    let mut k: usize = 0;
    while k < p.len()
        invariant
            k <= p.len(),
            i + p.len() <= s.len(),
            forall|j: int| 0 <= j < k ==> s@[i + j] == p@[j],
        decreases p.len() - k,
    {
        if s[i + k] != p[k] {
            assert(s@.subrange(i as int, i + p.len())[k as int] == s@[i + k]);
            return false;
        }
        k += 1;
    }
    assert(s@.subrange(i as int, i + p.len()) =~= p@);
    true
}

/// Whether the characters `p` occur in the characters `s`.
pub fn chars_contain(s: &Vec<char>, p: &Vec<char>) -> (b: bool)
    ensures
        b == text_contains(s@, p@),
{
    if p.len() > s.len() {
        return false;
    }
    let last = s.len() - p.len();
    let mut i: usize = 0;
    while i < last
        invariant
            i <= last,
            last == s.len() - p.len(),
            forall|j: int| 0 <= j < i ==> !occurs_at(s@, p@, j),
        decreases last - i,
    {
        if chars_match_at(s, p, i) {
            return true;
        }
        i += 1;
    }
    if chars_match_at(s, p, last) {
        return true;
    }
    assert forall|j: int| !occurs_at(s@, p@, j) by {
        if j > last {
            assert(!(j + p.len() <= s.len()));
        }
    }
    false
}

/// Whether `p` is a substring of `s` (`str::contains`).
pub fn contains(s: &str, p: &str) -> (b: bool)
    ensures
        b == text_contains(s@, p@),
{
    let sv = to_chars(s);
    let pv = to_chars(p);
    chars_contain(&sv, &pv)
}

/// Whether `s` ends with `p` (`str::ends_with`).
pub fn ends_with(s: &str, p: &str) -> (b: bool)
    ensures
        b == text_ends_with(s@, p@),
{
    let sv = to_chars(s);
    let pv = to_chars(p);
    if pv.len() > sv.len() {
        return false;
    }
    let b = chars_match_at(&sv, &pv, sv.len() - pv.len());
    assert(sv@.subrange(sv.len() - pv.len(), sv.len() - pv.len() + pv.len()) =~= sv@.skip(
        sv.len() - pv.len(),
    ));
    b
}

/// Appends the characters of `r` to `out`.
fn push_all(out: &mut Vec<char>, r: &Vec<char>)
    ensures
        final(out)@ == old(out)@ + r@,
{
    let mut k: usize = 0;
    while k < r.len()
        invariant
            k <= r.len(),
            out@ == old(out)@ + r@.take(k as int),
        decreases r.len() - k,
    {
        out.push(r[k]);
        k += 1;
        assert(out@ =~= old(out)@ + r@.take(k as int));
    }
    assert(r@.take(r.len() as int) =~= r@);
}

/// `r` before every character of `s` and at its end (what replacing the
/// empty pattern gives).
fn replace_empty_pattern(sv: &Vec<char>, rv: &Vec<char>, Ghost(p): Ghost<Seq<char>>) -> (out: String)
    requires
        p.len() == 0,
    ensures
        out@ == replaced(sv@, p, rv@),
{
    let mut out: Vec<char> = Vec::new();
    let mut i: usize = 0;
    assert(sv@.skip(0) =~= sv@);
    while i < sv.len()
        invariant
            i <= sv.len(),
            p.len() == 0,
            out@ + replaced(sv@.skip(i as int), p, rv@) == replaced(sv@, p, rv@),
        decreases sv.len() - i,
    {
        let ghost before = out@;
        assert(sv@.skip(i as int)[0] == sv@[i as int]);
        assert(sv@.skip(i as int).skip(1) =~= sv@.skip(i + 1));
        push_all(&mut out, rv);
        out.push(sv[i]);
        assert(out@ + replaced(sv@.skip(i + 1), p, rv@) =~= before + (rv@ + seq![sv@[i as int]]
            + replaced(sv@.skip(i + 1), p, rv@)));
        i += 1;
    }
    assert(sv@.skip(i as int) =~= Seq::<char>::empty());
    push_all(&mut out, rv);
    string_from_chars(&out)
}

/// Every occurrence of the pattern `p` replaced by `r`
/// (`str::replace`).
pub fn replace(s: &str, p: &str, r: &str) -> (out: String)
    ensures
        out@ == replaced(s@, p@, r@),
{
    let sv = to_chars(s);
    let pv = to_chars(p);
    let rv = to_chars(r);
    if pv.len() == 0 {
        return replace_empty_pattern(&sv, &rv, Ghost(pv@));
    }
    let mut out: Vec<char> = Vec::new();
    let mut i: usize = 0;
    assert(sv@.skip(0) =~= sv@);
    while i < sv.len()
        invariant
            i <= sv.len(),
            pv@.len() > 0,
            sv@ == s@,
            pv@ == p@,
            rv@ == r@,
            out@ + replaced(sv@.skip(i as int), pv@, rv@) == replaced(sv@, pv@, rv@),
        decreases sv.len() - i,
    {
        if chars_match_at(&sv, &pv, i) {
            proof {
                lemma_replaced_step_match(sv@, pv@, rv@, i as int);
            }
            let ghost before = out@;
            let mut k: usize = 0;
            while k < rv.len()
                invariant
                    k <= rv.len(),
                    out@ == before + rv@.take(k as int),
                decreases rv.len() - k,
            {
                out.push(rv[k]);
                k += 1;
                assert(out@ =~= before + rv@.take(k as int));
            }
            assert(rv@.take(rv.len() as int) =~= rv@);
            assert(out@ + replaced(sv@.skip(i + pv.len()), pv@, rv@) =~= before + (rv@ + replaced(
                sv@.skip(i + pv.len()),
                pv@,
                rv@,
            )));
            i += pv.len();
        } else {
            proof {
                lemma_replaced_step_other(sv@, pv@, rv@, i as int);
            }
            let ghost before = out@;
            out.push(sv[i]);
            assert(out@ + replaced(sv@.skip(i + 1), pv@, rv@) =~= before + (seq![sv@[i as int]]
                + replaced(sv@.skip(i + 1), pv@, rv@)));
            i += 1;
        }
    }
    assert(sv@.skip(i as int) =~= Seq::<char>::empty());
    assert(out@ + replaced(sv@.skip(i as int), pv@, rv@) =~= out@);
    string_from_chars(&out)
}

/// Whether `c` is one of the characters of `cs`.
fn is_one_of(c: char, cs: &[char]) -> (b: bool)
    ensures
        b == cs@.contains(c),
{
    let mut i: usize = 0;
    while i < cs.len()
        invariant
            i <= cs.len(),
            forall|j: int| 0 <= j < i ==> cs@[j] != c,
        decreases cs.len() - i,
    {
        if cs[i] == c {
            return true;
        }
        i += 1;
    }
    false
}

/// `s` with every character of `cs` left out (`str::replace` with a slice
/// of characters as pattern and `""` as replacement).
pub fn remove_chars(s: &str, cs: &[char]) -> (out: String)
    ensures
        out@ == without_chars(s@, cs@),
{
    let sv = to_chars(s);
    let mut out: Vec<char> = Vec::new();
    let mut i: usize = 0;
    while i < sv.len()
        invariant
            i <= sv.len(),
            sv@ == s@,
            out@ == without_chars(sv@.take(i as int), cs@),
        decreases sv.len() - i,
    {
        assert(sv@.take(i + 1).drop_last() =~= sv@.take(i as int));
        if !is_one_of(sv[i], cs) {
            out.push(sv[i]);
        }
        i += 1;
    }
    assert(sv@.take(i as int) =~= sv@);
    string_from_chars(&out)
}

/// Whether `c` is white space (`char::is_whitespace`).
pub fn is_whitespace(c: char) -> (b: bool)
    ensures
        b == is_white_space(c),
{
    ('\u{9}' <= c && c <= '\u{d}') || c == ' ' || c == '\u{85}' || c == '\u{a0}' || c == '\u{1680}'
        || ('\u{2000}' <= c && c <= '\u{200a}') || c == '\u{2028}' || c == '\u{2029}' || c
        == '\u{202f}' || c == '\u{205f}' || c == '\u{3000}'
}

/// `s` without leading and trailing white space (`str::trim`).
pub fn trim(s: &str) -> (out: String)
    ensures
        out@ == trimmed(s@),
{
    let sv = to_chars(s);
    let mut a: usize = 0;
    assert(sv@.skip(0) =~= sv@);
    while a < sv.len() && is_whitespace(sv[a])
        invariant
            a <= sv.len(),
            trim_start(sv@) == trim_start(sv@.skip(a as int)),
        decreases sv.len() - a,
    {
        assert(sv@.skip(a as int).drop_first() =~= sv@.skip(a + 1));
        a += 1;
    }
    let ghost start = sv@.skip(a as int);
    assert(trim_start(start) == start);
    let mut b: usize = sv.len();
    assert(start =~= sv@.subrange(a as int, b as int));
    while b > a && is_whitespace(sv[b - 1])
        invariant
            a <= b <= sv.len(),
            trim_end(start) == trim_end(sv@.subrange(a as int, b as int)),
        decreases b - a,
    {
        assert(sv@.subrange(a as int, b as int).drop_last() =~= sv@.subrange(a as int, b - 1));
        b -= 1;
    }
    assert(trim_end(sv@.subrange(a as int, b as int)) == sv@.subrange(a as int, b as int));
    string_from_range(&sv, a, b)
}

/// The pieces of `s` between the occurrences of `c` (`str::split` with a
/// `char` pattern).
pub fn split_char(s: &str, c: char) -> (parts: Vec<String>)
    ensures
        parts@.len() == split_on(s@, c).len(),
        forall|i: int| 0 <= i < parts@.len() ==> #[trigger] parts@[i]@ == split_on(s@, c)[i],
{
    let sv = to_chars(s);
    let mut parts: Vec<String> = Vec::new();
    let mut start: usize = 0;
    let mut i: usize = 0;
    while i < sv.len()
        invariant
            start <= i <= sv.len(),
            sv@ == s@,
            split_on(sv@.take(i as int), c).len() == parts@.len() + 1,
            forall|j: int|
                0 <= j < parts@.len() ==> #[trigger] parts@[j]@ == split_on(sv@.take(i as int), c)[j],
            split_on(sv@.take(i as int), c).last() == sv@.subrange(start as int, i as int),
        decreases sv.len() - i,
    {
        let ghost prev = split_on(sv@.take(i as int), c);
        assert(sv@.take(i + 1).drop_last() =~= sv@.take(i as int));
        assert(sv@.take(i + 1).last() == sv@[i as int]);
        if sv[i] == c {
            let piece = string_from_range(&sv, start, i);
            parts.push(piece);
            start = i + 1;
            i += 1;
            assert(sv@.subrange(start as int, i as int) =~= Seq::<char>::empty());
        } else {
            i += 1;
            assert(sv@.subrange(start as int, i as int) =~= sv@.subrange(
                start as int,
                i - 1,
            ).push(sv@[i - 1]));
        }
    }
    let last = string_from_range(&sv, start, sv.len());
    parts.push(last);
    assert(sv@.take(sv.len() as int) =~= sv@);
    parts
}

/// The lines of `s` (`str::lines`).
pub fn lines(s: &str) -> (out: Vec<String>)
    ensures
        out@.len() == text_lines(s@).len(),
        forall|i: int| 0 <= i < out@.len() ==> #[trigger] out@[i]@ == text_lines(s@)[i],
{
    let mut out: Vec<String> = Vec::new();
    if s.unicode_len() == 0 {
        return out;
    }
    let pieces = split_char(s, '\n');
    proof {
        lemma_split_on_nonempty(s@, '\n');
    }
    let ghost sp = split_on(s@, '\n');
    let ghost body = Seq::new((sp.len() - 1) as nat, |i: int| strip_cr(sp[i]));
    let n = pieces.len();
    let mut i: usize = 0;
    while i + 1 < n
        invariant
            n == pieces@.len() == sp.len(),
            n >= 1,
            i < n,
            sp == split_on(s@, '\n'),
            body == Seq::new((sp.len() - 1) as nat, |i: int| strip_cr(sp[i])),
            forall|j: int| 0 <= j < n ==> #[trigger] pieces@[j]@ == sp[j],
            out@.len() == i,
            forall|j: int| 0 <= j < i ==> #[trigger] out@[j]@ == body[j],
        decreases n - i,
    {
        let pv = to_chars(&pieces[i]);
        let line = if pv.len() > 0 && pv[pv.len() - 1] == '\r' {
            string_from_range(&pv, 0, pv.len() - 1)
        } else {
            string_from_range(&pv, 0, pv.len())
        };
        assert(pv@.subrange(0, pv.len() - 1) =~= pv@.drop_last());
        assert(pv@.subrange(0, pv.len() as int) =~= pv@);
        out.push(line);
        i += 1;
    }
    let last_piece = to_chars(&pieces[n - 1]);
    if last_piece.len() > 0 {
        out.push(string_from_chars(&last_piece));
    }
    out
}

/// The parts joined with `sep` between every two of them (`[String]::join`).
pub fn join(parts: &Vec<String>, sep: &str) -> (out: String)
    ensures
        out@ == joined(parts@.map_values(|p: String| p@), sep@),
{
    let ghost views = parts@.map_values(|p: String| p@);
    let sepv = to_chars(sep);
    let mut out: Vec<char> = Vec::new();
    let mut i: usize = 0;
    while i < parts.len()
        invariant
            i <= parts.len(),
            sepv@ == sep@,
            views == parts@.map_values(|p: String| p@),
            out@ == joined(views.take(i as int), sep@),
        decreases parts.len() - i,
    {
        let ghost before = out@;
        assert(views.take(i + 1).drop_last() =~= views.take(i as int));
        assert(views.take(i + 1).last() == parts@[i as int]@);
        if i > 0 {
            let mut k: usize = 0;
            while k < sepv.len()
                invariant
                    k <= sepv.len(),
                    out@ == before + sepv@.take(k as int),
                decreases sepv.len() - k,
            {
                out.push(sepv[k]);
                k += 1;
                assert(out@ =~= before + sepv@.take(k as int));
            }
            assert(sepv@.take(sepv.len() as int) =~= sepv@);
        }
        let ghost mid = out@;
        let pv = to_chars(&parts[i]);
        let mut k: usize = 0;
        while k < pv.len()
            invariant
                k <= pv.len(),
                out@ == mid + pv@.take(k as int),
            decreases pv.len() - k,
        {
            out.push(pv[k]);
            k += 1;
            assert(out@ =~= mid + pv@.take(k as int));
        }
        assert(pv@.take(pv.len() as int) =~= pv@);
        if i == 0 {
            assert(views.take(1) =~= seq![views[0]]);
            assert(out@ =~= joined(views.take(1), sep@));
        } else {
            assert(out@ =~= joined(views.take(i + 1), sep@));
        }
        i += 1;
    }
    assert(views.take(parts.len() as int) =~= views);
    string_from_chars(&out)
}


/// Whether the two strings hold the same characters (`==` on `str`).
pub fn equals(a: &str, b: &str) -> (r: bool)
    ensures
        r == (a@ == b@),
{
    let av = to_chars(a);
    let bv = to_chars(b);
    if av.len() != bv.len() {
        return false;
    }
    let mut i: usize = 0;
    while i < av.len()
        invariant
            i <= av.len() == bv.len(),
            av@ == a@,
            bv@ == b@,
            forall|j: int| 0 <= j < i ==> av@[j] == bv@[j],
        decreases av.len() - i,
    {
        if av[i] != bv[i] {
            assert(av@[i as int] != bv@[i as int]);
            return false;
        }
        i += 1;
    }
    assert(av@ =~= bv@);
    true
}

// ---------------------------------------------------------------------------
// Lexicographic order (the order of `Ord` on `str`: UTF-8 byte order is
// code point order)
// ---------------------------------------------------------------------------

/// `a` comes before `b` or equals it.
pub open spec fn lex_le(a: Seq<char>, b: Seq<char>) -> bool
    decreases a.len(),
{
    if a.len() == 0 {
        true
    } else if b.len() == 0 {
        false
    } else if a[0] != b[0] {
        a[0] < b[0]
    } else {
        lex_le(a.drop_first(), b.drop_first())
    }
}

/// Every text comes before or equals every later one.
pub open spec fn sorted_texts(s: Seq<Seq<char>>) -> bool {
    forall|i: int, j: int| 0 <= i < j < s.len() ==> lex_le(#[trigger] s[i], #[trigger] s[j])
}

/// Any two texts are ordered one way or the other.
pub proof fn lemma_lex_total(a: Seq<char>, b: Seq<char>)
    ensures
        lex_le(a, b) || lex_le(b, a),
    decreases a.len(),
{
    if a.len() > 0 && b.len() > 0 && a[0] == b[0] {
        lemma_lex_total(a.drop_first(), b.drop_first());
    }
}

/// The order is transitive.
pub proof fn lemma_lex_transitive(a: Seq<char>, b: Seq<char>, c: Seq<char>)
    requires
        lex_le(a, b),
        lex_le(b, c),
    ensures
        lex_le(a, c),
    decreases a.len(),
{
    if a.len() > 0 && b.len() > 0 && c.len() > 0 && a[0] == b[0] && b[0] == c[0] {
        lemma_lex_transitive(a.drop_first(), b.drop_first(), c.drop_first());
    }
}

/// Whether `a` comes before `b` or equals it.
fn chars_lex_le(a: &Vec<char>, b: &Vec<char>) -> (r: bool)
    ensures
        r == lex_le(a@, b@),
{
    let mut i: usize = 0;
    assert(a@.skip(0) =~= a@);
    assert(b@.skip(0) =~= b@);
    while i < a.len() && i < b.len() && a[i] == b[i]
        invariant
            i <= a.len(),
            i <= b.len(),
            lex_le(a@, b@) == lex_le(a@.skip(i as int), b@.skip(i as int)),
        decreases a.len() - i,
    {
        assert(a@.skip(i as int).drop_first() =~= a@.skip(i + 1));
        assert(b@.skip(i as int).drop_first() =~= b@.skip(i + 1));
        i += 1;
    }
    if i == a.len() {
        true
    } else if i == b.len() {
        false
    } else {
        a[i] < b[i]
    }
}

/// The views of a list of strings.
pub open spec fn views(v: Seq<String>) -> Seq<Seq<char>> {
    v.map_values(|s: String| s@)
}

/// The strings in ascending lexicographic order (what sorting a list of
/// strings gives: the same strings, each as often, in order).
pub fn sort_texts(items: &Vec<String>) -> (out: Vec<String>)
    ensures
        views(out@).to_multiset() == views(items@).to_multiset(),
        sorted_texts(views(out@)),
{
    broadcast use vstd::seq_lib::to_multiset_insert, vstd::seq_lib::to_multiset_build;

    let mut out: Vec<String> = Vec::new();
    let mut keys: Vec<Vec<char>> = Vec::new();
    let mut i: usize = 0;
    assert(views(items@).take(0) =~= Seq::<Seq<char>>::empty());
    assert(views(out@) =~= Seq::<Seq<char>>::empty());
    while i < items.len()
        invariant
            i <= items.len(),
            keys@.len() == out@.len(),
            forall|k: int| 0 <= k < keys@.len() ==> #[trigger] keys@[k]@ == out@[k]@,
            views(out@).to_multiset() == views(items@).take(i as int).to_multiset(),
            sorted_texts(views(out@)),
        decreases items.len() - i,
    {
        let x = items[i].clone();
        let xk = to_chars(x.as_str());
        let mut j: usize = 0;
        while j < out.len() && chars_lex_le(&keys[j], &xk)
            invariant
                j <= out@.len(),
                xk@ == x@,
                keys@.len() == out@.len(),
                forall|k: int| 0 <= k < keys@.len() ==> #[trigger] keys@[k]@ == out@[k]@,
                forall|k: int| 0 <= k < j ==> lex_le(#[trigger] out@[k]@, x@),
            decreases out@.len() - j,
        {
            assert(keys@[j as int]@ == out@[j as int]@);
            j += 1;
        }
        let ghost old_views = views(out@);
        proof {
            if j < out@.len() {
                lemma_lex_total(x@, out@[j as int]@);
            }
        }
        out.insert(j, x.clone());
        keys.insert(j, xk);
        assert(views(out@) =~= old_views.insert(j as int, x@));
        assert(views(items@).take(i + 1) =~= views(items@).take(i as int).push(items@[i as int]@));
        proof {
            vstd::seq_lib::to_multiset_insert(old_views, j as int, x@);
            vstd::seq_lib::to_multiset_build(views(items@).take(i as int), items@[i as int]@);
        }
        assert forall|a: int, b: int| 0 <= a < b < views(out@).len() implies lex_le(
            #[trigger] views(out@)[a],
            #[trigger] views(out@)[b],
        ) by {
            if a < j && b == j {
            } else if a < j && b > j {
                assert(lex_le(old_views[a], old_views[b - 1]));
            } else if a == j && b > j {
                assert(lex_le(x@, old_views[j as int]));
                if b - 1 > j {
                    assert(lex_le(old_views[j as int], old_views[b - 1]));
                    lemma_lex_transitive(x@, old_views[j as int], old_views[b - 1]);
                }
            } else if a > j {
                assert(lex_le(old_views[a - 1], old_views[b - 1]));
            }
        }
        i += 1;
    }
    assert(views(items@).take(items.len() as int) =~= views(items@));
    out
}


/// What `str::to_lowercase` makes of a text: every character replaced by its
/// lowercase mapping under the Unicode `Lowercase` property.
pub uninterp spec fn lowercase(s: Seq<char>) -> Seq<char>;

/// `A` to `Z` replaced by `a` to `z`; every other character kept.
pub open spec fn ascii_lower_char(c: char) -> char {
    if 'A' <= c <= 'Z' {
        (((c as u32) + 32) as u32) as char
    } else {
        c
    }
}

/// Each character of `s` through `ascii_lower_char`.
pub open spec fn ascii_lowercase(s: Seq<char>) -> Seq<char> {
    s.map_values(|c: char| ascii_lower_char(c))
}

/// What `str::to_lowercase` makes of a text, as far as this library states
/// it: an ASCII text has `A` to `Z` replaced by `a` to `z` and the rest kept;
/// any other text gets the Unicode mapping named `lowercase`.
pub open spec fn lower_text(s: Seq<char>) -> Seq<char> {
    if is_ascii_chars(s) {
        ascii_lowercase(s)
    } else {
        lowercase(s)
    }
}

/// `str::to_lowercase`. Its result is named `lowercase`: the Unicode case
/// mapping is not restated here. On an ASCII text it maps `A` to `Z` to `a`
/// to `z` and keeps the rest, as `to_ascii_lowercase` does (whose
/// documentation sends those who also want non-ASCII letters lowercased to
/// `to_lowercase`; no other ASCII character has a lowercase mapping).
#[verifier::external_body]
pub(crate) fn to_lowercase(s: &str) -> (out: String)
    ensures
        out@ == lowercase(s@),
        is_ascii_chars(s@) ==> out@ == ascii_lowercase(s@),
{
    s.to_lowercase()
}

/// What `heck`'s `to_snake_case` makes of a text: its words in lowercase,
/// joined by underscores.
pub uninterp spec fn snake_case(s: Seq<char>) -> Seq<char>;

/// `heck::ToSnakeCase::to_snake_case`. The result is named `snake_case`; how
/// heck splits a text into words is not restated here.
#[verifier::external_body]
pub(crate) fn to_snake_case(s: &str) -> (out: String)
    ensures
        out@ == snake_case(s@),
{
    heck::ToSnakeCase::to_snake_case(s)
}

} // verus!
