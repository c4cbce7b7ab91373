//! White space, words, trimming and line ends on sequences of characters.

use vstd::prelude::*;

verus! {

/// Whether `c` has the Unicode property `White_Space`.
pub open spec fn white_space(c: char) -> bool {
    ||| '\u{9}' <= c <= '\u{d}'
    ||| c == ' '
    ||| c == '\u{85}'
    ||| c == '\u{a0}'
    ||| c == '\u{1680}'
    ||| '\u{2000}' <= c <= '\u{200a}'
    ||| c == '\u{2028}'
    ||| c == '\u{2029}'
    ||| c == '\u{202f}'
    ||| c == '\u{205f}'
    ||| c == '\u{3000}'
}

/// `char::is_whitespace` of std: documented to hold exactly of the characters with the
/// Unicode property `White_Space`, which `white_space` lists.
pub assume_specification[ char::is_whitespace ](c: char) -> (r: bool)
    ensures
        r == white_space(c),
;

/// The characters of `s`, in order.
pub fn chars_of(s: &str) -> (r: Vec<char>)
    ensures
        r@ == s@,
{
    let mut r: Vec<char> = Vec::new();
    for c in it: s.chars()
        invariant
            r@ == it.seq().take(it.index() as int),
            it.seq() == s@,
    {
        r.push(c);
    }
    r
}

/// How many characters of `s` come before the first one that is white space.
pub open spec fn run_len(s: Seq<char>) -> nat
    decreases s.len(),
{
    if s.len() == 0 || white_space(s[0]) {
        0
    } else {
        1 + run_len(s.drop_first())
    }
}

/// The words of `s`: its longest runs of characters that are not white space, in order.
pub open spec fn words(s: Seq<char>) -> Seq<Seq<char>>
    decreases s.len(),
{
    if s.len() == 0 {
        seq![]
    } else if white_space(s[0]) {
        words(s.drop_first())
    } else {
        proof {
            run_len_bounds(s);
        }
        seq![s.take(run_len(s) as int)] + words(s.skip(run_len(s) as int))
    }
}

/// `s` without its white space characters.
pub open spec fn without_white_space(s: Seq<char>) -> Seq<char> {
    s.filter(|c: char| !white_space(c))
}

/// `s` without the white space at its start.
pub open spec fn trim_start(s: Seq<char>) -> Seq<char>
    decreases s.len(),
{
    if s.len() > 0 && white_space(s[0]) {
        trim_start(s.drop_first())
    } else {
        s
    }
}

/// `s` without the white space at its end.
pub open spec fn trim_end(s: Seq<char>) -> Seq<char>
    decreases s.len(),
{
    if s.len() > 0 && white_space(s.last()) {
        trim_end(s.drop_last())
    } else {
        s
    }
}

/// `s` without the white space at both ends.
pub open spec fn trimmed(s: Seq<char>) -> Seq<char> {
    trim_end(trim_start(s))
}

/// Whether `c` ends a line.
pub open spec fn line_break(c: char) -> bool {
    c == '\n' || c == '\r'
}

/// `s` without the line breaks at its end.
pub open spec fn without_line_end(s: Seq<char>) -> Seq<char>
    decreases s.len(),
{
    if s.len() > 0 && line_break(s.last()) {
        without_line_end(s.drop_last())
    } else {
        s
    }
}

/// A run ends inside the text, holds no white space, and is followed by white space
/// or by nothing.
pub proof fn run_len_bounds(s: Seq<char>)
    ensures
        run_len(s) <= s.len(),
        forall|i: int| 0 <= i < run_len(s) ==> !white_space(#[trigger] s[i]),
        run_len(s) < s.len() ==> white_space(s[run_len(s) as int]),
    decreases s.len(),
{
    if s.len() != 0 && !white_space(s[0]) {
        let t = s.drop_first();
        run_len_bounds(t);
        assert forall|i: int| 0 <= i < run_len(s) implies !white_space(#[trigger] s[i]) by {
            if i > 0 {
                assert(s[i] == t[i - 1]);
            }
        }
        if run_len(s) < s.len() {
            assert(s[run_len(s) as int] == t[run_len(t) as int]);
        }
    }
}

/// `run_len` is the one length with these properties.
proof fn run_len_is(s: Seq<char>, n: nat)
    requires
        n <= s.len(),
        forall|i: int| 0 <= i < n ==> !white_space(#[trigger] s[i]),
        n < s.len() ==> white_space(s[n as int]),
    ensures
        run_len(s) == n,
{
    run_len_bounds(s);
    if run_len(s) < n {
        assert(!white_space(s[run_len(s) as int]));
    }
    if n < run_len(s) {
        assert(!white_space(s[n as int]));
    }
}

/// A word is never empty and never holds white space.
pub proof fn words_are_solid(s: Seq<char>)
    ensures
        forall|k: int| 0 <= k < words(s).len() ==> (#[trigger] words(s)[k]).len() > 0,
        forall|k: int, i: int|
            0 <= k < words(s).len() && 0 <= i < words(s)[k].len() ==> !white_space(
                #[trigger] words(s)[k][i],
            ),
    decreases s.len(),
{
    if s.len() > 0 {
        run_len_bounds(s);
        if white_space(s[0]) {
            words_are_solid(s.drop_first());
            assert(words(s) == words(s.drop_first()));
        } else {
            let n = run_len(s) as int;
            let rest = words(s.skip(n));
            words_are_solid(s.skip(n));
            assert forall|k: int| 0 <= k < words(s).len() implies (#[trigger] words(s)[k]).len()
                > 0 by {
                if k > 0 {
                    assert(words(s)[k] == rest[k - 1]);
                }
            }
            assert forall|k: int, i: int|
                0 <= k < words(s).len() && 0 <= i < words(s)[k].len() implies !white_space(
                #[trigger] words(s)[k][i],
            ) by {
                if k > 0 {
                    assert(words(s)[k] == rest[k - 1]);
                    assert(!white_space(rest[k - 1][i]));
                } else {
                    assert(words(s)[0][i] == s[i]);
                }
            }
        }
    }
}

/// Splitting into words loses nothing but white space: the words, put together, are the
/// text without its white space.
pub proof fn words_cover(s: Seq<char>)
    ensures
        words(s).flatten() == without_white_space(s),
    decreases s.len(),
{
    let solid = |c: char| !white_space(c);
    if s.len() == 0 {
        reveal(Seq::filter);
        assert(words(s).flatten() =~= without_white_space(s));
    } else if white_space(s[0]) {
        let t = s.drop_first();
        words_cover(t);
        assert(s == seq![s[0]] + t);
        Seq::filter_distributes_over_add(seq![s[0]], t, solid);
        assert(seq![s[0]].filter(solid) =~= seq![]) by {
            reveal(Seq::filter);
            let none = Seq::<char>::empty();
            assert(seq![s[0]].drop_last() =~= none);
            assert(none.filter(solid) =~= none);
            assert(!solid(seq![s[0]].last()));
        }
        assert(without_white_space(s) =~= without_white_space(t));
    } else {
        let n = run_len(s) as int;
        run_len_bounds(s);
        words_cover(s.skip(n));
        assert(s == s.take(n) + s.skip(n));
        Seq::filter_distributes_over_add(s.take(n), s.skip(n), solid);
        all_kept(s.take(n), solid);
        assert(words(s).drop_first() =~= words(s.skip(n)));
        assert(words(s).first() == s.take(n));
    }
}

/// A filter that every element passes changes nothing.
proof fn all_kept(s: Seq<char>, keep: spec_fn(char) -> bool)
    requires
        forall|i: int| 0 <= i < s.len() ==> keep(#[trigger] s[i]),
    ensures
        s.filter(keep) == s,
    decreases s.len(),
{
    reveal(Seq::filter);
    if s.len() > 0 {
        assert forall|i: int| 0 <= i < s.drop_last().len() implies keep(
            #[trigger] s.drop_last()[i],
        ) by {
            assert(s.drop_last()[i] == s[i]);
        }
        all_kept(s.drop_last(), keep);
        assert(keep(s[s.len() - 1]));
        assert(s.drop_last().push(s.last()) =~= s);
    }
}

/// Splits `s` at white space.
pub fn split_words(s: &str) -> (r: Vec<String>)
    ensures
        r@.map_values(|w: String| w@) == words(s@),
{
    let chars: Vec<char> = chars_of(s);
    let n: usize = chars.len();
    let mut r: Vec<String> = Vec::new();
    let mut i: usize = 0;
    proof {
        assert(s@.skip(0) =~= s@);
        assert(r@.map_values(|w: String| w@) + words(s@) =~= words(s@));
    }
    while i < n
        invariant
            i <= n,
            n == chars@.len(),
            chars@ == s@,
            r@.map_values(|w: String| w@) + words(s@.skip(i as int)) == words(s@),
        decreases n - i,
    {
        let ghost rest = s@.skip(i as int);
        if chars[i].is_whitespace() {
            proof {
                assert(rest[0] == s@[i as int]);
                assert(rest.drop_first() =~= s@.skip(i + 1));
            }
            i = i + 1;
        } else {
            let start: usize = i;
            i = i + 1;
            while i < n && !chars[i].is_whitespace()
                invariant
                    start < i <= n,
                    n == chars@.len(),
                    chars@ == s@,
                    forall|k: int| start <= k < i ==> !white_space(#[trigger] s@[k]),
                decreases n - i,
            {
                i = i + 1;
            }
            let ghost before = r@.map_values(|w: String| w@);
            r.push(s.substring_char(start, i).to_owned());
            proof {
                let len = (i - start) as nat;
                assert forall|k: int| 0 <= k < len implies !white_space(#[trigger] rest[k]) by {
                    assert(rest[k] == s@[start + k]);
                }
                if len < rest.len() {
                    assert(rest[len as int] == s@[i as int]);
                }
                run_len_is(rest, len);
                assert(rest.take(len as int) =~= s@.subrange(start as int, i as int));
                assert(rest.skip(len as int) =~= s@.skip(i as int));
                assert(r@.map_values(|w: String| w@) =~= before.push(rest.take(len as int)));
                assert(before.push(rest.take(len as int)) + words(s@.skip(i as int)) =~= before
                    + words(rest));
            }
        }
    }
    proof {
        assert(s@.skip(n as int) =~= Seq::<char>::empty());
        assert(r@.map_values(|w: String| w@) + words(s@.skip(i as int)) =~= r@.map_values(
            |w: String| w@,
        ));
    }
    r
}

/// `s` without the white space at both ends.
pub fn trim(s: &str) -> (r: String)
    ensures
        r@ == trimmed(s@),
{
    let chars: Vec<char> = chars_of(s);
    let n: usize = chars.len();
    let mut i: usize = 0;
    proof {
        assert(s@.skip(0) =~= s@);
    }
    while i < n && chars[i].is_whitespace()
        invariant
            i <= n,
            n == chars@.len(),
            chars@ == s@,
            trim_start(s@.skip(i as int)) == trim_start(s@),
        decreases n - i,
    {
        proof {
            assert(s@.skip(i as int).drop_first() =~= s@.skip(i + 1));
        }
        i = i + 1;
    }
    let mut j: usize = n;
    proof {
        assert(s@.subrange(i as int, j as int) =~= s@.skip(i as int));
    }
    while j > i && chars[j - 1].is_whitespace()
        invariant
            i <= j <= n,
            n == chars@.len(),
            chars@ == s@,
            trim_end(s@.subrange(i as int, j as int)) == trimmed(s@),
        decreases j,
    {
        proof {
            assert(s@.subrange(i as int, j as int).drop_last() =~= s@.subrange(
                i as int,
                j - 1,
            ));
        }
        j = j - 1;
    }
    s.substring_char(i, j).to_owned()
}

/// A text that neither starts nor ends with white space is left as it is by trimming.
pub proof fn trimmed_keeps_solid_ends(s: Seq<char>)
    requires
        s.len() > 0 ==> !white_space(s[0]) && !white_space(s.last()),
    ensures
        trimmed(s) == s,
{
}

/// White space before and after a text does not survive trimming.
pub proof fn trimmed_drops_padding(before: Seq<char>, s: Seq<char>, after: Seq<char>)
    requires
        forall|i: int| 0 <= i < before.len() ==> white_space(#[trigger] before[i]),
        forall|i: int| 0 <= i < after.len() ==> white_space(#[trigger] after[i]),
    ensures
        trimmed(before + s + after) == trimmed(s),
    decreases before.len() + s.len() + after.len(),
{
    let t = before + s + after;
    if before.len() > 0 {
        let rest = before.drop_first();
        assert(white_space(before[0]));
        assert(t[0] == before[0]);
        assert(t.drop_first() =~= rest + s + after);
        assert forall|i: int| 0 <= i < rest.len() implies white_space(#[trigger] rest[i]) by {
            assert(white_space(before[i + 1]));
        }
        trimmed_drops_padding(rest, s, after);
    } else if s.len() > 0 && white_space(s[0]) {
        assert(t[0] == s[0]);
        assert(t.drop_first() =~= before + s.drop_first() + after);
        trimmed_drops_padding(before, s.drop_first(), after);
    } else if after.len() > 0 {
        let rest = after.drop_last();
        assert(white_space(after[after.len() - 1]));
        assert forall|i: int| 0 <= i < rest.len() implies white_space(#[trigger] rest[i]) by {
            assert(white_space(after[i]));
        }
        if s.len() > 0 {
            assert(t[0] == s[0]);
            assert(t.drop_last() =~= before + s + rest);
            assert((before + s + rest)[0] == s[0]);
            trimmed_drops_padding(before, s, rest);
        } else {
            assert(white_space(after[0]));
            assert(t[0] == after[0]);
            assert(t.drop_first() =~= before + s + after.drop_first());
            assert forall|i: int| 0 <= i < after.drop_first().len() implies white_space(
                #[trigger] after.drop_first()[i],
            ) by {
                assert(white_space(after[i + 1]));
            }
            trimmed_drops_padding(before, s, after.drop_first());
        }
    } else {
        assert(t =~= s);
    }
}

/// `s` without the line breaks at its end.
pub fn cut_line_end(s: &str) -> (r: String)
    ensures
        r@ == without_line_end(s@),
{
    let chars: Vec<char> = chars_of(s);
    let mut n: usize = chars.len();
    proof {
        assert(s@.take(n as int) =~= s@);
    }
    while n > 0 && (chars[n - 1] == '\n' || chars[n - 1] == '\r')
        invariant
            n <= chars@.len(),
            chars@ == s@,
            without_line_end(s@.take(n as int)) == without_line_end(s@),
        decreases n,
    {
        proof {
            assert(s@.take(n as int).drop_last() =~= s@.take(n - 1));
        }
        n = n - 1;
    }
    s.substring_char(0, n).to_owned()
}

/// A text comes back whole from the line that it makes up, unless it ends in a line break
/// itself.
pub proof fn line_end_is_all_that_goes(s: Seq<char>)
    requires
        s.len() > 0 ==> !line_break(s.last()),
    ensures
        without_line_end(s.push('\n')) == s,
{
    assert(s.push('\n').drop_last() =~= s);
    assert(without_line_end(s) == s);
}

/// White space parts words, and does nothing else: the words of two texts with white space
/// between them are the words of the one followed by those of the other.
pub proof fn white_space_parts_words(a: Seq<char>, c: char, b: Seq<char>)
    requires
        white_space(c),
    ensures
        words(a + seq![c] + b) == words(a) + words(b),
    decreases a.len(),
{
    let t = a + seq![c] + b;
    if a.len() == 0 {
        assert(t[0] == c);
        assert(t.drop_first() =~= b);
        assert(words(a) + words(b) =~= words(b));
    } else if white_space(a[0]) {
        assert(t[0] == a[0]);
        assert(t.drop_first() =~= a.drop_first() + seq![c] + b);
        white_space_parts_words(a.drop_first(), c, b);
    } else {
        let n = run_len(a) as int;
        run_len_bounds(a);
        assert(t[0] == a[0]);
        assert forall|i: int| 0 <= i < n implies !white_space(#[trigger] t[i]) by {
            assert(t[i] == a[i]);
        }
        assert(t[n] == if n < a.len() { a[n] } else { c });
        run_len_is(t, n as nat);
        assert(t.take(n) =~= a.take(n));
        assert(t.skip(n) =~= a.skip(n) + seq![c] + b);
        white_space_parts_words(a.skip(n), c, b);
        assert(words(t) =~= words(a) + words(b));
    }
}

/// A text without white space is one word, and no text is none.
pub proof fn a_solid_text_is_one_word(s: Seq<char>)
    requires
        forall|i: int| 0 <= i < s.len() ==> !white_space(#[trigger] s[i]),
    ensures
        s.len() == 0 ==> words(s).len() == 0,
        s.len() > 0 ==> words(s) == seq![s],
{
    if s.len() > 0 {
        assert(!white_space(s[0]));
        run_len_is(s, s.len());
        assert(s.take(s.len() as int) =~= s);
        assert(s.skip(s.len() as int) =~= Seq::<char>::empty());
        assert(words(Seq::<char>::empty()).len() == 0);
        assert(words(s) =~= seq![s]);
    }
}

/// A text has a word exactly where it has a character that is not white space.
pub proof fn words_are_of_solid_characters(s: Seq<char>)
    ensures
        words(s).len() > 0 <==> exists|i: int| 0 <= i < s.len() && !white_space(#[trigger] s[i]),
    decreases s.len(),
{
    if s.len() > 0 {
        if white_space(s[0]) {
            let t = s.drop_first();
            words_are_of_solid_characters(t);
            if words(s).len() > 0 {
                let i = choose|i: int| 0 <= i < t.len() && !white_space(#[trigger] t[i]);
                assert(!white_space(s[i + 1]));
            }
            if exists|i: int| 0 <= i < s.len() && !white_space(#[trigger] s[i]) {
                let i = choose|i: int| 0 <= i < s.len() && !white_space(#[trigger] s[i]);
                assert(!white_space(t[i - 1]));
            }
        } else {
            assert(!white_space(s[0]));
        }
    }
}

/// Trimming takes white space off both ends and stops at the first other character: what it
/// leaves is a stretch of the text with nothing but white space before and after it, which
/// neither starts nor ends with white space.
pub proof fn trimming_leaves_the_solid_stretch(s: Seq<char>) -> (ends: (int, int))
    ensures
        0 <= ends.0 <= ends.1 <= s.len(),
        trimmed(s) == s.subrange(ends.0, ends.1),
        forall|i: int| 0 <= i < ends.0 ==> white_space(#[trigger] s[i]),
        forall|i: int| ends.1 <= i < s.len() ==> white_space(#[trigger] s[i]),
        ends.0 < ends.1 ==> !white_space(s[ends.0]) && !white_space(s[ends.1 - 1]),
    decreases s.len(),
{
    if s.len() > 0 && white_space(s[0]) {
        let t = s.drop_first();
        let (a, b) = trimming_leaves_the_solid_stretch(t);
        assert(s.subrange(a + 1, b + 1) =~= t.subrange(a, b));
        assert forall|i: int| 0 <= i < a + 1 implies white_space(#[trigger] s[i]) by {
            if i > 0 {
                assert(t[i - 1] == s[i]);
            }
        }
        assert forall|i: int| b + 1 <= i < s.len() implies white_space(#[trigger] s[i]) by {
            assert(t[i - 1] == s[i]);
        }
        (a + 1, b + 1)
    } else {
        let b = end_of_solid(s);
        if s.len() > 0 && b == 0 {
            assert(white_space(s[0]));
        }
        assert(s.subrange(0, b) =~= s.take(b));
        (0, b)
    }
}

/// Where the white space at the end of a text starts.
proof fn end_of_solid(s: Seq<char>) -> (b: int)
    ensures
        0 <= b <= s.len(),
        trim_end(s) == s.take(b),
        forall|i: int| b <= i < s.len() ==> white_space(#[trigger] s[i]),
        b > 0 ==> !white_space(s[b - 1]),
    decreases s.len(),
{
    if s.len() > 0 && white_space(s.last()) {
        let t = s.drop_last();
        let b = end_of_solid(t);
        assert(s.take(b) =~= t.take(b));
        assert forall|i: int| b <= i < s.len() implies white_space(#[trigger] s[i]) by {
            if i < t.len() {
                assert(t[i] == s[i]);
            }
        }
        b
    } else {
        assert(s.take(s.len() as int) =~= s);
        s.len() as int
    }
}

/// Cutting the line end takes the line feeds and carriage returns off the end of a text, all of
/// them and nothing else.
pub proof fn cutting_stops_at_the_line_end(s: Seq<char>) -> (n: int)
    ensures
        0 <= n <= s.len(),
        without_line_end(s) == s.take(n),
        forall|i: int| n <= i < s.len() ==> #[trigger] s[i] == '\n' || s[i] == '\r',
        n > 0 ==> s[n - 1] != '\n' && s[n - 1] != '\r',
    decreases s.len(),
{
    if s.len() > 0 && line_break(s.last()) {
        let t = s.drop_last();
        let n = cutting_stops_at_the_line_end(t);
        assert(s.take(n) =~= t.take(n));
        assert forall|i: int| n <= i < s.len() implies #[trigger] s[i] == '\n' || s[i]
            == '\r' by {
            if i < t.len() {
                assert(t[i] == s[i]);
            }
        }
        n
    } else {
        assert(s.take(s.len() as int) =~= s);
        s.len() as int
    }
}

} // verus!
