//! Searching, splitting and trimming of text.
//!
//! The specification functions speak of sequences of characters; the executable functions work
//! on a vector of characters, so that a position is an index and not a byte offset.
use vstd::prelude::*;
use vstd::string::*;

verus! {

/// `String::push` of std: the character is appended, nothing else changes.
pub assume_specification[ String::push ](s: &mut String, c: char)
    ensures
        final(s)@ == old(s)@.push(c),
;

/// The texts that a sequence of strings holds.
pub open spec fn texts(v: Seq<String>) -> Seq<Seq<char>> {
    v.map_values(|s: String| s@)
}

/// Whether `pat` stands in `s` at position `i`.
pub open spec fn matches_at(s: Seq<char>, pat: Seq<char>, i: int) -> bool {
    0 <= i && i + pat.len() <= s.len() && s.subrange(i, i + pat.len()) == pat
}

/// The first position not before `i` at which `pat` stands in `s`.
pub open spec fn find_from(s: Seq<char>, pat: Seq<char>, i: int) -> Option<int>
    decreases s.len() + 1 - i,
{
    if i < 0 || i + pat.len() > s.len() {
        None
    } else if matches_at(s, pat, i) {
        Some(i)
    } else {
        find_from(s, pat, i + 1)
    }
}

/// The first position at which `pat` stands in `s`.
pub open spec fn find(s: Seq<char>, pat: Seq<char>) -> Option<int> {
    find_from(s, pat, 0)
}

/// The pieces of `s` between the occurrences of `pat`, which are taken from the left and do not
/// overlap. There is always one piece more than there are occurrences.
pub open spec fn split(s: Seq<char>, pat: Seq<char>) -> Seq<Seq<char>>
    decreases s.len(),
{
    match find(s, pat) {
        Some(i) => if pat.len() > 0 && 0 <= i && i + pat.len() <= s.len() {
            seq![s.take(i)] + split(s.skip(i + pat.len()), pat)
        } else {
            seq![s]
        },
        None => seq![s],
    }
}

/// The pieces of `s` between the occurrences of one character.
pub open spec fn split_on(s: Seq<char>, c: char) -> Seq<Seq<char>> {
    split(s, seq![c])
}

/// The pieces put together again, with `sep` between any two.
pub open spec fn join(pieces: Seq<Seq<char>>, sep: Seq<char>) -> Seq<char>
    decreases pieces.len(),
{
    if pieces.len() == 0 {
        seq![]
    } else if pieces.len() == 1 {
        pieces[0]
    } else {
        pieces[0] + sep + join(pieces.skip(1), sep)
    }
}

/// The pieces one after the other, each followed by a line feed.
pub open spec fn as_lines(pieces: Seq<Seq<char>>) -> Seq<char>
    decreases pieces.len(),
{
    if pieces.len() == 0 {
        seq![]
    } else {
        as_lines(pieces.drop_last()) + pieces.last().push('\n')
    }
}

/// The characters with the Unicode property `White_Space`.
pub open spec fn is_white_space(c: char) -> bool {
    ||| '\u{9}' <= c <= '\u{d}'
    ||| c == '\u{20}'
    ||| c == '\u{85}'
    ||| c == '\u{a0}'
    ||| c == '\u{1680}'
    ||| '\u{2000}' <= c <= '\u{200a}'
    ||| c == '\u{2028}'
    ||| c == '\u{2029}'
    ||| c == '\u{202f}'
    ||| c == '\u{205f}'
    ||| c == '\u{3000}'
}

/// `s` without the white space that it starts with.
pub open spec fn trim_start(s: Seq<char>) -> Seq<char>
    decreases s.len(),
{
    if s.len() > 0 && is_white_space(s[0]) {
        trim_start(s.skip(1))
    } else {
        s
    }
}

/// `s` without the white space that it ends with.
pub open spec fn trim_end(s: Seq<char>) -> Seq<char>
    decreases s.len(),
{
    if s.len() > 0 && is_white_space(s.last()) {
        trim_end(s.drop_last())
    } else {
        s
    }
}

/// `s` without the white space around it.
pub open spec fn trim(s: Seq<char>) -> Seq<char> {
    trim_end(trim_start(s))
}

/// `s` without one carriage return at its end.
pub open spec fn strip_cr(s: Seq<char>) -> Seq<char> {
    if s.len() > 0 && s.last() == '\r' {
        s.drop_last()
    } else {
        s
    }
}

/// The lines of `s`: they end with a line feed or with a carriage return and a line feed. The end
/// of the last line may be missing.
pub open spec fn lines(s: Seq<char>) -> Seq<Seq<char>> {
    let pieces = split_on(s, '\n');
    let ended = Seq::new((pieces.len() - 1) as nat, |i: int| strip_cr(pieces[i]));
    if pieces.last().len() == 0 {
        ended
    } else {
        ended.push(pieces.last())
    }
}

/// What `find_from` finds is the first occurrence.
pub proof fn lemma_find_from(s: Seq<char>, pat: Seq<char>, i: int)
    requires
        0 <= i,
    ensures
        match find_from(s, pat, i) {
            Some(k) => i <= k && matches_at(s, pat, k) && forall|j: int|
                i <= j < k ==> !matches_at(s, pat, j),
            None => forall|j: int| i <= j ==> !matches_at(s, pat, j),
        },
    decreases s.len() + 1 - i,
{
    if i + pat.len() <= s.len() && !matches_at(s, pat, i) {
        lemma_find_from(s, pat, i + 1);
    }
}

/// A position that matches, with none before it that does, is what `find_from` finds.
pub proof fn lemma_find_from_is(s: Seq<char>, pat: Seq<char>, i: int, k: int)
    requires
        0 <= i <= k,
        matches_at(s, pat, k),
        forall|j: int| i <= j < k ==> !matches_at(s, pat, j),
    ensures
        find_from(s, pat, i) == Some(k),
    decreases k - i,
{
    if i < k {
        assert(!matches_at(s, pat, i));
        lemma_find_from_is(s, pat, i + 1, k);
    }
}

/// Searching a suffix is searching from where it starts.
pub proof fn lemma_find_skip(s: Seq<char>, pat: Seq<char>, a: int, i: int)
    requires
        0 <= a <= s.len(),
        0 <= i,
    ensures
        find_from(s.skip(a), pat, i) == (match find_from(s, pat, a + i) {
            Some(k) => Some(k - a),
            None => None::<int>,
        }),
    decreases s.len() + 1 - i,
{
    let t = s.skip(a);
    if i + pat.len() <= t.len() {
        assert(t.subrange(i, i + pat.len()) =~= s.subrange(a + i, a + i + pat.len()));
        if !matches_at(t, pat, i) {
            lemma_find_skip(s, pat, a, i + 1);
        }
    }
}

/// Splitting loses nothing: the pieces joined by the separator are the text.
pub proof fn split_then_join(s: Seq<char>, pat: Seq<char>)
    ensures
        join(split(s, pat), pat) == s,
    decreases s.len(),
{
    lemma_find_from(s, pat, 0);
    match find(s, pat) {
        Some(i) => {
            if pat.len() > 0 {
                let rest = s.skip(i + pat.len());
                split_then_join(rest, pat);
                let pieces = split(s, pat);
                assert(pieces.skip(1) =~= split(rest, pat));
                assert(split(rest, pat).len() > 0);
                assert(s =~= s.take(i) + s.subrange(i, i + pat.len()) + rest);
            }
        },
        None => {},
    }
}

/// No piece holds the character that the text was split on.
pub proof fn split_pieces_are_free(s: Seq<char>, c: char)
    ensures
        forall|i: int|
            0 <= i < split_on(s, c).len() ==> !(#[trigger] split_on(s, c)[i]).contains(c),
    decreases s.len(),
{
    let pat = seq![c];
    lemma_find_from(s, pat, 0);
    match find(s, pat) {
        Some(k) => {
            let rest = s.skip(k + 1);
            split_pieces_are_free(rest, c);
            let pieces = split_on(s, c);
            assert forall|i: int| 0 <= i < pieces.len() implies !(#[trigger] pieces[i]).contains(
                c,
            ) by {
                if i == 0 {
                    let head = s.take(k);
                    if head.contains(c) {
                        let j = choose|j: int| 0 <= j < head.len() && head[j] == c;
                        assert(s.subrange(j, j + 1) =~= pat);
                        assert(matches_at(s, pat, j));
                    }
                } else {
                    assert(pieces[i] == split_on(rest, c)[i - 1]);
                }
            }
        },
        None => {
            if s.contains(c) {
                let j = choose|j: int| 0 <= j < s.len() && s[j] == c;
                assert(s.subrange(j, j + 1) =~= pat);
                assert(matches_at(s, pat, j));
            }
        },
    }
}

/// A text without the character is its own only piece.
pub proof fn split_of_free(s: Seq<char>, c: char)
    requires
        !s.contains(c),
    ensures
        split_on(s, c) == seq![s],
{
    let pat = seq![c];
    lemma_find_from(s, pat, 0);
    match find(s, pat) {
        Some(k) => {
            assert(s.subrange(k, k + 1)[0] == pat[0]);
            assert(s[k] == c);
        },
        None => {},
    }
}

/// Where two texts are put together with the character between them, so are their pieces.
pub proof fn split_of_sum(a: Seq<char>, b: Seq<char>, c: char)
    ensures
        split_on(a.push(c) + b, c) == split_on(a, c) + split_on(b, c),
    decreases a.len(),
{
    let pat = seq![c];
    let s = a.push(c) + b;
    lemma_find_from(a, pat, 0);
    match find(a, pat) {
        Some(k) => {
            assert(s.subrange(k, k + 1) =~= a.subrange(k, k + 1));
            assert forall|j: int| 0 <= j < k implies !matches_at(s, pat, j) by {
                assert(s.subrange(j, j + 1) =~= a.subrange(j, j + 1));
                assert(!matches_at(a, pat, j));
            }
            lemma_find_from_is(s, pat, 0, k);
            let rest = a.skip(k + 1);
            split_of_sum(rest, b, c);
            assert(s.skip(k + 1) =~= rest.push(c) + b);
            assert(s.take(k) =~= a.take(k));
            assert(split_on(s, c) =~= split_on(a, c) + split_on(b, c));
        },
        None => {
            let n = a.len() as int;
            assert(s.subrange(n, n + 1) =~= pat);
            assert forall|j: int| 0 <= j < n implies !matches_at(s, pat, j) by {
                assert(s.subrange(j, j + 1) =~= a.subrange(j, j + 1));
                assert(!matches_at(a, pat, j));
            }
            lemma_find_from_is(s, pat, 0, n);
            assert(s.take(n) =~= a);
            assert(s.skip(n + 1) =~= b);
        },
    }
}

/// A line within a text is one of its lines.
pub proof fn a_line_is_found(before: Seq<char>, line: Seq<char>, after: Seq<char>)
    requires
        !line.contains('\n'),
    ensures
        lines(before.push('\n') + line + "\r\n"@ + after).contains(line),
{
    reveal_strlit("\r\n");
    let ended = line.push('\r');
    let s = before.push('\n') + line + "\r\n"@ + after;
    assert(s =~= before.push('\n') + (ended.push('\n') + after));
    split_of_sum(before, ended.push('\n') + after, '\n');
    split_of_sum(ended, after, '\n');
    if ended.contains('\n') {
        let i = choose|i: int| 0 <= i < ended.len() && ended[i] == '\n';
        assert(line[i] == '\n');
    }
    split_of_free(ended, '\n');
    let pieces = split_on(s, '\n');
    let k = split_on(before, '\n').len() as int;
    assert(pieces[k] == ended);
    assert(split_on(after, '\n').len() > 0);
    assert(strip_cr(ended) =~= line);
    assert(lines(s)[k] == line);
}

/// The lines of a text are those up to the end of any of its lines and those behind it.
pub proof fn lines_of_sum(a: Seq<char>, b: Seq<char>)
    ensures
        lines(a.push('\n') + b) == lines(a.push('\n')) + lines(b),
{
    let s = a.push('\n') + b;
    let e = Seq::<char>::empty();
    assert(a.push('\n') + e =~= a.push('\n'));
    split_of_sum(a, b, '\n');
    split_of_sum(a, e, '\n');
    split_of_free(e, '\n');
    let left = split_on(a, '\n');
    let right = split_on(b, '\n');
    let pieces = split_on(s, '\n');
    assert(left.len() > 0 && right.len() > 0);
    assert(pieces.last() == right.last());
    assert(split_on(a.push('\n'), '\n') =~= left.push(e));
    let head = lines(a.push('\n'));
    assert(head =~= Seq::new(left.len(), |i: int| strip_cr(left[i])));
    assert(lines(s) =~= head + lines(b));
}

/// One line alone: a line feed ends it, and so does a carriage return with a line feed. Where
/// nothing ends it, it is a line if it is not empty.
pub proof fn one_line_is_read(line: Seq<char>)
    requires
        !line.contains('\n'),
    ensures
        line.len() > 0 ==> lines(line) == seq![line],
        line.len() == 0 ==> lines(line) == Seq::<Seq<char>>::empty(),
        lines(line + "\r\n"@) == seq![line],
        line.len() == 0 || line.last() != '\r' ==> lines(line.push('\n')) == seq![line],
{
    reveal_strlit("\r\n");
    let e = Seq::<char>::empty();
    split_of_free(line, '\n');
    split_of_free(e, '\n');
    if line.len() == 0 {
        assert(lines(line) =~= Seq::<Seq<char>>::empty());
    } else {
        assert(lines(line) =~= seq![line]);
    }
    split_of_sum(line, e, '\n');
    assert(line.push('\n') + e =~= line.push('\n'));
    assert(split_on(line.push('\n'), '\n') =~= seq![line, e]);
    assert(lines(line.push('\n')) =~= seq![strip_cr(line)]);
    let ended = line.push('\r');
    if ended.contains('\n') {
        let i = choose|i: int| 0 <= i < ended.len() && ended[i] == '\n';
        assert(line[i] == '\n');
    }
    split_of_free(ended, '\n');
    split_of_sum(ended, e, '\n');
    assert(line + "\r\n"@ =~= ended.push('\n') + e);
    assert(split_on(line + "\r\n"@, '\n') =~= seq![ended, e]);
    assert(strip_cr(ended) =~= line);
    assert(lines(line + "\r\n"@) =~= seq![line]);
}

/// Texts that are written a line each are read back line by line, if none of them holds the end of
/// a line.
pub proof fn written_lines_are_read_back(pieces: Seq<Seq<char>>)
    requires
        forall|i: int|
            0 <= i < pieces.len() ==> !(#[trigger] pieces[i]).contains('\n') && !pieces[i].contains(
                '\r',
            ),
    ensures
        lines(as_lines(pieces)) == pieces,
        pieces.len() > 0 ==> as_lines(pieces).len() > 0 && as_lines(pieces).last() == '\n',
    decreases pieces.len(),
{
    if pieces.len() == 0 {
        one_line_is_read(Seq::empty());
    } else {
        let rest = pieces.drop_last();
        let last = pieces.last();
        assert(pieces[pieces.len() - 1] == last);
        assert forall|i: int| 0 <= i < rest.len() implies !(#[trigger] rest[i]).contains('\n')
            && !rest[i].contains('\r') by {
            assert(rest[i] == pieces[i]);
        }
        written_lines_are_read_back(rest);
        if last.len() > 0 && last.last() == '\r' {
            assert(last[last.len() - 1] == '\r');
        }
        one_line_is_read(last);
        if rest.len() == 0 {
            assert(as_lines(pieces) =~= last.push('\n'));
            assert(pieces =~= seq![last]);
        } else {
            let x = as_lines(rest).drop_last();
            assert(as_lines(rest) =~= x.push('\n'));
            lines_of_sum(x, last.push('\n'));
            assert(pieces =~= rest + seq![last]);
        }
    }
}

/// Trimming takes off white space only, and leaves none at either end.
pub proof fn trim_is_exact(s: Seq<char>)
    ensures
        exists|a: int, b: int|
            #![trigger s.subrange(a, b)]
            0 <= a <= b <= s.len() && trim(s) == s.subrange(a, b) && (forall|i: int|
                0 <= i < a || b <= i < s.len() ==> is_white_space(#[trigger] s[i])),
        trim(s).len() > 0 ==> !is_white_space(trim(s)[0]) && !is_white_space(trim(s).last()),
{
    let a = lemma_trim_start(s);
    let t = trim_start(s);
    let b = lemma_trim_end(t);
    assert(trim(s) =~= s.subrange(a, a + b));
    assert forall|i: int| 0 <= i < a || a + b <= i < s.len() implies is_white_space(
        #[trigger] s[i],
    ) by {
        if i >= a + b {
            assert(s[i] == t[i - a]);
        }
    }
}

/// Where the text without its leading white space starts.
pub proof fn lemma_trim_start(s: Seq<char>) -> (a: int)
    ensures
        0 <= a <= s.len(),
        trim_start(s) == s.skip(a),
        forall|i: int| 0 <= i < a ==> is_white_space(#[trigger] s[i]),
        a < s.len() ==> !is_white_space(s[a]),
    decreases s.len(),
{
    if s.len() > 0 && is_white_space(s[0]) {
        let a = lemma_trim_start(s.skip(1));
        assert(s.skip(1).skip(a) =~= s.skip(a + 1));
        assert forall|i: int| 0 <= i < a + 1 implies is_white_space(#[trigger] s[i]) by {
            if i > 0 {
                assert(s[i] == s.skip(1)[i - 1]);
            }
        }
        if a + 1 < s.len() {
            assert(s[a + 1] == s.skip(1)[a]);
        }
        a + 1
    } else {
        assert(s.skip(0) =~= s);
        0
    }
}

/// Where the text without its trailing white space ends.
pub proof fn lemma_trim_end(s: Seq<char>) -> (b: int)
    ensures
        0 <= b <= s.len(),
        trim_end(s) == s.take(b),
        forall|i: int| b <= i < s.len() ==> is_white_space(#[trigger] s[i]),
        b > 0 ==> !is_white_space(s[b - 1]),
    decreases s.len(),
{
    if s.len() > 0 && is_white_space(s.last()) {
        let t = s.drop_last();
        let b = lemma_trim_end(t);
        assert(t.take(b) =~= s.take(b));
        assert forall|i: int| b <= i < s.len() implies is_white_space(#[trigger] s[i]) by {
            if i < s.len() - 1 {
                assert(s[i] == t[i]);
            }
        }
        b
    } else {
        assert(s.take(s.len() as int) =~= s);
        s.len() as int
    }
}

/// `lemma_trim_start` read the other way: these facts fix where the trimmed text starts.
proof fn lemma_trim_start_at(s: Seq<char>, a: int)
    requires
        0 <= a <= s.len(),
        forall|i: int| 0 <= i < a ==> is_white_space(#[trigger] s[i]),
        a < s.len() ==> !is_white_space(s[a]),
    ensures
        trim_start(s) == s.skip(a),
{
    let b = lemma_trim_start(s);
    if a < b {
        assert(is_white_space(s[a]));
    }
    if b < a {
        assert(is_white_space(s[b]));
    }
}

/// `lemma_trim_end` read the other way.
proof fn lemma_trim_end_at(s: Seq<char>, b: int)
    requires
        0 <= b <= s.len(),
        forall|i: int| b <= i < s.len() ==> is_white_space(#[trigger] s[i]),
        b > 0 ==> !is_white_space(s[b - 1]),
    ensures
        trim_end(s) == s.take(b),
{
    let a = lemma_trim_end(s);
    if a < b {
        assert(is_white_space(s[b - 1]));
    }
    if b < a {
        assert(is_white_space(s[a - 1]));
    }
}

/// White space around a text is taken off, whatever it is and however much of it there is.
pub proof fn trim_of_padded(before: Seq<char>, s: Seq<char>, after: Seq<char>)
    requires
        forall|i: int| 0 <= i < before.len() ==> is_white_space(#[trigger] before[i]),
        forall|i: int| 0 <= i < after.len() ==> is_white_space(#[trigger] after[i]),
    ensures
        trim(before + s + after) == trim(s),
{
    let all = before + s + after;
    let a = lemma_trim_start(s);
    let m = before.len() as int;
    let n = s.len() as int;
    if a < n {
        assert forall|i: int| 0 <= i < m + a implies is_white_space(#[trigger] all[i]) by {
            if i < m {
                assert(all[i] == before[i]);
            } else {
                assert(all[i] == s[i - m]);
            }
        }
        assert(all[m + a] == s[a]);
        lemma_trim_start_at(all, m + a);
        let t = s.skip(a);
        let u = all.skip(m + a);
        let b = lemma_trim_end(t);
        if b == 0 {
            assert(is_white_space(t[0]));
        }
        assert forall|i: int| b <= i < u.len() implies is_white_space(#[trigger] u[i]) by {
            if i < t.len() {
                assert(u[i] == t[i]);
            } else {
                assert(u[i] == after[i - t.len()]);
            }
        }
        assert(u[b - 1] == t[b - 1]);
        lemma_trim_end_at(u, b);
        assert(u.take(b) =~= t.take(b));
    } else {
        assert forall|i: int| 0 <= i < all.len() implies is_white_space(#[trigger] all[i]) by {
            if i < m {
                assert(all[i] == before[i]);
            } else if i < m + n {
                assert(all[i] == s[i - m]);
            } else {
                assert(all[i] == after[i - m - n]);
            }
        }
        lemma_trim_start_at(all, all.len() as int);
        assert(all.skip(all.len() as int) =~= seq![]);
        assert(s.skip(n) =~= seq![]);
    }
}

/// The characters of a text.
pub fn chars_of(s: &str) -> (cs: Vec<char>)
    ensures
        cs@ == s@,
{
    let mut cs: Vec<char> = Vec::new();
    for c in it: s.chars()
        invariant
            cs@ == s@.take(it.index()),
            it.seq() == s@,
    {
        cs.push(c);
        assert(s@.take(it.index() + 1) =~= s@.take(it.index()).push(c));
    }
    assert(s@.take(s@.len() as int) =~= s@);
    cs
}

/// The text of the characters from `a` up to `b`.
pub fn text_of(cs: &Vec<char>, a: usize, b: usize) -> (s: String)
    requires
        a <= b <= cs@.len(),
    ensures
        s@ == cs@.subrange(a as int, b as int),
{
    let mut s = String::new();
    let mut i: usize = a;
    while i < b
        invariant
            a <= i <= b <= cs@.len(),
            s@ == cs@.subrange(a as int, i as int),
        decreases b - i,
    {
        s.push(cs[i]);
        i += 1;
        assert(s@ =~= cs@.subrange(a as int, i as int));
    }
    s
}

/// Whether two texts are the same.
pub fn same(a: &str, b: &str) -> (r: bool)
    ensures
        r == (a@ == b@),
{
    let x = a.as_bytes();
    let y = b.as_bytes();
    if x.len() != y.len() {
        return false;
    }
    let mut i: usize = 0;
    while i < x.len()
        invariant
            i <= x@.len() == y@.len(),
            x@ == a.spec_bytes(),
            y@ == b.spec_bytes(),
            forall|j: int| 0 <= j < i ==> x@[j] == y@[j],
        decreases x@.len() - i,
    {
        if x[i] != y[i] {
            return false;
        }
        i += 1;
    }
    proof {
        assert(x@ =~= y@);
        vstd::utf8::encode_utf8_decode_utf8(a@);
        vstd::utf8::encode_utf8_decode_utf8(b@);
    }
    true
}

/// Whether `pat` stands in `s` at position `i`.
fn stands_at(s: &Vec<char>, pat: &Vec<char>, i: usize) -> (r: bool)
    ensures
        r == matches_at(s@, pat@, i as int),
{
    if pat.len() > s.len() || i > s.len() - pat.len() {
        return false;
    }
    let mut j: usize = 0;
    while j < pat.len()
        invariant
            j <= pat@.len(),
            i + pat@.len() <= s.len(),
            forall|k: int| 0 <= k < j ==> s@[i + k] == pat@[k],
        decreases pat@.len() - j,
    {
        if s[i + j] != pat[j] {
            assert(s@.subrange(i as int, i + pat@.len())[j as int] != pat@[j as int]);
            return false;
        }
        j += 1;
    }
    assert(s@.subrange(i as int, i + pat@.len()) =~= pat@);
    true
}

/// The first position not before `from` at which `pat` stands in `s`.
pub fn search(s: &Vec<char>, pat: &Vec<char>, from: usize) -> (r: Option<usize>)
    ensures
        match r {
            Some(i) => find_from(s@, pat@, from as int) == Some(i as int) && from <= i && i
                + pat@.len() <= s.len(),
            None => find_from(s@, pat@, from as int) is None,
        },
{
    if pat.len() > s.len() {
        return None;
    }
    let last: usize = s.len() - pat.len();
    let mut i: usize = from;
    while i <= last
        invariant
            last == s@.len() - pat@.len(),
            from <= i,
            find_from(s@, pat@, i as int) == find_from(s@, pat@, from as int),
            i <= last + 1 || i == from,
        decreases last + 1 - i,
    {
        if stands_at(s, pat, i) {
            return Some(i);
        }
        if i == last {
            assert(find_from(s@, pat@, i + 1) is None);
            return None;
        }
        i += 1;
    }
    None
}

/// The pieces of a text between the occurrences of a pattern.
pub fn pieces_of(s: &Vec<char>, pat: &Vec<char>) -> (r: Vec<String>)
    requires
        pat@.len() > 0,
    ensures
        texts(r@) == split(s@, pat@),
        r@.len() > 0,
{
    let mut r: Vec<String> = Vec::new();
    let mut start: usize = 0;
    assert(s@.skip(0) =~= s@);
    assert(texts(r@) + split(s@, pat@) =~= split(s@, pat@));
    let mut next: Option<usize> = search(s, pat, start);
    while next.is_some()
        invariant
            pat@.len() > 0,
            start <= s@.len(),
            texts(r@) + split(s@.skip(start as int), pat@) == split(s@, pat@),
            match next {
                Some(i) => find_from(s@, pat@, start as int) == Some(i as int) && start <= i && i
                    + pat@.len() <= s@.len(),
                None => find_from(s@, pat@, start as int) is None,
            },
        decreases s@.len() - start,
    {
        let i: usize = next.unwrap();
        let ghost before = texts(r@);
        let ghost t = s@.skip(start as int);
        r.push(text_of(s, start, i));
        proof {
            lemma_find_skip(s@, pat@, start as int, 0);
            assert(t.take(i - start) =~= s@.subrange(start as int, i as int));
            assert(t.skip(i - start + pat@.len()) =~= s@.skip(i + pat@.len()));
            assert(texts(r@) =~= before.push(s@.subrange(start as int, i as int)));
            assert(split(t, pat@) == seq![t.take(i - start)] + split(
                s@.skip(i + pat@.len()),
                pat@,
            ));
            assert(before + split(t, pat@) =~= texts(r@) + split(s@.skip(i + pat@.len()), pat@));
        }
        assert(i + pat@.len() <= s.len());
        start = i + pat.len();
        next = search(s, pat, start);
    }
    proof {
        lemma_find_skip(s@, pat@, start as int, 0);
    }
    let ghost before = texts(r@);
    r.push(text_of(s, start, s.len()));
    proof {
        let t = s@.skip(start as int);
        assert(s@.subrange(start as int, s@.len() as int) =~= t);
        assert(texts(r@) =~= before.push(t));
        assert(texts(r@) =~= before + split(t, pat@));
    }
    r
}

/// The pieces of a text between the occurrences of a pattern.
pub fn split_by(s: &str, pat: &str) -> (r: Vec<String>)
    requires
        pat@.len() > 0,
    ensures
        texts(r@) == split(s@, pat@),
        r@.len() > 0,
{
    pieces_of(&chars_of(s), &chars_of(pat))
}

/// The pieces of a text between the occurrences of a character.
pub fn split_at_char(s: &str, c: char) -> (r: Vec<String>)
    ensures
        texts(r@) == split_on(s@, c),
        r@.len() > 0,
{
    let mut pat: Vec<char> = Vec::new();
    pat.push(c);
    assert(pat@ =~= seq![c]);
    pieces_of(&chars_of(s), &pat)
}

/// Whether a character has the Unicode property `White_Space`.
pub fn white_space(c: char) -> (r: bool)
    ensures
        r == is_white_space(c),
{
    ('\u{9}' <= c && c <= '\u{d}') || c == '\u{20}' || c == '\u{85}' || c == '\u{a0}' || c
        == '\u{1680}' || ('\u{2000}' <= c && c <= '\u{200a}') || c == '\u{2028}' || c == '\u{2029}'
        || c == '\u{202f}' || c == '\u{205f}' || c == '\u{3000}'
}

/// A text without the white space around it.
pub fn trimmed(s: &str) -> (r: String)
    ensures
        r@ == trim(s@),
{
    let cs = chars_of(s);
    let mut a: usize = 0;
    while a < cs.len() && white_space(cs[a])
        invariant
            a <= cs@.len(),
            forall|i: int| 0 <= i < a ==> is_white_space(#[trigger] cs@[i]),
        ensures
            a <= cs@.len(),
            forall|i: int| 0 <= i < a ==> is_white_space(#[trigger] cs@[i]),
            a < cs@.len() ==> !is_white_space(cs@[a as int]),
        decreases cs@.len() - a,
    {
        a += 1;
    }
    let mut b: usize = cs.len();
    while b > a && white_space(cs[b - 1])
        invariant
            a <= b <= cs@.len(),
            forall|i: int| b <= i < cs@.len() ==> is_white_space(#[trigger] cs@[i]),
        ensures
            a <= b <= cs@.len(),
            forall|i: int| b <= i < cs@.len() ==> is_white_space(#[trigger] cs@[i]),
            b > a ==> !is_white_space(cs@[b - 1]),
        decreases b,
    {
        b -= 1;
    }
    proof {
        lemma_trim_start_at(cs@, a as int);
        let t = cs@.skip(a as int);
        lemma_trim_end_at(t, b - a);
        assert(t.take(b - a) =~= cs@.subrange(a as int, b as int));
    }
    text_of(&cs, a, b)
}

/// The lines of a text.
pub fn lines_of(s: &str) -> (r: Vec<String>)
    ensures
        texts(r@) == lines(s@),
{
    let pieces = split_at_char(s, '\n');
    let ghost parts = split_on(s@, '\n');
    let last: usize = pieces.len() - 1;
    let mut r: Vec<String> = Vec::new();
    let mut i: usize = 0;
    while i < last
        invariant
            i <= last == pieces@.len() - 1,
            texts(pieces@) == parts,
            r@.len() == i,
            forall|j: int| 0 <= j < i ==> #[trigger] r@[j]@ == strip_cr(parts[j]),
        decreases last - i,
    {
        let cs = chars_of(pieces[i].as_str());
        assert(cs@ == parts[i as int]);
        if cs.len() > 0 && cs[cs.len() - 1] == '\r' {
            r.push(text_of(&cs, 0, cs.len() - 1));
        } else {
            r.push(text_of(&cs, 0, cs.len()));
        }
        assert(r@[i as int]@ =~= strip_cr(parts[i as int]));
        i += 1;
    }
    let ghost ended = Seq::new((parts.len() - 1) as nat, |i: int| strip_cr(parts[i]));
    assert(texts(r@) =~= ended);
    assert(parts.last() == pieces@[last as int]@);
    if !pieces[last].as_str().is_empty() {
        r.push(pieces[last].clone());
        assert(texts(r@) =~= ended.push(parts.last()));
    }
    r
}

} // verus!
