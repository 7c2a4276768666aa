//! Character classes, scanning primitives, trimming, whitespace splitting,
//! and the line split/join used by the expansion engine.
//!
//! Every executable function here is proved against a small recursive
//! specification; the specifications are the vocabulary the rest of the
//! crate's contracts are written in.

use vstd::prelude::*;

verus! {

/// A character counts as whitespace for trimming and argument splitting.
pub open spec fn is_space(c: char) -> bool {
    c == ' ' || c == '\t' || c == '\n' || c == '\r' || c == '\x0c'
}

/// A character that may appear in a directive's command token.
pub open spec fn is_word(c: char) -> bool {
    ('a' <= c && c <= 'z') || ('A' <= c && c <= 'Z') || ('0' <= c && c <= '9') || c == '_'
}

/// Least index `j >= i` such that `j == s.len()` or `s[j]` is not whitespace.
pub open spec fn skip_spaces(s: Seq<char>, i: int) -> int
    decreases s.len() - i,
{
    if 0 <= i < s.len() && is_space(s[i]) {
        skip_spaces(s, i + 1)
    } else {
        i
    }
}

/// Least index `j >= i` such that `j == s.len()` or `s[j]` is whitespace.
pub open spec fn skip_non_spaces(s: Seq<char>, i: int) -> int
    decreases s.len() - i,
{
    if 0 <= i < s.len() && !is_space(s[i]) {
        skip_non_spaces(s, i + 1)
    } else {
        i
    }
}

/// Least index `j >= i` such that `j == s.len()` or `s[j]` is not a word character.
pub open spec fn skip_word(s: Seq<char>, i: int) -> int
    decreases s.len() - i,
{
    if 0 <= i < s.len() && is_word(s[i]) {
        skip_word(s, i + 1)
    } else {
        i
    }
}

pub proof fn lemma_skip_spaces(s: Seq<char>, i: int)
    requires
        0 <= i <= s.len(),
    ensures
        i <= skip_spaces(s, i) <= s.len(),
        forall|k: int| i <= k < skip_spaces(s, i) ==> is_space(s[k]),
        skip_spaces(s, i) < s.len() ==> !is_space(s[skip_spaces(s, i)]),
    decreases s.len() - i,
{
    if i < s.len() && is_space(s[i]) {
        lemma_skip_spaces(s, i + 1);
    }
}

pub proof fn lemma_skip_non_spaces(s: Seq<char>, i: int)
    requires
        0 <= i <= s.len(),
    ensures
        i <= skip_non_spaces(s, i) <= s.len(),
        forall|k: int| i <= k < skip_non_spaces(s, i) ==> !is_space(s[k]),
        skip_non_spaces(s, i) < s.len() ==> is_space(s[skip_non_spaces(s, i)]),
    decreases s.len() - i,
{
    if i < s.len() && !is_space(s[i]) {
        lemma_skip_non_spaces(s, i + 1);
    }
}

pub proof fn lemma_skip_word(s: Seq<char>, i: int)
    requires
        0 <= i <= s.len(),
    ensures
        i <= skip_word(s, i) <= s.len(),
        forall|k: int| i <= k < skip_word(s, i) ==> is_word(s[k]),
        skip_word(s, i) < s.len() ==> !is_word(s[skip_word(s, i)]),
    decreases s.len() - i,
{
    if i < s.len() && is_word(s[i]) {
        lemma_skip_word(s, i + 1);
    }
}

/// Greatest index `j <= i` such that `j == 0` or `s[j - 1]` is not whitespace.
pub open spec fn rskip_spaces(s: Seq<char>, i: int) -> int
    decreases i,
{
    if 0 < i <= s.len() && is_space(s[i - 1]) {
        rskip_spaces(s, i - 1)
    } else {
        i
    }
}

pub proof fn lemma_rskip_spaces(s: Seq<char>, i: int)
    requires
        0 <= i <= s.len(),
    ensures
        0 <= rskip_spaces(s, i) <= i,
        forall|k: int| rskip_spaces(s, i) <= k < i ==> is_space(s[k]),
        rskip_spaces(s, i) > 0 ==> !is_space(s[rskip_spaces(s, i) - 1]),
    decreases i,
{
    if 0 < i && is_space(s[i - 1]) {
        lemma_rskip_spaces(s, i - 1);
    }
}

/// The string with leading and trailing whitespace removed.
pub open spec fn trim_spec(s: Seq<char>) -> Seq<char> {
    let a = skip_spaces(s, 0);
    if a == s.len() {
        Seq::empty()
    } else {
        s.subrange(a, rskip_spaces(s, s.len() as int))
    }
}

/// Whitespace-separated tokens of `s`, starting the scan at `i`.
pub open spec fn split_ws_from(s: Seq<char>, i: int) -> Seq<Seq<char>>
    decreases s.len() - i,
    when 0 <= i <= s.len()
    via split_ws_from_decreases
{
    let a = skip_spaces(s, i);
    if a >= s.len() {
        Seq::empty()
    } else {
        let b = skip_non_spaces(s, a);
        seq![s.subrange(a, b)] + split_ws_from(s, b)
    }
}

#[via_fn]
proof fn split_ws_from_decreases(s: Seq<char>, i: int) {
    lemma_skip_spaces(s, i);
    let a = skip_spaces(s, i);
    if a < s.len() {
        lemma_skip_non_spaces(s, a);
        assert(skip_non_spaces(s, a) > a);
    }
}

/// The whitespace-separated tokens of `s`.
pub open spec fn split_ws(s: Seq<char>) -> Seq<Seq<char>> {
    split_ws_from(s, 0)
}

/// Least index `j >= i` with `s[j] == c`, or `-1` when `c` does not occur at or after `i`.
pub open spec fn find_char(s: Seq<char>, i: int, c: char) -> int
    decreases s.len() - i,
{
    if !(0 <= i < s.len()) {
        -1
    } else if s[i] == c {
        i
    } else {
        find_char(s, i + 1, c)
    }
}

pub proof fn lemma_find_char(s: Seq<char>, i: int, c: char)
    requires
        0 <= i <= s.len(),
    ensures
        find_char(s, i, c) == -1 ==> forall|k: int| i <= k < s.len() ==> s[k] != c,
        find_char(s, i, c) != -1 ==> {
            &&& i <= find_char(s, i, c) < s.len()
            &&& s[find_char(s, i, c)] == c
            &&& forall|k: int| i <= k < find_char(s, i, c) ==> s[k] != c
        },
    decreases s.len() - i,
{
    if i < s.len() && s[i] != c {
        lemma_find_char(s, i + 1, c);
    }
}

/// The pieces of `s` between newline characters; a single trailing newline
/// terminates the last piece rather than opening an empty one.
pub open spec fn split_lines(s: Seq<char>) -> Seq<Seq<char>>
    decreases s.len(),
    via split_lines_decreases
{
    if s.len() == 0 {
        Seq::empty()
    } else {
        let j = find_char(s, 0, '\n');
        if j == -1 {
            seq![s]
        } else {
            seq![s.subrange(0, j)] + split_lines(s.subrange(j + 1, s.len() as int))
        }
    }
}

#[via_fn]
proof fn split_lines_decreases(s: Seq<char>) {
    if s.len() > 0 {
        lemma_find_char(s, 0, '\n');
    }
}

/// The pieces rejoined with a single newline between adjacent pieces.
pub open spec fn join_lines(v: Seq<Seq<char>>) -> Seq<char>
    decreases v.len(),
{
    if v.len() == 0 {
        Seq::empty()
    } else if v.len() == 1 {
        v[0]
    } else {
        v[0] + seq!['\n'] + join_lines(v.drop_first())
    }
}

/// No piece produced by `split_lines` contains a newline.
pub proof fn lemma_split_lines_no_nl(s: Seq<char>)
    ensures
        forall|i: int, k: int|
            0 <= i < split_lines(s).len() && 0 <= k < split_lines(s)[i].len()
                ==> split_lines(s)[i][k] != '\n',
    decreases s.len(),
{
    if s.len() > 0 {
        lemma_find_char(s, 0, '\n');
        let j = find_char(s, 0, '\n');
        if j == -1 {
            assert(split_lines(s) == seq![s]);
            assert(forall|k: int| 0 <= k < s.len() ==> s[k] != '\n');
            assert(forall|i: int, k: int|
                0 <= i < split_lines(s).len() && 0 <= k < split_lines(s)[i].len()
                    ==> split_lines(s)[i][k] != '\n') by {
                assert(split_lines(s)[0] == s);
            }
        } else {
            let rest = s.subrange(j + 1, s.len() as int);
            lemma_split_lines_no_nl(rest);
            let v = split_lines(s);
            assert(v == seq![s.subrange(0, j)] + split_lines(rest));
            assert(forall|k: int| 0 <= k < j ==> s.subrange(0, j)[k] == s[k]);
            assert(forall|i: int, k: int|
                0 <= i < v.len() && 0 <= k < v[i].len() ==> v[i][k] != '\n') by {
                assert(forall|i: int| 1 <= i < v.len() ==> v[i] == split_lines(rest)[i - 1]);
                assert(v[0] == s.subrange(0, j));
            }
        }
    }
}

/// Joining the split pieces restores the content, but for one trailing newline.
pub proof fn lemma_join_split(s: Seq<char>)
    ensures
        join_lines(split_lines(s)) == if s.len() > 0 && s[s.len() - 1] == '\n' {
            s.subrange(0, s.len() - 1)
        } else {
            s
        },
    decreases s.len(),
{
    if s.len() > 0 {
        lemma_find_char(s, 0, '\n');
        let j = find_char(s, 0, '\n');
        if j == -1 {
            assert(s[s.len() - 1] != '\n');
        } else {
            let rest = s.subrange(j + 1, s.len() as int);
            lemma_join_split(rest);
            let v = split_lines(s);
            if rest.len() == 0 {
                assert(split_lines(rest) == Seq::<Seq<char>>::empty());
                assert(v == seq![s.subrange(0, j)]);
                assert(join_lines(v) == s.subrange(0, j));
                assert(s[s.len() - 1] == '\n');
                assert(join_lines(v) =~= s.subrange(0, s.len() - 1));
            } else {
                assert(split_lines(rest).len() > 0);
                assert(v.len() >= 2);
                assert(v[0] == s.subrange(0, j));
                assert(v.drop_first() =~= split_lines(rest));
                if rest[rest.len() - 1] == '\n' {
                    assert(s[s.len() - 1] == '\n');
                    assert(join_lines(split_lines(rest)) == rest.subrange(0, rest.len() - 1));
                    assert(join_lines(v) =~= s.subrange(0, s.len() - 1));
                } else {
                    assert(s[s.len() - 1] != '\n');
                    assert(join_lines(split_lines(rest)) == rest);
                    assert(join_lines(v) =~= s);
                }
            }
        }
    }
}

/// Appending one piece extends the joined text by a newline and the piece.
pub proof fn lemma_join_push(v: Seq<Seq<char>>, x: Seq<char>)
    ensures
        join_lines(v.push(x)) == if v.len() == 0 {
            x
        } else {
            join_lines(v) + seq!['\n'] + x
        },
    decreases v.len(),
{
    if v.len() == 0 {
        assert(v.push(x)[0] == x);
        assert(join_lines(v.push(x)) == x);
    } else if v.len() == 1 {
        assert(v.push(x).drop_first() =~= v.drop_first().push(x));
        assert(v.push(x)[0] == v[0]);
        assert(join_lines(v.drop_first().push(x)) == x);
        assert(join_lines(v) == v[0]);
    } else {
        lemma_join_push(v.drop_first(), x);
        assert(v.push(x).drop_first() =~= v.drop_first().push(x));
        assert(v.push(x)[0] == v[0]);
        assert(join_lines(v) == v[0] + seq!['\n'] + join_lines(v.drop_first()));
        assert(v[0] + seq!['\n'] + (join_lines(v.drop_first()) + seq!['\n'] + x) =~= (v[0]
            + seq!['\n'] + join_lines(v.drop_first())) + seq!['\n'] + x);
    }
}

/// Splitting a joined sequence of newline-free pieces gives the pieces back,
/// provided the last piece is not empty.
pub proof fn lemma_split_join(v: Seq<Seq<char>>)
    requires
        forall|i: int, k: int|
            0 <= i < v.len() && 0 <= k < v[i].len() ==> v[i][k] != '\n',
        v.len() > 0 ==> v[v.len() - 1].len() > 0,
    ensures
        split_lines(join_lines(v)) == v,
    decreases v.len(),
{
    if v.len() == 0 {
        assert(split_lines(join_lines(v)) =~= v);
    } else if v.len() == 1 {
        let s = v[0];
        assert(s.len() > 0);
        lemma_find_char(s, 0, '\n');
        assert(find_char(s, 0, '\n') == -1) by {
            if find_char(s, 0, '\n') != -1 {
                assert(s[find_char(s, 0, '\n')] == '\n');
            }
        }
        assert(split_lines(join_lines(v)) =~= v);
    } else {
        let s = join_lines(v);
        let p = v[0];
        let rest = join_lines(v.drop_first());
        assert(s == p + seq!['\n'] + rest);
        assert(s.len() == p.len() + 1 + rest.len());
        assert(s[p.len() as int] == '\n');
        lemma_find_char(s, 0, '\n');
        let j = find_char(s, 0, '\n');
        assert(forall|k: int| 0 <= k < p.len() ==> s[k] == p[k]);
        assert(j != -1) by {
            if j == -1 {
                assert(s[p.len() as int] != '\n');
            }
        }
        assert(j == p.len()) by {
            if j < p.len() {
                assert(s[j] == p[j]);
                assert(p[j] != '\n');
            }
            if j > p.len() {
                assert(s[p.len() as int] == '\n');
            }
        }
        assert(s.subrange(0, j) =~= p);
        assert(s.subrange(j + 1, s.len() as int) =~= rest);
        lemma_split_join(v.drop_first());
        assert(split_lines(s) =~= seq![p] + v.drop_first());
        assert(seq![p] + v.drop_first() =~= v);
    }
}

/// Whether `c` is whitespace, decided exactly as `is_space` states.
pub fn is_space_char(c: char) -> (r: bool)
    ensures
        r == is_space(c),
{
    c == ' ' || c == '\t' || c == '\n' || c == '\r' || c == '\x0c'
}

/// Whether `c` may appear in a command token, as `is_word` states.
pub fn is_word_char(c: char) -> (r: bool)
    ensures
        r == is_word(c),
{
    ('a' <= c && c <= 'z') || ('A' <= c && c <= 'Z') || ('0' <= c && c <= '9') || c == '_'
}

/// Exact string equality on character sequences.
pub fn str_eq(a: &str, b: &str) -> (r: bool)
    ensures
        r == (a@ == b@),
{
    let n = a.unicode_len();
    let m = b.unicode_len();
    if n != m {
        return false;
    }
    let mut i: usize = 0;
    while i < n
        invariant
            n == a@.len(),
            n == b@.len(),
            0 <= i <= n,
            forall|k: int| 0 <= k < i ==> a@[k] == b@[k],
        decreases n - i,
    {
        if a.get_char(i) != b.get_char(i) {
            return false;
        }
        i += 1;
    }
    proof {
        assert(a@ =~= b@);
    }
    true
}

/// First non-whitespace position at or after `i`.
pub fn skip_spaces_exec(s: &str, i: usize) -> (r: usize)
    requires
        i <= s@.len(),
    ensures
        r == skip_spaces(s@, i as int),
        i <= r <= s@.len(),
{
    let n = s.unicode_len();
    let mut j = i;
    while j < n && is_space_char(s.get_char(j))
        invariant
            i <= j <= n,
            n == s@.len(),
            skip_spaces(s@, i as int) == skip_spaces(s@, j as int),
        decreases n - j,
    {
        assert(skip_spaces(s@, j as int) == skip_spaces(s@, j + 1));
        j += 1;
    }
    assert(skip_spaces(s@, j as int) == j);
    j
}

/// First whitespace position at or after `i`.
pub fn skip_non_spaces_exec(s: &str, i: usize) -> (r: usize)
    requires
        i <= s@.len(),
    ensures
        r == skip_non_spaces(s@, i as int),
        i <= r <= s@.len(),
{
    let n = s.unicode_len();
    let mut j = i;
    while j < n && !is_space_char(s.get_char(j))
        invariant
            i <= j <= n,
            n == s@.len(),
            skip_non_spaces(s@, i as int) == skip_non_spaces(s@, j as int),
        decreases n - j,
    {
        assert(skip_non_spaces(s@, j as int) == skip_non_spaces(s@, j + 1));
        j += 1;
    }
    assert(skip_non_spaces(s@, j as int) == j);
    j
}

/// First non-word position at or after `i`.
pub fn skip_word_exec(s: &str, i: usize) -> (r: usize)
    requires
        i <= s@.len(),
    ensures
        r == skip_word(s@, i as int),
        i <= r <= s@.len(),
{
    let n = s.unicode_len();
    let mut j = i;
    while j < n && is_word_char(s.get_char(j))
        invariant
            i <= j <= n,
            n == s@.len(),
            skip_word(s@, i as int) == skip_word(s@, j as int),
        decreases n - j,
    {
        assert(skip_word(s@, j as int) == skip_word(s@, j + 1));
        j += 1;
    }
    assert(skip_word(s@, j as int) == j);
    j
}

/// The line with surrounding whitespace removed.
pub fn trim_str(s: &str) -> (r: String)
    ensures
        r@ == trim_spec(s@),
{
    let n = s.unicode_len();
    let a = skip_spaces_exec(s, 0);
    proof {
        lemma_skip_spaces(s@, 0);
    }
    if a == n {
        return String::new();
    }
    let mut b = n;
    while b > 0 && is_space_char(s.get_char(b - 1))
        invariant
            0 <= b <= n,
            n == s@.len(),
            rskip_spaces(s@, n as int) == rskip_spaces(s@, b as int),
        decreases b,
    {
        assert(rskip_spaces(s@, b as int) == rskip_spaces(s@, b - 1));
        b -= 1;
    }
    assert(rskip_spaces(s@, b as int) == b);
    proof {
        lemma_rskip_spaces(s@, n as int);
        if b <= a {
            assert(is_space(s@[a as int]));
        }
    }
    let piece = s.substring_char(a, b);
    piece.to_owned()
}

/// The whitespace-separated tokens of `s`, in order.
pub fn split_ws_str(s: &str) -> (r: Vec<String>)
    ensures
        r.deep_view() == split_ws(s@),
{
    let n = s.unicode_len();
    let mut r: Vec<String> = Vec::new();
    let mut i = skip_spaces_exec(s, 0);
    proof {
        lemma_skip_spaces(s@, 0);
        assert(skip_spaces(s@, i as int) == i);
        assert(split_ws(s@) == r.deep_view() + split_ws_from(s@, i as int)) by {
            assert(r.deep_view() =~= Seq::<Seq<char>>::empty());
            assert(r.deep_view() + split_ws_from(s@, 0) =~= split_ws_from(s@, 0));
        }
    }
    while i < n
        invariant
            0 <= i <= n,
            n == s@.len(),
            skip_spaces(s@, i as int) == i,
            split_ws(s@) == r.deep_view() + split_ws_from(s@, i as int),
        decreases n - i,
    {
        let j = skip_non_spaces_exec(s, i);
        proof {
            lemma_skip_non_spaces(s@, i as int);
            assert(j > i) by {
                assert(!is_space(s@[i as int]));
            }
        }
        let piece = s.substring_char(i, j);
        let owned = piece.to_owned();
        let ghost old_r = r.deep_view();
        r.push(owned);
        let i2 = skip_spaces_exec(s, j);
        proof {
            lemma_skip_spaces(s@, j as int);
            assert(r.deep_view() =~= old_r.push(piece@));
            assert(split_ws_from(s@, i as int) == seq![s@.subrange(i as int, j as int)]
                + split_ws_from(s@, j as int));
            assert(skip_spaces(s@, i2 as int) == i2);
            assert(split_ws_from(s@, j as int) == split_ws_from(s@, i2 as int));
            assert(r.deep_view() + split_ws_from(s@, i2 as int) =~= old_r + split_ws_from(
                s@,
                i as int,
            ));
        }
        i = i2;
    }
    proof {
        assert(split_ws_from(s@, i as int) =~= Seq::<Seq<char>>::empty());
        assert(r.deep_view() + split_ws_from(s@, i as int) =~= r.deep_view());
    }
    r
}

/// Least position of `c` at or after `i`, if any.
pub fn find_char_exec(s: &str, i: usize, c: char) -> (r: Option<usize>)
    requires
        i <= s@.len(),
    ensures
        match r {
            Some(j) => i <= j < s@.len() && find_char(s@, i as int, c) == j,
            None => find_char(s@, i as int, c) == -1,
        },
{
    let n = s.unicode_len();
    let mut j = i;
    while j < n
        invariant
            i <= j <= n,
            n == s@.len(),
            find_char(s@, i as int, c) == find_char(s@, j as int, c),
        decreases n - j,
    {
        if s.get_char(j) == c {
            return Some(j);
        }
        assert(find_char(s@, j as int, c) == find_char(s@, j + 1, c));
        j += 1;
    }
    None
}

/// The lines of `s`, split on the newline character.
pub fn split_lines_str(s: &str) -> (r: Vec<String>)
    ensures
        r.deep_view() == split_lines(s@),
{
    let n = s.unicode_len();
    let mut r: Vec<String> = Vec::new();
    let mut start: usize = 0;
    proof {
        assert(s@.subrange(0, n as int) =~= s@);
        assert(r.deep_view() =~= Seq::<Seq<char>>::empty());
        assert(r.deep_view() + split_lines(s@.subrange(0, n as int)) =~= split_lines(s@));
    }
    while start < n
        invariant
            0 <= start <= n,
            n == s@.len(),
            split_lines(s@) == r.deep_view() + split_lines(
                s@.subrange(start as int, n as int),
            ),
        decreases n - start,
    {
        let ghost rem = s@.subrange(start as int, n as int);
        let ghost old_r = r.deep_view();
        match find_char_exec(s, start, '\n') {
            Some(j) => {
                proof {
                    lemma_find_char(s@, start as int, '\n');
                    lemma_find_char(rem, 0, '\n');
                    assert(rem.len() > 0);
                    assert(rem[j - start] == '\n');
                    let jr = find_char(rem, 0, '\n');
                    assert(jr != -1) by {
                        if jr == -1 {
                            assert(rem[j - start] != '\n');
                        }
                    }
                    assert(jr == j - start) by {
                        if jr < j - start {
                            assert(rem[jr] == s@[start + jr]);
                            assert(s@[start + jr] != '\n');
                        }
                        if jr > j - start {
                            assert(rem[j - start] != '\n');
                        }
                    }
                    assert(rem.subrange(0, jr) =~= s@.subrange(start as int, j as int));
                    assert(rem.subrange(jr + 1, rem.len() as int) =~= s@.subrange(
                        j + 1,
                        n as int,
                    ));
                    assert(split_lines(rem) == seq![s@.subrange(start as int, j as int)]
                        + split_lines(s@.subrange(j + 1, n as int)));
                }
                let piece = s.substring_char(start, j);
                r.push(piece.to_owned());
                proof {
                    assert(r.deep_view() =~= old_r.push(s@.subrange(start as int, j as int)));
                    assert(r.deep_view() + split_lines(s@.subrange(j + 1, n as int)) =~= old_r
                        + split_lines(rem));
                }
                start = j + 1;
            },
            None => {
                proof {
                    lemma_find_char(s@, start as int, '\n');
                    lemma_find_char(rem, 0, '\n');
                    assert(rem.len() > 0);
                    let jr = find_char(rem, 0, '\n');
                    assert(jr == -1) by {
                        if jr != -1 {
                            assert(rem[jr] == s@[start + jr]);
                            assert(s@[start + jr] == '\n');
                        }
                    }
                    assert(split_lines(rem) == seq![rem]);
                }
                let piece = s.substring_char(start, n);
                r.push(piece.to_owned());
                proof {
                    assert(r.deep_view() =~= old_r.push(rem));
                    assert(r.deep_view() + split_lines(s@.subrange(n as int, n as int)) =~= old_r
                        + split_lines(rem)) by {
                        assert(s@.subrange(n as int, n as int) =~= Seq::<char>::empty());
                        assert(split_lines(Seq::<char>::empty()) =~= Seq::<Seq<char>>::empty());
                    }
                }
                start = n;
            },
        }
    }
    proof {
        assert(s@.subrange(start as int, n as int) =~= Seq::<char>::empty());
        assert(split_lines(Seq::<char>::empty()) =~= Seq::<Seq<char>>::empty());
        assert(r.deep_view() + Seq::<Seq<char>>::empty() =~= r.deep_view());
    }
    r
}

/// The lines rejoined with single newlines.
pub fn join_lines_vec(v: &Vec<String>) -> (r: String)
    ensures
        r@ == join_lines(v.deep_view()),
{
    let mut r = String::new();
    let mut i: usize = 0;
    proof {
        assert(v.deep_view().subrange(0, 0) =~= Seq::<Seq<char>>::empty());
    }
    while i < v.len()
        invariant
            0 <= i <= v.deep_view().len(),
            v.deep_view().len() == v@.len(),
            r@ == join_lines(v.deep_view().subrange(0, i as int)),
        decreases v@.len() - i,
    {
        let ghost pre = v.deep_view().subrange(0, i as int);
        if i > 0 {
            r.append("\n");
            proof {
                reveal_strlit("\n");
            }
        }
        let line: &String = &v[i];
        r.append(line.as_str());
        proof {
            lemma_join_push(pre, line@);
            assert(v.deep_view()[i as int] == line@);
            assert(v.deep_view().subrange(0, i + 1) =~= pre.push(line@));
            if i == 0 {
                assert(r@ =~= line@);
            } else {
                assert("\n"@ =~= seq!['\n']) by {
                    reveal_strlit("\n");
                }
                assert(r@ =~= join_lines(pre) + seq!['\n'] + line@);
            }
        }
        i += 1;
    }
    proof {
        assert(v.deep_view().subrange(0, v.deep_view().len() as int) =~= v.deep_view());
    }
    r
}

} // verus!
