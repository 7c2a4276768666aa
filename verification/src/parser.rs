//! Directive recognition inside a single line of text.
//!
//! A directive has the shape `<!-- @@COMMAND args... -->`: the HTML comment
//! opener, optional whitespace, two at-signs, a command of one or more word
//! characters, free argument text, and the first comment closer that follows
//! the command.  Text before the opener and after the closer is kept, trimmed,
//! as the directive's prefix and suffix.  The directive recognised on a line
//! is the one starting at the leftmost position where this whole shape fits.

use vstd::prelude::*;

use crate::text::{
    is_space, is_word, skip_spaces, skip_word, split_ws, trim_spec, skip_spaces_exec,
    skip_word_exec, split_ws_str, trim_str,
};

verus! {

/// The comment opener `<!--`.
pub open spec fn open_marker() -> Seq<char> {
    seq!['<', '!', '-', '-']
}

/// The two at-signs introducing the command.
pub open spec fn at_marker() -> Seq<char> {
    seq!['@', '@']
}

/// The comment closer `-->`.
pub open spec fn close_marker() -> Seq<char> {
    seq!['-', '-', '>']
}

/// `pat` occurs in `s` starting exactly at position `i`.
pub open spec fn matches_at(s: Seq<char>, i: int, pat: Seq<char>) -> bool {
    0 <= i && i + pat.len() <= s.len() && s.subrange(i, i + pat.len() as int) == pat
}

/// Least `j >= i` where the comment closer starts, or `-1` when none does.
pub open spec fn find_close(s: Seq<char>, i: int) -> int
    decreases s.len() - i,
    when 0 <= i
{
    if i + 3 > s.len() {
        -1
    } else if matches_at(s, i, close_marker()) {
        i
    } else {
        find_close(s, i + 1)
    }
}

/// A full directive shape starts at position `i` of `s`.
pub open spec fn directive_at(s: Seq<char>, i: int) -> bool {
    matches_at(s, i, open_marker()) && {
        let a = skip_spaces(s, i + 4);
        matches_at(s, a, at_marker()) && skip_word(s, a + 2) > a + 2 && find_close(
            s,
            skip_word(s, a + 2),
        ) >= 0
    }
}

/// Least `j >= i` where a directive starts, or `-1` when none does.
pub open spec fn find_directive(s: Seq<char>, i: int) -> int
    decreases s.len() - i,
    when 0 <= i
{
    if i >= s.len() {
        -1
    } else if directive_at(s, i) {
        i
    } else {
        find_directive(s, i + 1)
    }
}

/// The line holds a directive.
pub open spec fn line_has_directive(s: Seq<char>) -> bool {
    find_directive(s, 0) >= 0
}

/// Where the directive's comment opener starts.
pub open spec fn dir_start(s: Seq<char>) -> int {
    find_directive(s, 0)
}

/// Where the command token starts (just after the at-signs).
pub open spec fn cmd_start(s: Seq<char>) -> int {
    skip_spaces(s, dir_start(s) + 4) + 2
}

/// One past the command token's last character.
pub open spec fn cmd_end(s: Seq<char>) -> int {
    skip_word(s, cmd_start(s))
}

/// Where the comment closer used by the directive starts.
pub open spec fn close_start(s: Seq<char>) -> int {
    find_close(s, cmd_end(s))
}

/// The trimmed text before the comment opener.
pub open spec fn prefix_spec(s: Seq<char>) -> Seq<char> {
    trim_spec(s.subrange(0, dir_start(s)))
}

/// The command token.
pub open spec fn command_spec(s: Seq<char>) -> Seq<char> {
    s.subrange(cmd_start(s), cmd_end(s))
}

/// The whitespace-separated argument tokens.
pub open spec fn args_spec(s: Seq<char>) -> Seq<Seq<char>> {
    split_ws(s.subrange(cmd_end(s), close_start(s)))
}

/// The trimmed text after the comment closer.
pub open spec fn suffix_spec(s: Seq<char>) -> Seq<char> {
    trim_spec(s.subrange(close_start(s) + 3, s.len() as int))
}

/// One directive decomposed out of a line: the text before it, the command
/// token, the argument tokens, and the text after it.
pub struct PPXDirective {
    pub prefix: String,
    pub command: String,
    pub args: Vec<String>,
    pub suffix: String,
}

/// Whether `pat` occurs in `s` at position `i`, by character comparison.
pub fn str_at(s: &str, i: usize, pat: &str) -> (b: bool)
    requires
        i <= s@.len(),
    ensures
        b == matches_at(s@, i as int, pat@),
{
    let n = s.unicode_len();
    let m = pat.unicode_len();
    if n - i < m {
        proof {
            assert(i + pat@.len() > s@.len());
        }
        return false;
    }
    let mut k: usize = 0;
    while k < m
        invariant
            0 <= k <= m,
            m == pat@.len(),
            n == s@.len(),
            i + m <= n,
            forall|t: int| 0 <= t < k ==> s@[i + t] == pat@[t],
        decreases m - k,
    {
        if s.get_char(i + k) != pat.get_char(k) {
            proof {
                assert(!matches_at(s@, i as int, pat@)) by {
                    if matches_at(s@, i as int, pat@) {
                        assert(s@.subrange(i as int, i + m as int)[k as int] == s@[i + k]);
                    }
                }
            }
            return false;
        }
        k += 1;
    }
    proof {
        assert(s@.subrange(i as int, i + m as int) =~= pat@);
    }
    true
}

/// Least position of a comment closer at or after `i`, if any.
pub fn find_close_exec(s: &str, i: usize) -> (r: Option<usize>)
    requires
        i <= s@.len(),
    ensures
        match r {
            Some(j) => find_close(s@, i as int) == j && i <= j && j + 3 <= s@.len(),
            None => find_close(s@, i as int) == -1,
        },
{
    let n = s.unicode_len();
    let mut j = i;
    while n - j >= 3
        invariant
            i <= j <= n,
            n == s@.len(),
            find_close(s@, i as int) == find_close(s@, j as int),
        decreases n - j,
    {
        proof {
            reveal_strlit("-->");
            assert("-->"@ =~= close_marker());
        }
        if str_at(s, j, "-->") {
            proof {
                assert(matches_at(s@, j as int, close_marker()));
                assert(find_close(s@, j as int) == j);
            }
            return Some(j);
        }
        proof {
            assert(find_close(s@, j as int) == find_close(s@, j + 1));
        }
        j += 1;
    }
    proof {
        assert(j + 3 > s@.len());
        assert(find_close(s@, j as int) == -1);
    }
    None
}

/// Whether a full directive shape starts at position `i`.
pub fn directive_at_exec(s: &str, i: usize) -> (b: bool)
    requires
        i <= s@.len(),
    ensures
        b == directive_at(s@, i as int),
{
    proof {
        reveal_strlit("<!--");
        assert("<!--"@ =~= open_marker());
        reveal_strlit("@@");
        assert("@@"@ =~= at_marker());
    }
    let n = s.unicode_len();
    if !str_at(s, i, "<!--") {
        return false;
    }
    let a = skip_spaces_exec(s, i + 4);
    if !str_at(s, a, "@@") {
        return false;
    }
    let ws = a + 2;
    let we = skip_word_exec(s, ws);
    if we == ws {
        return false;
    }
    match find_close_exec(s, we) {
        Some(_) => true,
        None => false,
    }
}

impl PPXDirective {
    /// Decompose the leftmost directive of `line`, if the line holds one.
    ///
    /// `Some` is returned exactly when a directive shape occurs in the line;
    /// the parts returned are the ones the position functions describe.
    pub fn parse(line: &str) -> (r: Option<PPXDirective>)
        ensures
            match r {
                Some(d) => {
                    &&& line_has_directive(line@)
                    &&& d.prefix@ == prefix_spec(line@)
                    &&& d.command@ == command_spec(line@)
                    &&& d.args.deep_view() == args_spec(line@)
                    &&& d.suffix@ == suffix_spec(line@)
                },
                None => !line_has_directive(line@),
            },
    {
        let n = line.unicode_len();
        let mut i: usize = 0;
        while i < n
            invariant
                0 <= i <= n,
                n == line@.len(),
                find_directive(line@, 0) == find_directive(line@, i as int),
            decreases n - i,
        {
            if directive_at_exec(line, i) {
                proof {
                    assert(find_directive(line@, i as int) == i);
                    assert(dir_start(line@) == i);
                }
                let prefix_part = line.substring_char(0, i);
                let prefix = trim_str(prefix_part);
                let a = skip_spaces_exec(line, i + 4);
                let cs = a + 2;
                let ce = skip_word_exec(line, cs);
                proof {
                    assert(cmd_start(line@) == cs);
                    assert(cmd_end(line@) == ce);
                    crate::text::lemma_skip_word(line@, cs as int);
                }
                let command_part = line.substring_char(cs, ce);
                let command = command_part.to_owned();
                match find_close_exec(line, ce) {
                    Some(cl) => {
                        proof {
                            assert(close_start(line@) == cl);
                        }
                        let args_part = line.substring_char(ce, cl);
                        let args = split_ws_str(args_part);
                        let suffix_part = line.substring_char(cl + 3, n);
                        let suffix = trim_str(suffix_part);
                        return Some(
                            PPXDirective {
                                prefix,
                                command,
                                args,
                                suffix,
                            },
                        );
                    },
                    None => {
                        proof {
                            assert(false);
                        }
                        return None;
                    },
                }
            }
            proof {
                assert(find_directive(line@, i as int) == find_directive(line@, i + 1));
            }
            i += 1;
        }
        proof {
            assert(find_directive(line@, i as int) == -1);
        }
        None
    }
}

} // verus!
