//! Splitting text into display lines under a column limit.
//!
//! Every strategy first splits the input at newlines and then operates on
//! each line independently; separate input lines are never merged.

use vstd::prelude::*;

verus! {

/// How text is split into display lines.
#[derive(Debug, Clone, Copy, PartialEq, Eq, Structural)]
pub enum WrappingStrategy {
    /// Keep lines as they are; they may overflow the surface.
    NoWrap,
    /// Hard split every `n` characters.
    AtCol(usize),
    /// Split at the last whitespace before column `n`; a line with no
    /// whitespace splits hard at `n`.  All lines are trimmed afterwards.
    SpaceBeforeCol(usize),
    /// Hard split every `n` characters, hyphenating mid-word splits.
    AtColWithHyphen(usize),
    /// Drop everything after column `n` of each line.
    Cutoff(usize),
    /// Like `Cutoff`, with a trailing ellipsis on shortened lines.
    Ellipsis(usize),
}

impl Default for WrappingStrategy {
    /// No wrapping.
    fn default() -> (r: WrappingStrategy)
        ensures
            r is NoWrap,
    {
        WrappingStrategy::NoWrap
    }
}

/// The Unicode whitespace characters, as `char::is_whitespace` knows them.
pub open spec fn is_ws(c: char) -> bool {
    c == ' ' || c == '\t' || c == '\n' || c == '\r' || c == '\u{b}' || c == '\u{c}' || c == '\u{85}'
        || c == '\u{a0}' || c == '\u{1680}' || c == '\u{2000}' || c == '\u{2001}' || c == '\u{2002}'
        || c == '\u{2003}' || c == '\u{2004}' || c == '\u{2005}' || c == '\u{2006}' || c
        == '\u{2007}' || c == '\u{2008}' || c == '\u{2009}' || c == '\u{200a}' || c == '\u{2028}'
        || c == '\u{2029}' || c == '\u{202f}' || c == '\u{205f}' || c == '\u{3000}'
}

/// ASCII and Latin-1 letters; a hyphen is inserted only when the split
/// lands between two of them.
pub open spec fn is_alpha(c: char) -> bool {
    ('a' <= c && c <= 'z') || ('A' <= c && c <= 'Z') || c == '\u{aa}' || c == '\u{b5}' || c
        == '\u{ba}' || ('\u{c0}' <= c && c <= '\u{d6}') || ('\u{d8}' <= c && c <= '\u{f6}') || (
    '\u{f8}' <= c && c <= '\u{ff}')
}

/// The input split at newlines; a trailing newline yields a final empty
/// line, and an empty input is one empty line.
pub open spec fn split_lines(s: Seq<char>) -> Seq<Seq<char>>
    decreases s.len(),
{
    if s.len() == 0 {
        seq![Seq::<char>::empty()]
    } else if s[0] == '\n' {
        seq![Seq::<char>::empty()] + split_lines(s.drop_first())
    } else {
        let rest = split_lines(s.drop_first());
        seq![seq![s[0]] + rest[0]] + rest.drop_first()
    }
}

/// One line hard-split every `col` characters.
pub open spec fn chunk_line(l: Seq<char>, col: int) -> Seq<Seq<char>>
    decreases l.len(),
    when col >= 1
{
    if l.len() <= col {
        seq![l]
    } else {
        seq![l.take(col)] + chunk_line(l.skip(col), col)
    }
}

/// One line hard-split every `col` characters, with a hyphen appended to a
/// piece whenever the split falls between two letters.
pub open spec fn hyphen_chunk_line(l: Seq<char>, col: int) -> Seq<Seq<char>>
    decreases l.len(),
    when col >= 1
{
    if l.len() <= col {
        seq![l]
    } else {
        let text = l.take(col);
        let head = if is_alpha(l[col - 1]) && is_alpha(l[col]) {
            text.push('-')
        } else {
            text
        };
        seq![head] + hyphen_chunk_line(l.skip(col), col)
    }
}

/// The largest index `<= i` holding whitespace, or -1.
pub open spec fn last_ws(l: Seq<char>, i: int) -> int
    decreases i + 1,
    when i < l.len()
{
    if i < 0 {
        -1
    } else if is_ws(l[i]) {
        i
    } else {
        last_ws(l, i - 1)
    }
}

/// One line wrapped at the last whitespace before the column: when the
/// split point touches whitespace the line splits hard there, otherwise it
/// retreats to the last whitespace of the piece, or stays at the column
/// when there is none usable.
pub open spec fn space_wrap_line(l: Seq<char>, col: int) -> Seq<Seq<char>>
    decreases l.len(),
    when col >= 1
{
    if l.len() <= col {
        seq![l]
    } else {
        if is_ws(l[col - 1]) || is_ws(l[col]) {
            seq![l.take(col)] + space_wrap_line(l.skip(col), col)
        } else {
            let ws = last_ws(l, col - 1);
            let cut = if ws <= 0 || ws > col - 1 {
                col
            } else {
                ws
            };
            seq![l.take(cut)] + space_wrap_line(l.skip(cut), col)
        }
    }
}

/// The line with leading whitespace removed.
pub open spec fn trim_start(l: Seq<char>) -> Seq<char>
    decreases l.len(),
{
    if l.len() > 0 && is_ws(l[0]) {
        trim_start(l.drop_first())
    } else {
        l
    }
}

/// The line with trailing whitespace removed.
pub open spec fn trim_end(l: Seq<char>) -> Seq<char>
    decreases l.len(),
{
    if l.len() > 0 && is_ws(l.last()) {
        trim_end(l.drop_last())
    } else {
        l
    }
}

/// The line with surrounding whitespace removed.
pub open spec fn trim(l: Seq<char>) -> Seq<char> {
    trim_end(trim_start(l))
}

/// A per-line wrap applied to every line in order.
pub open spec fn wrap_lines(strategy: WrappingStrategy, lines: Seq<Seq<char>>) -> Seq<Seq<char>>
    decreases lines.len(),
{
    if lines.len() == 0 {
        Seq::empty()
    } else {
        wrap_one_line(strategy, lines[0]) + wrap_lines(strategy, lines.drop_first())
    }
}

/// What one input line contributes for each strategy.
pub open spec fn wrap_one_line(strategy: WrappingStrategy, l: Seq<char>) -> Seq<Seq<char>> {
    match strategy {
        WrappingStrategy::NoWrap => seq![l],
        WrappingStrategy::AtCol(col) => chunk_line(l, col as int),
        WrappingStrategy::SpaceBeforeCol(col) => space_wrap_line(l, col as int).map(
            |i: int, piece: Seq<char>| trim(piece),
        ),
        WrappingStrategy::AtColWithHyphen(col) => hyphen_chunk_line(l, col as int),
        WrappingStrategy::Cutoff(col) => seq![
            if l.len() <= col {
                l
            } else {
                l.take(col as int)
            },
        ],
        WrappingStrategy::Ellipsis(col) => seq![
            if l.len() >= col {
                (if l.len() <= col {
                    l
                } else {
                    l.take(col as int)
                }).push('\u{2026}')
            } else {
                l
            },
        ],
    }
}

/// The full result: split at newlines, then wrap each line.
pub open spec fn wrap_spec(strategy: WrappingStrategy, s: Seq<char>) -> Seq<Seq<char>> {
    wrap_lines(strategy, split_lines(s))
}

/// The column a strategy wraps at must leave room for at least one
/// character per piece.
pub open spec fn strategy_wf(strategy: WrappingStrategy) -> bool {
    match strategy {
        WrappingStrategy::AtCol(col) => col >= 1,
        WrappingStrategy::SpaceBeforeCol(col) => col >= 1 && (col as int) <= isize::MAX as int,
        WrappingStrategy::AtColWithHyphen(col) => col >= 1,
        _ => true,
    }
}

/// Relies on `String::push`: appends exactly one character to the string.
#[verifier::external_body]
fn push_char(s: &mut String, c: char)
    ensures
        final(s)@ == old(s)@.push(c),
{
    s.push(c);
}

/// The characters of a string as a vector.
pub fn chars_of(s: &str) -> (r: Vec<char>)
    ensures
        r@ == s@,
{
    let n = s.unicode_len();
    let mut out: Vec<char> = Vec::new();
    let mut i: usize = 0;
    while i < n
        invariant
            i <= n,
            n == s@.len(),
            out@.len() == i,
            forall|j: int| 0 <= j < i ==> out@[j] == s@[j],
        decreases n - i,
    {
        out.push(s.get_char(i));
        i += 1;
    }
    proof {
        assert(out@ =~= s@);
    }
    out
}

/// A vector of characters as a string.
pub fn string_of(cs: &Vec<char>) -> (r: String)
    ensures
        r@ == cs@,
{
    let mut out = String::new();
    let mut i: usize = 0;
    while i < cs.len()
        invariant
            i <= cs@.len(),
            out@.len() == i,
            forall|j: int| 0 <= j < i ==> out@[j] == cs@[j],
        decreases cs@.len() - i,
    {
        push_char(&mut out, cs[i]);
        i += 1;
    }
    proof {
        assert(out@ =~= cs@);
    }
    out
}

fn is_ws_exec(c: char) -> (r: bool)
    ensures
        r == is_ws(c),
{
    c == ' ' || c == '\t' || c == '\n' || c == '\r' || c == '\u{b}' || c == '\u{c}' || c == '\u{85}'
        || c == '\u{a0}' || c == '\u{1680}' || c == '\u{2000}' || c == '\u{2001}' || c == '\u{2002}'
        || c == '\u{2003}' || c == '\u{2004}' || c == '\u{2005}' || c == '\u{2006}' || c
        == '\u{2007}' || c == '\u{2008}' || c == '\u{2009}' || c == '\u{200a}' || c == '\u{2028}'
        || c == '\u{2029}' || c == '\u{202f}' || c == '\u{205f}' || c == '\u{3000}'
}

fn is_alpha_exec(c: char) -> (r: bool)
    ensures
        r == is_alpha(c),
{
    ('a' <= c && c <= 'z') || ('A' <= c && c <= 'Z') || c == '\u{aa}' || c == '\u{b5}' || c
        == '\u{ba}' || ('\u{c0}' <= c && c <= '\u{d6}') || ('\u{d8}' <= c && c <= '\u{f6}') || (
        '\u{f8}' <= c && c <= '\u{ff}')
}

/// The first `n` characters of `l` (all of them when shorter).
fn take_chars(l: &Vec<char>, n: usize) -> (r: Vec<char>)
    ensures
        r@ == (if l@.len() <= n {
            l@
        } else {
            l@.take(n as int)
        }),
{
    let m = if n < l.len() {
        n
    } else {
        l.len()
    };
    let mut out: Vec<char> = Vec::new();
    let mut i: usize = 0;
    while i < m
        invariant
            i <= m,
            m <= l@.len(),
            out@.len() == i,
            forall|j: int| 0 <= j < i ==> out@[j] == l@[j],
        decreases m - i,
    {
        out.push(l[i]);
        i += 1;
    }
    proof {
        if l@.len() <= n {
            assert(out@ =~= l@);
        } else {
            assert(out@ =~= l@.take(n as int));
        }
    }
    out
}

/// The characters of `l` from `n` on (empty when `l` is shorter).
fn skip_chars(l: &Vec<char>, n: usize) -> (r: Vec<char>)
    ensures
        r@ == (if l@.len() <= n {
            Seq::<char>::empty()
        } else {
            l@.skip(n as int)
        }),
{
    let mut out: Vec<char> = Vec::new();
    let mut i: usize = n;
    while i < l.len()
        invariant
            n <= i <= l@.len() || (i == n && l@.len() <= n),
            out@.len() == i - n,
            forall|j: int| 0 <= j < out@.len() ==> out@[j] == l@[n + j],
        decreases l@.len() - i,
    {
        out.push(l[i]);
        i += 1;
    }
    proof {
        if l@.len() <= n {
            assert(out@ =~= Seq::<char>::empty());
        } else {
            assert(out@ =~= l@.skip(n as int));
        }
    }
    out
}

/// Split the input at newlines.
pub(crate) fn split_input(s: &Vec<char>) -> (r: Vec<Vec<char>>)
    ensures
        r.deep_view() == split_lines(s@),
    decreases s@.len(),
{
    // recursion mirrors the specification directly
    if s.len() == 0 {
        let mut out: Vec<Vec<char>> = Vec::new();
        out.push(Vec::new());
        proof {
            assert(out.deep_view() =~~= split_lines(s@));
        }
        out
    } else if s[0] == '\n' {
        let rest = skip_chars(s, 1);
        proof {
            assert(rest@ =~= s@.drop_first());
        }
        let tail = split_input(&rest);
        let mut out: Vec<Vec<char>> = Vec::new();
        out.push(Vec::new());
        proof {
            assert(out.deep_view() =~~= seq![Seq::<char>::empty()] + tail.deep_view().take(0));
        }
        let mut k: usize = 0;
        while k < tail.len()
            invariant
                k <= tail@.len(),
                out.deep_view() == seq![Seq::<char>::empty()] + tail.deep_view().take(k as int),
            decreases tail@.len() - k,
        {
            let ghost pre = out.deep_view();
            let piece = copy_chars(&tail[k]);
            out.push(piece);
            proof {
                assert(out.deep_view() =~~= pre.push(tail.deep_view()[k as int]));
                assert(out.deep_view() =~= seq![Seq::<char>::empty()] + tail.deep_view().take(
                    k as int + 1,
                ));
            }
            k += 1;
        }
        proof {
            assert(tail.deep_view().take(tail.deep_view().len() as int) =~= tail.deep_view());
            assert(out.deep_view() =~= seq![Seq::<char>::empty()] + tail.deep_view());
            assert(out.deep_view() =~= split_lines(s@));
        }
        out
    } else {
        let rest = skip_chars(s, 1);
        proof {
            assert(rest@ =~= s@.drop_first());
            lemma_split_lines_nonempty(s@.drop_first());
        }
        let tail = split_input(&rest);
        let mut first: Vec<char> = Vec::new();
        first.push(s[0]);
        let head = copy_chars(&tail[0]);
        let mut i: usize = 0;
        while i < head.len()
            invariant
                i <= head@.len(),
                head@ == tail.deep_view()[0],
                first@.len() == i + 1,
                first@[0] == s@[0],
                forall|j: int| 0 <= j < i ==> first@[j + 1] == head@[j],
            decreases head@.len() - i,
        {
            first.push(head[i]);
            i += 1;
        }
        proof {
            assert(first@ =~= seq![s@[0]] + tail.deep_view()[0]);
        }
        let mut out: Vec<Vec<char>> = Vec::new();
        let ghost firstv = first@;
        out.push(first);
        proof {
            assert(out.deep_view() =~~= seq![firstv] + tail.deep_view().subrange(1, 1));
        }
        let mut k: usize = 1;
        while k < tail.len()
            invariant
                1 <= k <= tail@.len(),
                out.deep_view() == seq![firstv] + tail.deep_view().subrange(1, k as int),
            decreases tail@.len() - k,
        {
            let ghost pre = out.deep_view();
            let piece = copy_chars(&tail[k]);
            out.push(piece);
            proof {
                assert(out.deep_view() =~~= pre.push(tail.deep_view()[k as int]));
                assert(out.deep_view() =~= seq![firstv] + tail.deep_view().subrange(
                    1,
                    k as int + 1,
                ));
            }
            k += 1;
        }
        proof {
            let sp = split_lines(s@.drop_first());
            assert(tail.deep_view().subrange(1, tail.deep_view().len() as int) =~= sp.drop_first());
            assert(out.deep_view() =~= seq![seq![s@[0]] + sp[0]] + sp.drop_first());
            assert(out.deep_view() =~= split_lines(s@));
        }
        out
    }
}

/// A split always yields at least one line.
pub proof fn lemma_split_lines_nonempty(s: Seq<char>)
    ensures
        split_lines(s).len() >= 1,
    decreases s.len(),
{
    if s.len() != 0 && s[0] == '\n' {
        lemma_split_lines_nonempty(s.drop_first());
    }
}

impl WrappingStrategy {
    /// Split `input` into display lines.
    ///
    /// The input is first split at newlines; each line is then wrapped
    /// independently according to the strategy.
    pub fn wrap(&self, input: &str) -> (r: Vec<String>)
        requires
            strategy_wf(*self),
        ensures
            r.deep_view() == wrap_spec(*self, input@),
    {
        let cs = chars_of(input);
        let lines = split_input(&cs);
        let mut out: Vec<String> = Vec::new();
        let mut k: usize = 0;
        let ghost all = split_lines(input@);
        proof {
            assert(all.skip(0) =~= all);
            assert(out.deep_view() + wrap_lines(*self, all.skip(0)) =~= wrap_spec(*self, input@));
        }
        while k < lines.len()
            invariant
                k <= lines@.len(),
                strategy_wf(*self),
                lines.deep_view() == all,
                out.deep_view() + wrap_lines(*self, all.skip(k as int)) =~= wrap_spec(
                    *self,
                    input@,
                ),
            decreases lines@.len() - k,
        {
            proof {
                assert(all.skip(k as int).len() > 0);
                assert(all.skip(k as int)[0] == lines.deep_view()[k as int]);
                assert(lines.deep_view()[k as int] == lines@[k as int].deep_view());
                assert(lines@[k as int].deep_view() =~= lines@[k as int]@);
                assert(all.skip(k as int).drop_first() =~= all.skip(k as int + 1));
            }
            let pieces = wrap_one(self, &lines[k]);
            proof {
                assert(pieces.deep_view() == wrap_one_line(*self, all.skip(k as int)[0]));
            }
            let ghost pre = out.deep_view();
            let mut j: usize = 0;
            while j < pieces.len()
                invariant
                    j <= pieces@.len(),
                    out.deep_view() =~= pre + pieces.deep_view().take(j as int),
                decreases pieces@.len() - j,
            {
                let ghost prev = out.deep_view();
                let piece = string_of(&pieces[j]);
                out.push(piece);
                proof {
                    assert(out.deep_view() =~~= prev.push(pieces.deep_view()[j as int]));
                    assert(out.deep_view() =~= pre + pieces.deep_view().take(j as int + 1));
                }
                j += 1;
            }
            proof {
                assert(pieces.deep_view().take(pieces.deep_view().len() as int) =~= pieces.deep_view());
                assert(out.deep_view() =~= pre + pieces.deep_view());
                assert(wrap_lines(*self, all.skip(k as int)) == wrap_one_line(
                    *self,
                    all.skip(k as int)[0],
                ) + wrap_lines(*self, all.skip(k as int + 1)));
                assert(out.deep_view() + wrap_lines(*self, all.skip(k as int + 1)) =~= wrap_spec(
                    *self,
                    input@,
                ));
            }
            k += 1;
        }
        proof {
            assert(all.skip(all.len() as int) =~= Seq::<Seq<char>>::empty());
            assert(out.deep_view() =~= wrap_spec(*self, input@));
        }
        out
    }
}

/// Wrap one input line according to the strategy.
fn wrap_one(strategy: &WrappingStrategy, l: &Vec<char>) -> (r: Vec<Vec<char>>)
    requires
        strategy_wf(*strategy),
    ensures
        r.deep_view() == wrap_one_line(*strategy, l@),
{
    match strategy {
        WrappingStrategy::NoWrap => {
            let mut out: Vec<Vec<char>> = Vec::new();
            let piece = copy_chars(l);
            let ghost pv = piece@;
            out.push(piece);
            proof {
                assert(out.deep_view() =~~= seq![pv]);
                assert(out.deep_view() =~= wrap_one_line(*strategy, l@));
            }
            out
        },
        WrappingStrategy::AtCol(col) => {
            let mut out: Vec<Vec<char>> = Vec::new();
            let mut line = copy_chars(l);
            proof {
                assert(out.deep_view() + chunk_line(line@, *col as int) =~= chunk_line(
                    l@,
                    *col as int,
                ));
            }
            while line.len() > *col
                invariant
                    *col >= 1,
                    out.deep_view() + chunk_line(line@, *col as int) =~= chunk_line(
                        l@,
                        *col as int,
                    ),
                decreases line@.len(),
            {
                let ghost pre = out.deep_view();
                let head = take_chars(&line, *col);
                let rest = skip_chars(&line, *col);
                out.push(head);
                proof {
                    assert(out.deep_view() =~~= pre.push(head@));
                    assert(chunk_line(line@, *col as int) == seq![line@.take(*col as int)]
                        + chunk_line(line@.skip(*col as int), *col as int));
                    assert(out.deep_view() + chunk_line(rest@, *col as int) =~= chunk_line(
                        l@,
                        *col as int,
                    ));
                }
                line = rest;
            }
            let ghost pre = out.deep_view();
            let ghost lastv = line@;
            out.push(line);
            proof {
                assert(out.deep_view() =~~= pre.push(lastv));
                assert(chunk_line(lastv, *col as int) == seq![lastv]);
                assert(out.deep_view() =~= wrap_one_line(*strategy, l@));
            }
            out
        },
        WrappingStrategy::AtColWithHyphen(col) => {
            let mut out: Vec<Vec<char>> = Vec::new();
            let mut line = copy_chars(l);
            proof {
                assert(out.deep_view() + hyphen_chunk_line(line@, *col as int)
                    =~= hyphen_chunk_line(l@, *col as int));
            }
            while line.len() > *col
                invariant
                    *col >= 1,
                    out.deep_view() + hyphen_chunk_line(line@, *col as int) =~= hyphen_chunk_line(
                        l@,
                        *col as int,
                    ),
                decreases line@.len(),
            {
                let ghost pre = out.deep_view();
                let mut head = take_chars(&line, *col);
                let rest = skip_chars(&line, *col);
                if is_alpha_exec(line[*col - 1]) && is_alpha_exec(line[*col]) {
                    head.push('-');
                    proof {
                        assert(head@ =~= line@.take(*col as int).push('-'));
                    }
                }
                out.push(head);
                proof {
                    assert(out.deep_view() =~~= pre.push(head@));
                    assert(hyphen_chunk_line(line@, *col as int) == seq![head@]
                        + hyphen_chunk_line(line@.skip(*col as int), *col as int));
                    assert(out.deep_view() + hyphen_chunk_line(rest@, *col as int)
                        =~= hyphen_chunk_line(l@, *col as int));
                }
                line = rest;
            }
            let ghost pre = out.deep_view();
            let ghost lastv = line@;
            out.push(line);
            proof {
                assert(out.deep_view() =~~= pre.push(lastv));
                assert(hyphen_chunk_line(lastv, *col as int) == seq![lastv]);
                assert(out.deep_view() =~= wrap_one_line(*strategy, l@));
            }
            out
        },
        WrappingStrategy::SpaceBeforeCol(col) => {
            let mut out: Vec<Vec<char>> = Vec::new();
            let mut line = copy_chars(l);
            proof {
                assert(out.deep_view() + space_wrap_line(line@, *col as int) =~= space_wrap_line(
                    l@,
                    *col as int,
                ));
            }
            while line.len() > *col
                invariant
                    *col >= 1,
                    (*col as int) <= isize::MAX as int,
                    out.deep_view() + space_wrap_line(line@, *col as int) =~= space_wrap_line(
                        l@,
                        *col as int,
                    ),
                decreases line@.len(),
            {
                let ghost pre = out.deep_view();
                let cut: usize = if is_ws_exec(line[*col - 1]) || is_ws_exec(line[*col]) {
                    *col
                } else {
                    let ws = rposition_ws(&line, *col - 1);
                    if ws <= 0 {
                        *col
                    } else {
                        ws as usize
                    }
                };
                proof {
                    assert(1 <= cut <= *col);
                }
                let head = take_chars(&line, cut);
                let rest = skip_chars(&line, cut);
                out.push(head);
                proof {
                    assert(out.deep_view() =~~= pre.push(head@));
                    assert(space_wrap_line(line@, *col as int) == seq![line@.take(cut as int)]
                        + space_wrap_line(line@.skip(cut as int), *col as int));
                    assert(out.deep_view() + space_wrap_line(rest@, *col as int)
                        =~= space_wrap_line(l@, *col as int));
                }
                line = rest;
            }
            let ghost pre_last = out.deep_view();
            let ghost lastv = line@;
            out.push(line);
            proof {
                assert(out.deep_view() =~~= pre_last.push(lastv));
                assert(space_wrap_line(lastv, *col as int) == seq![lastv]);
            }
            let mut trimmed: Vec<Vec<char>> = Vec::new();
            let mut j: usize = 0;
            while j < out.len()
                invariant
                    j <= out@.len(),
                    trimmed@.len() == j,
                    forall|i: int| 0 <= i < j ==> trimmed.deep_view()[i] == trim(out.deep_view()[i]),
                decreases out@.len() - j,
            {
                let ghost prev = trimmed.deep_view();
                proof {
                    assert(out.deep_view()[j as int] == out@[j as int].deep_view());
                    assert(out@[j as int].deep_view() =~= out@[j as int]@);
                }
                let t = trim_exec(&out[j]);
                let ghost tv = t@;
                trimmed.push(t);
                proof {
                    assert(trimmed.deep_view() =~~= prev.push(tv));
                }
                j += 1;
            }
            proof {
                assert(trimmed.deep_view() =~= out.deep_view().map(
                    |i: int, piece: Seq<char>| trim(piece),
                ));
                assert(out.deep_view() =~= space_wrap_line(l@, *col as int));
                assert(trimmed.deep_view() =~= wrap_one_line(*strategy, l@));
            }
            trimmed
        },
        WrappingStrategy::Cutoff(col) => {
            let mut out: Vec<Vec<char>> = Vec::new();
            let piece = take_chars(l, *col);
            let ghost pv = piece@;
            out.push(piece);
            proof {
                assert(out.deep_view() =~~= seq![pv]);
                assert(out.deep_view() =~= wrap_one_line(*strategy, l@));
            }
            out
        },
        WrappingStrategy::Ellipsis(col) => {
            let mut out: Vec<Vec<char>> = Vec::new();
            if l.len() >= *col {
                let mut head = take_chars(l, *col);
                head.push('\u{2026}');
                let ghost pv = head@;
                out.push(head);
                proof {
                    assert(out.deep_view() =~~= seq![pv]);
                }
            } else {
                let piece = copy_chars(l);
                let ghost pv = piece@;
                out.push(piece);
                proof {
                    assert(out.deep_view() =~~= seq![pv]);
                }
            }
            proof {
                assert(out.deep_view() =~= wrap_one_line(*strategy, l@));
            }
            out
        },
    }
}

fn copy_chars(l: &Vec<char>) -> (r: Vec<char>)
    ensures
        r@ == l@,
{
    let mut out: Vec<char> = Vec::new();
    let mut i: usize = 0;
    while i < l.len()
        invariant
            i <= l@.len(),
            out@.len() == i,
            forall|j: int| 0 <= j < i ==> out@[j] == l@[j],
        decreases l@.len() - i,
    {
        out.push(l[i]);
        i += 1;
    }
    proof {
        assert(out@ =~= l@);
    }
    out
}

/// The last whitespace index at or before `from`, or -1.
fn rposition_ws(l: &Vec<char>, from: usize) -> (r: isize)
    requires
        from < l@.len(),
        from + 1 <= isize::MAX as int,
    ensures
        r == last_ws(l@, from as int),
        r <= from,
{
    let mut i: isize = from as isize;
    while i >= 0
        invariant
            -1 <= i <= from,
            from < l@.len(),
            last_ws(l@, from as int) == last_ws(l@, i as int),
        decreases i + 1,
    {
        if is_ws_exec(l[i as usize]) {
            return i;
        }
        i = i - 1;
    }
    -1
}

/// Remove surrounding whitespace.
fn trim_exec(l: &Vec<char>) -> (r: Vec<char>)
    ensures
        r@ == trim(l@),
{
    let mut start: usize = 0;
    proof {
        assert(l@.skip(0) =~= l@);
    }
    while start < l.len() && is_ws_exec(l[start])
        invariant
            start <= l@.len(),
            trim_start(l@) == trim_start(l@.skip(start as int)),
        decreases l@.len() - start,
    {
        proof {
            assert(l@.skip(start as int).drop_first() =~= l@.skip(start as int + 1));
        }
        start += 1;
    }
    proof {
        if start < l@.len() {
            assert(trim_start(l@.skip(start as int)) == l@.skip(start as int));
        } else {
            assert(l@.skip(start as int) =~= Seq::<char>::empty());
        }
        assert(trim_start(l@) == l@.skip(start as int));
    }
    let ghost s_mid = l@.skip(start as int);
    let mut end: usize = l.len();
    proof {
        assert(s_mid.take(end - start as int) =~= s_mid);
    }
    while end > start && is_ws_exec(l[end - 1])
        invariant
            start <= end <= l@.len(),
            s_mid == l@.skip(start as int),
            trim_end(s_mid) == trim_end(s_mid.take(end - start as int)),
        decreases end,
    {
        proof {
            let cur = s_mid.take(end - start as int);
            assert(cur.len() > 0);
            assert(cur.last() == l@[end - 1]);
            assert(cur.drop_last() =~= s_mid.take(end - 1 - start as int));
        }
        end -= 1;
    }
    proof {
        let cur = s_mid.take(end - start as int);
        if end > start {
            assert(cur.last() == l@[end - 1]);
            assert(!is_ws(cur.last()));
            assert(trim_end(cur) == cur);
        } else {
            assert(cur =~= Seq::<char>::empty());
            assert(trim_end(cur) == cur);
        }
        assert(trim(l@) == cur);
    }
    let mut out: Vec<char> = Vec::new();
    let mut i: usize = start;
    while i < end
        invariant
            start <= i <= end <= l@.len(),
            out@.len() == i - start,
            forall|j: int| 0 <= j < out@.len() ==> out@[j] == l@[start + j],
        decreases end - i,
    {
        out.push(l[i]);
        i += 1;
    }
    proof {
        assert(out@ =~= l@.skip(start as int).take(end - start as int));
    }
    out
}

} // verus!
