//! How the text of a zone file falls into logical lines: quotes, comments and parentheses.
use crate::digits;
use crate::laws::letters;
use crate::laws::lexical;
use crate::laws::stored;
use crate::text;
use crate::zonefile::lexer;
use crate::zonefile::lexer::{LineScan, LogicalLineModel};
use vstd::prelude::*;

verus! {

// ---------------------------------------------------------------------------
// Quotes
// ---------------------------------------------------------------------------

/// A quote opens and closes; behind a backslash inside quotes the next character counts for nothing;
/// every other character leaves quotes open or closed.
pub proof fn lemma_quoting_means(s: Seq<char>, c: char)
    ensures
        !lexer::quoting(Seq::<char>::empty()).quoted && !lexer::quoting(
            Seq::<char>::empty(),
        ).escaped,
        ({
            let before = lexer::quoting(s);
            let after = lexer::quoting(s.push(c));
            &&& before.escaped ==> before.quoted && after.quoted && !after.escaped
            &&& !before.escaped ==> {
                &&& after.escaped <==> before.quoted && c == '\\'
                &&& after.quoted <==> (before.quoted != (c == '"'))
            }
        }),
{
    assert(s.push(c).drop_last() =~= s);
    lexer::lemma_escaped_is_quoted(s);
}

/// A character between quotes is quoted: behind text with its quotes closed, a quote and some text
/// without quotes and backslashes, a quote is open.
pub proof fn lemma_between_quotes(a: Seq<char>, t: Seq<char>)
    requires
        lexical::is_closed(a),
        forall|i: int| 0 <= i < t.len() ==> #[trigger] t[i] != '"' && t[i] != '\\',
    ensures
        lexer::quoting(a + seq!['"'] + t).quoted,
        !lexer::quoting(a + seq!['"'] + t).escaped,
        lexical::is_closed(a + seq!['"'] + t + seq!['"']),
    decreases t.len(),
{
    let s = a + seq!['"'] + t;
    lexer::lemma_escaped_is_quoted(a);
    if t.len() == 0 {
        assert(s =~= a.push('"'));
        lemma_quoting_means(a, '"');
    } else {
        let init = t.drop_last();
        assert forall|i: int| 0 <= i < init.len() implies #[trigger] init[i] != '"' && init[i]
            != '\\' by {
            assert(init[i] == t[i]);
        }
        lemma_between_quotes(a, init);
        assert(t[t.len() - 1] != '"' && t[t.len() - 1] != '\\');
        assert(s =~= (a + seq!['"'] + init).push(t.last()));
        lemma_quoting_means(a + seq!['"'] + init, t.last());
    }
    assert(s + seq!['"'] =~= s.push('"'));
    lemma_quoting_means(s, '"');
}

// ---------------------------------------------------------------------------
// Comments
// ---------------------------------------------------------------------------

/// Whether a comment starts at `k`: there stands the first semicolon outside quotes, or the end.
pub open spec fn comment_at(s: Seq<char>, k: int) -> bool {
    &&& 0 <= k <= s.len()
    &&& k < s.len() ==> s[k] == ';' && !lexer::quoting(s.take(k)).quoted
    &&& forall|j: int| 0 <= j < k && #[trigger] s[j] == ';' ==> lexer::quoting(s.take(j)).quoted
}

/// A line without its comment is the line up to the first semicolon outside quotes.
pub proof fn lemma_uncommented_means(s: Seq<char>)
    ensures
        comment_at(s, lexer::uncommented(s).len() as int),
        lexer::uncommented(s) == s.take(lexer::uncommented(s).len() as int),
    decreases s.len(),
{
    let out = lexer::uncommented(s);
    if s.len() > 0 {
        let init = s.drop_last();
        lemma_uncommented_means(init);
        let before = lexer::uncommented(init);
        let n = before.len() as int;
        assert forall|j: int| 0 <= j <= init.len() implies init.take(j) =~= #[trigger] s.take(j) by {}
        if n < init.len() {
            assert(init[n] == s[n]);
            assert(s.take(n) == init.take(n));
            assert forall|j: int| 0 <= j < n && #[trigger] s[j] == ';' implies lexer::quoting(
                s.take(j),
            ).quoted by {
                assert(init[j] == s[j]);
                assert(s.take(j) == init.take(j));
            }
        } else {
            assert(init.take(n) =~= init);
            assert(s.take(n) =~= init);
            assert forall|j: int| 0 <= j < n && #[trigger] s[j] == ';' implies lexer::quoting(
                s.take(j),
            ).quoted by {
                assert(init[j] == s[j]);
                assert(s.take(j) == init.take(j));
            }
            assert(s.take(s.len() as int) =~= s);
        }
    } else {
        assert(s.take(0) =~= s);
    }
}

// ---------------------------------------------------------------------------
// Parentheses
// ---------------------------------------------------------------------------

/// An opening parenthesis outside quotes counts one up, a closing one counts one down, and nothing else
/// counts.
pub proof fn lemma_balance_means(s: Seq<char>, c: char)
    ensures
        lexer::paren_balance(Seq::<char>::empty()) == 0,
        lexer::paren_balance(s.push(c)) == lexer::paren_balance(s) + if lexer::quoting(s).quoted {
            0int
        } else if c == '(' {
            1
        } else if c == ')' {
            -1
        } else {
            0
        },
{
    assert(s.push(c).drop_last() =~= s);
}

/// The text that a line adds: without its comment, with spaces for parentheses, and without white space
/// at its ends.
pub open spec fn content_of(raw: Seq<char>) -> Seq<char> {
    text::trimmed(lexer::without_parens(lexer::uncommented(raw)))
}

/// The texts that lines add.
pub open spec fn contents(lines: Seq<Seq<char>>) -> Seq<Seq<char>> {
    lines.map_values(|l: Seq<char>| content_of(l))
}

/// How many parentheses are open behind the first `k` lines.
pub open spec fn depth_behind(lines: Seq<Seq<char>>, k: int) -> int
    decreases k,
{
    if k <= 0 {
        0
    } else {
        depth_behind(lines, k - 1) + lexer::paren_balance(lexer::uncommented(lines[k - 1]))
    }
}

/// A parenthesis becomes a space, and every other character stays.
pub proof fn lemma_without_parens_means(s: Seq<char>)
    ensures
        lexer::without_parens(s).len() == s.len(),
        forall|i: int|
            0 <= i < s.len() ==> #[trigger] lexer::without_parens(s)[i] == if s[i] == '(' || s[i]
                == ')' {
                ' '
            } else {
                s[i]
            },
{
}

/// A line that is blank once its comment is gone changes nothing, whether parentheses are open or not.
pub proof fn lemma_blank_line(st: LineScan, raw: Seq<char>, line_no: int)
    requires
        letters::is_blank(lexer::uncommented(raw)),
    ensures
        lexer::read_line(st, raw, line_no) == Ok::<LineScan, Seq<char>>(st),
{
    let line = lexer::uncommented(raw);
    let t = text::trimmed(line);
    letters::lemma_trimmed_means(line);
    let (a, b) = choose|a: Seq<char>, b: Seq<char>|
        letters::is_blank(a) && letters::is_blank(b) && line == #[trigger] (a + t + b);
    if t.len() > 0 {
        assert(line[a.len() as int] == t[0]);
    }
}

/// A closing parenthesis that none opened is reported with the line.
pub proof fn lemma_unmatched(st: LineScan, raw: Seq<char>, line_no: int)
    requires
        text::trimmed(lexer::uncommented(raw)).len() > 0,
        st.depth + lexer::paren_balance(lexer::uncommented(raw)) < 0,
    ensures
        lexer::read_line(st, raw, line_no) == Err::<LineScan, Seq<char>>(
            lexer::at_line(line_no, "unmatched ')'"@),
        ),
{
}

/// Whether `lines` belong together: none of them is blank, the first adds text, and parentheses are open
/// behind each of them but the last.
pub open spec fn is_block(lines: Seq<Seq<char>>) -> bool {
    &&& lines.len() > 0
    &&& content_of(lines[0]).len() > 0
    &&& forall|i: int|
        0 <= i < lines.len() ==> text::trimmed(#[trigger] lexer::uncommented(lines[i])).len() > 0
    &&& forall|k: int| 0 < k < lines.len() ==> #[trigger] depth_behind(lines, k) > 0
}

/// Where the reading stands behind the first `k` lines of a block that starts at the line `line_no`.
pub open spec fn inside(
    done: Seq<LogicalLineModel>,
    lines: Seq<Seq<char>>,
    k: int,
    line_no: int,
) -> LineScan {
    LineScan {
        done,
        open: stored::spaced(contents(lines.take(k))),
        start: line_no,
        leading_space: starts_blank(lines[0]),
        depth: depth_behind(lines, k),
    }
}

/// Whether a line starts with white space.
pub open spec fn starts_blank(raw: Seq<char>) -> bool {
    lexer::uncommented(raw).len() > 0 && text::is_space(lexer::uncommented(raw)[0])
}

/// A text in front of others is a part of them.
proof fn lemma_spaced_not_empty(parts: Seq<Seq<char>>)
    requires
        parts.len() > 0,
        parts[0].len() > 0,
    ensures
        stored::spaced(parts).len() > 0,
{
}

/// Inside a block the reading collects the lines.
proof fn lemma_inside(
    st: LineScan,
    lines: Seq<Seq<char>>,
    k: int,
    line_no: int,
)
    requires
        st.open.len() == 0,
        st.depth == 0,
        is_block(lines),
        0 < k < lines.len(),
    ensures
        lexer::read_lines(st, lines.take(k), line_no) == Ok::<LineScan, Seq<char>>(
            inside(st.done, lines, k, line_no),
        ),
    decreases k,
{
    let raw = lines[k - 1];
    assert(text::trimmed(lexer::uncommented(lines[k - 1])).len() > 0);
    assert(depth_behind(lines, k) > 0);
    let front = lines.take(k - 1);
    assert(lines.take(k) =~= front.push(raw));
    assert(contents(lines.take(k)) =~= contents(front).push(content_of(raw)));
    if k == 1 {
        assert(front =~= Seq::<Seq<char>>::empty());
        assert(lines.take(1) =~= seq![raw]);
        assert(contents(lines.take(1)) =~= seq![content_of(raw)]);
        assert(depth_behind(lines, 0) == 0);
        lemma_read_push(st, front, raw, line_no);
        assert(lexer::read_lines(st, front, line_no) == Ok::<LineScan, Seq<char>>(st));
    } else {
        lemma_inside(st, lines, k - 1, line_no);
        lemma_read_push(st, front, raw, line_no);
        stored::lemma_spaced_push(contents(front), content_of(raw));
        assert(contents(front)[0] == content_of(lines[0]));
        lemma_spaced_not_empty(contents(front));
    }
}

/// Reading one line more is reading the lines and then it.
pub proof fn lemma_read_push(st: LineScan, lines: Seq<Seq<char>>, raw: Seq<char>, line_no: int)
    ensures
        lexer::read_lines(st, lines.push(raw), line_no) == match lexer::read_lines(
            st,
            lines,
            line_no,
        ) {
            Ok(mid) => lexer::read_line(mid, raw, line_no + lines.len()),
            Err(e) => Err::<LineScan, Seq<char>>(e),
        },
    decreases lines.len(),
{
    let all = lines.push(raw);
    if lines.len() == 0 {
        assert(all.drop_first() =~= Seq::<Seq<char>>::empty());
        if let Ok(next) = lexer::read_line(st, raw, line_no) {
            assert(lexer::read_lines(next, Seq::<Seq<char>>::empty(), line_no + 1) == Ok::<
                LineScan,
                Seq<char>,
            >(next));
        }
    } else {
        assert(all[0] == lines[0]);
        assert(all.drop_first() =~= lines.drop_first().push(raw));
        if let Ok(next) = lexer::read_line(st, lines[0], line_no) {
            lemma_read_push(next, lines.drop_first(), raw, line_no + 1);
        }
    }
}

/// A record in parentheses is one logical line: what the lines add, with spaces between, under the number
/// of the first line. Where the parentheses stay open, the record stays open.
pub proof fn lemma_parenthesized(st: LineScan, lines: Seq<Seq<char>>, line_no: int)
    requires
        st.open.len() == 0,
        st.depth == 0,
        is_block(lines),
    ensures
        depth_behind(lines, lines.len() as int) == 0 ==> {
            &&& lexer::read_lines(st, lines, line_no) matches Ok(end) && end.open.len() == 0
                && end.depth == 0 && end.done == st.done.push(
                LogicalLineModel {
                    text: text::trimmed(stored::spaced(contents(lines))),
                    leading_space: starts_blank(lines[0]),
                    line_no,
                },
            )
        },
        depth_behind(lines, lines.len() as int) > 0 ==> {
            &&& lexer::read_lines(st, lines, line_no) matches Ok(end) && end.open.len() > 0
                && end.start == line_no && end.done == st.done
        },
{
    let k = lines.len() as int;
    let front = lines.take(k - 1);
    let raw = lines[k - 1];
    assert(text::trimmed(lexer::uncommented(lines[k - 1])).len() > 0);
    assert(lines =~= front.push(raw));
    assert(contents(lines) =~= contents(front).push(content_of(raw)));
    lemma_read_push(st, front, raw, line_no);
    if k == 1 {
        assert(front =~= Seq::<Seq<char>>::empty());
        assert(lexer::read_lines(st, front, line_no) == Ok::<LineScan, Seq<char>>(st));
        assert(contents(lines) =~= seq![content_of(raw)]);
        assert(depth_behind(lines, 0) == 0);
        assert(depth_behind(lines, 1) == lexer::paren_balance(lexer::uncommented(raw)));
    } else {
        lemma_inside(st, lines, k - 1, line_no);
        stored::lemma_spaced_push(contents(front), content_of(raw));
        assert(contents(front)[0] == content_of(lines[0]));
        lemma_spaced_not_empty(contents(front));
        lemma_spaced_not_empty(contents(lines));
    }
}

/// A file whose lines belong together and close their parentheses is one logical line; one that leaves
/// them open is refused with the number of the line that opened them.
pub proof fn lemma_file_of_one_record(input: Seq<char>)
    requires
        is_block(text::lines_of(input)),
    ensures
        ({
            let lines = text::lines_of(input);
            let depth = depth_behind(lines, lines.len() as int);
            &&& depth == 0 ==> lexer::logical_lines_of(input) == Ok::<
                Seq<LogicalLineModel>,
                Seq<char>,
            >(
                seq![
                    LogicalLineModel {
                        text: text::trimmed(stored::spaced(contents(lines))),
                        leading_space: starts_blank(lines[0]),
                        line_no: 1,
                    },
                ],
            )
            &&& depth > 0 ==> lexer::logical_lines_of(input) == Err::<
                Seq<LogicalLineModel>,
                Seq<char>,
            >(lexer::at_line(1, "unterminated parenthesized record"@))
        }),
{
    let lines = text::lines_of(input);
    let first = lexer::first_scan();
    lemma_parenthesized(first, lines, 1);
    if depth_behind(lines, lines.len() as int) == 0 {
        let line = LogicalLineModel {
            text: text::trimmed(stored::spaced(contents(lines))),
            leading_space: starts_blank(lines[0]),
            line_no: 1,
        };
        assert(first.done.push(line) =~= seq![line]);
    }
}

// ---------------------------------------------------------------------------
// Tokens
// ---------------------------------------------------------------------------

/// The tokens that are complete and the one that is open, one character on: white space outside quotes
/// ends a token; quotes, and the backslash before an escaped character, are left out; every other
/// character belongs to the token.
pub proof fn lemma_token_step(s: Seq<char>, c: char)
    ensures
        lexer::token_scan(Seq::<char>::empty()).0.len() == 0,
        lexer::token_scan(Seq::<char>::empty()).1.len() == 0,
        ({
            let (done, current) = lexer::token_scan(s);
            let q = lexer::quoting(s);
            let (after, open) = lexer::token_scan(s.push(c));
            let ends = !q.quoted && text::is_space(c);
            let left_out = !q.escaped && (c == '"' || (q.quoted && c == '\\'));
            &&& ends && current.len() > 0 ==> after == done.push(current) && open.len() == 0
            &&& ends && current.len() == 0 ==> after == done && open == current
            &&& left_out ==> after == done && open == current
            &&& !ends && !left_out ==> after == done && open == current.push(c)
        }),
{
    assert(s.push(c).drop_last() =~= s);
    lexer::lemma_escaped_is_quoted(s);
}

/// The tokens of a text are those that are complete and the one that is open at its end; a text that
/// ends inside quotes has none, and its words are taken for values.
pub proof fn lemma_tokens_mean(s: Seq<char>)
    ensures
        lexer::quoting(s).quoted ==> lexer::tokens_of(s) is None && lexer::tokens_or_words(s)
            == text::words_of(s),
        !lexer::quoting(s).quoted ==> lexer::tokens_of(s) == Some(lexer::tokens_or_words(s)) && {
            let (done, current) = lexer::token_scan(s);
            if current.len() > 0 {
                lexer::tokens_or_words(s) == done.push(current)
            } else {
                lexer::tokens_or_words(s) == done
            }
        },
{
}

/// An error is reported behind the word `line`, the number of the line and a colon.
pub proof fn lemma_report_means(line_no: nat, message: Seq<char>)
    ensures
        lexer::at_line(line_no as int, message) == seq!['l', 'i', 'n', 'e', ' '] + digits::decimal(
            line_no,
        ) + seq![':', ' '] + message,
{
    reveal_strlit("line ");
    reveal_strlit(": ");
    assert("line "@ =~= seq!['l', 'i', 'n', 'e', ' ']);
    assert(": "@ =~= seq![':', ' ']);
}

} // verus!
