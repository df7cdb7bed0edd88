//! Laws of the lexical form of zone files.
use crate::laws::names;
use crate::text;
use crate::zonefile::lexer;
use crate::zonefile::lexer::Quoting;
use crate::zonefile::render;
use vstd::prelude::*;

verus! {

// ---------------------------------------------------------------------------
// Texts outside quotes
// ---------------------------------------------------------------------------

/// Whether every quote of `s` is closed.
pub open spec fn is_closed(s: Seq<char>) -> bool {
    !lexer::quoting(s).quoted && !lexer::quoting(s).escaped
}

/// Behind a text whose quotes are closed, quotes are counted anew.
pub proof fn lemma_quoting_append(a: Seq<char>, b: Seq<char>)
    requires
        is_closed(a),
    ensures
        lexer::quoting(a + b) == lexer::quoting(b),
    decreases b.len(),
{
    if b.len() == 0 {
        assert(a + b == a);
    } else {
        lemma_quoting_append(a, b.drop_last());
        assert((a + b).drop_last() == a + b.drop_last());
        assert((a + b).last() == b.last());
    }
}

/// A text without a comment, and with its quotes closed, does not change where a comment behind it
/// starts.
pub proof fn lemma_uncommented_append(a: Seq<char>, b: Seq<char>)
    requires
        is_closed(a),
        lexer::uncommented(a) == a,
    ensures
        lexer::uncommented(a + b) == a + lexer::uncommented(b),
    decreases b.len(),
{
    if b.len() == 0 {
        assert(a + b == a);
    } else {
        let init = b.drop_last();
        lemma_uncommented_append(a, init);
        lemma_quoting_append(a, init);
        assert((a + b).drop_last() == a + init);
        assert((a + b).last() == b.last());
        lemma_uncommented_len(b);
        lemma_uncommented_len(init);
        if lexer::uncommented(b) == b {
            assert(a + b == a + lexer::uncommented(b));
        }
    }
}

/// A text without its comment is no longer than the text.
proof fn lemma_uncommented_len(s: Seq<char>)
    ensures
        lexer::uncommented(s).len() <= s.len(),
        lexer::uncommented(s).len() == s.len() ==> lexer::uncommented(s) == s,
    decreases s.len(),
{
    if s.len() > 0 {
        lemma_uncommented_len(s.drop_last());
    }
}

/// The tokens of two texts with a space between them, where the quotes of the first are closed: those
/// of the first and those of the second.
pub proof fn lemma_tokens_append(a: Seq<char>, b: Seq<char>)
    requires
        is_closed(a),
    ensures
        is_closed(a + " "@),
        lexer::tokens_of(a + " "@ + b) == match lexer::tokens_of(b) {
            Some(t) => Some(lexer::tokens_of(a).unwrap() + t),
            None => None,
        },
{
    reveal_strlit(" ");
    assert(a + " "@ == a.push(' '));
    assert(a.push(' ').drop_last() == a);
    assert(is_closed(a.push(' ')));
    lemma_quoting_append(a.push(' '), b);
    lemma_token_scan_append(a, b);
    let head = lexer::tokens_of(a).unwrap();
    let (done, current) = lexer::token_scan(b);
    assert((head + done).push(current) == head + done.push(current));
}

/// A scan for tokens over a text, a space and another text.
proof fn lemma_token_scan_append(a: Seq<char>, b: Seq<char>)
    requires
        is_closed(a),
    ensures
        lexer::token_scan(a.push(' ') + b) == (
            lexer::tokens_of(a).unwrap() + lexer::token_scan(b).0,
            lexer::token_scan(b).1,
        ),
    decreases b.len(),
{
    let s = a.push(' ') + b;
    let head = lexer::tokens_of(a).unwrap();
    assert(a.push(' ').drop_last() == a);
    assert(is_closed(a.push(' ')));
    if b.len() == 0 {
        assert(s == a.push(' '));
        assert(head + Seq::<Seq<char>>::empty() == head);
    } else {
        let init = b.drop_last();
        lemma_token_scan_append(a, init);
        lemma_quoting_append(a.push(' '), init);
        assert(s.drop_last() == a.push(' ') + init);
        assert(s.last() == b.last());
        let (done, current) = lexer::token_scan(init);
        assert((head + done).push(current) == head + done.push(current));
    }
}

/// Whether `s` is a word that has no meaning beyond itself: no white space, quote or semicolon.
pub open spec fn is_plain_word(s: Seq<char>) -> bool {
    s.len() > 0 && forall|i: int|
        0 <= i < s.len() ==> !text::is_space(#[trigger] s[i]) && s[i] != '"' && s[i] != ';'
}

/// A plain word is one token, without a comment.
pub proof fn lemma_plain_word(s: Seq<char>)
    requires
        is_plain_word(s),
    ensures
        is_closed(s),
        lexer::tokens_of(s) == Some(seq![s]),
        lexer::uncommented(s) == s,
{
    lemma_plain_scan(s);
    assert(Seq::<Seq<char>>::empty().push(s) == seq![s]);
}

/// A scan over the characters of a plain word.
proof fn lemma_plain_scan(s: Seq<char>)
    requires
        forall|i: int|
            0 <= i < s.len() ==> !text::is_space(#[trigger] s[i]) && s[i] != '"' && s[i] != ';',
    ensures
        is_closed(s),
        lexer::token_scan(s) == (Seq::<Seq<char>>::empty(), s),
        lexer::uncommented(s) == s,
    decreases s.len(),
{
    if s.len() > 0 {
        let init = s.drop_last();
        assert forall|i: int| 0 <= i < init.len() implies !text::is_space(#[trigger] init[i])
            && init[i] != '"' && init[i] != ';' by {
            assert(init[i] == s[i]);
        }
        lemma_plain_scan(init);
        let c = s[s.len() - 1];
        assert(!text::is_space(c) && c != '"' && c != ';');
        assert(init.push(c) == s);
    } else {
        assert(s == Seq::<char>::empty());
    }
}

/// Without quotes, tokens are words.
pub proof fn lemma_tokens_without_quotes(s: Seq<char>)
    requires
        names::free_of(s, '"'),
    ensures
        is_closed(s),
        lexer::token_scan(s) == text::word_scan(s),
        lexer::tokens_of(s) == Some(text::words_of(s)),
    decreases s.len(),
{
    if s.len() > 0 {
        let init = s.drop_last();
        assert forall|i: int| 0 <= i < init.len() implies #[trigger] init[i] != '"' by {
            assert(init[i] == s[i]);
        }
        lemma_tokens_without_quotes(init);
        assert(s[s.len() - 1] != '"');
    }
}

// ---------------------------------------------------------------------------
// Quoted texts
// ---------------------------------------------------------------------------

/// `c` as it stands inside quotes.
pub open spec fn quoted_char(c: char) -> Seq<char> {
    if c == '\\' {
        seq!['\\', '\\']
    } else if c == '"' {
        seq!['\\', '"']
    } else {
        seq![c]
    }
}

/// `s` as it stands inside quotes, character by character.
pub open spec fn quoted_chars(s: Seq<char>) -> Seq<char>
    decreases s.len(),
{
    if s.len() == 0 {
        s
    } else {
        quoted_chars(s.drop_last()) + quoted_char(s.last())
    }
}

/// Replacing one character in two texts is replacing it in each.
proof fn lemma_replaced_append(a: Seq<char>, b: Seq<char>, c: char, with: Seq<char>)
    ensures
        text::replaced(a + b, seq![c], with) == text::replaced(a, seq![c], with) + text::replaced(
            b,
            seq![c],
            with,
        ),
    decreases a.len(),
{
    let pat = seq![c];
    if a.len() == 0 {
        assert(a + b == b);
        assert(text::replaced(a, pat, with) + text::replaced(b, pat, with) == text::replaced(
            b,
            pat,
            with,
        ));
    } else {
        let s = a + b;
        let tail = a.drop_first();
        lemma_replaced_append(tail, b, c, with);
        assert(s.drop_first() == tail + b);
        assert(s.skip(1) == s.drop_first());
        assert(a.skip(1) == tail);
        assert(pat.is_prefix_of(s) <==> s[0] == c) by {
            assert(s.subrange(0, 1) =~= seq![s[0]]);
            assert(pat[0] == c);
        }
        assert(pat.is_prefix_of(a) <==> a[0] == c) by {
            assert(a.subrange(0, 1) =~= seq![a[0]]);
            assert(pat[0] == c);
        }
        let ra = text::replaced(tail, pat, with);
        let rb = text::replaced(b, pat, with);
        assert(with + (ra + rb) == (with + ra) + rb);
        assert(seq![a[0]] + (ra + rb) == (seq![a[0]] + ra) + rb);
    }
}

/// Replacing a character in one character.
proof fn lemma_replaced_single(x: char, c: char, with: Seq<char>)
    ensures
        text::replaced(seq![x], seq![c], with) == if x == c {
            with
        } else {
            seq![x]
        },
{
    let s = seq![x];
    reveal_with_fuel(text::replaced, 2);
    assert(s.subrange(0, 1) =~= seq![x]);
    assert(seq![c][0] == c);
    assert(s.skip(1) == Seq::<char>::empty());
    assert(s.drop_first() == Seq::<char>::empty());
    assert(with + Seq::<char>::empty() == with);
    assert(seq![x] + Seq::<char>::empty() == seq![x]);
}

/// Escaping backslashes and then quotes is escaping character by character.
proof fn lemma_replaced_is_quoted(s: Seq<char>)
    ensures
        text::replaced(
            text::replaced(s, seq!['\\'], seq!['\\', '\\']),
            seq!['"'],
            seq!['\\', '"'],
        ) == quoted_chars(s),
    decreases s.len(),
{
    let slash = seq!['\\', '\\'];
    let quote = seq!['\\', '"'];
    if s.len() == 0 {
        assert(s == Seq::<char>::empty());
    } else {
        let init = s.drop_last();
        let c = s.last();
        lemma_replaced_is_quoted(init);
        assert(s == init + seq![c]);
        lemma_replaced_append(init, seq![c], '\\', slash);
        lemma_replaced_single(c, '\\', slash);
        let first = text::replaced(init, seq!['\\'], slash);
        let second = text::replaced(seq![c], seq!['\\'], slash);
        lemma_replaced_append(first, second, '"', quote);
        if c == '\\' {
            assert(slash == seq!['\\'] + seq!['\\']);
            lemma_replaced_append(seq!['\\'], seq!['\\'], '"', quote);
            lemma_replaced_single('\\', '"', quote);
        } else {
            lemma_replaced_single(c, '"', quote);
        }
    }
}

/// A quoted text is the escaped characters in quotes.
pub proof fn lemma_quoted_text(s: Seq<char>)
    ensures
        render::quoted_text(s) == seq!['"'] + quoted_chars(s) + seq!['"'],
{
    reveal_strlit("\"");
    reveal_strlit("\\");
    reveal_strlit("\\\\");
    reveal_strlit("\\\"");
    assert("\""@ =~= seq!['"']);
    assert("\\"@ =~= seq!['\\']);
    assert("\\\\"@ =~= seq!['\\', '\\']);
    assert("\\\""@ =~= seq!['\\', '"']);
    lemma_replaced_is_quoted(s);
}

/// A scan inside a quoted text has read the characters that were escaped.
proof fn lemma_scan_inside_quotes(s: Seq<char>)
    ensures
        ({
            let t = seq!['"'] + quoted_chars(s);
            &&& lexer::quoting(t) == (Quoting { quoted: true, escaped: false })
            &&& lexer::token_scan(t) == (Seq::<Seq<char>>::empty(), s)
            &&& lexer::uncommented(t) == t
        }),
    decreases s.len(),
{
    let t = seq!['"'] + quoted_chars(s);
    if s.len() == 0 {
        let empty = Seq::<char>::empty();
        assert(s == empty);
        assert(t =~= seq!['"']);
        assert(t.drop_last() == empty);
        assert(lexer::quoting(empty) == (Quoting { quoted: false, escaped: false }));
        assert(lexer::token_scan(empty) == (Seq::<Seq<char>>::empty(), empty));
        assert(lexer::uncommented(empty) == empty);
    } else {
        let init = s.drop_last();
        let c = s.last();
        let before = seq!['"'] + quoted_chars(init);
        lemma_scan_inside_quotes(init);
        assert(init.push(c) == s);
        if c == '\\' || c == '"' {
            let half = before.push('\\');
            assert(half.drop_last() == before);
            assert(lexer::quoting(half) == (Quoting { quoted: true, escaped: true }));
            assert(lexer::token_scan(half) == (Seq::<Seq<char>>::empty(), init));
            assert(lexer::uncommented(half) == half);
            assert(t =~= half.push(c));
            assert(t.drop_last() == half);
        } else {
            assert(t =~= before.push(c));
            assert(t.drop_last() == before);
        }
    }
}

/// A quoted text is one token, the text itself, without a comment.
pub proof fn lemma_quoted_text_is_token(s: Seq<char>)
    requires
        s.len() > 0,
    ensures
        is_closed(render::quoted_text(s)),
        lexer::tokens_of(render::quoted_text(s)) == Some(seq![s]),
        lexer::uncommented(render::quoted_text(s)) == render::quoted_text(s),
{
    lemma_quoted_text(s);
    lemma_scan_inside_quotes(s);
    let t = seq!['"'] + quoted_chars(s);
    let whole = render::quoted_text(s);
    assert(whole =~= t.push('"'));
    assert(whole.drop_last() == t);
    assert(Seq::<Seq<char>>::empty().push(s) == seq![s]);
}

/// A character that needs no escape stands in a quoted text only where it stood before.
pub proof fn lemma_quoted_text_free(s: Seq<char>, c: char)
    requires
        names::free_of(s, c),
        c != '"',
        c != '\\',
    ensures
        names::free_of(render::quoted_text(s), c),
{
    lemma_quoted_text(s);
    lemma_quoted_chars_free(s, c);
    let whole = render::quoted_text(s);
    let mid = quoted_chars(s);
    assert forall|i: int| 0 <= i < whole.len() implies #[trigger] whole[i] != c by {
        if 0 < i < whole.len() - 1 {
            assert(whole[i] == mid[i - 1]);
        }
    }
}

/// Escaping adds only backslashes.
proof fn lemma_quoted_chars_free(s: Seq<char>, c: char)
    requires
        names::free_of(s, c),
        c != '"',
        c != '\\',
    ensures
        names::free_of(quoted_chars(s), c),
    decreases s.len(),
{
    if s.len() > 0 {
        let init = s.drop_last();
        assert forall|i: int| 0 <= i < init.len() implies #[trigger] init[i] != c by {
            assert(init[i] == s[i]);
        }
        lemma_quoted_chars_free(init, c);
        assert(s[s.len() - 1] != c);
        let head = quoted_chars(init);
        let e = quoted_char(s.last());
        let t = quoted_chars(s);
        assert forall|i: int| 0 <= i < t.len() implies #[trigger] t[i] != c by {
            if i < head.len() {
                assert(t[i] == head[i]);
            } else {
                assert(t[i] == e[i - head.len()]);
            }
        }
    }
}

// ---------------------------------------------------------------------------
// Parentheses
// ---------------------------------------------------------------------------

/// Whether `s` holds no parenthesis.
pub open spec fn no_parens(s: Seq<char>) -> bool {
    names::free_of(s, '(') && names::free_of(s, ')')
}

/// A text without parentheses is balanced and stays as it is where parentheses are blanked.
pub proof fn lemma_no_parens(s: Seq<char>)
    requires
        no_parens(s),
    ensures
        lexer::paren_balance(s) == 0,
        lexer::without_parens(s) == s,
    decreases s.len(),
{
    assert(lexer::without_parens(s) =~= s);
    if s.len() > 0 {
        let init = s.drop_last();
        assert(no_parens(init)) by {
            assert forall|i: int| 0 <= i < init.len() implies #[trigger] init[i] != '(' && init[i]
                != ')' by {
                assert(init[i] == s[i]);
            }
        }
        lemma_no_parens(init);
        assert(s[s.len() - 1] != '(' && s[s.len() - 1] != ')');
    }
}

// ---------------------------------------------------------------------------
// Lines
// ---------------------------------------------------------------------------

/// The text that has the lines `lines`, each ended by a line feed.
pub open spec fn unlines(lines: Seq<Seq<char>>) -> Seq<char>
    decreases lines.len(),
{
    if lines.len() == 0 {
        Seq::<char>::empty()
    } else {
        unlines(lines.drop_last()) + lines.last() + "\n"@
    }
}

/// Characters behind a text that are no separators go on its last field.
proof fn lemma_fields_extend(a: Seq<char>, b: Seq<char>, sep: char)
    requires
        names::free_of(b, sep),
    ensures
        text::fields(a + b, sep) == text::fields(a, sep).drop_last().push(
            text::fields(a, sep).last() + b,
        ),
    decreases b.len(),
{
    text::lemma_fields_nonempty(a, sep);
    let parts = text::fields(a, sep);
    if b.len() == 0 {
        assert(a + b == a);
        assert(parts.last() + b == parts.last());
        assert(parts.drop_last().push(parts.last()) == parts);
    } else {
        let init = b.drop_last();
        assert forall|i: int| 0 <= i < init.len() implies #[trigger] init[i] != sep by {
            assert(init[i] == b[i]);
        }
        lemma_fields_extend(a, init, sep);
        assert((a + b).drop_last() == a + init);
        assert((a + b).last() == b.last());
        assert(b[b.len() - 1] != sep);
        assert((parts.last() + init).push(b.last()) == parts.last() + b);
        let before = parts.drop_last().push(parts.last() + init);
        assert(before.drop_last() == parts.drop_last());
    }
}

/// The fields between the line feeds of a text with given lines are the lines, and nothing behind the
/// last.
proof fn lemma_fields_of_unlines(lines: Seq<Seq<char>>)
    requires
        forall|i: int| 0 <= i < lines.len() ==> names::free_of(#[trigger] lines[i], '\n'),
    ensures
        text::fields(unlines(lines), '\n') == lines.push(Seq::<char>::empty()),
    decreases lines.len(),
{
    reveal_strlit("\n");
    let empty = Seq::<char>::empty();
    if lines.len() == 0 {
        assert(lines.push(empty) =~= seq![empty]);
    } else {
        let init = lines.drop_last();
        let last = lines.last();
        assert forall|i: int| 0 <= i < init.len() implies names::free_of(
            #[trigger] init[i],
            '\n',
        ) by {
            assert(init[i] == lines[i]);
        }
        lemma_fields_of_unlines(init);
        assert(names::free_of(lines[lines.len() - 1], '\n'));
        let head = unlines(init);
        lemma_fields_extend(head, last, '\n');
        assert(init.push(empty).drop_last() == init);
        assert(empty + last == last);
        assert(text::fields(head + last, '\n') == init.push(last));
        let s = unlines(lines);
        assert(s =~= (head + last).push('\n'));
        assert(s.drop_last() == head + last);
        assert(init.push(last) == lines);
    }
}

/// The lines of a text with given lines are the lines, where none holds a line feed or ends in a
/// carriage return.
pub proof fn lemma_lines_of_unlines(lines: Seq<Seq<char>>)
    requires
        forall|i: int|
            0 <= i < lines.len() ==> names::free_of(#[trigger] lines[i], '\n')
                && text::without_cr(lines[i]) == lines[i],
    ensures
        text::lines_of(unlines(lines)) == lines,
{
    lemma_fields_of_unlines(lines);
    let parts = lines.push(Seq::<char>::empty());
    assert(parts.drop_last() == lines);
    assert(lines.map_values(|p: Seq<char>| text::without_cr(p)) =~= lines);
}

/// Whether a line is read as it stands: not blank, without white space at its ends, comments,
/// parentheses and line feeds.
pub open spec fn is_clean_line(line: Seq<char>) -> bool {
    &&& line.len() > 0
    &&& names::is_trimmed(line)
    &&& lexer::uncommented(line) == line
    &&& no_parens(line)
    &&& names::free_of(line, '\n')
}

/// The logical lines that clean lines give: themselves.
pub open spec fn as_logical(lines: Seq<Seq<char>>, from: int) -> Seq<lexer::LogicalLineModel> {
    Seq::new(
        lines.len(),
        |i: int|
            lexer::LogicalLineModel { text: lines[i], leading_space: false, line_no: from + i },
    )
}

/// Clean lines are read one by one.
proof fn lemma_read_clean_lines(st: lexer::LineScan, lines: Seq<Seq<char>>, line_no: int)
    requires
        forall|i: int| 0 <= i < lines.len() ==> is_clean_line(#[trigger] lines[i]),
        st.open.len() == 0,
        st.depth == 0,
    ensures
        lexer::read_lines(st, lines, line_no) matches Ok(last) && last.open.len() == 0 && last.done
            == st.done + as_logical(lines, line_no),
    decreases lines.len(),
{
    if lines.len() == 0 {
        assert(st.done + as_logical(lines, line_no) =~= st.done);
    } else {
        let line = lines[0];
        assert(is_clean_line(lines[0]));
        names::lemma_trim_trimmed(line);
        lemma_no_parens(line);
        let rest = lines.drop_first();
        let model = lexer::LogicalLineModel { text: line, leading_space: false, line_no };
        match lexer::read_line(st, line, line_no) {
            Ok(next) => {
                assert(next.done == st.done.push(model));
                assert(next.open.len() == 0);
                assert forall|i: int| 0 <= i < rest.len() implies is_clean_line(
                    #[trigger] rest[i],
                ) by {
                    assert(rest[i] == lines[i + 1]);
                }
                lemma_read_clean_lines(next, rest, line_no + 1);
                assert(st.done.push(model) + as_logical(rest, line_no + 1) =~= st.done
                    + as_logical(lines, line_no)) by {
                    let a = st.done.push(model) + as_logical(rest, line_no + 1);
                    let b = st.done + as_logical(lines, line_no);
                    assert(a.len() == b.len());
                    assert forall|i: int| 0 <= i < a.len() implies a[i] == b[i] by {
                        if i > st.done.len() {
                            assert(rest[i - st.done.len() - 1] == lines[i - st.done.len()]);
                        }
                    }
                }
            },
            Err(_) => {},
        }
    }
}

/// The logical lines of a text with clean lines are its lines.
pub proof fn lemma_logical_lines_of_clean(lines: Seq<Seq<char>>)
    requires
        forall|i: int| 0 <= i < lines.len() ==> is_clean_line(#[trigger] lines[i]),
    ensures
        lexer::logical_lines_of(unlines(lines)) == Ok::<
            Seq<lexer::LogicalLineModel>,
            Seq<char>,
        >(as_logical(lines, 1)),
{
    assert forall|i: int| 0 <= i < lines.len() implies names::free_of(#[trigger] lines[i], '\n')
        && text::without_cr(lines[i]) == lines[i] by {
        assert(is_clean_line(lines[i]));
        assert(text::is_space('\r'));
    }
    lemma_lines_of_unlines(lines);
    lemma_read_clean_lines(lexer::first_scan(), lines, 1);
    assert(lexer::first_scan().done + as_logical(lines, 1) =~= as_logical(lines, 1));
}

} // verus!
