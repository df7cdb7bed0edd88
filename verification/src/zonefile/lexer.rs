//! The lexical form of zone files: comments, parentheses, quotes and tokens.
//!
//! Double quotes group characters into one token, and inside quotes a backslash takes the next
//! character as it is. A semicolon outside quotes starts a comment. A line goes on over its end
//! while a parenthesis is open.
use crate::digits;
use crate::order;
use crate::text;
use vstd::prelude::*;

verus! {

// ---------------------------------------------------------------------------
// Quotes
// ---------------------------------------------------------------------------

/// Where a scan stands: inside quotes, and there behind a backslash.
pub struct Quoting {
    pub quoted: bool,
    pub escaped: bool,
}

/// Where a scan stands behind the characters `s`.
pub open spec fn quoting(s: Seq<char>) -> Quoting
    decreases s.len(),
{
    if s.len() == 0 {
        Quoting { quoted: false, escaped: false }
    } else {
        let q = quoting(s.drop_last());
        let c = s.last();
        if q.escaped {
            Quoting { escaped: false, ..q }
        } else if c == '\\' && q.quoted {
            Quoting { escaped: true, ..q }
        } else if c == '"' {
            Quoting { quoted: !q.quoted, ..q }
        } else {
            q
        }
    }
}

/// A backslash takes effect inside quotes only.
pub proof fn lemma_escaped_is_quoted(s: Seq<char>)
    ensures
        quoting(s).escaped ==> quoting(s).quoted,
    decreases s.len(),
{
    if s.len() > 0 {
        lemma_escaped_is_quoted(s.drop_last());
    }
}

// ---------------------------------------------------------------------------
// Comments
// ---------------------------------------------------------------------------

/// `s` up to the first semicolon outside quotes.
pub open spec fn uncommented(s: Seq<char>) -> Seq<char>
    decreases s.len(),
{
    if s.len() == 0 {
        s
    } else {
        let before = uncommented(s.drop_last());
        if before.len() < s.len() - 1 || (s.last() == ';' && !quoting(s.drop_last()).quoted) {
            before
        } else {
            s
        }
    }
}

/// Once a comment has started, the rest of the line belongs to it.
proof fn lemma_comment_goes_on(s: Seq<char>, i: int)
    requires
        0 <= i <= s.len(),
        uncommented(s.take(i)).len() < i,
    ensures
        uncommented(s) == uncommented(s.take(i)),
    decreases s.len(),
{
    if i < s.len() {
        assert(s.drop_last().take(i) == s.take(i));
        lemma_comment_goes_on(s.drop_last(), i);
    } else {
        assert(s.take(i) == s);
    }
}

/// Removes the comment of a line.
pub fn strip_comment(line: &str) -> (r: String)
    ensures
        r@ == uncommented(line@),
{
    let v = text::to_chars(line);
    let mut out = String::new();
    let mut quoted = false;
    let mut escaped = false;
    let mut i: usize = 0;
    while i < v.len()
        invariant
            i <= v@.len(),
            v@ == line@,
            out@ == v@.take(i as int),
            uncommented(v@.take(i as int)) == v@.take(i as int),
            quoting(v@.take(i as int)) == (Quoting { quoted, escaped }),
            escaped ==> quoted,
        decreases v@.len() - i,
    {
        let c: char = v[i];
        assert(v@.take(i + 1).drop_last() == v@.take(i as int));
        assert(v@.take(i + 1) == v@.take(i as int).push(c));
        if escaped {
            escaped = false;
        } else if c == '\\' && quoted {
            escaped = true;
        } else if c == '"' {
            quoted = !quoted;
        } else if c == ';' && !quoted {
            proof {
                lemma_comment_goes_on(v@, i + 1);
            }
            return out;
        }
        out.push(c);
        i += 1;
    }
    assert(v@.take(v@.len() as int) == v@);
    out
}

// ---------------------------------------------------------------------------
// Parentheses
// ---------------------------------------------------------------------------

/// How many more parentheses `s` opens than it closes, outside quotes.
pub open spec fn paren_balance(s: Seq<char>) -> int
    decreases s.len(),
{
    if s.len() == 0 {
        0
    } else {
        let before = paren_balance(s.drop_last());
        if quoting(s.drop_last()).quoted {
            before
        } else if s.last() == '(' {
            before + 1
        } else if s.last() == ')' {
            before - 1
        } else {
            before
        }
    }
}

/// Counts how many more parentheses a line opens than it closes, outside quotes.
pub fn paren_delta(line: &str) -> (r: i128)
    ensures
        r == paren_balance(line@),
        -(usize::MAX as int) <= r <= usize::MAX,
{
    let v = text::to_chars(line);
    let mut quoted = false;
    let mut escaped = false;
    let mut delta: i128 = 0;
    let mut i: usize = 0;
    while i < v.len()
        invariant
            i <= v@.len(),
            quoting(v@.take(i as int)) == (Quoting { quoted, escaped }),
            escaped ==> quoted,
            delta == paren_balance(v@.take(i as int)),
            -(i as int) <= delta <= i,
        decreases v@.len() - i,
    {
        let c: char = v[i];
        assert(v@.take(i + 1).drop_last() == v@.take(i as int));
        if escaped {
            escaped = false;
        } else if c == '\\' && quoted {
            escaped = true;
        } else if c == '"' {
            quoted = !quoted;
        } else if !quoted {
            if c == '(' {
                delta += 1;
            } else if c == ')' {
                delta -= 1;
            }
        }
        i += 1;
    }
    assert(v@.take(v@.len() as int) == v@);
    delta
}

/// `c`, or a space where `c` is a parenthesis.
pub open spec fn paren_as_space(c: char) -> char {
    if c == '(' || c == ')' {
        ' '
    } else {
        c
    }
}

/// `s` with a space in place of each parenthesis.
pub open spec fn without_parens(s: Seq<char>) -> Seq<char> {
    s.map_values(|c: char| paren_as_space(c))
}

/// Puts a space in place of each parenthesis.
fn blank_parens(s: &str) -> (r: String)
    ensures
        r@ == without_parens(s@),
{
    let mut out = String::new();
    for c in it: s.chars()
        invariant
            it.seq() == s@,
            out@ == without_parens(s@.take(it.index() as int)),
    {
        let d: char = if c == '(' || c == ')' {
            ' '
        } else {
            c
        };
        out.push(d);
        proof {
            let i = it.index() as int;
            assert(s@.take(i + 1) == s@.take(i).push(c));
            assert(without_parens(s@.take(i + 1)) == without_parens(s@.take(i)).push(
                paren_as_space(c),
            ));
        }
    }
    assert(s@.take(s@.len() as int) == s@);
    out
}

// ---------------------------------------------------------------------------
// Tokens
// ---------------------------------------------------------------------------

/// The tokens of `s` that white space ends, and the token that the end of `s` cuts off.
pub open spec fn token_scan(s: Seq<char>) -> (Seq<Seq<char>>, Seq<char>)
    decreases s.len(),
{
    if s.len() == 0 {
        (Seq::<Seq<char>>::empty(), Seq::<char>::empty())
    } else {
        let (done, current) = token_scan(s.drop_last());
        let q = quoting(s.drop_last());
        let c = s.last();
        if q.escaped {
            (done, current.push(c))
        } else if (c == '\\' && q.quoted) || c == '"' {
            (done, current)
        } else if text::is_space(c) && !q.quoted {
            if current.len() > 0 {
                (done.push(current), Seq::<char>::empty())
            } else {
                (done, current)
            }
        } else {
            (done, current.push(c))
        }
    }
}

/// The tokens of `s`; nothing where a quote is left open.
pub open spec fn tokens_of(s: Seq<char>) -> Option<Seq<Seq<char>>> {
    let (done, current) = token_scan(s);
    if quoting(s).quoted {
        None
    } else if current.len() > 0 {
        Some(done.push(current))
    } else {
        Some(done)
    }
}

/// Cuts a line into tokens; `None` where a quote is left open.
pub fn tokenize(line: &str) -> (r: Option<Vec<String>>)
    ensures
        match r {
            Some(v) => tokens_of(line@) == Some(text::views(v@)),
            None => tokens_of(line@) is None,
        },
{
    let mut done: Vec<String> = Vec::new();
    let mut current = String::new();
    let mut quoted = false;
    let mut escaped = false;
    for c in it: line.chars()
        invariant
            it.seq() == line@,
            quoting(line@.take(it.index() as int)) == (Quoting { quoted, escaped }),
            escaped ==> quoted,
            token_scan(line@.take(it.index() as int)) == (text::views(done@), current@),
    {
        let ghost i = it.index() as int;
        assert(line@.take(i + 1).drop_last() == line@.take(i));
        assert(line@.take(i + 1).last() == c);
        let ghost before = text::views(done@);
        if escaped {
            current.push(c);
            escaped = false;
        } else if c == '\\' && quoted {
            escaped = true;
        } else if c == '"' {
            quoted = !quoted;
        } else if text::is_whitespace(c) && !quoted {
            if !current.as_str().is_empty() {
                done.push(current);
                assert(text::views(done@) == before.push(done@.last()@));
                current = String::new();
            }
        } else {
            current.push(c);
        }
        assert(token_scan(line@.take(i + 1)) == (text::views(done@), current@));
    }
    assert(line@.take(line@.len() as int) == line@);
    if quoted {
        return None;
    }
    let ghost before = text::views(done@);
    if !current.as_str().is_empty() {
        done.push(current);
        assert(text::views(done@) == before.push(done@.last()@));
    }
    Some(done)
}

/// The tokens of `s`, or its words where a quote is left open.
pub open spec fn tokens_or_words(s: Seq<char>) -> Seq<Seq<char>> {
    match tokens_of(s) {
        Some(tokens) => tokens,
        None => text::words_of(s),
    }
}

/// Cuts a value into tokens, or into words where a quote is left open.
pub fn words(value: &str) -> (r: Vec<String>)
    ensures
        text::views(r@) == tokens_or_words(value@),
{
    match tokenize(value) {
        Some(v) => v,
        None => text::split_whitespace(value),
    }
}

// ---------------------------------------------------------------------------
// Logical lines
// ---------------------------------------------------------------------------

/// A line of a zone file, with the lines that it goes on over.
#[derive(Debug)]
pub struct LogicalLine {
    pub text: String,
    /// Whether the first of its lines starts with white space.
    pub leading_space: bool,
    /// The number of the first of its lines.
    pub line_no: usize,
}

/// The model of [`LogicalLine`].
pub struct LogicalLineModel {
    pub text: Seq<char>,
    pub leading_space: bool,
    pub line_no: int,
}

impl View for LogicalLine {
    type V = LogicalLineModel;

    open spec fn view(&self) -> LogicalLineModel {
        LogicalLineModel {
            text: self.text@,
            leading_space: self.leading_space,
            line_no: self.line_no as int,
        }
    }
}

/// `"line "`, the number of a line, `": "` and a message.
pub open spec fn at_line(line_no: int, message: Seq<char>) -> Seq<char> {
    "line "@ + digits::decimal(line_no as nat) + ": "@ + message
}

/// Puts the number of a line in front of a message.
pub fn line_message(line_no: usize, message: &str) -> (r: String)
    ensures
        r@ == at_line(line_no as int, message@),
{
    let mut s = "line ".to_string();
    s.push_str(&digits::decimal_text(line_no as u64));
    s.push_str(": ");
    s.push_str(message);
    s
}

/// Where the reading of lines stands: the logical lines that are complete, the text of the one that
/// is open, where and how it starts, and how many parentheses are open.
pub struct LineScan {
    pub done: Seq<LogicalLineModel>,
    pub open: Seq<char>,
    pub start: int,
    pub leading_space: bool,
    pub depth: int,
}

/// Reads the line `raw`, whose number is `line_no`.
pub open spec fn read_line(st: LineScan, raw: Seq<char>, line_no: int) -> Result<
    LineScan,
    Seq<char>,
> {
    let line = uncommented(raw);
    let fresh = st.open.len() == 0;
    let start = if fresh {
        line_no
    } else {
        st.start
    };
    let leading_space = if fresh {
        line.len() > 0 && text::is_space(line[0])
    } else {
        st.leading_space
    };
    let content = text::trimmed(without_parens(line));
    let open = if fresh {
        content
    } else {
        st.open + " "@ + content
    };
    let depth = st.depth + paren_balance(line);
    if text::trimmed(line).len() == 0 {
        Ok(st)
    } else if depth < 0 {
        Err(at_line(line_no, "unmatched ')'"@))
    } else if depth == 0 {
        Ok(
            LineScan {
                done: st.done.push(
                    LogicalLineModel { text: text::trimmed(open), leading_space, line_no: start },
                ),
                open: Seq::<char>::empty(),
                start,
                leading_space,
                depth,
            },
        )
    } else {
        Ok(LineScan { done: st.done, open, start, leading_space, depth })
    }
}

/// Reads `lines`, the first of which has the number `line_no`.
pub open spec fn read_lines(st: LineScan, lines: Seq<Seq<char>>, line_no: int) -> Result<
    LineScan,
    Seq<char>,
>
    decreases lines.len(),
{
    if lines.len() == 0 {
        Ok(st)
    } else {
        match read_line(st, lines[0], line_no) {
            Ok(next) => read_lines(next, lines.drop_first(), line_no + 1),
            Err(e) => Err(e),
        }
    }
}

/// Where the reading of lines starts.
pub open spec fn first_scan() -> LineScan {
    LineScan {
        done: Seq::<LogicalLineModel>::empty(),
        open: Seq::<char>::empty(),
        start: 0,
        leading_space: false,
        depth: 0,
    }
}

/// The logical lines of a zone file, or what is wrong with its parentheses.
pub open spec fn logical_lines_of(input: Seq<char>) -> Result<Seq<LogicalLineModel>, Seq<char>> {
    match read_lines(first_scan(), text::lines_of(input), 1) {
        Ok(st) => if st.open.len() > 0 {
            Err(at_line(st.start, "unterminated parenthesized record"@))
        } else {
            Ok(st.done)
        },
        Err(e) => Err(e),
    }
}

/// Cuts a zone file into logical lines.
pub fn logical_lines(input: &str) -> (r: Result<Vec<LogicalLine>, String>)
    ensures
        match r {
            Ok(v) => logical_lines_of(input@) == Ok::<Seq<LogicalLineModel>, Seq<char>>(
                order::models(v@),
            ),
            Err(e) => logical_lines_of(input@) == Err::<Seq<LogicalLineModel>, Seq<char>>(e@),
        },
{
    let lines = text::lines(input);
    let ghost all = text::lines_of(input@);
    let mut done: Vec<LogicalLine> = Vec::new();
    let mut buf = String::new();
    let mut start_line: usize = 0;
    let mut leading_space = false;
    let mut depth: u128 = 0;
    let mut i: usize = 0;
    assert(all.skip(0) == all);
    assert(order::models(done@) == Seq::<LogicalLineModel>::empty());
    assert(buf@ == Seq::<char>::empty());
    while i < lines.len()
        invariant
            i <= lines@.len(),
            all == text::views(lines@),
            depth <= i * usize::MAX,
            all == text::lines_of(input@),
            read_lines(first_scan(), all, 1) == read_lines(
                LineScan {
                    done: order::models(done@),
                    open: buf@,
                    start: start_line as int,
                    leading_space,
                    depth: depth as int,
                },
                all.skip(i as int),
                i + 1,
            ),
        decreases lines@.len() - i,
    {
        let line_no: usize = i + 1;
        let line = strip_comment(&lines[i]);
        proof {
            assert(all.skip(i as int)[0] == lines@[i as int]@);
            assert(all.skip(i as int).drop_first() == all.skip(i + 1));
            assert((i + 1) * usize::MAX == i * usize::MAX + usize::MAX) by (nonlinear_arith);
            assert((i + 1) * usize::MAX <= u128::MAX) by (nonlinear_arith)
                requires
                    i < usize::MAX,
            ;
        }
        i += 1;
        if text::trim(&line).as_str().is_empty() {
            continue;
        }
        if buf.as_str().is_empty() {
            start_line = line_no;
            let v = text::to_chars(&line);
            leading_space = v.len() > 0 && text::is_whitespace(v[0]);
            buf = text::trim(&blank_parens(&line));
        } else {
            buf.push_str(" ");
            buf.push_str(&text::trim(&blank_parens(&line)));
        }
        let delta: i128 = paren_delta(&line);
        if delta >= 0 {
            depth = depth + delta as u128;
        } else {
            let closed: u128 = (-delta) as u128;
            if closed > depth {
                return Err(line_message(line_no, "unmatched ')'"));
            }
            depth = depth - closed;
        }
        if depth == 0 {
            let ghost before = order::models(done@);
            let l = LogicalLine { text: text::trim(&buf), leading_space, line_no: start_line };
            done.push(l);
            assert(order::models(done@) == before.push(l@));
            buf = String::new();
            assert(buf@ == Seq::<char>::empty());
        }
    }
    if !buf.as_str().is_empty() {
        return Err(line_message(start_line, "unterminated parenthesized record"));
    }
    Ok(done)
}

} // verus!
